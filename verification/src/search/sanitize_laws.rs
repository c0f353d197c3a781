//! What holds of every sanitized query.

use vstd::prelude::*;

use crate::search::sanitize;
use crate::text;
use crate::text_laws;

verus! {

/// The characters other than the space that a term keeps: letters, numbers and
/// the punctuation of names, paths and addresses.
pub open spec fn ordinary(c: char) -> bool {
    ||| text::alphanumeric(c)
    ||| c == '.'
    ||| c == ':'
    ||| c == '@'
    ||| c == '/'
    ||| c == '\\'
    ||| c == '-'
    ||| c == '_'
    ||| c == '\''
}

/// A term that cannot break out of its quotes and that sanitizing again
/// leaves as it is.
pub open spec fn clean_term(term: Seq<char>) -> bool {
    &&& term.len() > 0
    &&& forall|i: int| 0 <= i < term.len() ==> ordinary(#[trigger] term[i]) || term[i] == ' '
    &&& forall|i: int| 0 <= i < term.len() ==> #[trigger] term[i] != '"'
    &&& !text::white_space(term.first())
    &&& !text::white_space(term.last())
}

/// Every term of every query is clean: it is not empty, holds ordinary
/// characters and spaces only, no double quote among them, and has no white
/// space at its ends.
pub proof fn terms_are_clean(raw: Seq<char>)
    ensures
        forall|i: int|
            0 <= i < sanitize::fts_terms(raw).len() ==> clean_term(
                #[trigger] sanitize::fts_terms(raw)[i],
            ),
{
    let input = sanitize::bounded(raw);
    lemma_finished_terms_clean(input);
    lemma_term_of_clean(sanitize::unfinished(input));
}

/// The expression of a query is shorter than four characters for each
/// character of the query that is looked at, so it has a fixed upper bound
/// however long the query is.
pub proof fn expression_is_bounded(raw: Seq<char>)
    ensures
        sanitize::fts_terms(raw).len() > 0 ==> {
            &&& sanitize::match_expression(sanitize::fts_terms(raw)).len() < 4 * raw.len()
            &&& sanitize::match_expression(sanitize::fts_terms(raw)).len() < 4
                * sanitize::MAX_QUERY_CHARS
        },
{
    let input = sanitize::bounded(raw);
    lemma_weight_bound(input);
    lemma_weight_with_token(sanitize::finished_terms(input), sanitize::unfinished(input));
    lemma_expression_len(sanitize::fts_terms(raw));
}

/// A query has no terms exactly where the part of it that is looked at holds
/// no ordinary character.
pub proof fn no_terms_without_searchable_text(raw: Seq<char>)
    ensures
        sanitize::fts_terms(raw).len() == 0 <==> nothing_searchable(sanitize::bounded(raw)),
{
    let input = sanitize::bounded(raw);
    lemma_no_terms(input);
    lemma_no_term(sanitize::unfinished(input));
}

/// No ordinary character.
pub open spec fn nothing_searchable(input: Seq<char>) -> bool {
    forall|i: int| 0 <= i < input.len() ==> !ordinary(#[trigger] input[i])
}

/// Phrases that are already quoted come back as they are, in order: a list of
/// clean terms is recovered from its own match expression, as long as the
/// expression is within the length that is looked at.
pub proof fn quoted_phrases_are_preserved(terms: Seq<Seq<char>>)
    requires
        forall|i: int| 0 <= i < terms.len() ==> clean_term(#[trigger] terms[i]),
        sanitize::match_expression(terms).len() <= sanitize::MAX_QUERY_CHARS,
    ensures
        sanitize::fts_terms(sanitize::match_expression(terms)) == terms,
{
    lemma_scan_expression(terms);
    lemma_empty_token();
    assert(sanitize::unfinished(sanitize::match_expression(terms)) =~= Seq::<char>::empty());
}

/// `list` with `word` behind it, unless that is empty.
pub open spec fn with_word(list: Seq<Seq<char>>, word: Seq<char>) -> Seq<Seq<char>> {
    if word.len() == 0 {
        list
    } else {
        list.push(word)
    }
}

/// The characters of `input` behind its last white space.
pub open spec fn last_word(input: Seq<char>) -> Seq<char>
    decreases input.len(),
{
    if input.len() == 0 || text::white_space(input.last()) {
        Seq::empty()
    } else {
        last_word(input.drop_last()).push(input.last())
    }
}

/// The words of `input` that white space follows, in order.
pub open spec fn ended_words(input: Seq<char>) -> Seq<Seq<char>>
    decreases input.len(),
{
    if input.len() == 0 {
        Seq::empty()
    } else if text::white_space(input.last()) {
        with_word(ended_words(input.drop_last()), last_word(input.drop_last()))
    } else {
        ended_words(input.drop_last())
    }
}

/// The words of `input`, in order: its longest runs without white space.
pub open spec fn words(input: Seq<char>) -> Seq<Seq<char>> {
    with_word(ended_words(input), last_word(input))
}

/// The ordinary characters of a word.
pub open spec fn stripped(word: Seq<char>) -> Seq<char> {
    word.filter(|c: char| ordinary(c))
}

/// The ordinary characters of each of a list of words, in order, without the
/// words that have none.
pub open spec fn all_stripped(list: Seq<Seq<char>>) -> Seq<Seq<char>>
    decreases list.len(),
{
    if list.len() == 0 {
        Seq::empty()
    } else {
        with_word(all_stripped(list.drop_last()), stripped(list.last()))
    }
}

/// The words of a token survive in its term, in order and apart from each
/// other, each with its ordinary characters.
pub proof fn words_survive(token: Seq<char>)
    ensures
        words(sanitize::term_of(token)) == all_stripped(words(token)),
{
    lemma_words_kept(token);
    lemma_words_trimmed(sanitize::kept(token));
    lemma_all_stripped_with_word(ended_words(token), last_word(token));
}

proof fn lemma_all_stripped_with_word(list: Seq<Seq<char>>, word: Seq<char>)
    ensures
        all_stripped(with_word(list, word)) == with_word(all_stripped(list), stripped(word)),
{
    if word.len() == 0 {
        reveal(Seq::filter);
    } else {
        assert(list.push(word).drop_last() =~= list);
    }
}

proof fn lemma_words_kept(token: Seq<char>)
    ensures
        last_word(sanitize::kept(token)) == stripped(last_word(token)),
        ended_words(sanitize::kept(token)) == all_stripped(ended_words(token)),
    decreases token.len(),
{
    sanitize::lemma_kept_empty();
    if token.len() == 0 {
        assert(token =~= Seq::<char>::empty());
        assert(stripped(Seq::<char>::empty()) =~= Seq::<char>::empty()) by {
            reveal(Seq::filter);
        }
    } else {
        let rest = token.drop_last();
        let c = token.last();
        let before = sanitize::kept(rest);
        assert(rest.push(c) =~= token);
        lemma_words_kept(rest);
        sanitize::lemma_kept_push(rest, c);
        assert(before.push(sanitize::spaced(c)).drop_last() =~= before);
        if text::white_space(c) {
            lemma_all_stripped_with_word(ended_words(rest), last_word(rest));
            assert(stripped(Seq::<char>::empty()) =~= Seq::<char>::empty()) by {
                reveal(Seq::filter);
            }
        } else {
            assert(last_word(token).drop_last() =~= last_word(rest));
            assert(sanitize::searchable(c) == ordinary(c));
            assert(stripped(last_word(token)) == if ordinary(c) {
                stripped(last_word(rest)).push(c)
            } else {
                stripped(last_word(rest))
            }) by {
                reveal(Seq::filter);
            }
        }
    }
}

proof fn lemma_words_trimmed(input: Seq<char>)
    ensures
        words(text::trimmed(input)) == words(input),
    decreases input.len(),
{
    if input.len() > 0 {
        if text::white_space(input.last()) {
            lemma_words_trimmed(input.drop_last());
        } else if text::white_space(input.first()) {
            lemma_words_trimmed(input.drop_first());
            lemma_words_without_first(input);
        }
    }
}

proof fn lemma_words_without_first(input: Seq<char>)
    requires
        input.len() > 0,
        text::white_space(input.first()),
    ensures
        last_word(input.drop_first()) == last_word(input),
        ended_words(input.drop_first()) == ended_words(input),
    decreases input.len(),
{
    let rest = input.drop_first();
    if rest.len() == 0 {
        assert(input.drop_last().len() == 0);
        assert(last_word(input.drop_last()).len() == 0);
        assert(ended_words(input.drop_last()) =~= ended_words(rest));
    } else {
        lemma_words_without_first(input.drop_last());
        assert(input.drop_last().drop_first() =~= rest.drop_last());
        assert(rest.last() == input.last());
    }
}

/// A phrase that the user put between double quotes is searched for as one
/// phrase, whatever stands around it, if any of it is searchable and it is
/// within the length that is looked at. The words of the phrase survive in it,
/// in order and apart from each other.
pub proof fn quoted_phrase_is_one_term(before: Seq<char>, phrase: Seq<char>, after: Seq<char>)
    requires
        !sanitize::quote_open(before),
        forall|i: int| 0 <= i < phrase.len() ==> #[trigger] phrase[i] != '"',
        !nothing_searchable(phrase),
        before.len() + phrase.len() + 2 <= sanitize::MAX_QUERY_CHARS,
    ensures
        sanitize::fts_terms(before + sanitize::quoted(phrase) + after).contains(
            sanitize::term_of(phrase),
        ),
        words(sanitize::term_of(phrase)) == all_stripped(words(phrase)),
{
    let opened = before.push('"');
    let closed = (opened + phrase).push('"');
    lemma_no_term(phrase);
    words_survive(phrase);
    lemma_scan_push(before, '"');
    lemma_scan_quoted(opened, phrase);
    assert(Seq::<char>::empty() + phrase =~= phrase);
    lemma_scan_push(opened + phrase, '"');
    assert(before + sanitize::quoted(phrase) + after =~= closed + after);
    lemma_finished_term_is_found(closed, after, sanitize::term_of(phrase));
}

/// A word outside quotes is searched for as one phrase, whatever stands around
/// it, if any of it is searchable and it is within the length that is looked
/// at.
pub proof fn plain_word_is_one_term(before: Seq<char>, word: Seq<char>, after: Seq<char>)
    requires
        !sanitize::quote_open(before),
        before.len() == 0 || sanitize::ends_token(before),
        forall|i: int|
            0 <= i < word.len() ==> #[trigger] word[i] != '"' && !text::white_space(word[i]),
        !nothing_searchable(word),
        after.len() == 0 || after.first() == '"' || text::white_space(after.first()),
        before.len() + word.len() <= sanitize::MAX_QUERY_CHARS,
    ensures
        sanitize::fts_terms(before + word + after).contains(sanitize::term_of(word)),
{
    lemma_no_term(word);
    lemma_scan_word(before, word);
    assert(sanitize::unfinished(before) + word =~= word);
    let read = before + word;
    if after.len() == 0 || read.len() == sanitize::MAX_QUERY_CHARS {
        assert(sanitize::bounded(read + after) =~= read);
        let terms = sanitize::fts_terms(read + after);
        assert(terms[terms.len() - 1] == sanitize::term_of(word));
    } else {
        lemma_scan_push(read, after.first());
        assert(read + after =~= read.push(after.first()) + after.drop_first());
        lemma_finished_term_is_found(
            read.push(after.first()),
            after.drop_first(),
            sanitize::term_of(word),
        );
    }
}

/// Reading a word outside quotes.
proof fn lemma_scan_word(input: Seq<char>, word: Seq<char>)
    requires
        !sanitize::quote_open(input),
        forall|i: int|
            0 <= i < word.len() ==> #[trigger] word[i] != '"' && !text::white_space(word[i]),
    ensures
        !sanitize::quote_open(input + word),
        sanitize::unfinished(input + word) == sanitize::unfinished(input) + word,
    decreases word.len(),
{
    if word.len() == 0 {
        assert(input + word =~= input);
        assert(sanitize::unfinished(input) + word =~= sanitize::unfinished(input));
    } else {
        let shorter = word.drop_last();
        lemma_scan_word(input, shorter);
        lemma_scan_push(input + shorter, word.last());
        assert(word[word.len() - 1] == word.last());
        assert(input + word =~= (input + shorter).push(word.last()));
        assert(sanitize::unfinished(input) + word =~= (sanitize::unfinished(input) + shorter).push(
            word.last(),
        ));
    }
}

/// The terms that the beginning of an input finishes stay.
proof fn lemma_finished_terms_stay(input: Seq<char>, more: Seq<char>, at: int)
    requires
        0 <= at < sanitize::finished_terms(input).len(),
    ensures
        at < sanitize::finished_terms(input + more).len(),
        sanitize::finished_terms(input + more)[at] == sanitize::finished_terms(input)[at],
    decreases more.len(),
{
    if more.len() == 0 {
        assert(input + more =~= input);
    } else {
        lemma_finished_terms_stay(input, more.drop_last(), at);
        assert((input + more).drop_last() =~= input + more.drop_last());
    }
}

/// The last term that the beginning of a query finishes is among its terms.
proof fn lemma_finished_term_is_found(input: Seq<char>, more: Seq<char>, term: Seq<char>)
    requires
        input.len() <= sanitize::MAX_QUERY_CHARS,
        sanitize::finished_terms(input).len() > 0,
        sanitize::finished_terms(input).last() == term,
    ensures
        sanitize::fts_terms(input + more).contains(term),
{
    let read = sanitize::bounded(input + more);
    let rest = read.skip(input.len() as int);
    assert(read =~= input + rest);
    let at = sanitize::finished_terms(input).len() - 1;
    lemma_finished_terms_stay(input, rest, at);
    assert(sanitize::fts_terms(input + more)[at] == term);
}

/// Sanitizing a sanitized query changes nothing, as long as the expression is
/// within the length that is looked at.
pub proof fn sanitizing_twice_changes_nothing(raw: Seq<char>)
    requires
        sanitize::match_expression(sanitize::fts_terms(raw)).len() <= sanitize::MAX_QUERY_CHARS,
    ensures
        sanitize::fts_terms(sanitize::match_expression(sanitize::fts_terms(raw)))
            == sanitize::fts_terms(raw),
{
    terms_are_clean(raw);
    quoted_phrases_are_preserved(sanitize::fts_terms(raw));
}

proof fn lemma_blank_push(input: Seq<char>, c: char)
    ensures
        text::blank(input.push(c)) <==> text::blank(input) && text::white_space(c),
{
    let longer = input.push(c);
    if text::blank(longer) {
        assert forall|i: int| 0 <= i < input.len() implies text::white_space(
            #[trigger] input[i],
        ) by {
            assert(longer[i] == input[i]);
        }
        assert(longer[input.len() as int] == c);
    }
    if text::blank(input) && text::white_space(c) {
        assert forall|i: int| 0 <= i < longer.len() implies text::white_space(
            #[trigger] longer[i],
        ) by {
            if i < input.len() {
                assert(longer[i] == input[i]);
            }
        }
    }
}

proof fn lemma_nothing_searchable_push(input: Seq<char>, c: char)
    ensures
        nothing_searchable(input.push(c)) <==> nothing_searchable(input) && !ordinary(c),
{
    let longer = input.push(c);
    if nothing_searchable(longer) {
        assert forall|i: int| 0 <= i < input.len() implies !ordinary(#[trigger] input[i]) by {
            assert(longer[i] == input[i]);
        }
        assert(longer[input.len() as int] == c);
    }
    if nothing_searchable(input) && !ordinary(c) {
        assert forall|i: int| 0 <= i < longer.len() implies !ordinary(#[trigger] longer[i]) by {
            if i < input.len() {
                assert(longer[i] == input[i]);
            }
        }
    }
}

/// The only white space that is searchable is the space.
proof fn lemma_searchable_white_space(c: char)
    requires
        sanitize::searchable(c),
        text::white_space(c),
    ensures
        c == ' ',
{
    text::white_space_is_not_alphanumeric(c);
}

proof fn lemma_trimmed(input: Seq<char>)
    ensures
        text::trimmed(input).len() <= input.len(),
        text::trimmed(input).len() == 0 <==> text::blank(input),
        forall|i: int|
            0 <= i < text::trimmed(input).len() ==> input.contains(
                #[trigger] text::trimmed(input)[i],
            ),
        text::trimmed(input).len() > 0 ==> {
            &&& !text::white_space(text::trimmed(input).first())
            &&& !text::white_space(text::trimmed(input).last())
        },
    decreases input.len(),
{
    if input.len() > 0 {
        if text::white_space(input.last()) {
            let rest = input.drop_last();
            lemma_trimmed(rest);
            assert forall|i: int| 0 <= i < text::trimmed(input).len() implies input.contains(
                #[trigger] text::trimmed(input)[i],
            ) by {
                assert(rest.contains(text::trimmed(rest)[i]));
                let j = choose|j: int| 0 <= j < rest.len() && rest[j] == text::trimmed(rest)[i];
                assert(input[j] == text::trimmed(rest)[i]);
            }
            lemma_blank_push(rest, input.last());
            assert(rest.push(input.last()) =~= input);
        } else if text::white_space(input.first()) {
            let rest = input.drop_first();
            lemma_trimmed(rest);
            assert forall|i: int| 0 <= i < text::trimmed(input).len() implies input.contains(
                #[trigger] text::trimmed(input)[i],
            ) by {
                assert(rest.contains(text::trimmed(rest)[i]));
                let j = choose|j: int| 0 <= j < rest.len() && rest[j] == text::trimmed(rest)[i];
                assert(input[j + 1] == text::trimmed(rest)[i]);
            }
            assert(rest.last() == input.last());
            assert(!text::blank(rest));
        } else {
            assert(!text::blank(input));
        }
    }
}

proof fn lemma_filtered(token: Seq<char>)
    ensures
        sanitize::kept(token).len() <= token.len(),
        forall|i: int|
            0 <= i < sanitize::kept(token).len() ==> sanitize::searchable(
                #[trigger] sanitize::kept(token)[i],
            ),
        text::blank(sanitize::kept(token)) <==> nothing_searchable(token),
    decreases token.len(),
{
    sanitize::lemma_kept_empty();
    if token.len() == 0 {
        assert(token =~= Seq::<char>::empty());
    } else {
        let rest = token.drop_last();
        let c = token.last();
        lemma_filtered(rest);
        lemma_nothing_searchable_push(rest, c);
        assert(rest.push(c) =~= token);
        sanitize::lemma_kept_push(rest, c);
        lemma_blank_push(sanitize::kept(rest), sanitize::spaced(c));
        if sanitize::searchable(c) && text::white_space(c) {
            lemma_searchable_white_space(c);
        }
    }
}

proof fn lemma_term_of_clean(token: Seq<char>)
    ensures
        sanitize::term_of(token).len() <= token.len(),
        sanitize::term_of(token).len() > 0 ==> clean_term(sanitize::term_of(token)),
{
    let after = sanitize::kept(token);
    lemma_filtered(token);
    lemma_trimmed(after);
    assert(!sanitize::searchable('"'));
}

proof fn lemma_no_term(token: Seq<char>)
    ensures
        sanitize::term_of(token).len() == 0 <==> nothing_searchable(token),
{
    lemma_filtered(token);
    lemma_trimmed(sanitize::kept(token));
}

proof fn lemma_finished_terms_clean(input: Seq<char>)
    ensures
        forall|i: int|
            0 <= i < sanitize::finished_terms(input).len() ==> clean_term(
                #[trigger] sanitize::finished_terms(input)[i],
            ),
    decreases input.len(),
{
    if input.len() > 0 {
        let before = sanitize::finished_terms(input.drop_last());
        lemma_finished_terms_clean(input.drop_last());
        lemma_term_of_clean(sanitize::unfinished(input.drop_last()));
        assert forall|i: int| 0 <= i < sanitize::finished_terms(input).len() implies clean_term(
            #[trigger] sanitize::finished_terms(input)[i],
        ) by {
            if i < before.len() {
                assert(clean_term(before[i]));
                assert(sanitize::finished_terms(input)[i] == before[i]);
            }
        }
    }
}

/// The length of the phrases of `terms`, each with one separator.
spec fn weight(terms: Seq<Seq<char>>) -> nat
    decreases terms.len(),
{
    if terms.len() == 0 {
        0
    } else {
        weight(terms.drop_last()) + terms.last().len() + 3
    }
}

proof fn lemma_weight_with_token(terms: Seq<Seq<char>>, token: Seq<char>)
    ensures
        weight(sanitize::with_token(terms, token)) <= weight(terms) + if token.len() == 0 {
            0
        } else {
            token.len() + 3
        },
{
    lemma_term_of_clean(token);
    assert(terms.push(sanitize::term_of(token)).drop_last() =~= terms);
}

proof fn lemma_weight_bound(input: Seq<char>)
    ensures
        weight(sanitize::finished_terms(input)) + if sanitize::unfinished(input).len() == 0 {
            0
        } else {
            sanitize::unfinished(input).len() + 3
        } <= 4 * input.len(),
    decreases input.len(),
{
    if input.len() > 0 {
        let before = input.drop_last();
        lemma_weight_bound(before);
        lemma_weight_with_token(sanitize::finished_terms(before), sanitize::unfinished(before));
    }
}

proof fn lemma_expression_len(terms: Seq<Seq<char>>)
    ensures
        terms.len() > 0 ==> sanitize::match_expression(terms).len() + 1 == weight(terms),
    decreases terms.len(),
{
    if terms.len() > 0 {
        lemma_expression_len(terms.drop_last());
        assert(sanitize::phrases_of(terms).drop_last() =~= sanitize::phrases_of(terms.drop_last()));
        if terms.len() == 1 {
            assert(weight(terms.drop_last()) == 0);
        }
    }
}

proof fn lemma_no_terms(input: Seq<char>)
    ensures
        (sanitize::finished_terms(input).len() == 0 && nothing_searchable(
            sanitize::unfinished(input),
        )) <==> nothing_searchable(input),
    decreases input.len(),
{
    if input.len() > 0 {
        let before = input.drop_last();
        lemma_no_terms(before);
        lemma_no_term(sanitize::unfinished(before));
        lemma_nothing_searchable_push(before, input.last());
        assert(before.push(input.last()) =~= input);
        if !sanitize::ends_token(input) {
            lemma_nothing_searchable_push(sanitize::unfinished(before), input.last());
        } else {
            assert(!sanitize::searchable('"'));
            assert(nothing_searchable(Seq::<char>::empty()));
        }
    }
}

/// Reading one more character.
proof fn lemma_scan_push(input: Seq<char>, c: char)
    ensures
        sanitize::quote_open(input.push(c)) == ((c == '"') != sanitize::quote_open(input)),
        ({
            let ends = c == '"' || (text::white_space(c) && !sanitize::quote_open(input));
            &&& sanitize::unfinished(input.push(c)) == if ends {
                Seq::empty()
            } else {
                sanitize::unfinished(input).push(c)
            }
            &&& sanitize::finished_terms(input.push(c)) == if ends {
                sanitize::with_token(sanitize::finished_terms(input), sanitize::unfinished(input))
            } else {
                sanitize::finished_terms(input)
            }
        }),
{
    assert(input.push(c).drop_last() =~= input);
}

/// Reading characters other than the double quote between double quotes.
proof fn lemma_scan_quoted(input: Seq<char>, term: Seq<char>)
    requires
        sanitize::quote_open(input),
        forall|i: int| 0 <= i < term.len() ==> #[trigger] term[i] != '"',
    ensures
        sanitize::quote_open(input + term),
        sanitize::unfinished(input + term) == sanitize::unfinished(input) + term,
        sanitize::finished_terms(input + term) == sanitize::finished_terms(input),
    decreases term.len(),
{
    if term.len() == 0 {
        assert(input + term =~= input);
        assert(sanitize::unfinished(input) + term =~= sanitize::unfinished(input));
    } else {
        let shorter = term.drop_last();
        lemma_scan_quoted(input, shorter);
        lemma_scan_push(input + shorter, term.last());
        assert(input + term =~= (input + shorter).push(term.last()));
        assert(sanitize::unfinished(input) + term =~= (sanitize::unfinished(input) + shorter).push(
            term.last(),
        ));
    }
}

proof fn lemma_clean_term_is_its_own(term: Seq<char>)
    requires
        clean_term(term),
    ensures
        sanitize::term_of(term) == term,
{
    lemma_filter_all(term);
}

proof fn lemma_filter_all(token: Seq<char>)
    requires
        forall|i: int| 0 <= i < token.len() ==> sanitize::searchable(#[trigger] token[i]),
    ensures
        sanitize::kept(token) == token,
    decreases token.len(),
{
    if token.len() > 0 {
        let rest = token.drop_last();
        let c = token[token.len() - 1];
        assert forall|i: int| 0 <= i < rest.len() implies sanitize::searchable(
            #[trigger] rest[i],
        ) by {
            assert(rest[i] == token[i]);
        }
        lemma_filter_all(rest);
        assert(rest.push(c) =~= token);
        sanitize::lemma_kept_push(rest, c);
        if text::white_space(c) {
            lemma_searchable_white_space(c);
        }
    } else {
        sanitize::lemma_kept_empty();
        assert(token =~= Seq::<char>::empty());
    }
}

/// Nothing comes of an empty token.
proof fn lemma_empty_token()
    ensures
        sanitize::term_of(Seq::<char>::empty()).len() == 0,
{
    sanitize::lemma_kept_empty();
}

/// Reading the quoted phrase of a clean term.
proof fn lemma_scan_phrase(input: Seq<char>, term: Seq<char>)
    requires
        !sanitize::quote_open(input),
        sanitize::unfinished(input).len() == 0,
        clean_term(term),
    ensures
        !sanitize::quote_open(input + sanitize::quoted(term)),
        sanitize::unfinished(input + sanitize::quoted(term)).len() == 0,
        sanitize::finished_terms(input + sanitize::quoted(term)) == sanitize::finished_terms(
            input,
        ).push(term),
{
    let opened = input.push('"');
    assert(sanitize::unfinished(input) =~= Seq::<char>::empty());
    lemma_empty_token();
    lemma_scan_push(input, '"');
    lemma_scan_quoted(opened, term);
    assert(Seq::<char>::empty() + term =~= term);
    lemma_scan_push(opened + term, '"');
    lemma_clean_term_is_its_own(term);
    assert(input + sanitize::quoted(term) =~= (opened + term).push('"'));
}

/// The match expression of one term more.
proof fn lemma_expression_push(terms: Seq<Seq<char>>, term: Seq<char>)
    ensures
        sanitize::match_expression(terms.push(term)) == if terms.len() == 0 {
            sanitize::quoted(term)
        } else {
            sanitize::match_expression(terms).push(' ') + sanitize::quoted(term)
        },
{
    let longer = terms.push(term);
    assert(sanitize::phrases_of(longer).drop_last() =~= sanitize::phrases_of(terms));
    assert(sanitize::phrases_of(longer).last() == sanitize::quoted(term));
    assert(sanitize::match_expression(terms) + seq![' '] =~= sanitize::match_expression(
        terms,
    ).push(' '));
}

/// Reading a match expression gives its terms back.
proof fn lemma_scan_expression(terms: Seq<Seq<char>>)
    requires
        forall|i: int| 0 <= i < terms.len() ==> clean_term(#[trigger] terms[i]),
    ensures
        !sanitize::quote_open(sanitize::match_expression(terms)),
        sanitize::unfinished(sanitize::match_expression(terms)).len() == 0,
        sanitize::finished_terms(sanitize::match_expression(terms)) == terms,
    decreases terms.len(),
{
    if terms.len() == 0 {
        assert(sanitize::finished_terms(Seq::<char>::empty()) =~= terms);
    } else {
        let before = terms.drop_last();
        let term = terms[terms.len() - 1];
        let start = sanitize::match_expression(before);
        assert(before.push(term) =~= terms);
        lemma_scan_expression(before);
        lemma_expression_push(before, term);
        if before.len() == 0 {
            lemma_scan_phrase(start, term);
            assert(start + sanitize::quoted(term) =~= sanitize::quoted(term));
        } else {
            assert(sanitize::unfinished(start) =~= Seq::<char>::empty());
            lemma_empty_token();
            lemma_scan_push(start, ' ');
            lemma_scan_phrase(start.push(' '), term);
        }
    }
}

/// The number of double quotes of a text.
pub open spec fn quotes(input: Seq<char>) -> int
    decreases input.len(),
{
    if input.len() == 0 {
        0
    } else {
        quotes(input.drop_last()) + if input.last() == '"' {
            1int
        } else {
            0
        }
    }
}

proof fn lemma_quotes_open(input: Seq<char>)
    ensures
        sanitize::quote_open(input) <==> quotes(input) % 2 == 1,
        quotes(input) >= 0,
    decreases input.len(),
{
    if input.len() > 0 {
        lemma_quotes_open(input.drop_last());
    }
}

/// Only the beginning of a query is looked at.
pub proof fn long_queries_are_cut(raw: Seq<char>)
    requires
        raw.len() > 1024,
    ensures
        sanitize::fts_terms(raw) == sanitize::fts_terms(raw.take(1024)),
{
    assert(sanitize::bounded(raw.take(1024)) =~= sanitize::bounded(raw));
}

/// A word of letters, numbers and the punctuation of names is a term as it is,
/// whatever stands around it, outside quotes and within the length that is
/// looked at.
pub proof fn ordinary_words_are_terms(before: Seq<char>, word: Seq<char>, after: Seq<char>)
    requires
        quotes(before) % 2 == 0,
        before.len() == 0 || before.last() == '"' || text::white_space(before.last()),
        word.len() > 0,
        forall|i: int|
            0 <= i < word.len() ==> {
                ||| text::alphanumeric(#[trigger] word[i])
                ||| word[i] == '.'
                ||| word[i] == ':'
                ||| word[i] == '@'
                ||| word[i] == '/'
                ||| word[i] == '\\'
                ||| word[i] == '-'
                ||| word[i] == '_'
                ||| word[i] == '\''
            },
        after.len() == 0 || after.first() == '"' || text::white_space(after.first()),
        before.len() + word.len() <= 1024,
    ensures
        sanitize::fts_terms(before + word + after).contains(word),
{
    lemma_quotes_open(before);
    assert forall|i: int| 0 <= i < word.len() implies ordinary(#[trigger] word[i]) && word[i] != '"'
        && !text::white_space(word[i]) by {
        text::white_space_is_not_alphanumeric(word[i]);
    }
    assert(ordinary(word[0]));
    assert(clean_term(word));
    lemma_clean_term_is_its_own(word);
    plain_word_is_one_term(before, word, after);
}

/// The term of a word is what is ordinary of it.
proof fn lemma_term_of_word(word: Seq<char>)
    requires
        forall|i: int| 0 <= i < word.len() ==> !text::white_space(#[trigger] word[i]),
    ensures
        sanitize::term_of(word) == stripped(word),
{
    lemma_kept_of_word(word);
    let kept = sanitize::kept(word);
    assert forall|i: int| 0 <= i < kept.len() implies !text::white_space(#[trigger] kept[i]) by {
        word.lemma_filter_contains_rev(|c: char| ordinary(c), kept[i]);
    }
    if kept.len() > 0 {
        assert(kept[0] == kept.first() && kept[kept.len() - 1] == kept.last());
    }
}

proof fn lemma_kept_of_word(word: Seq<char>)
    requires
        forall|i: int| 0 <= i < word.len() ==> !text::white_space(#[trigger] word[i]),
    ensures
        sanitize::kept(word) == stripped(word),
    decreases word.len(),
{
    if word.len() == 0 {
        sanitize::lemma_kept_empty();
        assert(word =~= Seq::<char>::empty());
        assert(stripped(word) =~= Seq::<char>::empty()) by {
            reveal(Seq::filter);
        }
    } else {
        let rest = word.drop_last();
        let c = word[word.len() - 1];
        assert forall|i: int| 0 <= i < rest.len() implies !text::white_space(
            #[trigger] rest[i],
        ) by {
            assert(rest[i] == word[i]);
        }
        lemma_kept_of_word(rest);
        assert(rest.push(c) =~= word);
        sanitize::lemma_kept_push(rest, c);
        assert(sanitize::searchable(c) == ordinary(c));
        reveal(Seq::filter);
    }
}

proof fn lemma_last_word_is_a_word(input: Seq<char>)
    ensures
        forall|i: int|
            0 <= i < last_word(input).len() ==> !text::white_space(#[trigger] last_word(input)[i]),
    decreases input.len(),
{
    if input.len() > 0 {
        let before = last_word(input.drop_last());
        lemma_last_word_is_a_word(input.drop_last());
        assert forall|i: int| 0 <= i < last_word(input).len() implies !text::white_space(
            #[trigger] last_word(input)[i],
        ) by {
            if i < before.len() {
                assert(last_word(input)[i] == before[i]);
            }
        }
    }
}

/// A query without quotes is searched for by its words: each of them is a term,
/// in order, with its ordinary characters.
pub proof fn plain_queries_give_their_words(raw: Seq<char>)
    requires
        forall|i: int| 0 <= i < raw.len() ==> #[trigger] raw[i] != '"',
        raw.len() <= 1024,
    ensures
        sanitize::fts_terms(raw) == all_stripped(words(raw)),
{
    lemma_scan_plain(raw);
    lemma_last_word_is_a_word(raw);
    lemma_term_of_word(last_word(raw));
    lemma_all_stripped_with_word(ended_words(raw), last_word(raw));
}

proof fn lemma_scan_plain(input: Seq<char>)
    requires
        forall|i: int| 0 <= i < input.len() ==> #[trigger] input[i] != '"',
    ensures
        !sanitize::quote_open(input),
        sanitize::unfinished(input) == last_word(input),
        sanitize::finished_terms(input) == all_stripped(ended_words(input)),
    decreases input.len(),
{
    if input.len() > 0 {
        let rest = input.drop_last();
        assert forall|i: int| 0 <= i < rest.len() implies #[trigger] rest[i] != '"' by {
            assert(rest[i] == input[i]);
        }
        assert(input[input.len() - 1] == input.last());
        lemma_scan_plain(rest);
        lemma_last_word_is_a_word(rest);
        lemma_term_of_word(last_word(rest));
        lemma_all_stripped_with_word(ended_words(rest), last_word(rest));
    }
}

/// Where no quote is open and no token begun, reading goes on as from the
/// start.
proof fn lemma_scan_afresh(input: Seq<char>, more: Seq<char>)
    requires
        !sanitize::quote_open(input),
        sanitize::unfinished(input).len() == 0,
    ensures
        sanitize::quote_open(input + more) == sanitize::quote_open(more),
        sanitize::unfinished(input + more) == sanitize::unfinished(more),
        sanitize::finished_terms(input + more) == sanitize::finished_terms(input)
            + sanitize::finished_terms(more),
    decreases more.len(),
{
    if more.len() == 0 {
        assert(input + more =~= input);
        assert(sanitize::unfinished(input) =~= sanitize::unfinished(more));
        assert(sanitize::finished_terms(input) + sanitize::finished_terms(more)
            =~= sanitize::finished_terms(input));
    } else {
        let rest = more.drop_last();
        lemma_scan_afresh(input, rest);
        lemma_scan_push(input + rest, more.last());
        lemma_scan_push(rest, more.last());
        assert(input + more =~= (input + rest).push(more.last()));
        assert(rest.push(more.last()) =~= more);
        assert(sanitize::finished_terms(input + more) =~= sanitize::finished_terms(input)
            + sanitize::finished_terms(more));
    }
}

/// A quoted phrase is searched for on its own, between what stands before it
/// and what stands behind it: the terms of a query are those of the part
/// before, the one of the phrase, and those of the part behind.
pub proof fn quoted_phrases_stand_alone(before: Seq<char>, phrase: Seq<char>, after: Seq<char>)
    requires
        quotes(before) % 2 == 0,
        forall|i: int| 0 <= i < phrase.len() ==> #[trigger] phrase[i] != '"',
        before.len() + phrase.len() + 2 + after.len() <= 1024,
    ensures
        sanitize::fts_terms(before + seq!['"'] + phrase + seq!['"'] + after)
            == sanitize::fts_terms(before) + with_word(
            Seq::empty(),
            sanitize::term_of(phrase),
        ) + sanitize::fts_terms(after),
{
    let opened = before.push('"');
    let closed = (opened + phrase).push('"');
    lemma_quotes_open(before);
    lemma_scan_push(before, '"');
    lemma_scan_quoted(opened, phrase);
    assert(Seq::<char>::empty() + phrase =~= phrase);
    lemma_scan_push(opened + phrase, '"');
    lemma_scan_afresh(closed, after);
    assert(before + seq!['"'] + phrase + seq!['"'] + after =~= closed + after);
    assert(sanitize::fts_terms(closed + after) =~= sanitize::fts_terms(before) + with_word(
        Seq::empty(),
        sanitize::term_of(phrase),
    ) + sanitize::fts_terms(after));
}

/// A quote that is never closed reaches to the end of the query.
pub proof fn open_quotes_reach_to_the_end(before: Seq<char>, phrase: Seq<char>)
    requires
        quotes(before) % 2 == 0,
        forall|i: int| 0 <= i < phrase.len() ==> #[trigger] phrase[i] != '"',
        before.len() + phrase.len() + 1 <= 1024,
    ensures
        sanitize::fts_terms(before + seq!['"'] + phrase) == sanitize::fts_terms(before) + with_word(
            Seq::empty(),
            sanitize::term_of(phrase),
        ),
{
    let opened = before.push('"');
    lemma_quotes_open(before);
    lemma_scan_push(before, '"');
    lemma_scan_quoted(opened, phrase);
    assert(Seq::<char>::empty() + phrase =~= phrase);
    assert(before + seq!['"'] + phrase =~= opened + phrase);
    assert(sanitize::fts_terms(opened + phrase) =~= sanitize::fts_terms(before) + with_word(
        Seq::empty(),
        sanitize::term_of(phrase),
    ));
}

/// A phrase of ordinary characters and white space keeps every character; its
/// white space becomes spaces.
pub proof fn ordinary_phrases_are_kept(phrase: Seq<char>, i: int)
    requires
        forall|k: int|
            0 <= k < phrase.len() ==> ordinary(#[trigger] phrase[k]) || text::white_space(phrase[k]),
        phrase.len() > 0,
        !text::white_space(phrase.first()),
        !text::white_space(phrase.last()),
        0 <= i < phrase.len(),
    ensures
        sanitize::term_of(phrase).len() == phrase.len(),
        sanitize::term_of(phrase)[i] == if text::white_space(phrase[i]) {
            ' '
        } else {
            phrase[i]
        },
{
    lemma_kept_of_phrase(phrase);
}

proof fn lemma_kept_of_phrase(phrase: Seq<char>)
    requires
        forall|k: int|
            0 <= k < phrase.len() ==> ordinary(#[trigger] phrase[k]) || text::white_space(phrase[k]),
    ensures
        sanitize::kept(phrase) == phrase.map_values(|c: char| sanitize::spaced(c)),
    decreases phrase.len(),
{
    if phrase.len() == 0 {
        sanitize::lemma_kept_empty();
        assert(phrase =~= Seq::<char>::empty());
        assert(sanitize::kept(phrase) =~= phrase.map_values(|c: char| sanitize::spaced(c)));
    } else {
        let rest = phrase.drop_last();
        let c = phrase[phrase.len() - 1];
        assert forall|k: int| 0 <= k < rest.len() implies ordinary(#[trigger] rest[k])
            || text::white_space(rest[k]) by {
            assert(rest[k] == phrase[k]);
        }
        lemma_kept_of_phrase(rest);
        assert(rest.push(c) =~= phrase);
        sanitize::lemma_kept_push(rest, c);
        assert(sanitize::kept(phrase) =~= phrase.map_values(|c: char| sanitize::spaced(c)));
    }
}

/// An expression is made of its terms, each between double quotes, with a space
/// between neighbours.
pub proof fn expression_quotes_each_term(
    left: Seq<Seq<char>>,
    right: Seq<Seq<char>>,
    term: Seq<char>,
)
    ensures
        sanitize::match_expression(seq![term]) == seq!['"'] + term + seq!['"'],
        left.len() > 0 && right.len() > 0 ==> sanitize::match_expression(left + right)
            == sanitize::match_expression(left) + seq![' '] + sanitize::match_expression(right),
{
    let phrase = sanitize::quoted(term);
    assert(sanitize::phrases_of(seq![term]) =~= seq![phrase]);
    text_laws::joining_two_lists(
        sanitize::phrases_of(left),
        sanitize::phrases_of(right),
        phrase,
        seq![' '],
    );
    assert(sanitize::phrases_of(left + right) =~= sanitize::phrases_of(left)
        + sanitize::phrases_of(right));
}

} // verus!
