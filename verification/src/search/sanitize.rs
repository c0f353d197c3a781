//! Turning what a user typed into a safe full-text match expression.
//!
//! Every token becomes a quoted phrase, so nothing in it can act as an
//! operator of the match grammar.

use vstd::prelude::*;

use crate::text;

verus! {

/// How many characters of a raw query are looked at.
pub const MAX_QUERY_CHARS: usize = 1024;

/// The part of a raw query that is looked at.
pub open spec fn bounded(raw: Seq<char>) -> Seq<char> {
    if raw.len() <= MAX_QUERY_CHARS {
        raw
    } else {
        raw.take(MAX_QUERY_CHARS as int)
    }
}

/// Whether a double quote is open at the end of `input`: it holds an odd
/// number of them.
pub open spec fn quote_open(input: Seq<char>) -> bool
    decreases input.len(),
{
    if input.len() == 0 {
        false
    } else {
        (input.last() == '"') != quote_open(input.drop_last())
    }
}

/// Whether the last character of `input` ends a token: a double quote always
/// does, white space does outside quotes.
pub open spec fn ends_token(input: Seq<char>) -> bool {
    ||| input.last() == '"'
    ||| text::white_space(input.last()) && !quote_open(input.drop_last())
}

/// The characters of `input` since the last one that ended a token.
pub open spec fn unfinished(input: Seq<char>) -> Seq<char>
    decreases input.len(),
{
    if input.len() == 0 || ends_token(input) {
        Seq::empty()
    } else {
        unfinished(input.drop_last()).push(input.last())
    }
}

/// The characters that a term keeps.
pub open spec fn searchable(c: char) -> bool {
    ||| text::alphanumeric(c)
    ||| c == ' '
    ||| c == '.'
    ||| c == ':'
    ||| c == '@'
    ||| c == '/'
    ||| c == '\\'
    ||| c == '-'
    ||| c == '_'
    ||| c == '\''
}

/// White space as the space that stands for it in a term.
pub open spec fn spaced(c: char) -> char {
    if text::white_space(c) {
        ' '
    } else {
        c
    }
}

/// The searchable characters of a token, its words apart: white space of any
/// kind becomes a space.
pub open spec fn kept(token: Seq<char>) -> Seq<char> {
    token.map_values(|c: char| spaced(c)).filter(|c: char| searchable(c))
}

/// What a token contributes: its searchable characters, trimmed.
pub open spec fn term_of(token: Seq<char>) -> Seq<char> {
    text::trimmed(kept(token))
}

/// `terms` with what `token` contributes, which is nothing where no
/// searchable text remains of it.
pub open spec fn with_token(terms: Seq<Seq<char>>, token: Seq<char>) -> Seq<Seq<char>> {
    if term_of(token).len() == 0 {
        terms
    } else {
        terms.push(term_of(token))
    }
}

/// The terms of the tokens that `input` finishes, in order.
pub open spec fn finished_terms(input: Seq<char>) -> Seq<Seq<char>>
    decreases input.len(),
{
    if input.len() == 0 {
        Seq::empty()
    } else if ends_token(input) {
        with_token(finished_terms(input.drop_last()), unfinished(input.drop_last()))
    } else {
        finished_terms(input.drop_last())
    }
}

/// The search terms of a raw query, in order.
pub open spec fn fts_terms(raw: Seq<char>) -> Seq<Seq<char>> {
    with_token(finished_terms(bounded(raw)), unfinished(bounded(raw)))
}

/// A term between double quotes.
pub open spec fn quoted(term: Seq<char>) -> Seq<char> {
    seq!['"'] + term + seq!['"']
}

/// Each term as a quoted phrase.
pub open spec fn phrases_of(terms: Seq<Seq<char>>) -> Seq<Seq<char>> {
    terms.map_values(|term: Seq<char>| quoted(term))
}

/// The match expression of a list of terms: each as a quoted phrase.
pub open spec fn match_expression(terms: Seq<Seq<char>>) -> Seq<char> {
    text::joined(phrases_of(terms), seq![' '])
}

fn is_searchable(c: char) -> (answer: bool)
    ensures
        answer == searchable(c),
{
    text::is_alphanumeric(c) || c == ' ' || c == '.' || c == ':' || c == '@' || c == '/' || c
        == '\\' || c == '-' || c == '_' || c == '\''
}

/// What one more character of a token adds.
pub proof fn lemma_kept_push(token: Seq<char>, c: char)
    ensures
        kept(token.push(c)) == if searchable(spaced(c)) {
            kept(token).push(spaced(c))
        } else {
            kept(token)
        },
{
    reveal(Seq::filter);
    let longer = token.push(c).map_values(|c: char| spaced(c));
    assert(longer.drop_last() =~= token.map_values(|c: char| spaced(c)));
    assert(longer.last() == spaced(c));
}

/// Nothing is kept of nothing.
pub proof fn lemma_kept_empty()
    ensures
        kept(Seq::<char>::empty()) == Seq::<char>::empty(),
{
    reveal(Seq::filter);
    assert(kept(Seq::<char>::empty()) =~= Seq::<char>::empty());
}

/// Add the term of the finished token `token`, if any, as a quoted phrase.
fn push_term(phrases: &mut Vec<String>, token: &Vec<char>, Ghost(terms): Ghost<Seq<Seq<char>>>)
    requires
        text::views(old(phrases)@) == phrases_of(terms),
    ensures
        text::views(final(phrases)@) == phrases_of(with_token(terms, token@)),
{
    let mut cleaned: Vec<char> = Vec::new();
    proof {
        lemma_kept_empty();
        assert(token@.take(0) =~= Seq::<char>::empty());
    }
    for i in 0..token.len()
        invariant
            cleaned@ == kept(token@.take(i as int)),
    {
        proof {
            lemma_kept_push(token@.take(i as int), token@[i as int]);
            assert(token@.take(i as int).push(token@[i as int]) =~= token@.take(i + 1));
        }
        let c: char = if text::is_white_space(token[i]) {
            ' '
        } else {
            token[i]
        };
        if is_searchable(c) {
            cleaned.push(c);
        }
    }
    assert(token@.take(token@.len() as int) =~= token@);
    let term = text::trim(&cleaned);
    if term.len() > 0 {
        let mut phrase = String::new();
        phrase.push('"');
        phrase.append(text::text_of(&term).as_str());
        phrase.push('"');
        assert(phrase@ =~= quoted(term@));
        phrases.push(phrase);
        assert(text::views(phrases@) =~= text::views(old(phrases)@).push(quoted(term@)));
        assert(phrases_of(terms.push(term@)) =~= phrases_of(terms).push(quoted(term@)));
    }
}

/// Sanitize a user query into a match expression.
///
/// Each token becomes a quoted phrase; a phrase that the user quoted stays
/// one token, its words apart. `None` when nothing searchable remains.
pub fn sanitize_fts_query(raw: &str) -> (expression: Option<String>)
    ensures
        match expression {
            Some(found) => fts_terms(raw@).len() > 0 && found@ == match_expression(fts_terms(raw@)),
            None => fts_terms(raw@).len() == 0,
        },
{
    let chars = text::chars_of(raw);
    let end: usize = if chars.len() <= MAX_QUERY_CHARS {
        chars.len()
    } else {
        MAX_QUERY_CHARS
    };
    let mut phrases: Vec<String> = Vec::new();
    let mut current: Vec<char> = Vec::new();
    let mut in_quotes = false;
    assert(text::views(phrases@) =~= phrases_of(finished_terms(chars@.take(0))));
    for i in 0..end
        invariant
            end <= chars.len(),
            in_quotes == quote_open(chars@.take(i as int)),
            current@ == unfinished(chars@.take(i as int)),
            text::views(phrases@) == phrases_of(finished_terms(chars@.take(i as int))),
    {
        let c: char = chars[i];
        assert(chars@.take(i + 1).drop_last() =~= chars@.take(i as int));
        if c == '"' {
            push_term(&mut phrases, &current, Ghost(finished_terms(chars@.take(i as int))));
            current = Vec::new();
            in_quotes = !in_quotes;
        } else if text::is_white_space(c) && !in_quotes {
            push_term(&mut phrases, &current, Ghost(finished_terms(chars@.take(i as int))));
            current = Vec::new();
        } else {
            current.push(c);
        }
    }
    assert(chars@.take(end as int) =~= bounded(raw@));
    push_term(&mut phrases, &current, Ghost(finished_terms(bounded(raw@))));
    assert(text::views(phrases@).len() == fts_terms(raw@).len());
    if phrases.len() == 0 {
        None
    } else {
        proof {
            reveal_strlit(" ");
            assert(" "@ =~= seq![' ']);
        }
        Some(text::join(&phrases, " "))
    }
}

} // verus!
