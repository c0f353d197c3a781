//! Text helpers shared by the other modules.
//!
//! Contracts speak of text through its view, a sequence of characters.

use vstd::prelude::*;
use vstd::utf8;

verus! {

/// What `char::is_alphanumeric` answers for a character outside ASCII.
pub uninterp spec fn unicode_alphanumeric(c: char) -> bool;

/// White space: the characters with the Unicode property `White_Space`.
pub open spec fn white_space(c: char) -> bool {
    ||| '\u{9}' <= c <= '\u{d}'
    ||| c == ' '
    ||| c == '\u{85}'
    ||| c == '\u{a0}'
    ||| c == '\u{1680}'
    ||| '\u{2000}' <= c <= '\u{200a}'
    ||| c == '\u{2028}'
    ||| c == '\u{2029}'
    ||| c == '\u{202f}'
    ||| c == '\u{205f}'
    ||| c == '\u{3000}'
}

/// Calls std's `char::is_whitespace`, which answers whether `c` has the
/// Unicode property `White_Space`: [`white_space`] lists the characters that
/// have it.
#[verifier::external_body]
fn std_is_whitespace(c: char) -> (answer: bool)
    ensures
        answer == white_space(c),
{
    c.is_whitespace()
}

/// Calls std's `char::is_alphanumeric`, which looks `c` up in the Unicode
/// tables of letters and numbers. The answer depends on `c` alone, and none of
/// these characters is white space: the latter are separators and control
/// characters.
#[verifier::external_body]
fn std_is_alphanumeric(c: char) -> (answer: bool)
    ensures
        answer == unicode_alphanumeric(c),
        answer ==> !white_space(c),
{
    c.is_alphanumeric()
}

/// std's `String::push` appends the character to the end of the string.
pub assume_specification[ String::push ](string: &mut String, ch: char)
    ensures
        final(string)@ == old(string)@.push(ch),
;

/// A letter or a number: `0-9`, `A-Z` and `a-z` within ASCII, the Unicode
/// property outside it, which no white space has.
pub open spec fn alphanumeric(c: char) -> bool {
    if (c as u32) < 128 {
        ||| '0' <= c <= '9'
        ||| 'A' <= c <= 'Z'
        ||| 'a' <= c <= 'z'
    } else {
        unicode_alphanumeric(c) && !white_space(c)
    }
}

pub fn is_white_space(c: char) -> (answer: bool)
    ensures
        answer == white_space(c),
{
    std_is_whitespace(c)
}

pub fn is_alphanumeric(c: char) -> (answer: bool)
    ensures
        answer == alphanumeric(c),
{
    if (c as u32) < 128 {
        ('0' <= c && c <= '9') || ('A' <= c && c <= 'Z') || ('a' <= c && c <= 'z')
    } else {
        std_is_alphanumeric(c)
    }
}

/// White space and letters or numbers are different characters.
pub proof fn white_space_is_not_alphanumeric(c: char)
    ensures
        !(white_space(c) && alphanumeric(c)),
{
}

/// The characters of `text`, in order.
pub fn chars_of(text: &str) -> (chars: Vec<char>)
    ensures
        chars@ == text@,
{
    let mut chars: Vec<char> = Vec::new();
    for c in it: text.chars()
        invariant
            chars@ == it.seq().take(it.index()),
            it.seq() == text@,
    {
        chars.push(c);
    }
    chars
}

/// The text made of `chars`, in order.
pub fn text_of(chars: &Vec<char>) -> (text: String)
    ensures
        text@ == chars@,
{
    let mut text = String::new();
    for i in 0..chars.len()
        invariant
            text@ == chars@.take(i as int),
    {
        text.push(chars[i]);
    }
    text
}

/// Whether two texts have the same characters.
pub fn same_text(left: &str, right: &str) -> (answer: bool)
    ensures
        answer == (left@ == right@),
{
    let left = left.to_owned();
    let right = right.to_owned();
    left == right
}

/// Whether `text` begins with `prefix`.
pub fn starts_with(text: &str, prefix: &str) -> (answer: bool)
    ensures
        answer == prefix@.is_prefix_of(text@),
{
    let chars = chars_of(text);
    let wanted = chars_of(prefix);
    if chars.len() < wanted.len() {
        return false;
    }
    for i in 0..wanted.len()
        invariant
            chars@ == text@,
            wanted@ == prefix@,
            wanted.len() <= chars.len(),
            forall|j: int| 0 <= j < i ==> wanted@[j] == chars@[j],
    {
        if wanted[i] != chars[i] {
            assert(text@.subrange(0, prefix@.len() as int)[i as int] != prefix@[i as int]);
            return false;
        }
    }
    assert(text@.subrange(0, prefix@.len() as int) =~= prefix@);
    true
}

/// Nothing but white space.
pub open spec fn blank(text: Seq<char>) -> bool {
    forall|i: int| 0 <= i < text.len() ==> white_space(#[trigger] text[i])
}

pub fn is_blank(text: &str) -> (answer: bool)
    ensures
        answer == blank(text@),
{
    let chars = chars_of(text);
    for i in 0..chars.len()
        invariant
            forall|j: int| 0 <= j < i ==> white_space(#[trigger] chars@[j]),
            chars@ == text@,
    {
        if !is_white_space(chars[i]) {
            return false;
        }
    }
    true
}

/// `text` without the white space at its ends.
pub open spec fn trimmed(text: Seq<char>) -> Seq<char>
    decreases text.len(),
{
    if text.len() == 0 {
        text
    } else if white_space(text.last()) {
        trimmed(text.drop_last())
    } else if white_space(text.first()) {
        trimmed(text.drop_first())
    } else {
        text
    }
}

pub fn trim(chars: &Vec<char>) -> (kept: Vec<char>)
    ensures
        kept@ == trimmed(chars@),
{
    let mut end: usize = chars.len();
    assert(chars@.take(end as int) =~= chars@);
    while end > 0 && is_white_space(chars[end - 1])
        invariant
            end <= chars.len(),
            trimmed(chars@) == trimmed(chars@.take(end as int)),
        decreases end,
    {
        assert(chars@.take(end as int).drop_last() =~= chars@.take(end - 1));
        end = end - 1;
    }
    let mut start: usize = 0;
    while start < end && is_white_space(chars[start])
        invariant
            start <= end <= chars.len(),
            start < end ==> !white_space(chars@[end - 1]),
            trimmed(chars@) == trimmed(chars@.subrange(start as int, end as int)),
        decreases end - start,
    {
        assert(chars@.subrange(start as int, end as int).drop_first() =~= chars@.subrange(
            start + 1,
            end as int,
        ));
        start = start + 1;
    }
    let mut kept: Vec<char> = Vec::new();
    for i in start..end
        invariant
            start <= end <= chars.len(),
            kept@ == chars@.subrange(start as int, i as int),
    {
        kept.push(chars[i]);
    }
    kept
}

/// `parts` with `separator` between each two neighbours.
pub open spec fn joined(parts: Seq<Seq<char>>, separator: Seq<char>) -> Seq<char>
    decreases parts.len(),
{
    if parts.len() == 0 {
        Seq::empty()
    } else if parts.len() == 1 {
        parts[0]
    } else {
        joined(parts.drop_last(), separator) + separator + parts.last()
    }
}

/// The views of the strings of a list.
pub open spec fn views(parts: Seq<String>) -> Seq<Seq<char>> {
    parts.map_values(|part: String| part@)
}

/// The view of an optional string.
pub open spec fn view_of(text: Option<String>) -> Option<Seq<char>> {
    match text {
        Some(text) => Some(text@),
        None => None,
    }
}

pub fn join(parts: &Vec<String>, separator: &str) -> (text: String)
    ensures
        text@ == joined(views(parts@), separator@),
{
    let mut text = String::new();
    for i in 0..parts.len()
        invariant
            text@ == joined(views(parts@).take(i as int), separator@),
    {
        assert(views(parts@).take(i + 1).drop_last() =~= views(parts@).take(i as int));
        if i > 0 {
            text.append(separator);
        }
        text.append(parts[i].as_str());
    }
    assert(views(parts@).take(parts@.len() as int) =~= views(parts@));
    text
}

/// The character of a decimal digit.
pub open spec fn digit(d: nat) -> char {
    (48 + d) as char
}

/// `n` in decimal, without leading zeros.
pub open spec fn decimal(n: nat) -> Seq<char>
    decreases n,
{
    if n < 10 {
        seq![digit(n)]
    } else {
        decimal(n / 10).push(digit(n % 10))
    }
}

pub fn to_decimal(n: usize) -> (text: String)
    ensures
        text@ == decimal(n as nat),
    decreases n,
{
    let mut text = if n < 10 {
        String::new()
    } else {
        to_decimal(n / 10)
    };
    text.push((48 + (n % 10) as u8) as char);
    text
}

/// `text` cut to at most `max` characters; an ellipsis marks the cut.
pub open spec fn truncated(text: Seq<char>, max: nat) -> Seq<char> {
    if text.len() <= max {
        text
    } else {
        text.take(max as int).push('…')
    }
}

/// Cut `text` to at most `max_chars` characters, marking a cut by an ellipsis.
pub fn truncate_chars(text: &str, max_chars: usize) -> (short: String)
    ensures
        short@ == truncated(text@, max_chars as nat),
{
    let chars = chars_of(text);
    if chars.len() <= max_chars {
        return text.to_owned();
    }
    let mut short = String::new();
    for i in 0..max_chars
        invariant
            max_chars < chars.len(),
            short@ == chars@.take(i as int),
    {
        short.push(chars[i]);
    }
    short.push('…');
    short
}

/// A truncated text has at most one character more than was asked for, and
/// agrees with the text up to there.
pub proof fn truncation_is_bounded(text: Seq<char>, max: nat)
    ensures
        truncated(text, max).len() <= max + 1,
        text.len() <= max ==> truncated(text, max) == text,
        text.len() > max ==> truncated(text, max).drop_last() == text.take(max as int),
        text.len() > max ==> truncated(text, max).last() == '…',
{
    if text.len() > max {
        assert(truncated(text, max).drop_last() =~= text.take(max as int));
    }
}

/// The number of bytes of `text` in UTF-8.
pub open spec fn byte_len(text: Seq<char>) -> nat {
    utf8::encode_utf8(text).len()
}

/// The longest prefix of `text` whose UTF-8 form has at most `max` bytes.
pub open spec fn byte_prefix(text: Seq<char>, max: nat) -> Seq<char>
    decreases text.len(),
{
    if text.len() == 0 || byte_len(text) <= max {
        text
    } else {
        byte_prefix(text.drop_last(), max)
    }
}

pub proof fn lemma_byte_len_push(text: Seq<char>, c: char)
    ensures
        byte_len(text.push(c)) == byte_len(text) + utf8::encode_scalar(c as u32).len(),
    decreases text.len(),
{
    if text.len() == 0 {
        assert(text.push(c).drop_first() =~= Seq::<char>::empty());
        assert(utf8::encode_utf8(Seq::<char>::empty()) =~= Seq::<u8>::empty());
    } else {
        assert(text.push(c).drop_first() =~= text.drop_first().push(c));
        lemma_byte_len_push(text.drop_first(), c);
    }
}

/// A prefix that fits, and that the next character would overrun, is the
/// longest one that fits.
proof fn lemma_byte_prefix(text: Seq<char>, kept: int, max: nat)
    requires
        0 <= kept <= text.len(),
        byte_len(text.take(kept)) <= max,
        kept < text.len() ==> byte_len(text.take(kept + 1)) > max,
    ensures
        byte_prefix(text, max) == text.take(kept),
    decreases text.len(),
{
    if kept == text.len() {
        assert(text.take(kept) =~= text);
    } else {
        lemma_byte_len_grows(text, kept + 1);
        let shorter = text.drop_last();
        assert(shorter.take(kept) =~= text.take(kept));
        if kept < shorter.len() {
            assert(shorter.take(kept + 1) =~= text.take(kept + 1));
        }
        lemma_byte_prefix(shorter, kept, max);
    }
}

proof fn lemma_byte_len_grows(text: Seq<char>, kept: int)
    requires
        0 <= kept <= text.len(),
    ensures
        byte_len(text.take(kept)) <= byte_len(text),
    decreases text.len(),
{
    if kept == text.len() {
        assert(text.take(kept) =~= text);
    } else {
        let shorter = text.drop_last();
        assert(shorter.take(kept) =~= text.take(kept));
        assert(shorter.push(text.last()) =~= text);
        lemma_byte_len_grows(shorter, kept);
        lemma_byte_len_push(shorter, text.last());
    }
}

/// What a cut keeps is a prefix that fits, and every longer prefix does not.
pub proof fn byte_prefix_is_longest(text: Seq<char>, max: nat, longer: int)
    ensures
        byte_prefix(text, max).is_prefix_of(text),
        byte_len(byte_prefix(text, max)) <= max,
        byte_prefix(text, max).len() < longer <= text.len() ==> byte_len(text.take(longer)) > max,
    decreases text.len(),
{
    if text.len() == 0 {
        assert(utf8::encode_utf8(text) =~= Seq::<u8>::empty());
    } else if byte_len(text) > max {
        let shorter = text.drop_last();
        byte_prefix_is_longest(shorter, max, longer);
        assert(text.subrange(0, byte_prefix(text, max).len() as int) =~= shorter.subrange(
            0,
            byte_prefix(text, max).len() as int,
        ));
        if 0 <= longer < text.len() {
            assert(shorter.take(longer) =~= text.take(longer));
        } else {
            assert(text.take(text.len() as int) =~= text);
        }
    }
}

/// The number of bytes of `c` in UTF-8.
fn char_bytes(c: char) -> (bytes: usize)
    ensures
        bytes == utf8::encode_scalar(c as u32).len(),
        1 <= bytes <= 4,
{
    let scalar: u32 = c as u32;
    if scalar <= 0x7F {
        1
    } else if scalar <= 0x7FF {
        2
    } else if scalar <= 0xFFFF {
        3
    } else {
        4
    }
}

/// Cut `text` to at most `max_bytes` bytes, between two characters.
pub fn cut_bytes(text: &str, max_bytes: usize) -> (short: String)
    ensures
        short@ == byte_prefix(text@, max_bytes as nat),
{
    let chars = chars_of(text);
    let mut short = String::new();
    let mut bytes: usize = 0;
    for i in 0..chars.len()
        invariant
            chars@ == text@,
            short@ == chars@.take(i as int),
            bytes == byte_len(chars@.take(i as int)),
            bytes <= max_bytes,
    {
        let width: usize = char_bytes(chars[i]);
        proof {
            lemma_byte_len_push(chars@.take(i as int), chars@[i as int]);
            assert(chars@.take(i as int).push(chars@[i as int]) =~= chars@.take(i + 1));
        }
        if width > max_bytes - bytes {
            proof {
                lemma_byte_prefix(text@, i as int, max_bytes as nat);
            }
            return short;
        }
        short.push(chars[i]);
        bytes = bytes + width;
    }
    proof {
        lemma_byte_prefix(text@, chars@.len() as int, max_bytes as nat);
    }
    short
}

} // verus!
