//! What holds of every text.

use vstd::prelude::*;
use vstd::utf8;

use crate::text;

verus! {

/// Nothing but white space: each character is white space.
pub proof fn blank_is_all_white_space(left: Seq<char>, right: Seq<char>, c: char)
    ensures
        text::blank(Seq::empty()),
        text::blank(seq![c]) <==> text::white_space(c),
        text::blank(left + right) <==> text::blank(left) && text::blank(right),
{
    if text::blank(seq![c]) {
        assert(text::white_space(seq![c][0]));
    }
    let both = left + right;
    if text::blank(both) {
        assert forall|i: int| 0 <= i < left.len() implies text::white_space(#[trigger] left[i]) by {
            assert(both[i] == left[i]);
        }
        assert forall|i: int| 0 <= i < right.len() implies text::white_space(
            #[trigger] right[i],
        ) by {
            assert(both[left.len() + i] == right[i]);
        }
    }
}

/// Trimming takes white space from both ends and nothing else: what is left is
/// a part of the text, all that was taken is white space, and neither end of
/// what is left is.
pub proof fn trimming_takes_only_the_ends(input: Seq<char>)
    ensures
        exists|from: int, to: int|
            {
                &&& 0 <= from <= to <= input.len()
                &&& #[trigger] input.subrange(from, to) == text::trimmed(input)
                &&& forall|i: int|
                    (0 <= i < from || to <= i < input.len()) ==> text::white_space(
                        #[trigger] input[i],
                    )
            },
        text::trimmed(input).len() > 0 ==> {
            &&& !text::white_space(text::trimmed(input).first())
            &&& !text::white_space(text::trimmed(input).last())
        },
    decreases input.len(),
{
    if input.len() == 0 {
        assert(input.subrange(0, 0) =~= input);
    } else if text::white_space(input.last()) {
        let rest = input.drop_last();
        trimming_takes_only_the_ends(rest);
        let (from, to) = choose|from: int, to: int|
            {
                &&& 0 <= from <= to <= rest.len()
                &&& #[trigger] rest.subrange(from, to) == text::trimmed(rest)
                &&& forall|i: int|
                    (0 <= i < from || to <= i < rest.len()) ==> text::white_space(
                        #[trigger] rest[i],
                    )
            };
        assert(input.subrange(from, to) =~= rest.subrange(from, to));
        assert forall|i: int| (0 <= i < from || to <= i < input.len()) implies text::white_space(
            #[trigger] input[i],
        ) by {
            if i < rest.len() {
                assert(rest[i] == input[i]);
            }
        }
    } else if text::white_space(input.first()) {
        let rest = input.drop_first();
        trimming_takes_only_the_ends(rest);
        let (from, to) = choose|from: int, to: int|
            {
                &&& 0 <= from <= to <= rest.len()
                &&& #[trigger] rest.subrange(from, to) == text::trimmed(rest)
                &&& forall|i: int|
                    (0 <= i < from || to <= i < rest.len()) ==> text::white_space(
                        #[trigger] rest[i],
                    )
            };
        assert(input.subrange(from + 1, to + 1) =~= rest.subrange(from, to));
        assert forall|i: int|
            (0 <= i < from + 1 || to + 1 <= i < input.len()) implies text::white_space(
            #[trigger] input[i],
        ) by {
            if i > 0 {
                assert(rest[i - 1] == input[i]);
            }
        }
    } else {
        assert(input.subrange(0, input.len() as int) =~= input);
    }
}

/// Joining puts the separator between neighbours and nowhere else: one part is
/// joined as it is, and two lists are joined by joining each.
pub proof fn joining_two_lists(
    left: Seq<Seq<char>>,
    right: Seq<Seq<char>>,
    part: Seq<char>,
    separator: Seq<char>,
)
    ensures
        text::joined(Seq::empty(), separator) == Seq::<char>::empty(),
        text::joined(seq![part], separator) == part,
        left.len() > 0 && right.len() > 0 ==> text::joined(left + right, separator) == text::joined(
            left,
            separator,
        ) + separator + text::joined(right, separator),
    decreases right.len(),
{
    if left.len() > 0 && right.len() > 0 {
        let both = left + right;
        let rest = right.drop_last();
        assert(both.drop_last() =~= left + rest);
        if right.len() == 1 {
            assert(left + rest =~= left);
        } else {
            joining_two_lists(left, rest, part, separator);
            assert(text::joined(both, separator) =~= text::joined(left, separator) + separator
                + text::joined(right, separator));
        }
    }
}

/// The number that decimal digits stand for.
pub open spec fn decimal_value(digits: Seq<char>) -> int
    decreases digits.len(),
{
    if digits.len() == 0 {
        0
    } else {
        10 * decimal_value(digits.drop_last()) + (digits.last() as int - '0' as int)
    }
}

/// A number in decimal stands for that number, in digits only and without a
/// leading zero.
pub proof fn decimal_reads_back(n: nat)
    ensures
        decimal_value(text::decimal(n)) == n,
        text::decimal(n).len() > 0,
        forall|i: int| 0 <= i < text::decimal(n).len() ==> '0' <= #[trigger] text::decimal(n)[i]
            <= '9',
        n > 0 ==> text::decimal(n)[0] != '0',
    decreases n,
{
    if n < 10 {
        assert(text::decimal(n).drop_last() =~= Seq::<char>::empty());
        assert(decimal_value(Seq::<char>::empty()) == 0);
    } else {
        let rest = text::decimal(n / 10);
        decimal_reads_back(n / 10);
        assert(text::decimal(n).drop_last() =~= rest);
        assert(text::decimal(n)[0] == rest[0]);
        assert forall|i: int| 0 <= i < text::decimal(n).len() implies '0' <= #[trigger] text::decimal(
            n,
        )[i] <= '9' by {
            if i < rest.len() {
                assert(text::decimal(n)[i] == rest[i]);
            }
        }
    }
}

/// The bytes of a text are those of its characters, each of one to four bytes
/// by its code point.
pub proof fn bytes_are_counted_per_character(input: Seq<char>, c: char)
    ensures
        text::byte_len(Seq::empty()) == 0,
        text::byte_len(input.push(c)) == text::byte_len(input) + if (c as u32) < 0x80 {
            1int
        } else if (c as u32) < 0x800 {
            2
        } else if (c as u32) < 0x10000 {
            3
        } else {
            4
        },
{
    text::lemma_byte_len_push(input, c);
    assert(utf8::encode_utf8(Seq::<char>::empty()) =~= Seq::<u8>::empty());
}

} // verus!
