//! Integer conversions.

use vstd::prelude::*;

verus! {

/// The `i64` with the same 64 bits as `n`.
pub open spec fn same_bits(n: u64) -> int {
    if n <= i64::MAX {
        n as int
    } else {
        n - 0x1_0000_0000_0000_0000
    }
}

/// Reinterpret `n` as a signed number.
pub fn to_signed(n: u64) -> (signed: i64)
    ensures
        signed == same_bits(n),
{
    if n <= i64::MAX as u64 {
        n as i64
    } else {
        -((u64::MAX - n) as i64) - 1
    }
}

/// A stored number as an unsigned one: negative numbers count as zero.
pub open spec fn not_below_zero(n: i64) -> u64 {
    if n < 0 {
        0
    } else {
        n as u64
    }
}

pub fn clamp_to_zero(n: i64) -> (unsigned: u64)
    ensures
        unsigned == not_below_zero(n),
{
    if n < 0 {
        0
    } else {
        n as u64
    }
}

/// The nearest number that an `i64` can hold.
pub open spec fn saturated(n: int) -> int {
    if n < i64::MIN {
        i64::MIN as int
    } else if n > i64::MAX {
        i64::MAX as int
    } else {
        n
    }
}

pub fn saturate(n: i128) -> (nearest: i64)
    ensures
        nearest == saturated(n as int),
{
    if n < i64::MIN as i128 {
        i64::MIN
    } else if n > i64::MAX as i128 {
        i64::MAX
    } else {
        n as i64
    }
}

/// The signed number with the same bits differs from `n` by a multiple of the
/// number of bit patterns, and not at all where an `i64` can hold `n`.
pub proof fn same_bits_are_congruent(n: u64)
    ensures
        i64::MIN <= same_bits(n) <= i64::MAX,
        same_bits(n) == n || same_bits(n) == n - 0x1_0000_0000_0000_0000,
        n <= i64::MAX ==> same_bits(n) == n,
{
}

/// A stored number that is not negative is read as it is, any other as zero.
pub proof fn only_negative_numbers_are_clamped(n: i64)
    ensures
        n >= 0 ==> not_below_zero(n) == n,
        n < 0 ==> not_below_zero(n) == 0,
{
}

/// Saturating changes a number only where an `i64` cannot hold it, and then to
/// the nearest that it can.
pub proof fn saturating_is_nearest(n: int, other: i64)
    ensures
        i64::MIN <= saturated(n) <= i64::MAX,
        i64::MIN <= n <= i64::MAX ==> saturated(n) == n,
        n < saturated(n) ==> saturated(n) <= other,
        n > saturated(n) ==> saturated(n) >= other,
{
}

} // verus!
