//! Instants, and their text form in stored rows.

use vstd::prelude::*;

use crate::ordering;

verus! {

/// An instant in UTC: whole seconds since the Unix epoch and the nanoseconds
/// since the last whole second.
#[derive(Debug, Clone, Copy, PartialEq, Eq, Structural)]
pub struct Timestamp {
    pub secs: i64,
    /// Reaches a whole second and more only within a leap second.
    pub nanos: u32,
}

/// The instants that chrono's calendar holds: the years -262143 to 262142,
/// with a leap second only at the end of a minute.
pub open spec fn in_calendar(secs: i64, nanos: u32) -> bool {
    &&& -8_334_601_228_800 <= secs <= 8_210_266_876_799
    &&& nanos < 1_000_000_000 || (nanos < 2_000_000_000 && secs as int % 60 == 59)
}

impl Timestamp {
    /// Every instant that the calendar holds.
    pub open spec fn wf(self) -> bool {
        in_calendar(self.secs, self.nanos)
    }

    /// The years 0 to 9999, which RFC 3339 can write.
    pub open spec fn has_four_digit_year(self) -> bool {
        -62_167_219_200 <= self.secs <= 253_402_300_799
    }
}

/// What chrono's `DateTime::parse_from_rfc3339` makes of a text, as seconds
/// and nanoseconds in UTC; `None` where it reports an error.
pub uninterp spec fn rfc3339_instant(text: Seq<char>) -> Option<(i64, u32)>;

/// The text that chrono's `DateTime::to_rfc3339_opts` writes for an instant in
/// UTC, with as many fractional digits as it needs and a numeric offset.
pub uninterp spec fn rfc3339_text(secs: i64, nanos: u32) -> Seq<char>;

/// The instant that a stored text stands for, if it stands for one.
pub open spec fn instant_of(text: Seq<char>) -> Option<Timestamp> {
    match rfc3339_instant(text) {
        Some((secs, nanos)) => Some(Timestamp { secs, nanos }),
        None => None,
    }
}

/// The text under which an instant is stored.
pub open spec fn stored_text(instant: Timestamp) -> Seq<char> {
    rfc3339_text(instant.secs, instant.nanos)
}

/// `left` is an earlier instant than `right`.
pub open spec fn earlier(left: Timestamp, right: Timestamp) -> bool {
    left.secs < right.secs || (left.secs == right.secs && left.nanos < right.nanos)
}

/// `text` keeps the instant `instant`: it reads back as that instant, and it
/// stands before the stored text of another instant exactly where the instant
/// is earlier, as long as the years have four digits.
pub open spec fn keeps(text: Seq<char>, instant: Timestamp) -> bool {
    &&& text == stored_text(instant)
    &&& instant.has_four_digit_year()
    &&& instant_of(text) == Some(instant)
    &&& forall|other: Timestamp|
        other.wf() && other.has_four_digit_year() ==> (ordering::text_before(
            text,
            #[trigger] stored_text(other),
        ) <==> earlier(instant, other))
}

/// `text` keeps an instant.
pub open spec fn is_kept(text: Seq<char>) -> bool {
    instant_of(text) matches Some(instant) && instant.wf() && keeps(text, instant)
}

/// Calls chrono's `Utc::now`, which reads the system clock: an instant of the
/// calendar, not before the Unix epoch (it panics on a clock set before that)
/// and outside any leap second. Which instant it is depends on the clock.
#[verifier::external_body]
fn chrono_now() -> (now: (i64, u32))
    ensures
        in_calendar(now.0, now.1),
        now.0 >= 0,
        now.1 < 1_000_000_000,
{
    let now = chrono::Utc::now();
    (now.timestamp(), now.timestamp_subsec_nanos())
}

/// Calls chrono's `DateTime::parse_from_rfc3339` and turns what it returns to
/// UTC. The answer depends on the text alone, and an instant that it finds is
/// one of the calendar.
#[verifier::external_body]
fn chrono_parse(text: &str) -> (found: Option<(i64, u32)>)
    ensures
        found == rfc3339_instant(text@),
        found matches Some((secs, nanos)) ==> in_calendar(secs, nanos),
{
    match chrono::DateTime::parse_from_rfc3339(text) {
        Ok(found) => {
            let utc = found.with_timezone(&chrono::Utc);
            Some((utc.timestamp(), utc.timestamp_subsec_nanos()))
        },
        Err(_) => None,
    }
}

/// Calls chrono's `DateTime::to_rfc3339_opts` on an instant of the calendar.
/// The text depends on the instant alone. Where the year has four digits,
/// `DateTime::parse_from_rfc3339` reads the same instant back from it, and such
/// texts stand in the order of their instants: each field has a fixed width,
/// from the year down to the second, and the digits of a fraction follow a `.`
/// and precede the `+` of the offset, which comes before both the `.` and every
/// digit.
#[verifier::external_body]
fn chrono_format(secs: i64, nanos: u32) -> (text: String)
    requires
        in_calendar(secs, nanos),
    ensures
        text@ == rfc3339_text(secs, nanos),
        -62_167_219_200 <= secs <= 253_402_300_799 ==> rfc3339_instant(text@) == Some(
            (secs, nanos),
        ),
        -62_167_219_200 <= secs <= 253_402_300_799 ==> forall|s: i64, n: u32|
            in_calendar(s, n) && -62_167_219_200 <= s <= 253_402_300_799 ==> (
            ordering::text_before(text@, #[trigger] rfc3339_text(s, n)) <==> secs < s || (secs == s
                && nanos < n)),
{
    let instant = chrono::DateTime::from_timestamp(secs, nanos).unwrap();
    instant.to_rfc3339_opts(chrono::SecondsFormat::AutoSi, false)
}

/// The instant that the system clock shows.
pub fn utc_now() -> (now: Timestamp)
    ensures
        now.wf(),
        now.secs >= 0,
        now.nanos < 1_000_000_000,
{
    let (secs, nanos) = chrono_now();
    Timestamp { secs, nanos }
}

/// The whole milliseconds since the Unix epoch at an instant not before it.
pub open spec fn millis_of(instant: Timestamp) -> int {
    instant.secs * 1000 + instant.nanos as int / 1_000_000
}

/// The milliseconds since the Unix epoch that the system clock shows.
pub fn now_ms() -> (millis: u64)
    ensures
        exists|now: Timestamp| #[trigger] now.wf() && now.secs >= 0 && millis == millis_of(now),
{
    let now = utc_now();
    assert(now.wf());
    now.secs as u64 * 1000 + (now.nanos / 1_000_000) as u64
}

/// The instant that a stored text stands for, if it stands for one.
pub fn parse_stored(text: &str) -> (found: Option<Timestamp>)
    ensures
        found == instant_of(text@),
        found is Some ==> found->0.wf(),
{
    match chrono_parse(text) {
        Some((secs, nanos)) => Some(Timestamp { secs, nanos }),
        None => None,
    }
}

/// The text under which an instant is stored. It keeps the instant where the
/// year has four digits.
pub fn store(instant: Timestamp) -> (text: String)
    requires
        instant.wf(),
    ensures
        text@ == stored_text(instant),
        instant.has_four_digit_year() ==> keeps(text@, instant),
{
    chrono_format(instant.secs, instant.nanos)
}

/// The milliseconds of an instant are its whole milliseconds since the Unix
/// epoch: no more than its nanoseconds, and less than one more would be.
pub proof fn millis_are_whole_milliseconds(instant: Timestamp)
    ensures
        millis_of(instant) * 1_000_000 <= instant.secs * 1_000_000_000 + instant.nanos,
        instant.secs * 1_000_000_000 + instant.nanos < (millis_of(instant) + 1) * 1_000_000,
{
}

/// An instant is earlier than another exactly where fewer seconds, or as many
/// and fewer nanoseconds, have passed at it; of two instants one is earlier
/// unless they are the same.
pub proof fn instants_stand_in_order(left: Timestamp, right: Timestamp)
    ensures
        left.secs < right.secs ==> earlier(left, right),
        left.secs == right.secs && left.nanos < right.nanos ==> earlier(left, right),
        !(earlier(left, right) && earlier(right, left)),
        earlier(left, right) || earlier(right, left) || left == right,
{
}

} // verus!
