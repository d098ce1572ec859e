//! Instants in time.

use vstd::prelude::*;

verus! {

/// An instant: seconds since the start of 1970 in UTC, and nanoseconds within the
/// second. From 1_000_000_000 nanoseconds on it lies in a leap second.
#[derive(Clone, Copy, Debug, PartialEq, Eq, Structural)]
pub struct Timestamp {
    pub seconds: i64,
    pub nanos: u32,
}

/// The first second of the year -262143.
pub const MIN_SECONDS: i64 = -8_334_601_228_800;

/// The last second of the year 262142.
pub const MAX_SECONDS: i64 = 8_210_266_876_799;

/// Whether `seconds` and `nanos` make an instant that can be held.
pub open spec fn valid_instant(seconds: int, nanos: int) -> bool {
    &&& MIN_SECONDS <= seconds <= MAX_SECONDS
    &&& nanos < 1_000_000_000 || (nanos < 2_000_000_000 && seconds % 60 == 59)
}

/// Whether `left` lies after `right`.
pub open spec fn later(left: Timestamp, right: Timestamp) -> bool {
    left.seconds > right.seconds || (left.seconds == right.seconds && left.nanos > right.nanos)
}

/// Whether `left` lies after `right`.
pub fn is_later(left: Timestamp, right: Timestamp) -> (after: bool)
    ensures
        after == later(left, right),
{
    left.seconds > right.seconds || (left.seconds == right.seconds && left.nanos > right.nanos)
}

/// The latest of two instants that may be missing.
pub open spec fn latest(current: Option<Timestamp>, new: Option<Timestamp>) -> Option<Timestamp> {
    match (current, new) {
        (Some(c), Some(n)) => if later(n, c) {
            Some(n)
        } else {
            Some(c)
        },
        (None, n) => n,
        (c, None) => c,
    }
}

/// The latest of two instants that may be missing.
pub fn latest_of(current: Option<Timestamp>, new: Option<Timestamp>) -> (instant: Option<Timestamp>)
    ensures
        instant == latest(current, new),
{
    match (current, new) {
        (Some(c), Some(n)) => if is_later(n, c) {
            Some(n)
        } else {
            Some(c)
        },
        (None, n) => n,
        (c, None) => c,
    }
}

/// Calls `chrono::DateTime::from_timestamp`: there is an instant exactly where the
/// year lies between -262143 and 262142 and the nanoseconds are those of a second,
/// or of a leap second at the end of a minute; it holds the numbers given.
#[verifier::external_body]
pub(crate) fn instant_at(seconds: i64, nanos: u32) -> (instant: Option<Timestamp>)
    ensures
        instant == if valid_instant(seconds as int, nanos as int) {
            Some(Timestamp { seconds, nanos })
        } else {
            None
        },
{
    chrono::DateTime::from_timestamp(seconds, nanos).map(
        |instant| Timestamp {
            seconds: instant.timestamp(),
            nanos: instant.timestamp_subsec_nanos(),
        },
    )
}

/// The instant `millis` milliseconds after the start of 1970.
pub open spec fn millis_instant(millis: i64) -> Option<Timestamp> {
    if valid_instant(millis as int / 1000, 0) {
        Some(
            Timestamp {
                seconds: (millis as int / 1000) as i64,
                nanos: ((millis as int % 1000) * 1_000_000) as u32,
            },
        )
    } else {
        None
    }
}

/// Calls `chrono::DateTime::from_timestamp_millis`: the instant that many
/// milliseconds after the start of 1970, where the year is in range.
#[verifier::external_body]
fn instant_at_millis(millis: i64) -> (instant: Option<Timestamp>)
    ensures
        instant == if MIN_SECONDS <= millis as int / 1000 <= MAX_SECONDS {
            Some(
                Timestamp {
                    seconds: (millis as int / 1000) as i64,
                    nanos: ((millis as int % 1000) * 1_000_000) as u32,
                },
            )
        } else {
            None
        },
{
    chrono::DateTime::from_timestamp_millis(millis).map(
        |instant| Timestamp {
            seconds: instant.timestamp(),
            nanos: instant.timestamp_subsec_nanos(),
        },
    )
}

/// The instant that many milliseconds after the start of 1970.
pub fn timestamp_from_ms(millis: Option<i64>) -> (instant: Option<Timestamp>)
    ensures
        instant == match millis {
            Some(m) => millis_instant(m),
            None => None,
        },
{
    match millis {
        Some(m) => instant_at_millis(m),
        None => None,
    }
}

/// The instant that a text in the format of RFC 3339 names.
pub uninterp spec fn rfc3339_instant(text: Seq<char>) -> Option<Timestamp>;

/// Calls `chrono::DateTime::parse_from_rfc3339`: whether the text is a date and
/// time, and which instant it names, depends on the text alone.
#[verifier::external_body]
pub(crate) fn parse_datetime(text: &str) -> (instant: Option<Timestamp>)
    ensures
        instant == rfc3339_instant(text@),
{
    chrono::DateTime::parse_from_rfc3339(text).ok().map(
        |instant| Timestamp {
            seconds: instant.timestamp(),
            nanos: instant.timestamp_subsec_nanos(),
        },
    )
}

/// Instants are ordered by their seconds, and within a second by their nanoseconds.
pub proof fn law_later_is_a_matter_of_time(left: Timestamp, right: Timestamp)
    ensures
        later(left, right) <==> left.seconds * 0x1_0000_0000 + left.nanos > right.seconds
            * 0x1_0000_0000 + right.nanos,
{
}

/// Of two instants the latest is one of them, and neither is after it; a missing one
/// makes no difference.
pub proof fn law_latest(left: Option<Timestamp>, right: Option<Timestamp>)
    ensures
        latest(left, right) == left || latest(left, right) == right,
        left matches Some(l) ==> (latest(left, right) matches Some(n) && !later(l, n)),
        right matches Some(r) ==> (latest(left, right) matches Some(n) && !later(r, n)),
{
}

/// An instant given in milliseconds is that many milliseconds from the start of 1970, and
/// there is one exactly within the years that can be held.
pub proof fn law_milliseconds_are_kept(millis: i64)
    ensures
        millis_instant(millis) matches Some(instant) ==> {
            &&& instant.seconds * 1000 + instant.nanos as int / 1_000_000 == millis
            &&& instant.nanos < 1_000_000_000
            &&& instant.nanos as int % 1_000_000 == 0
        },
        millis_instant(millis) is Some <==> MIN_SECONDS * 1000 <= millis < (MAX_SECONDS + 1) * 1000,
{
}

/// The second in which a year begins.
pub open spec fn start_of_year(year: int) -> int {
    86_400 * (365 * (year - 1970) + (year - 1) / 4 - (year - 1) / 100 + (year - 1) / 400 - 477)
}

/// The instants that can be held are those of the years -262143 to 262142, each second
/// with its nanoseconds, and the last second of a minute with those of a leap second too.
pub proof fn law_instants_that_can_be_held(seconds: int, nanos: int)
    ensures
        start_of_year(1970) == 0,
        nanos < 1_000_000_000 ==> (valid_instant(seconds, nanos) <==> start_of_year(-262143)
            <= seconds < start_of_year(262143)),
        1_000_000_000 <= nanos ==> (valid_instant(seconds, nanos) <==> nanos < 2_000_000_000
            && valid_instant(seconds, 0) && (seconds + 1) % 60 == 0),
{
}

} // verus!
