//! Points in time as text.

use vstd::prelude::*;
use crate::text;

verus! {

/// Nanoseconds in a second.
pub const SECOND: u128 = 1_000_000_000;

/// The last second of the year 9999, counted from the start of 1970.
pub const LAST_SECOND: i64 = 253_402_300_799;

/// The text that `chrono` gives for a number of seconds and nanoseconds since
/// the start of 1970, with the fraction of the second and the offset in full,
/// where it can represent the date.
pub uninterp spec fn rfc3339(secs: i64, nanos: u32) -> Option<Seq<char>>;

/// The text that `chrono` gives for a number of seconds since the start of 1970
/// with a final `Z`, where it can represent the date.
pub uninterp spec fn utc_second(secs: i64) -> Option<Seq<char>>;

/// The text has the form of a moment in UTC, to the second: at least twenty
/// characters, of which the last is `Z`.
pub open spec fn is_moment(t: Seq<char>) -> bool {
    t.len() >= 20 && t.last() == 'Z'
}

/// Calls `chrono::DateTime::from_timestamp` and `to_rfc3339`: the date and
/// time in UTC, or `None` for a number of seconds outside of the calendar.
/// Every second from 1970 to 9999 lies in the calendar.
#[verifier::external_body]
pub(crate) fn timestamp_text(secs: i64, nanos: u32) -> (r: Option<String>)
    requires
        nanos < SECOND,
    ensures
        text::opt_text(r) == rfc3339(secs, nanos),
        r matches Some(t) ==> t@.len() >= 25,
        0 <= secs <= LAST_SECOND ==> r is Some,
{
    chrono::DateTime::from_timestamp(secs, nanos).map(|t| t.to_rfc3339())
}

/// Calls `chrono::DateTime::from_timestamp` and `to_rfc3339_opts` for whole
/// seconds and a final `Z`: the date and time in UTC, or `None` for a number of
/// seconds outside of the calendar.  Every second from 1970 to 9999 lies in the
/// calendar.
#[verifier::external_body]
fn second_text(secs: i64) -> (r: Option<String>)
    ensures
        text::opt_text(r) == utc_second(secs),
        r matches Some(t) ==> is_moment(t@),
        0 <= secs <= LAST_SECOND ==> r is Some,
{
    chrono::DateTime::from_timestamp(secs, 0).map(
        |t| t.to_rfc3339_opts(chrono::SecondsFormat::Secs, true),
    )
}

/// A point in time of the system clock.
#[verifier::external_type_specification]
#[verifier::external_body]
pub struct ExSystemTime(std::time::SystemTime);

/// Says that a point in time lies before another.
#[verifier::external_type_specification]
#[verifier::external_body]
pub struct ExSystemTimeError(std::time::SystemTimeError);

/// `std::time::SystemTime::now` reads the system clock.  Nothing is claimed of
/// the point in time.
pub assume_specification[ std::time::SystemTime::now ]() -> std::time::SystemTime
;

/// `std::time::Duration::as_nanos` gives the nanoseconds of a span of time.  Nothing
/// is claimed of their number.
pub assume_specification[ std::time::Duration::as_nanos ](d: &std::time::Duration) -> u128
;

/// Calls `std::time::SystemTime::duration_since` with the start of 1970: the time
/// since then, or an error for a point in time before that.  Nothing is claimed of
/// the span.
#[verifier::external_body]
fn since_epoch(t: &std::time::SystemTime) -> (r: Result<
    std::time::Duration,
    std::time::SystemTimeError,
>) {
    t.duration_since(std::time::UNIX_EPOCH)
}

/// The nanoseconds since the start of 1970, or zero for a clock set before that:
/// whatever the clock says.
pub(crate) fn nanos_now() -> (r: u128) {
    match since_epoch(&std::time::SystemTime::now()) {
        Ok(d) => d.as_nanos(),
        Err(_) => 0,
    }
}

/// The whole seconds in a number of nanoseconds, where 64 bits hold them.
pub open spec fn whole_seconds(nanos: u128) -> Option<i64> {
    if nanos / SECOND <= i64::MAX {
        Some((nanos / SECOND) as i64)
    } else {
        None
    }
}

/// The moment so many nanoseconds behind the start of 1970, to the second.  A
/// moment outside of the calendar counts as the start of 1970.
pub open spec fn moment(nanos: u128) -> Seq<char> {
    match whole_seconds(nanos) {
        Some(secs) => match utc_second(secs) {
            Some(t) => t,
            None => utc_second(0)->0,
        },
        None => utc_second(0)->0,
    }
}

/// The moment so many nanoseconds behind the start of 1970, with the fraction
/// of the second.  A moment outside of the calendar counts as the start of 1970.
pub open spec fn exact_moment(nanos: u128) -> Seq<char> {
    match whole_seconds(nanos) {
        Some(secs) => match rfc3339(secs, (nanos % SECOND) as u32) {
            Some(t) => t,
            None => rfc3339(0, 0)->0,
        },
        None => rfc3339(0, 0)->0,
    }
}

/// The moment so many nanoseconds behind the start of 1970, to the second.
pub fn moment_text(nanos: u128) -> (r: String)
    ensures
        r@ == moment(nanos),
        is_moment(r@),
{
    let secs: u128 = nanos / SECOND;
    if secs <= i64::MAX as u128 {
        match second_text(secs as i64) {
            Some(t) => {
                return t;
            },
            None => {},
        }
    }
    match second_text(0) {
        Some(t) => t,
        None => String::new(),
    }
}

/// The moment so many nanoseconds behind the start of 1970, with the fraction
/// of the second.
pub fn exact_moment_text(nanos: u128) -> (r: String)
    ensures
        r@ == exact_moment(nanos),
        r@.len() >= 25,
{
    let secs: u128 = nanos / SECOND;
    if secs <= i64::MAX as u128 {
        match timestamp_text(secs as i64, (nanos % SECOND) as u32) {
            Some(t) => {
                return t;
            },
            None => {},
        }
    }
    match timestamp_text(0, 0) {
        Some(t) => t,
        None => String::new(),
    }
}

/// The text is that of some moment: which one, the system clock decides.
pub open spec fn is_now(t: Seq<char>) -> bool {
    is_moment(t) && exists|nanos: u128| t == #[trigger] moment(nanos)
}

/// The current moment, to the second.
pub fn now_rfc3339() -> (r: String)
    ensures
        is_now(r@),
{
    moment_text(nanos_now())
}

/// The identifier for a moment: its nanoseconds as 32 hexadecimal digits.
pub fn id_of(nanos: u128) -> (r: String)
    ensures
        r@ == text::hex_padded(nanos as nat, 32),
{
    text::hex_padded_of(nanos, 32)
}

/// An identifier made from the current time.
pub fn gen_id() -> (r: String)
    ensures
        exists|nanos: u128| r@ == #[trigger] text::hex_padded(nanos as nat, 32),
{
    id_of(nanos_now())
}

/// The text of a moment is that of the second in which it lies, and with the
/// fraction that of its nanosecond, where the calendar has them.
pub proof fn moments_lie_in_their_second(secs: i64, nanos: u32, total: u128)
    requires
        secs >= 0,
        nanos < 1_000_000_000,
        total == secs * 1_000_000_000 + nanos,
    ensures
        utc_second(secs) matches Some(t) ==> moment(total) == t,
        rfc3339(secs, nanos) matches Some(t) ==> exact_moment(total) == t,
{
    assert(total / 1_000_000_000 == secs);
    assert(total % 1_000_000_000 == nanos);
}

/// A moment that the calendar does not have is told as the start of 1970.
pub proof fn other_moments_are_told_as_the_start(nanos: u128, secs: i64)
    ensures
        nanos / 1_000_000_000 > i64::MAX ==> moment(nanos) == utc_second(0)->0
            && exact_moment(nanos) == rfc3339(0, 0)->0,
        nanos / 1_000_000_000 == secs && utc_second(secs) is None ==> moment(nanos)
            == utc_second(0)->0,
        nanos / 1_000_000_000 == secs && rfc3339(secs, (nanos % 1_000_000_000) as u32) is None
            ==> exact_moment(nanos) == rfc3339(0, 0)->0,
{
}

} // verus!
