//! Points in time in logs.

use crate::profile::Timestamp;
use vstd::prelude::*;

verus! {

/// What `str::parse::<chrono::DateTime<chrono::Utc>>` makes of a text: seconds
/// since 1970 and nanoseconds, if it is a date and time with an offset.
pub uninterp spec fn offset_datetime(s: Seq<char>) -> Option<(i64, u32)>;

/// What `chrono::NaiveDateTime::parse_from_str` makes of a text in a format:
/// seconds since 1970 and nanoseconds, read as UTC.
pub uninterp spec fn formatted_datetime(s: Seq<char>, format: Seq<char>) -> Option<(i64, u32)>;

/// What `chrono::DateTime::from_timestamp` makes of seconds since 1970.
pub uninterp spec fn epoch_datetime(secs: i64) -> Option<(i64, u32)>;

/// `str::parse::<DateTime<Utc>>` of chrono.
#[verifier::external_body]
fn chrono_parse_offset(s: &str) -> (r: Option<(i64, u32)>)
    ensures
        r == offset_datetime(s@),
{
    s.parse::<chrono::DateTime<chrono::Utc>>().ok().map(|t| (t.timestamp(), t.timestamp_subsec_nanos()))
}

/// `NaiveDateTime::parse_from_str` of chrono, with the result taken as UTC.
#[verifier::external_body]
fn chrono_parse_format(s: &str, format: &str) -> (r: Option<(i64, u32)>)
    ensures
        r == formatted_datetime(s@, format@),
{
    let t = chrono::NaiveDateTime::parse_from_str(s, format).ok()?.and_utc();
    Some((t.timestamp(), t.timestamp_subsec_nanos()))
}

/// `DateTime::from_timestamp` of chrono with no nanoseconds: the same seconds,
/// if they lie within chrono's range. Where that range ends is left unsaid.
#[verifier::external_body]
fn chrono_from_epoch(secs: i64) -> (r: Option<(i64, u32)>)
    ensures
        r == epoch_datetime(secs),
        r is Some ==> r->0 == (secs, 0u32),
{
    chrono::DateTime::from_timestamp(secs, 0).map(|t| (t.timestamp(), t.timestamp_subsec_nanos()))
}

/// A point in time from seconds and nanoseconds.
pub open spec fn timestamp_of(t: Option<(i64, u32)>) -> Option<Timestamp> {
    match t {
        Some((secs, nanos)) => Some(Timestamp { secs, nanos }),
        None => None,
    }
}

fn to_timestamp(t: Option<(i64, u32)>) -> (r: Option<Timestamp>)
    ensures
        r == timestamp_of(t),
{
    match t {
        Some((secs, nanos)) => Some(Timestamp { secs, nanos }),
        None => None,
    }
}

/// A date and time with an offset.
pub fn parse_with_offset(s: &str) -> (r: Option<Timestamp>)
    ensures
        r == timestamp_of(offset_datetime(s@)),
{
    to_timestamp(chrono_parse_offset(s))
}

/// A date and time in a format, read as UTC.
pub fn parse_with_format(s: &str, format: &str) -> (r: Option<Timestamp>)
    ensures
        r == timestamp_of(formatted_datetime(s@, format@)),
{
    to_timestamp(chrono_parse_format(s, format))
}

/// A point in time from seconds since 1970.
pub fn from_epoch(secs: i64) -> (r: Option<Timestamp>)
    ensures
        r == timestamp_of(epoch_datetime(secs)),
        r is Some ==> r->0 == (Timestamp { secs, nanos: 0 }),
{
    to_timestamp(chrono_from_epoch(secs))
}

/// A date and time with an offset, else one in a format.
pub open spec fn either_datetime(
    with_offset: Option<(i64, u32)>,
    with_format: Option<(i64, u32)>,
) -> Option<Timestamp> {
    match with_offset {
        Some((secs, nanos)) => Some(Timestamp { secs, nanos }),
        None => timestamp_of(with_format),
    }
}

/// Whether a point in time comes before another. A leap second has nanoseconds
/// of a whole second and more, and comes before the second that follows it.
pub open spec fn is_before(a: Timestamp, b: Timestamp) -> bool {
    a.secs < b.secs || (a.secs == b.secs && a.nanos < b.nanos)
}

/// The second of the day.
pub open spec fn second_of_day(t: Timestamp) -> int {
    t.secs as int % 86_400
}

/// The leap seconds to be counted between two points in time: a leap second
/// that the earlier time of day lies in has to be left behind.
pub open spec fn leap_seconds(from: Timestamp, to: Timestamp) -> int {
    if second_of_day(to) > second_of_day(from) && from.nanos >= 1_000_000_000 {
        1
    } else if second_of_day(to) < second_of_day(from) && to.nanos >= 1_000_000_000 {
        -1
    } else {
        0
    }
}

/// The nanoseconds from one point in time to another.
pub open spec fn nanos_between(from: Timestamp, to: Timestamp) -> int {
    (to.secs - from.secs + leap_seconds(from, to)) * 1_000_000_000 + (to.nanos - from.nanos)
}

/// Whole microseconds between two points in time, zero if they do not fit into
/// 63 bits or are negative.
pub open spec fn span_micros(from: Timestamp, to: Timestamp) -> u64 {
    let us = nanos_between(from, to) / 1000;
    if 0 <= us <= i64::MAX {
        us as u64
    } else {
        0
    }
}

/// Without leap seconds the time between is the difference of the two times in
/// nanoseconds.
pub proof fn law_span_without_leap_seconds(from: Timestamp, to: Timestamp)
    requires
        from.nanos < 1_000_000_000,
        to.nanos < 1_000_000_000,
    ensures
        nanos_between(from, to) == (to.secs * 1_000_000_000 + to.nanos) - (from.secs * 1_000_000_000 + from.nanos),
        is_before(from, to) <==> nanos_between(from, to) > 0,
{
}

fn day_second(secs: i64) -> (r: i64)
    ensures
        r == secs as int % 86_400,
{
    if secs >= 0 {
        secs % 86_400
    } else {
        86_399 - (-(secs + 1)) % 86_400
    }
}

/// Whole microseconds between two points in time.
pub fn micros_from(from: &Timestamp, to: &Timestamp) -> (r: u64)
    ensures
        r == span_micros(*from, *to),
{
    let a = day_second(from.secs);
    let b = day_second(to.secs);
    let leap: i128 = if b > a && from.nanos >= 1_000_000_000 {
        1
    } else if b < a && to.nanos >= 1_000_000_000 {
        -1
    } else {
        0
    };
    let ns: i128 = ((to.secs as i128) - (from.secs as i128) + leap) * 1_000_000_000 + ((to.nanos as i128) - (
    from.nanos as i128));
    if ns < 0 {
        return 0;
    }
    let us: i128 = ns / 1000;
    if us <= 9223372036854775807 {
        us as u64
    } else {
        0
    }
}

/// Whether a point in time comes before another.
pub fn is_earlier(a: &Timestamp, b: &Timestamp) -> (r: bool)
    ensures
        r == is_before(*a, *b),
{
    a.secs < b.secs || (a.secs == b.secs && a.nanos < b.nanos)
}

/// Whether an optional point in time comes before another; none comes before
/// any.
pub open spec fn earlier(a: Option<Timestamp>, b: Option<Timestamp>) -> bool {
    match (a, b) {
        (None, Some(_)) => true,
        (Some(x), Some(y)) => is_before(x, y),
        _ => false,
    }
}

pub fn is_earlier_opt(a: &Option<Timestamp>, b: &Option<Timestamp>) -> (r: bool)
    ensures
        r == earlier(*a, *b),
{
    match a {
        None => b.is_some(),
        Some(x) => match b {
            None => false,
            Some(y) => is_earlier(x, y),
        },
    }
}

} // verus!
