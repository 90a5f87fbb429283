//! The clock and the calendar of the machine.

use chrono::{Datelike, Local, NaiveTime, Utc};
use vstd::prelude::*;

verus! {

/// One day in milliseconds.
pub const DAY_MS: i64 = 86_400_000;

/// The latest time, in milliseconds, that is ever told.
pub const CLOCK_LIMIT: i64 = 9_000_000_000_000_000;

/// `chrono::Utc::now` and `timestamp_millis`: milliseconds since 1970 began.
/// The clock is read as a duration since then and held as a date no later than
/// the end of the year 262142, so the number is neither negative nor above
/// [`CLOCK_LIMIT`]. Which moment it is rests on the machine.
#[verifier::external_body]
pub(crate) fn now_ms() -> (t: i64)
    ensures
        0 <= t <= CLOCK_LIMIT,
{
    Utc::now().timestamp_millis()
}

/// `chrono::Local::now` with `year`, `month` and `day`: today's date where the
/// machine is. Months and days are counted from 1.
#[verifier::external_body]
pub(crate) fn local_ymd() -> (ymd: (i32, u32, u32))
    ensures
        1 <= ymd.1 <= 12,
        1 <= ymd.2 <= 31,
{
    let now = Local::now();
    (now.year(), now.month(), now.day())
}

/// What can be told of a day at `now_ms`: the clock stands where it may, and the
/// local midnight, where there is one, lies near it. Two offsets from UTC of less
/// than a day each, and the part of the day that has passed, stand between them.
pub open spec fn tellable(now_ms: i64, midnight: Option<i64>) -> bool {
    &&& 0 <= now_ms <= CLOCK_LIMIT
    &&& midnight matches Some(m) ==> now_ms - 3 * DAY_MS < m < now_ms + 2 * DAY_MS
}

/// When the day began: at local midnight, or a day ago where that is not one
/// moment.
pub open spec fn beginning(now_ms: i64, midnight: Option<i64>) -> int {
    match midnight {
        Some(m) => m as int,
        None => now_ms - DAY_MS,
    }
}

/// `chrono::Local::now` read twice: as milliseconds since 1970 began, and as the
/// moment at which its date began in the zone of the machine, which
/// `and_local_timezone` and `single` give only where exactly one moment bears
/// that local time. The date is taken from the moment with one offset from UTC
/// and its midnight turned back with another; a `FixedOffset` is less than a day
/// either way, so the two moments lie as near to each other as [`tellable`] says.
/// Which moments they are, and that midnight comes first, rests on the machine
/// and its zone.
#[verifier::external_body]
fn local_day() -> (r: (i64, Option<i64>))
    ensures
        tellable(r.0, r.1),
{
    let now = Local::now();
    let start = now.date_naive().and_time(NaiveTime::MIN).and_local_timezone(now.timezone()).single();
    (now.timestamp_millis(), start.map(|at| at.with_timezone(&Utc).timestamp_millis()))
}

/// When the day began: at local midnight, or a day ago where that is not one
/// moment.
pub fn day_start(now_ms: i64, midnight: Option<i64>) -> (t: i64)
    requires
        now_ms >= i64::MIN + DAY_MS,
    ensures
        t == (match midnight {
            Some(m) => m,
            None => (now_ms - DAY_MS) as i64,
        }),
        midnight is None ==> t + 24 * 3_600_000 == now_ms,
{
    match midnight {
        Some(m) => m,
        None => now_ms - DAY_MS,
    }
}

/// When today began, by the clock and the zone of the machine: the beginning of
/// the day that they tell of.
pub(crate) fn local_midnight_utc_ms() -> (t: i64)
    ensures
        exists|now: i64, midnight: Option<i64>| #[trigger]
            tellable(now, midnight) && t == beginning(now, midnight),
{
    let (now, midnight) = local_day();
    day_start(now, midnight)
}

/// A day begins at its midnight; where that is not one moment, a whole day before now.
pub proof fn day_begins_at_midnight(now_ms: i64, midnight: Option<i64>)
    ensures
        midnight matches Some(m) ==> beginning(now_ms, midnight) == m,
        midnight is None ==> beginning(now_ms, midnight) + 24 * 3_600_000 == now_ms,
{
}

} // verus!
