use vstd::prelude::*;

use crate::timestamp::Timestamp;
use chrono::{Datelike, Timelike};

verus! {

/// Relies on chrono's `Local::now` together with its `Datelike` and
/// `Timelike` accessors and `FixedOffset::local_minus_utc`: the current local
/// time as `(year, month, day, hour, minute, second, offset)`, where month,
/// day, hour, minute and second lie in their documented ranges and the UTC
/// offset in seconds is less than a day in magnitude.
#[verifier::external_body]
fn now_local_parts() -> (r: (i64, i64, i64, i64, i64, i64, i64))
    ensures
        1 <= r.1 <= 12,
        1 <= r.2 <= 31,
        0 <= r.3 < 24,
        0 <= r.4 < 60,
        0 <= r.5 < 60,
        -86400 < r.6 < 86400,
{
    let now = chrono::Local::now();
    (
        now.year() as i64,
        now.month() as i64,
        now.day() as i64,
        now.hour() as i64,
        now.minute() as i64,
        now.second() as i64,
        now.offset().local_minus_utc() as i64,
    )
}

/// Relies on chrono's `NaiveDate::from_ymd_opt`,
/// `NaiveDateTime::and_hms_opt` and `NaiveDateTime::and_local_timezone` on
/// `Local`: the UTC offset, in seconds, that the machine's timezone assigns
/// to the given local calendar time (the earlier offset where that local
/// time is ambiguous), or `None` where the fields are no calendar time or
/// the zone skips that local time.
#[verifier::external_body]
fn local_offset_parts(
    year: i64,
    month: i64,
    day: i64,
    hour: i64,
    minute: i64,
    second: i64,
) -> (r: Option<i64>)
    requires
        0 <= year <= 9999,
        1 <= month <= 12,
        1 <= day <= 31,
        0 <= hour < 24,
        0 <= minute < 60,
        0 <= second < 60,
    ensures
        r matches Some(off) ==> -86400 < off < 86400,
{
    let date = match chrono::NaiveDate::from_ymd_opt(year as i32, month as u32, day as u32) {
        Some(d) => d,
        None => return None,
    };
    let naive = match date.and_hms_opt(hour as u32, minute as u32, second as u32) {
        Some(t) => t,
        None => return None,
    };
    match naive.and_local_timezone(chrono::Local) {
        chrono::MappedLocalTime::Single(t) => Some(t.offset().local_minus_utc() as i64),
        chrono::MappedLocalTime::Ambiguous(t, _) => Some(t.offset().local_minus_utc() as i64),
        chrono::MappedLocalTime::None => None,
    }
}

/// The current local time as a well-formed [`Timestamp`]. `None` on a
/// machine whose clock or zone falls outside the model: a year outside 0
/// through 9999, or a UTC offset that is not a whole number of minutes.
pub fn now_timestamp() -> (r: Option<Timestamp>)
    ensures
        r matches Some(t) ==> t.wf(),
{
    let (year, month, day, hour, minute, second, offset) = now_local_parts();
    Timestamp::new(year, month, day, hour, minute, second, offset)
}

/// The machine zone's UTC offset for the given local calendar time, as a
/// whole number of seconds admissible in a well-formed [`Timestamp`]; `None`
/// where the zone gives none (or one that is not a whole number of minutes).
pub fn local_offset(
    year: i64,
    month: i64,
    day: i64,
    hour: i64,
    minute: i64,
    second: i64,
) -> (r: Option<i64>)
    requires
        0 <= year <= 9999,
        1 <= month <= 12,
        1 <= day <= 31,
        0 <= hour < 24,
        0 <= minute < 60,
        0 <= second < 60,
    ensures
        r matches Some(off) ==> -86400 < off < 86400 && off % 60 == 0,
{
    match local_offset_parts(year, month, day, hour, minute, second) {
        Some(off) => {
            if off % 60 == 0 {
                Some(off)
            } else {
                None
            }
        },
        None => None,
    }
}

} // verus!
