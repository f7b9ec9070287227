//! The civil clock of this crate: seconds counted from 1970-01-01 00:00:00
//! on a wall clock that knows no time zone and no leap second. The counting
//! itself is chrono's; this module states what the rest of the crate relies
//! on.

use vstd::prelude::*;
use crate::calendar::{civil_seconds, is_calendar_date, is_clock_time};

verus! {

/// The second of the civil clock that the six fields name, if they name one.
///
/// Calls chrono: `NaiveDate::from_ymd_opt`, then `NaiveDate::and_hms_opt`,
/// then `NaiveDateTime::and_utc` and `DateTime::timestamp`. Not proved, but
/// taken from chrono's documentation: the first returns `None` exactly for a
/// day that the proleptic Gregorian calendar does not have (every year that
/// fits sixteen bits is within chrono's range), the second exactly for an
/// hour above 23 or a minute or second above 59, and the last two count the
/// non-leap seconds since 1970-01-01 00:00:00, the date and time being read
/// as they stand.
#[verifier::external_body]
pub(crate) fn naive_timestamp(
    year: u16,
    month: u8,
    day: u8,
    hour: u8,
    minute: u8,
    second: u8,
) -> (t: Option<i64>)
    ensures
        t.is_some() == (is_calendar_date(year as int, month as int, day as int) && is_clock_time(
            hour as int,
            minute as int,
        ) && second < 60),
        t matches Some(seconds) ==> seconds == civil_seconds(
            year as int,
            month as int,
            day as int,
            hour as int,
            minute as int,
            second as int,
        ),
{
    let date = chrono::NaiveDate::from_ymd_opt(year as i32, month as u32, day as u32)?;
    let at = date.and_hms_opt(hour as u32, minute as u32, second as u32)?;
    Some(at.and_utc().timestamp())
}

/// The second that the local wall clock shows now, counted as
/// `naive_timestamp` counts.
///
/// Calls chrono: `Local::now`, then `DateTime::naive_local`,
/// `NaiveDateTime::and_utc` and `DateTime::timestamp`. Nothing is claimed of
/// the result: it is whatever the machine's clock and time zone say. Where
/// the machine's clock stands before 1970, chrono stops the program.
#[verifier::external_body]
pub(crate) fn local_now() -> i64 {
    chrono::Local::now().naive_local().and_utc().timestamp()
}

} // verus!
