//! The proleptic Gregorian calendar as arithmetic on integers, and the
//! civil clock that the naive timestamps of this crate count in.

use vstd::prelude::*;

verus! {

/// A year has a 29th of February when it is divisible by 4, except for
/// century years that are not divisible by 400.
pub open spec fn is_leap_year(year: int) -> bool {
    year % 4 == 0 && (year % 100 != 0 || year % 400 == 0)
}

/// Number of days of a month; 0 for a month outside 1..=12.
pub open spec fn days_in_month(year: int, month: int) -> int {
    if month < 1 || month > 12 {
        0
    } else if month == 2 {
        if is_leap_year(year) {
            29
        } else {
            28
        }
    } else if month == 4 || month == 6 || month == 9 || month == 11 {
        30
    } else {
        31
    }
}

/// The triple names a day of the calendar.
pub open spec fn is_calendar_date(year: int, month: int, day: int) -> bool {
    1 <= month <= 12 && 1 <= day <= days_in_month(year, month)
}

/// The pair names a minute of the day.
pub open spec fn is_clock_time(hour: int, minute: int) -> bool {
    0 <= hour < 24 && 0 <= minute < 60
}

/// Days from 0001-01-01 to the first of January of `year`.
pub open spec fn days_before_year(year: int) -> int {
    365 * (year - 1) + (year - 1) / 4 - (year - 1) / 100 + (year - 1) / 400
}

/// Days from the first of January to the first of `month`, in `year`.
pub open spec fn days_before_month(year: int, month: int) -> int {
    let leap: int = if is_leap_year(year) { 1 } else { 0 };
    if month <= 1 {
        0
    } else if month == 2 {
        31
    } else if month == 3 {
        59 + leap
    } else if month == 4 {
        90 + leap
    } else if month == 5 {
        120 + leap
    } else if month == 6 {
        151 + leap
    } else if month == 7 {
        181 + leap
    } else if month == 8 {
        212 + leap
    } else if month == 9 {
        243 + leap
    } else if month == 10 {
        273 + leap
    } else if month == 11 {
        304 + leap
    } else {
        334 + leap
    }
}

/// Days from 1970-01-01 to the given day; negative before it.
pub open spec fn epoch_day(year: int, month: int, day: int) -> int {
    days_before_year(year) + days_before_month(year, month) + (day - 1) - 719_162
}

/// Seconds from 1970-01-01 00:00:00 to the given second of the given day,
/// on a clock without time zone or leap seconds.
pub open spec fn civil_seconds(
    year: int,
    month: int,
    day: int,
    hour: int,
    minute: int,
    second: int,
) -> int {
    epoch_day(year, month, day) * 86_400 + hour * 3_600 + minute * 60 + second
}

/// Whole days from `now` until `deadline`, both in seconds of the civil
/// clock; `None` once the deadline has passed.
pub open spec fn days_left(deadline: int, now: int) -> Option<int> {
    if deadline < now {
        None
    } else {
        Some((deadline - now) / 86_400)
    }
}

/// Whole days from `now` until `deadline`, and the whole hours that are left
/// of the day begun; `None` once the deadline has passed.
pub open spec fn days_and_hours_left(deadline: int, now: int) -> Option<(int, int)> {
    if deadline < now {
        None
    } else {
        Some(((deadline - now) / 86_400, ((deadline - now) % 86_400) / 3_600))
    }
}

/// `count` is the executable form of `left`.
pub open spec fn is_count(count: Option<u64>, left: Option<int>) -> bool {
    match count {
        Some(days) => left == Some(days as int),
        None => left.is_none(),
    }
}

/// `count` is the executable form of `left`.
pub open spec fn is_count_pair(count: Option<(u64, u64)>, left: Option<(int, int)>) -> bool {
    match count {
        Some((days, hours)) => left == Some((days as int, hours as int)),
        None => left.is_none(),
    }
}

/// Seconds from `now` until `deadline`; `None` once the deadline has passed.
pub fn seconds_until(deadline: i64, now: i64) -> (left: Option<u64>)
    ensures
        left.is_some() == (deadline >= now),
        left matches Some(seconds) ==> seconds == deadline - now,
{
    if deadline < now {
        None
    } else {
        let wide: i128 = deadline as i128 - now as i128;
        Some(wide as u64)
    }
}

/// Whole days from `now` until `deadline`.
pub fn whole_days_until(deadline: i64, now: i64) -> (count: Option<u64>)
    ensures
        is_count(count, days_left(deadline as int, now as int)),
{
    match seconds_until(deadline, now) {
        Some(seconds) => Some(seconds / 86_400),
        None => None,
    }
}

/// Whole days from `now` until `deadline`, and the whole hours left over.
pub fn days_and_hours_until(deadline: i64, now: i64) -> (count: Option<(u64, u64)>)
    ensures
        is_count_pair(count, days_and_hours_left(deadline as int, now as int)),
{
    match seconds_until(deadline, now) {
        Some(seconds) => Some((seconds / 86_400, (seconds % 86_400) / 3_600)),
        None => None,
    }
}

/// The calendar starts its count of days at 1970-01-01.
pub proof fn lemma_epoch_is_day_zero()
    ensures
        epoch_day(1970, 1, 1) == 0,
        civil_seconds(1970, 1, 1, 0, 0, 0) == 0,
{
}

/// A year is as long as its months together, and the next year starts
/// right after it.
pub proof fn lemma_year_rolls_over(year: int)
    ensures
        days_before_month(year, 12) + days_in_month(year, 12) == (if is_leap_year(year) {
            366int
        } else {
            365int
        }),
        epoch_day(year + 1, 1, 1) == epoch_day(year, 12, 31) + 1,
{
}

/// Each month starts right after the last day of the month before it.
pub proof fn lemma_month_rolls_over(year: int, month: int)
    requires
        1 <= month < 12,
    ensures
        days_before_month(year, month + 1) == days_before_month(year, month) + days_in_month(
            year,
            month,
        ),
        epoch_day(year, month + 1, 1) == epoch_day(year, month, days_in_month(year, month)) + 1,
{
}

/// Earlier days of the calendar have smaller day numbers.
pub proof fn lemma_epoch_day_is_monotonic(y1: int, m1: int, d1: int, y2: int, m2: int, d2: int)
    requires
        is_calendar_date(y1, m1, d1),
        is_calendar_date(y2, m2, d2),
        y1 < y2 || (y1 == y2 && (m1 < m2 || (m1 == m2 && d1 < d2))),
    ensures
        epoch_day(y1, m1, d1) < epoch_day(y2, m2, d2),
{
    if y1 < y2 {
        lemma_days_before_year_grows(y1, y2);
    }
}

/// A later year starts at least 365 days for each year in between later.
pub proof fn lemma_days_before_year_grows(y1: int, y2: int)
    requires
        y1 < y2,
    ensures
        days_before_year(y2) - days_before_year(y1) >= 365 * (y2 - y1),
{
    let a = y1 - 1;
    let b = y2 - 1;
    assert(b / 4 - a / 4 >= (b - a) / 4);
    assert(b / 100 - a / 100 <= (b - a) / 100 + 1);
    assert(b / 400 >= a / 400);
    assert((b - a) / 4 >= (b - a) / 100);
    if b - a >= 100 {
        assert((b - a) / 4 >= (b - a) / 100 + 1);
    } else {
        // fewer than a hundred years apart: at most one century year between
        assert(b / 100 - a / 100 <= 1);
        if b / 100 - a / 100 == 1 {
            // the century year itself is a multiple of four
            assert(b / 4 - a / 4 >= 1);
        }
    }
}

} // verus!
