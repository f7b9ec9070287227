//! Moments: a day of the calendar and a minute of that day.

use vstd::prelude::*;
use crate::calendar::{civil_seconds, days_and_hours_left, days_and_hours_until, is_calendar_date, is_clock_time, is_count_pair};
use crate::clock::{local_now, naive_timestamp};
use crate::date::{date_in, lemma_parsed_is_valid, Date};
use crate::date_errors::DateError;
use crate::text::{chars_of, find_from, number_in, parse_number, split_once};

verus! {

/// The hour and minute that a text of the form `HH:MM` writes: two numbers
/// with a colon between them. `None` where a number is missing or is no
/// number, or where the day has no such minute.
pub open spec fn time_in(text: Seq<char>) -> Option<(int, int)> {
    match split_once(text, ':') {
        Some((hour, minute)) => match (number_in(hour, 255), number_in(minute, 255)) {
            (Some(h), Some(m)) => if is_clock_time(h as int, m as int) {
                Some((h as int, m as int))
            } else {
                None
            },
            _ => None,
        },
        None => None,
    }
}

/// Reads a time of day of the form `HH:MM`.
pub fn time_of(text: &str) -> (r: Option<(u8, u8)>)
    ensures
        match r {
            Some((hour, minute)) => time_in(text@) == Some((hour as int, minute as int)),
            None => time_in(text@).is_none(),
        },
{
    let chars = chars_of(text);
    let len = chars.len();
    let colon = find_from(&chars, 0, ':');
    assert(chars@.skip(0) == chars@);
    if colon == len {
        return None;
    }
    proof {
        assert(chars@.take(colon as int) == chars@.subrange(0, colon as int));
        assert(chars@.skip(colon + 1) == chars@.subrange(colon + 1, len as int));
    }
    let hour = parse_number(&chars, 0, colon, 255);
    let minute = parse_number(&chars, colon + 1, len, 255);
    match (hour, minute) {
        (Some(h), Some(m)) => if h < 24 && m < 60 {
            Some((h as u8, m as u8))
        } else {
            None
        },
        _ => None,
    }
}

/// A minute of a day of the calendar.
#[derive(Debug, Clone, Copy, PartialEq, Eq, Structural)]
pub struct DateTime {
    year: u16,
    month: u8,
    day: u8,
    hour: u8,
    minute: u8,
}

impl DateTime {
    /// The year, as a specification.
    pub closed spec fn spec_year(&self) -> u16 {
        self.year
    }

    /// The month, as a specification.
    pub closed spec fn spec_month(&self) -> u8 {
        self.month
    }

    /// The day, as a specification.
    pub closed spec fn spec_day(&self) -> u8 {
        self.day
    }

    /// The hour, as a specification.
    pub closed spec fn spec_hour(&self) -> u8 {
        self.hour
    }

    /// The minute, as a specification.
    pub closed spec fn spec_minute(&self) -> u8 {
        self.minute
    }

    /// Every `DateTime` is a minute that the day has, of a day that the
    /// calendar has.
    #[verifier::type_invariant]
    pub open spec fn is_valid(&self) -> bool {
        is_calendar_date(self.year() as int, self.month() as int, self.day() as int)
            && is_clock_time(self.hour() as int, self.minute() as int)
    }

    /// This moment is the given year, month, day, hour and minute.
    pub open spec fn is(&self, year: int, month: int, day: int, hour: int, minute: int) -> bool {
        self.year() == year && self.month() == month && self.day() == day && self.hour() == hour
            && self.minute() == minute
    }

    /// The moment of the given year, month, day, hour and minute.
    pub closed spec fn of(year: int, month: int, day: int, hour: int, minute: int) -> DateTime {
        DateTime {
            year: year as u16,
            month: month as u8,
            day: day as u8,
            hour: hour as u8,
            minute: minute as u8,
        }
    }

    /// The moment that a date text `YYYY-MM-DD` and a time text `HH:MM`
    /// write together, if they write one.
    pub open spec fn parsed(date: Seq<char>, time: Seq<char>) -> Option<DateTime> {
        match (date_in(date), time_in(time)) {
            (Some((year, month, day)), Some((hour, minute))) => Some(
                DateTime::of(year, month, day, hour, minute),
            ),
            _ => None,
        }
    }

    /// The last second of this minute on the civil clock.
    pub open spec fn spec_timestamp(&self) -> int {
        civil_seconds(
            self.year() as int,
            self.month() as int,
            self.day() as int,
            self.hour() as int,
            self.minute() as int,
            59,
        )
    }

    /// Whole days from `now` to this moment and the whole hours left over,
    /// `None` once the moment is over.
    pub open spec fn spec_remaining_until(&self, now: int) -> Option<(int, int)> {
        days_and_hours_left(self.spec_timestamp(), now)
    }

    /// Returns Ok with the moment, or the error for a day that the calendar
    /// does not have, an hour above 23 or a minute above 59.
    pub fn new(year: u16, month: u8, day: u8, hour: u8, minute: u8) -> (r: Result<Self, DateError>)
        ensures
            is_calendar_date(year as int, month as int, day as int) && is_clock_time(
                hour as int,
                minute as int,
            ) ==> r == Ok::<DateTime, DateError>(
                DateTime::of(year as int, month as int, day as int, hour as int, minute as int),
            ),
            !(is_calendar_date(year as int, month as int, day as int) && is_clock_time(
                hour as int,
                minute as int,
            )) ==> r == Err::<DateTime, DateError>(DateError::InvalidDate),
            r matches Ok(moment) ==> moment.is(
                year as int,
                month as int,
                day as int,
                hour as int,
                minute as int,
            ) && moment.is_valid(),
    {
        match naive_timestamp(year, month, day, hour, minute, 59) {
            Some(_) => Ok(DateTime { year, month, day, hour, minute }),
            None => Err(DateError::InvalidDate),
        }
    }

    /// The year.
    #[verifier::when_used_as_spec(spec_year)]
    pub fn year(&self) -> (y: u16)
        ensures
            y == self.spec_year(),
    {
        self.year
    }

    /// The month, from 1 to 12.
    #[verifier::when_used_as_spec(spec_month)]
    pub fn month(&self) -> (m: u8)
        ensures
            m == self.spec_month(),
    {
        self.month
    }

    /// The day of the month, from 1.
    #[verifier::when_used_as_spec(spec_day)]
    pub fn day(&self) -> (d: u8)
        ensures
            d == self.spec_day(),
    {
        self.day
    }

    /// The hour, from 0 to 23.
    #[verifier::when_used_as_spec(spec_hour)]
    pub fn hour(&self) -> (h: u8)
        ensures
            h == self.spec_hour(),
    {
        self.hour
    }

    /// The minute, from 0 to 59.
    #[verifier::when_used_as_spec(spec_minute)]
    pub fn minute(&self) -> (m: u8)
        ensures
            m == self.spec_minute(),
    {
        self.minute
    }

    /// Try to convert a date string and a time string to a moment.
    pub fn try_from(date: &str, time: &str) -> (r: Result<Self, DateError>)
        ensures
            r == (match DateTime::parsed(date@, time@) {
                Some(moment) => Ok::<DateTime, DateError>(moment),
                None => Err::<DateTime, DateError>(DateError::InvalidDate),
            }),
            r matches Ok(moment) ==> moment.is_valid(),
    {
        let day = match Date::try_from(date) {
            Ok(day) => day,
            Err(e) => {
                return Err(e);
            },
        };
        match time_of(time) {
            Some((hour, minute)) => {
                proof {
                    lemma_parsed_is_valid(date@);
                }
                DateTime::new(day.year(), day.month(), day.day(), hour, minute)
            },
            None => Err(DateError::InvalidDate),
        }
    }

    /// Days and hours till the moment; None if the moment is in the past.
    /// Reads the local clock.
    pub fn eta(&self) -> (r: Option<(u64, u64)>)
        ensures
            exists|now: int| is_count_pair(r, #[trigger] self.spec_remaining_until(now)),
    {
        let now = local_now();
        let r = self.remaining_until(now);
        assert(is_count_pair(r, self.spec_remaining_until(now as int)));
        r
    }

    /// Whole days from the second `now` of the civil clock till the moment,
    /// which lasts through the final second of its minute, and the whole
    /// hours left over; None if the moment is over by then.
    pub fn remaining_until(&self, now: i64) -> (r: Option<(u64, u64)>)
        ensures
            is_count_pair(r, self.spec_remaining_until(now as int)),
    {
        days_and_hours_until(self.timestamp(), now)
    }

    /// The last second of the minute on the civil clock.
    pub fn timestamp(&self) -> (t: i64)
        ensures
            t == self.spec_timestamp(),
    {
        proof {
            use_type_invariant(self);
        }
        naive_timestamp(self.year, self.month, self.day, self.hour, self.minute, 59).unwrap()
    }
}

/// Two moments of the same year, month, day, hour and minute are the same
/// moment.
pub proof fn lemma_moment_by_fields(a: DateTime, b: DateTime)
    requires
        a.year() == b.year(),
        a.month() == b.month(),
        a.day() == b.day(),
        a.hour() == b.hour(),
        a.minute() == b.minute(),
    ensures
        a == b,
{
}

/// `DateTime::of` is the moment of the fields that it is given.
pub proof fn lemma_moment_of(year: int, month: int, day: int, hour: int, minute: int)
    requires
        0 <= year <= 65_535,
        0 <= month <= 255,
        0 <= day <= 255,
        0 <= hour <= 255,
        0 <= minute <= 255,
    ensures
        DateTime::of(year, month, day, hour, minute).is(year, month, day, hour, minute),
{
}

/// The hours left over are fewer than a day's, and days and hours together
/// are the whole hours that are left.
pub proof fn lemma_remaining_hours(moment: DateTime, now: int)
    ensures
        moment.spec_remaining_until(now) matches Some((days, hours)) ==> 0 <= days && 0 <= hours
            < 24 && days * 24 + hours == (moment.spec_timestamp() - now) / 3_600,
{
}

} // verus!
