//! Calendar dates: a year, a month and a day that the calendar has.

use vstd::prelude::*;
use vstd::string::StringExecFns;
use crate::calendar::{civil_seconds, days_in_month, days_left, epoch_day, is_calendar_date, is_count, lemma_epoch_day_is_monotonic, whole_days_until};
use crate::clock::{local_now, naive_timestamp};
use crate::date_errors::DateError;
use crate::text::{all_digits, chars_of, find_from, lemma_first_index_at, lemma_number_in_zero_padded, number_in, parse_number, push_zero_padded, split_once, zero_padded};

verus! {

/// The year, month and day that a text of the form `YYYY-MM-DD` writes:
/// three numbers with a hyphen between them. `None` where a number is
/// missing or is no number, or where the calendar has no such day.
pub open spec fn date_in(text: Seq<char>) -> Option<(int, int, int)> {
    match split_once(text, '-') {
        Some((year, rest)) => match split_once(rest, '-') {
            Some((month, day)) => match (
                number_in(year, 65_535),
                number_in(month, 255),
                number_in(day, 255),
            ) {
                (Some(y), Some(m), Some(d)) => if is_calendar_date(y as int, m as int, d as int) {
                    Some((y as int, m as int, d as int))
                } else {
                    None
                },
                _ => None,
            },
            None => None,
        },
        None => None,
    }
}

/// The text `YYYY-MM-DD` of a year, a month and a day.
pub open spec fn date_text(year: int, month: int, day: int) -> Seq<char> {
    zero_padded(year as nat, 4) + seq!['-'] + zero_padded(month as nat, 2) + seq!['-']
        + zero_padded(day as nat, 2)
}

/// A day of the calendar.
#[derive(Debug, Clone, Copy, PartialEq, Eq, Structural)]
pub struct Date {
    year: u16,
    month: u8,
    day: u8,
}

impl Date {
    /// The year, as a specification.
    pub closed spec fn spec_year(&self) -> u16 {
        self.year
    }

    /// The month, as a specification.
    pub closed spec fn spec_month(&self) -> u8 {
        self.month
    }

    /// The day, as a specification.
    pub closed spec fn spec_day(&self) -> u8 {
        self.day
    }

    /// Every `Date` is a day that the calendar has.
    #[verifier::type_invariant]
    pub open spec fn is_valid(&self) -> bool {
        is_calendar_date(self.year() as int, self.month() as int, self.day() as int)
    }

    /// This date is the given year, month and day.
    pub open spec fn is(&self, year: int, month: int, day: int) -> bool {
        self.year() == year && self.month() == month && self.day() == day
    }

    /// The date of the given year, month and day.
    pub closed spec fn of(year: int, month: int, day: int) -> Date {
        Date { year: year as u16, month: month as u8, day: day as u8 }
    }

    /// The date that a text of the form `YYYY-MM-DD` writes, if it writes
    /// one.
    pub open spec fn parsed(text: Seq<char>) -> Option<Date> {
        match date_in(text) {
            Some((year, month, day)) => Some(Date::of(year, month, day)),
            None => None,
        }
    }

    /// The last second of this date on the civil clock.
    pub open spec fn spec_timestamp(&self) -> int {
        civil_seconds(self.year() as int, self.month() as int, self.day() as int, 23, 59, 59)
    }

    /// Whole days from `now` to this date, `None` once the date is over.
    pub open spec fn spec_days_until(&self, now: int) -> Option<int> {
        days_left(self.spec_timestamp(), now)
    }

    /// This date as `YYYY-MM-DD`.
    pub open spec fn text(&self) -> Seq<char> {
        date_text(self.year() as int, self.month() as int, self.day() as int)
    }

    /// Returns Ok with the Date or Error in an invalid Date.
    pub fn new(year: u16, month: u8, day: u8) -> (r: Result<Date, DateError>)
        ensures
            is_calendar_date(year as int, month as int, day as int) ==> r == Ok::<Date, DateError>(
                Date::of(year as int, month as int, day as int),
            ),
            r matches Ok(date) ==> date.is(year as int, month as int, day as int)
                && date.is_valid(),
            !is_calendar_date(year as int, month as int, day as int) ==> r == Err::<
                Date,
                DateError,
            >(DateError::InvalidDate),
            day > days_in_month(year as int, month as int) ==> r is Err,
    {
        match naive_timestamp(year, month, day, 23, 59, 59) {
            Some(_) => Ok(Date { year, month, day }),
            None => Err(DateError::InvalidDate),
        }
    }

    /// The year.
    #[verifier::when_used_as_spec(spec_year)]
    pub fn year(&self) -> (y: u16)
        ensures
            y == self.spec_year(),
    {
        self.year
    }

    /// The month, from 1 to 12.
    #[verifier::when_used_as_spec(spec_month)]
    pub fn month(&self) -> (m: u8)
        ensures
            m == self.spec_month(),
    {
        self.month
    }

    /// The day of the month, from 1.
    #[verifier::when_used_as_spec(spec_day)]
    pub fn day(&self) -> (d: u8)
        ensures
            d == self.spec_day(),
    {
        self.day
    }

    /// Try to convert a string to a Date.
    pub fn try_from(value: &str) -> (r: Result<Self, DateError>)
        ensures
            r == (match Date::parsed(value@) {
                Some(date) => Ok::<Date, DateError>(date),
                None => Err::<Date, DateError>(DateError::InvalidDate),
            }),
            r matches Ok(date) ==> date.is_valid(),
    {
        let chars = chars_of(value);
        let len = chars.len();
        let first = find_from(&chars, 0, '-');
        assert(chars@.skip(0) == chars@);
        if first == len {
            return Err(DateError::InvalidDate);
        }
        let ghost rest = chars@.skip(first + 1);
        let second = find_from(&chars, first + 1, '-');
        if second == len {
            return Err(DateError::InvalidDate);
        }
        proof {
            assert(chars@.take(first as int) == chars@.subrange(0, first as int));
            assert(rest.take(second - first - 1) == chars@.subrange(
                first + 1,
                second as int,
            ));
            assert(rest.skip(second - first) == chars@.subrange(second + 1, len as int));
        }
        let year = parse_number(&chars, 0, first, 65_535);
        let month = parse_number(&chars, first + 1, second, 255);
        let day = parse_number(&chars, second + 1, len, 255);
        match (year, month, day) {
            (Some(y), Some(m), Some(d)) => Date::new(y as u16, m as u8, d as u8),
            _ => Err(DateError::InvalidDate),
        }
    }

    /// This date as `YYYY-MM-DD`, the text that `try_from` reads back.
    pub fn format(&self) -> (s: String)
        ensures
            s@ == self.text(),
    {
        let mut s = String::new();
        proof {
            reveal_strlit("-");
        }
        push_zero_padded(&mut s, self.year as u64, 4);
        s.append("-");
        push_zero_padded(&mut s, self.month as u64, 2);
        s.append("-");
        push_zero_padded(&mut s, self.day as u64, 2);
        assert(s@ =~= self.text());
        s
    }

    /// Number of days till the date; None if the date is in the past.
    /// Reads the local clock.
    pub fn eta(&self) -> (r: Option<u64>)
        ensures
            exists|now: int| is_count(r, #[trigger] self.spec_days_until(now)),
    {
        let now = local_now();
        let r = self.days_until(now);
        assert(is_count(r, self.spec_days_until(now as int)));
        r
    }

    /// Number of whole days from the second `now` of the civil clock till
    /// the date, which lasts through its final second; None if the date is
    /// over by then.
    pub fn days_until(&self, now: i64) -> (r: Option<u64>)
        ensures
            is_count(r, self.spec_days_until(now as int)),
    {
        whole_days_until(self.timestamp(), now)
    }

    /// The last second of the date on the civil clock.
    pub fn timestamp(&self) -> (t: i64)
        ensures
            t == self.spec_timestamp(),
    {
        proof {
            use_type_invariant(self);
        }
        naive_timestamp(self.year, self.month, self.day, 23, 59, 59).unwrap()
    }
}

/// Two dates of the same year, month and day are the same date.
pub proof fn lemma_date_by_fields(a: Date, b: Date)
    requires
        a.year() == b.year(),
        a.month() == b.month(),
        a.day() == b.day(),
    ensures
        a == b,
{
}

/// `Date::of` is the date of the year, month and day that it is given, and
/// every date is `Date::of` its year, month and day.
pub proof fn lemma_date_of(year: int, month: int, day: int)
    requires
        0 <= year <= 65_535,
        0 <= month <= 255,
        0 <= day <= 255,
    ensures
        Date::of(year, month, day).is(year, month, day),
        forall|date: Date| #[trigger] date.is(year, month, day) ==> date == Date::of(year, month, day),
{
}

/// A text that writes a date writes a day that the calendar has.
pub proof fn lemma_parsed_is_valid(text: Seq<char>)
    ensures
        Date::parsed(text) matches Some(date) ==> date.is_valid() && date_in(text) == Some(
            (date.year() as int, date.month() as int, date.day() as int),
        ),
{
}

/// A hyphen between digits is found right after them.
proof fn lemma_split_after_digits(digits: Seq<char>, rest: Seq<char>)
    requires
        all_digits(digits),
    ensures
        split_once(digits + seq!['-'] + rest, '-') == Some((digits, rest)),
{
    let text = digits + seq!['-'] + rest;
    assert forall|j: int| 0 <= j < digits.len() implies text[j] != '-' by {
        assert(text[j] == digits[j]);
    }
    lemma_first_index_at(text, '-', digits.len() as int);
    assert(text.take(digits.len() as int) == digits);
    assert(text.skip(digits.len() as int + 1) == rest);
}

/// Reading the text of a year, month and day that the calendar has gives
/// them back.
pub proof fn lemma_date_in_date_text(year: int, month: int, day: int)
    requires
        0 <= year <= 65_535,
        is_calendar_date(year, month, day),
    ensures
        date_in(date_text(year, month, day)) == Some((year, month, day)),
{
    let y = zero_padded(year as nat, 4);
    let m = zero_padded(month as nat, 2);
    let d = zero_padded(day as nat, 2);
    lemma_number_in_zero_padded(year as nat, 4, 65_535);
    lemma_number_in_zero_padded(month as nat, 2, 255);
    lemma_number_in_zero_padded(day as nat, 2, 255);
    let rest = m + seq!['-'] + d;
    assert(date_text(year, month, day) == y + seq!['-'] + rest);
    lemma_split_after_digits(y, rest);
    lemma_split_after_digits(m, d);
}

/// Writing a date and reading the text gives the date back.
pub proof fn lemma_parse_format_round_trip(date: Date)
    requires
        date.is_valid(),
    ensures
        Date::parsed(date.text()) == Some(date),
{
    lemma_date_in_date_text(date.year() as int, date.month() as int, date.day() as int);
}

/// The sort keys of dates follow the calendar: of two dates, the one that
/// comes first in the calendar has the smaller key, whatever the digits of
/// its month and day.
pub proof fn lemma_keys_follow_the_calendar(a: Date, b: Date)
    requires
        a.is_valid(),
        b.is_valid(),
    ensures
        a.spec_timestamp() < b.spec_timestamp() <==> (a.year() < b.year() || (a.year() == b.year()
            && (a.month() < b.month() || (a.month() == b.month() && a.day() < b.day())))),
        a.spec_timestamp() == b.spec_timestamp() <==> a == b,
{
    let (ay, am, ad) = (a.year() as int, a.month() as int, a.day() as int);
    let (by, bm, bd) = (b.year() as int, b.month() as int, b.day() as int);
    if ay < by || (ay == by && (am < bm || (am == bm && ad < bd))) {
        lemma_epoch_day_is_monotonic(ay, am, ad, by, bm, bd);
    } else if by < ay || (by == ay && (bm < am || (bm == am && bd < ad))) {
        lemma_epoch_day_is_monotonic(by, bm, bd, ay, am, ad);
    } else {
        lemma_date_by_fields(a, b);
    }
}

/// The days until a date are counted from date to date: the time of day
/// that `now` shows plays no part.
pub proof fn lemma_days_until_counts_dates(date: Date, now: int)
    ensures
        date.spec_days_until(now) == (if epoch_day(
            date.year() as int,
            date.month() as int,
            date.day() as int,
        ) < now / 86_400 {
            None
        } else {
            Some(epoch_day(date.year() as int, date.month() as int, date.day() as int) - now / 86_400)
        }),
{
}

} // verus!
