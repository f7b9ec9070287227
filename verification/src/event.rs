//! Events: something that is due, what it is about, and the token by which
//! it is found again.

use vstd::prelude::*;
use vstd::string::StringExecFns;
use crate::clock::local_now;
use crate::date::Date;
use crate::datetime::DateTime;
use crate::eventtype::EventType;
use crate::text::{hex_digits, push_hex};

verus! {

/// Something that is due.
#[derive(Debug)]
pub struct Event {
    /// The token by which the event is found again.
    pub id: String,
    /// What the event is about.
    pub description: String,
    /// When the event is due.
    pub due: EventType,
}

/// Why an event was not created.
#[derive(Debug)]
pub enum EventError {
    /// The text, here repeated, does not write a date or a time of day.
    InvalidDate(String),
    /// The deadline had passed before the event was created.
    TooOld,
}

/// Thirty-two random bits.
///
/// Calls `uuid::Uuid::new_v4` and takes the first of the fields that
/// `Uuid::as_fields` returns. Nothing is claimed of the result: it is drawn
/// at random.
#[verifier::external_body]
fn random_bits() -> u32 {
    uuid::Uuid::new_v4().as_fields().0
}

/// A fresh identifier: thirty-two random bits in lower-case hexadecimal
/// digits, without zeros in front.
pub fn uuid() -> (id: String)
    ensures
        exists|bits: u32| id@ == #[trigger] hex_digits(bits as nat),
{
    let bits = random_bits();
    let id = identifier(bits);
    assert(id@ == hex_digits(bits as nat));
    id
}

/// The identifier that `bits` make: their lower-case hexadecimal digits,
/// without zeros in front.
pub fn identifier(bits: u32) -> (id: String)
    ensures
        id@ == hex_digits(bits as nat),
{
    let mut id = String::new();
    push_hex(&mut id, bits);
    assert(id@ =~= hex_digits(bits as nat));
    id
}

impl Event {
    /// The sort key of the event: the last second of its deadline.
    pub open spec fn key(&self) -> int {
        self.due.spec_timestamp()
    }

    /// `r` is what creating an event at the second `now` gives: the event of
    /// the given identifier, description and deadline, unless the deadline
    /// has passed by then.
    pub open spec fn created(
        r: Result<Event, EventError>,
        description: Seq<char>,
        due: EventType,
        id: Seq<char>,
        now: int,
    ) -> bool {
        if due.is_over(now) {
            r matches Err(EventError::TooOld)
        } else {
            r matches Ok(event) && event.id@ == id && event.description@ == description
                && event.due == due
        }
    }

    /// `r` refuses `text`, which writes no date or time of day.
    pub open spec fn refused(r: Result<Event, EventError>, text: Seq<char>) -> bool {
        r matches Err(EventError::InvalidDate(refused)) && refused@ == text
    }

    /// `left` is how the time from the second `now` until the event reads;
    /// nothing once the event is over.
    pub open spec fn eta_is(&self, now: int, left: Option<String>) -> bool {
        match left {
            Some(label) => exists|remaining: crate::eventtype::Remaining|
                #![trigger remaining.text()]
                self.due.remaining_is(now, Some(remaining)) && label@ == remaining.text(),
            None => self.due.is_over(now),
        }
    }

    /// Creates an event that is due on `date`, with a fresh identifier.
    /// Reads the local clock: a date that is over is refused as too old.
    pub fn new_on_date(description: &str, date: &Date) -> (r: Result<Self, EventError>)
        ensures
            exists|id: Seq<char>, now: int| #[trigger]
                Event::created(r, description@, EventType::AllDay(*date), id, now),
    {
        let now = local_now();
        let id = uuid();
        let r = Event::with_deadline(description, EventType::AllDay(*date), id, now);
        assert(Event::created(r, description@, EventType::AllDay(*date), id@, now as int));
        r
    }

    /// Creates an event that is due at `datetime`, with a fresh identifier.
    /// Reads the local clock: a moment that is over is refused as too old.
    pub fn new_on_date_time(description: &str, datetime: &DateTime) -> (r: Result<
        Self,
        EventError,
    >)
        ensures
            exists|id: Seq<char>, now: int| #[trigger]
                Event::created(r, description@, EventType::AtTime(*datetime), id, now),
    {
        let now = local_now();
        let id = uuid();
        let r = Event::with_deadline(description, EventType::AtTime(*datetime), id, now);
        assert(Event::created(r, description@, EventType::AtTime(*datetime), id@, now as int));
        r
    }

    /// Creates the event of the given description, deadline and identifier
    /// at the second `now` of the civil clock. A deadline whose last second
    /// lies before `now` is refused as too old; one that is still running,
    /// today's date among them, is accepted.
    pub fn with_deadline(description: &str, due: EventType, id: String, now: i64) -> (r: Result<
        Self,
        EventError,
    >)
        ensures
            Event::created(r, description@, due, id@, now as int),
    {
        if due.timestamp() < now {
            Err(EventError::TooOld)
        } else {
            Ok(Event { id, description: String::from_str(description), due })
        }
    }

    /// Creates an event that is due on the day that `date` writes as
    /// `YYYY-MM-DD`. A text that writes no date is refused before anything
    /// else is looked at.
    pub fn create_all_day(description: &str, date: &str, id: String, now: i64) -> (r: Result<
        Self,
        EventError,
    >)
        ensures
            match Date::parsed(date@) {
                Some(day) => Event::created(r, description@, EventType::AllDay(day), id@, now as int),
                None => Event::refused(r, date@),
            },
    {
        match Date::try_from(date) {
            Ok(day) => Event::with_deadline(description, EventType::AllDay(day), id, now),
            Err(_) => Err(EventError::InvalidDate(String::from_str(date))),
        }
    }

    /// Creates an event that is due at the minute that `date` and `time`
    /// write as `YYYY-MM-DD` and `HH:MM`. Texts that write no moment are
    /// refused before anything else is looked at; the error repeats them
    /// with a space between.
    pub fn create_timed(description: &str, date: &str, time: &str, id: String, now: i64) -> (r:
        Result<Self, EventError>)
        ensures
            match DateTime::parsed(date@, time@) {
                Some(moment) => Event::created(
                    r,
                    description@,
                    EventType::AtTime(moment),
                    id@,
                    now as int,
                ),
                None => Event::refused(r, date@ + seq![' '] + time@),
            },
    {
        match DateTime::try_from(date, time) {
            Ok(moment) => Event::with_deadline(description, EventType::AtTime(moment), id, now),
            Err(_) => {
                let mut text = String::from_str(date);
                proof {
                    reveal_strlit(" ");
                }
                text.append(" ");
                text.append(time);
                assert(text@ =~= date@ + seq![' '] + time@);
                Err(EventError::InvalidDate(text))
            },
        }
    }

    /// How the time until the event reads; None if the event is over.
    /// Reads the local clock.
    pub fn eta(&self) -> (left: Option<String>)
        ensures
            exists|now: int| #[trigger] self.eta_is(now, left),
    {
        let now = local_now();
        let left = self.eta_at(now);
        assert(self.eta_is(now as int, left));
        left
    }

    /// How the time from the second `now` of the civil clock until the
    /// event reads; None if the event is over by then.
    pub fn eta_at(&self, now: i64) -> (left: Option<String>)
        ensures
            self.eta_is(now as int, left),
    {
        match self.due.remaining(now) {
            Some(remaining) => {
                let label = remaining.label();
                assert(self.due.remaining_is(now as int, Some(remaining)) && label@
                    == remaining.text());
                Some(label)
            },
            None => None,
        }
    }
}

} // verus!
