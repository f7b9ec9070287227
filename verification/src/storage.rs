//! Events as they stand in storage: plain numbers and text, of which nothing
//! is known until they are checked.

use vstd::prelude::*;
use crate::calendar::{is_calendar_date, is_clock_time};
use crate::date::{lemma_date_by_fields, lemma_date_of, Date};
use crate::datetime::{lemma_moment_by_fields, lemma_moment_of, DateTime};
use crate::event::Event;
use crate::eventtype::EventType;

verus! {

/// A deadline as it stands in storage.
#[derive(Debug, Clone, Copy, PartialEq, Eq, Structural)]
pub enum StoredDue {
    /// Due on a day.
    AllDay { year: u16, month: u8, day: u8 },
    /// Due at a minute of a day.
    AtTime { year: u16, month: u8, day: u8, hour: u8, min: u8 },
}

/// An event as it stands in storage.
#[derive(Debug, PartialEq, Eq)]
pub struct StoredEvent {
    /// The token by which the event is found again.
    pub id: String,
    /// What the event is about.
    pub description: String,
    /// When the event is due.
    pub due: StoredDue,
}

/// What was found where the events are kept.
#[derive(Debug)]
pub enum Stored {
    /// There is no place to keep events in.
    NoStorage,
    /// The place is there; nothing has been kept in it yet.
    NoFile,
    /// Something is kept there that cannot be read as events.
    Unreadable,
    /// These events are kept there, in this order.
    Events(Vec<StoredEvent>),
}

impl StoredDue {
    /// The deadline that the stored numbers stand for, if the calendar and
    /// the day have it.
    pub open spec fn restored(&self) -> Option<EventType> {
        match *self {
            StoredDue::AllDay { year, month, day } => if is_calendar_date(
                year as int,
                month as int,
                day as int,
            ) {
                Some(EventType::AllDay(Date::of(year as int, month as int, day as int)))
            } else {
                None
            },
            StoredDue::AtTime { year, month, day, hour, min } => if is_calendar_date(
                year as int,
                month as int,
                day as int,
            ) && is_clock_time(hour as int, min as int) {
                Some(
                    EventType::AtTime(
                        DateTime::of(
                            year as int,
                            month as int,
                            day as int,
                            hour as int,
                            min as int,
                        ),
                    ),
                )
            } else {
                None
            },
        }
    }

    /// Checks the stored numbers and gives the deadline that they stand for.
    pub fn restore(&self) -> (r: Option<EventType>)
        ensures
            r == self.restored(),
    {
        match *self {
            StoredDue::AllDay { year, month, day } => match Date::new(year, month, day) {
                Ok(date) => Some(EventType::AllDay(date)),
                Err(_) => None,
            },
            StoredDue::AtTime { year, month, day, hour, min } => match DateTime::new(
                year,
                month,
                day,
                hour,
                min,
            ) {
                Ok(moment) => Some(EventType::AtTime(moment)),
                Err(_) => None,
            },
        }
    }

    /// The numbers to store for a deadline.
    pub fn of(due: &EventType) -> (stored: StoredDue)
        ensures
            stored.restored() == Some(*due),
    {
        match due {
            EventType::AllDay(date) => {
                proof {
                    use_type_invariant(date);
                    lemma_date_of(date.year() as int, date.month() as int, date.day() as int);
                    lemma_date_by_fields(
                        *date,
                        Date::of(date.year() as int, date.month() as int, date.day() as int),
                    );
                }
                StoredDue::AllDay { year: date.year(), month: date.month(), day: date.day() }
            },
            EventType::AtTime(moment) => {
                proof {
                    use_type_invariant(moment);
                    lemma_moment_of(
                        moment.year() as int,
                        moment.month() as int,
                        moment.day() as int,
                        moment.hour() as int,
                        moment.minute() as int,
                    );
                    lemma_moment_by_fields(
                        *moment,
                        DateTime::of(
                            moment.year() as int,
                            moment.month() as int,
                            moment.day() as int,
                            moment.hour() as int,
                            moment.minute() as int,
                        ),
                    );
                }
                StoredDue::AtTime {
                    year: moment.year(),
                    month: moment.month(),
                    day: moment.day(),
                    hour: moment.hour(),
                    min: moment.minute(),
                }
            },
        }
    }
}

impl StoredEvent {
    /// The event that the stored one stands for, if its deadline exists.
    pub open spec fn restored(&self) -> Option<Event> {
        match self.due.restored() {
            Some(due) => Some(Event { id: self.id, description: self.description, due }),
            None => None,
        }
    }

    /// Checks the stored deadline and gives the event that this one stands
    /// for.
    pub fn restore(self) -> (r: Option<Event>)
        ensures
            r == self.restored(),
    {
        match self.due.restore() {
            Some(due) => Some(Event { id: self.id, description: self.description, due }),
            None => None,
        }
    }

    /// What to store for an event.
    pub fn of(event: &Event) -> (stored: StoredEvent)
        ensures
            stored.restored() == Some(*event),
    {
        StoredEvent {
            id: event.id.clone(),
            description: event.description.clone(),
            due: StoredDue::of(&event.due),
        }
    }
}

/// Every one of the stored events stands for an event.
pub open spec fn all_restorable(stored: Seq<StoredEvent>) -> bool {
    forall|i: int| 0 <= i < stored.len() ==> (#[trigger] stored[i]).restored().is_some()
}

/// The events that the stored ones stand for, in their order.
pub open spec fn restored_events(stored: Seq<StoredEvent>) -> Seq<Event> {
    stored.map_values(|one: StoredEvent| one.restored().unwrap())
}

} // verus!
