//! The event list: events in the order in which they fall due. Reading the
//! list from storage and writing it back is left to the caller, who hands
//! over what was found there and takes back what is to be kept.

use vstd::prelude::*;
use vstd::multiset::Multiset;
use vstd::std_specs::convert::FromSpecImpl;
use vstd::string::StringExecFns;
use crate::clock::local_now;
use crate::date::Date;
use crate::datetime::DateTime;
use crate::event::{uuid, Event, EventError};
use crate::eventtype::EventType;
use crate::storage::{all_restorable, restored_events, Stored, StoredEvent};

verus! {

/// The events stand in the order of their sort keys, earliest first.
pub open spec fn is_sorted(events: Seq<Event>) -> bool {
    forall|i: int, j: int| 0 <= i <= j < events.len() ==> events[i].key() <= events[j].key()
}

/// Where an event of the sort key `key` goes: behind the last event that is
/// due no later, so that among events due at the same second the one that
/// came first stays first.
pub open spec fn insertion_point(events: Seq<Event>, key: int) -> int
    decreases events.len(),
{
    if events.len() == 0 {
        0
    } else if events.last().key() <= key {
        events.len() as int
    } else {
        insertion_point(events.drop_last(), key)
    }
}

/// The list after `event` has been put in its place.
pub open spec fn inserted(events: Seq<Event>, event: Event) -> Seq<Event> {
    events.insert(insertion_point(events, event.key()), event)
}

/// The list after each of `more` has been put in its place, the first of
/// them first.
pub open spec fn inserted_all(events: Seq<Event>, more: Seq<Event>) -> Seq<Event>
    decreases more.len(),
{
    if more.len() == 0 {
        events
    } else {
        inserted(inserted_all(events, more.drop_last()), more.last())
    }
}

/// The sort keys of the events, in their order.
pub open spec fn keys(events: Seq<Event>) -> Seq<int> {
    events.map_values(|event: Event| event.key())
}

/// Some event of the list has the identifier `id`.
pub open spec fn has_id(events: Seq<Event>, id: Seq<char>) -> bool {
    exists|i: int| 0 <= i < events.len() && (#[trigger] events[i]).id@ == id
}

/// Where the first event of the identifier `id` stands; the length of the
/// list if none has it.
pub open spec fn index_of_id(events: Seq<Event>, id: Seq<char>) -> int
    decreases events.len(),
{
    if events.len() == 0 {
        0
    } else if events[0].id@ == id {
        0
    } else {
        1 + index_of_id(events.skip(1), id)
    }
}

/// What is true of the events that do not have the identifier `id`.
pub open spec fn lacks_id(id: Seq<char>) -> spec_fn(Event) -> bool {
    |event: Event| event.id@ != id
}

/// What is true of the events that are not over at the second `now`.
pub open spec fn is_due(now: int) -> spec_fn(Event) -> bool {
    |event: Event| !event.due.is_over(now)
}

/// The list without the events of the identifier `id`.
pub open spec fn without_id(events: Seq<Event>, id: Seq<char>) -> Seq<Event> {
    events.filter(lacks_id(id))
}

/// The list without the events that are over at the second `now`.
pub open spec fn still_due(events: Seq<Event>, now: int) -> Seq<Event> {
    events.filter(is_due(now))
}

/// `after` is `before` with one event more, which has the given
/// description, deadline and identifier and stands in its place.
pub open spec fn added(
    before: Seq<Event>,
    after: Seq<Event>,
    description: Seq<char>,
    due: EventType,
    id: Seq<char>,
) -> bool {
    let at = insertion_point(before, due.spec_timestamp());
    &&& after.len() == before.len() + 1
    &&& after == before.insert(at, after[at])
    &&& after[at].id@ == id
    &&& after[at].description@ == description
    &&& after[at].due == due
}

/// What adding an event at the second `now` does: the list gets the event
/// and the identifier comes back, unless the deadline has passed by then;
/// then the list stays as it is.
pub open spec fn add_outcome(
    before: Seq<Event>,
    after: Seq<Event>,
    r: Result<String, EventListError>,
    description: Seq<char>,
    due: EventType,
    id: Seq<char>,
    now: int,
) -> bool {
    if due.is_over(now) {
        r == Err::<String, EventListError>(EventListError::TooOld) && after == before
    } else {
        r matches Ok(given) && given@ == id && added(before, after, description, due, id)
    }
}

/// What adding an event does that is refused for its date: the list stays
/// as it is.
pub open spec fn add_refused(
    before: Seq<Event>,
    after: Seq<Event>,
    r: Result<String, EventListError>,
) -> bool {
    r == Err::<String, EventListError>(EventListError::InvalidDate) && after == before
}

/// What reading the list from storage gives: no list without a place to
/// keep it in; the empty list where nothing has been kept yet; no list where
/// what is kept cannot be read, or where one of the stored events is due
/// on a day or at a minute that does not exist; else the stored events, put
/// in the order in which they fall due.
pub open spec fn loaded(found: Stored) -> Result<Seq<Event>, EventListError> {
    match found {
        Stored::NoStorage => Err(EventListError::NoStorage),
        Stored::NoFile => Ok(Seq::empty()),
        Stored::Unreadable => Err(EventListError::BrokenFormat),
        Stored::Events(stored) => if all_restorable(stored@) {
            Ok(inserted_all(Seq::empty(), restored_events(stored@)))
        } else {
            Err(EventListError::BrokenFormat)
        },
    }
}

/// The insertion point is the one place behind which every event is due
/// later and before which none is.
pub proof fn lemma_insertion_point_at(events: Seq<Event>, key: int, at: int)
    requires
        0 <= at <= events.len(),
        forall|j: int| at <= j < events.len() ==> events[j].key() > key,
        at > 0 ==> events[at - 1].key() <= key,
    ensures
        insertion_point(events, key) == at,
    decreases events.len(),
{
    if events.len() > 0 && at < events.len() {
        let shorter = events.drop_last();
        lemma_insertion_point_at(shorter, key, at);
    }
}

/// The insertion point lies within the list; in a sorted list every event
/// before it is due no later than `key` and every event from it on is due
/// later.
pub proof fn lemma_insertion_point_splits(events: Seq<Event>, key: int)
    ensures
        0 <= insertion_point(events, key) <= events.len(),
        forall|j: int| insertion_point(events, key) <= j < events.len() ==> events[j].key() > key,
        is_sorted(events) ==> forall|j: int|
            0 <= j < insertion_point(events, key) ==> events[j].key() <= key,
    decreases events.len(),
{
    if events.len() > 0 && events.last().key() > key {
        let shorter = events.drop_last();
        lemma_insertion_point_splits(shorter, key);
        assert(forall|j: int| 0 <= j < shorter.len() ==> shorter[j] == events[j]);
        if is_sorted(events) {
            assert(is_sorted(shorter));
        }
    } else if events.len() > 0 {
        if is_sorted(events) {
            assert forall|j: int| 0 <= j < events.len() implies events[j].key() <= key by {
                assert(events[j].key() <= events[events.len() - 1].key());
            }
        }
    }
}

/// A sorted list is still sorted after an event has been put in its place.
pub proof fn lemma_inserted_is_sorted(events: Seq<Event>, event: Event)
    requires
        is_sorted(events),
    ensures
        is_sorted(inserted(events, event)),
        inserted(events, event).len() == events.len() + 1,
{
    lemma_insertion_point_splits(events, event.key());
    let at = insertion_point(events, event.key());
    let after = inserted(events, event);
    assert forall|i: int, j: int| 0 <= i <= j < after.len() implies after[i].key()
        <= after[j].key() by {
        if i < at && j < at {
            assert(after[i] == events[i] && after[j] == events[j]);
        } else if i < at && j == at {
            assert(after[i] == events[i]);
        } else if i < at && j > at {
            assert(after[i] == events[i] && after[j] == events[j - 1]);
        } else if i == at && j > at {
            assert(after[j] == events[j - 1]);
        } else if i > at && j > at {
            assert(after[i] == events[i - 1] && after[j] == events[j - 1]);
        }
    }
}

/// Why the event list could not do what was asked.
#[derive(Debug, Clone, Copy, PartialEq, Eq, Structural)]
pub enum EventListError {
    /// The text writes no date or no time of day.
    InvalidDate,
    /// The deadline had passed before the event was added.
    TooOld,
    /// There is no place to keep events in.
    NoStorage,
    /// What is kept cannot be read as events.
    BrokenFormat,
    /// No event has the identifier.
    NoSuchEvent,
}

/// The error of the list for an error of an event.
pub open spec fn list_error(error: EventError) -> EventListError {
    match error {
        EventError::InvalidDate(_) => EventListError::InvalidDate,
        EventError::TooOld => EventListError::TooOld,
    }
}

impl From<EventError> for EventListError {
    fn from(error: EventError) -> (r: EventListError) {
        match error {
            EventError::InvalidDate(_) => EventListError::InvalidDate,
            EventError::TooOld => EventListError::TooOld,
        }
    }
}

impl FromSpecImpl<EventError> for EventListError {
    open spec fn obeys_from_spec() -> bool {
        true
    }

    open spec fn from_spec(error: EventError) -> EventListError {
        list_error(error)
    }
}

/// The events of a list, in the order in which they fall due.
pub struct EventList {
    events: Vec<Event>,
}

impl View for EventList {
    type V = Seq<Event>;

    closed spec fn view(&self) -> Seq<Event> {
        self.events@
    }
}

impl EventList {
    /// Every list is sorted.
    #[verifier::type_invariant]
    closed spec fn sorted(&self) -> bool {
        is_sorted(self.events@)
    }

    /// Create an empty event list.
    pub fn empty() -> (list: Self)
        ensures
            list@ == Seq::<Event>::empty(),
    {
        Self { events: Vec::new() }
    }

    /// The events, earliest first.
    pub fn events(&self) -> (events: &Vec<Event>)
        ensures
            events@ == self@,
            is_sorted(self@),
    {
        proof {
            use_type_invariant(self);
        }
        &self.events
    }

    /// Puts `event` in its place: behind the events that are due no later,
    /// before those that are due later.
    pub fn push(&mut self, event: Event)
        ensures
            final(self)@ == inserted(old(self)@, event),
            final(self)@.len() == old(self)@.len() + 1,
            0 <= insertion_point(old(self)@, event.key()) <= old(self)@.len(),
            forall|j: int|
                0 <= j < insertion_point(old(self)@, event.key()) ==> (#[trigger] old(self)@[j]).key()
                    <= event.key(),
            forall|j: int|
                insertion_point(old(self)@, event.key()) <= j < old(self)@.len() ==> (#[trigger] old(
                    self,
                )@[j]).key() > event.key(),
            is_sorted(final(self)@),
    {
        proof {
            use_type_invariant(&*self);
        }
        let key = event.due.timestamp();
        let mut events: Vec<Event> = Vec::new();
        core::mem::swap(&mut self.events, &mut events);
        let mut at: usize = events.len();
        while at > 0 && events[at - 1].due.timestamp() > key
            invariant
                0 <= at <= events.len(),
                forall|j: int| at <= j < events.len() ==> events@[j].key() > key,
            decreases at,
        {
            at -= 1;
        }
        proof {
            lemma_insertion_point_at(events@, key as int, at as int);
            lemma_insertion_point_splits(events@, key as int);
            lemma_inserted_is_sorted(events@, event);
        }
        events.insert(at, event);
        self.events = events;
    }

    /// The number of events.
    pub fn len(&self) -> (n: usize)
        ensures
            n == self@.len(),
    {
        self.events.len()
    }

    /// Makes the list of what was found in storage.
    pub fn load(found: Stored) -> (r: Result<Self, EventListError>)
        ensures
            match loaded(found) {
                Ok(events) => r matches Ok(list) && list@ == events && is_sorted(events),
                Err(error) => r matches Err(given) && given == error,
            },
    {
        match found {
            Stored::NoStorage => Err(EventListError::NoStorage),
            Stored::NoFile => Ok(EventList::empty()),
            Stored::Unreadable => Err(EventListError::BrokenFormat),
            Stored::Events(stored) => {
                let mut list = EventList::empty();
                let ghost all = stored@;
                for one in it: stored
                    invariant
                        it.seq() == all,
                        loaded(found) == (if all_restorable(all) {
                            Ok::<Seq<Event>, EventListError>(
                                inserted_all(Seq::empty(), restored_events(all)),
                            )
                        } else {
                            Err::<Seq<Event>, EventListError>(EventListError::BrokenFormat)
                        }),
                        forall|j: int| 0 <= j < it.index() ==> (#[trigger] all[j]).restored().is_some(),
                        list@ == inserted_all(
                            Seq::empty(),
                            restored_events(all.take(it.index())),
                        ),
                        is_sorted(list@),
                {
                    let ghost before = restored_events(all.take(it.index()));
                    let ghost longer = restored_events(all.take(it.index() + 1));
                    match one.restore() {
                        Some(event) => {
                            proof {
                                assert(all.take(it.index() + 1).drop_last() == all.take(it.index()));
                                assert(longer.drop_last() == before);
                                assert(longer.last() == event);
                            }
                            list.push(event);
                        },
                        None => {
                            assert(all[it.index()].restored().is_none());
                            return Err(EventListError::BrokenFormat);
                        },
                    }
                }
                proof {
                    assert(all.take(all.len() as int) == all);
                }
                Ok(list)
            },
        }
    }

    /// What is to be kept in storage for this list: its events, in their
    /// order.
    pub fn save(&self) -> (stored: Vec<StoredEvent>)
        ensures
            all_restorable(stored@),
            restored_events(stored@) == self@,
    {
        let mut stored: Vec<StoredEvent> = Vec::new();
        let mut i: usize = 0;
        while i < self.events.len()
            invariant
                0 <= i <= self.events.len(),
                stored.len() == i,
                forall|j: int| 0 <= j < i ==> (#[trigger] stored@[j]).restored() == Some(self.events@[j]),
            decreases self.events.len() - i,
        {
            stored.push(StoredEvent::of(&self.events[i]));
            i += 1;
        }
        assert(restored_events(stored@) =~= self@);
        stored
    }

    /// Puts an event that was just created in its place and gives its
    /// identifier; hands on the error where none was created.
    fn push_created(&mut self, created: Result<Event, EventError>) -> (r: Result<
        String,
        EventListError,
    >)
        ensures
            match created {
                Ok(event) => r matches Ok(id) && id@ == event.id@ && final(self)@ == inserted(
                    old(self)@,
                    event,
                ) && is_sorted(final(self)@),
                Err(error) => r == Err::<String, EventListError>(list_error(error))
                    && final(self)@ == old(self)@,
            },
    {
        match created {
            Ok(event) => {
                let id = event.id.clone();
                self.push(event);
                Ok(id)
            },
            Err(error) => Err(EventListError::from(error)),
        }
    }

    /// Add an all day event to the list. Returns the ID of the new event.
    /// Draws the identifier at random and reads the local clock.
    pub fn add_event_with_date(&mut self, description: &str, date: &Date) -> (r: Result<
        String,
        EventListError,
    >)
        ensures
            exists|id: Seq<char>, now: int| #[trigger]
                add_outcome(
                    old(self)@,
                    final(self)@,
                    r,
                    description@,
                    EventType::AllDay(*date),
                    id,
                    now,
                ),
            is_sorted(final(self)@),
    {
        proof {
            use_type_invariant(&*self);
        }
        let now = local_now();
        let id = uuid();
        let ghost before = self@;
        let created = Event::with_deadline(description, EventType::AllDay(*date), id, now);
        let r = self.push_created(created);
        proof {
            lemma_insertion_point_splits(before, EventType::AllDay(*date).spec_timestamp());
            assert(add_outcome(
                before,
                self@,
                r,
                description@,
                EventType::AllDay(*date),
                id@,
                now as int,
            ));
        }
        r
    }

    /// Add an event with date and time to the list. Returns the ID of the
    /// new event. Draws the identifier at random and reads the local clock.
    pub fn add_event_with_date_and_time(&mut self, description: &str, datetime: &DateTime) -> (r:
        Result<String, EventListError>)
        ensures
            exists|id: Seq<char>, now: int| #[trigger]
                add_outcome(
                    old(self)@,
                    final(self)@,
                    r,
                    description@,
                    EventType::AtTime(*datetime),
                    id,
                    now,
                ),
            is_sorted(final(self)@),
    {
        proof {
            use_type_invariant(&*self);
        }
        let now = local_now();
        let id = uuid();
        let ghost before = self@;
        let created = Event::with_deadline(description, EventType::AtTime(*datetime), id, now);
        let r = self.push_created(created);
        proof {
            lemma_insertion_point_splits(before, EventType::AtTime(*datetime).spec_timestamp());
            assert(add_outcome(
                before,
                self@,
                r,
                description@,
                EventType::AtTime(*datetime),
                id@,
                now as int,
            ));
        }
        r
    }

    /// Adds an event that is due on the day that `date` writes as
    /// `YYYY-MM-DD`, at the second `now` of the civil clock, and returns its
    /// identifier. A text that writes no date is refused; a date that is
    /// over by `now` is refused as too old.
    pub fn add_all_day(&mut self, description: &str, date: &str, id: String, now: i64) -> (r:
        Result<String, EventListError>)
        ensures
            match Date::parsed(date@) {
                Some(day) => add_outcome(
                    old(self)@,
                    final(self)@,
                    r,
                    description@,
                    EventType::AllDay(day),
                    id@,
                    now as int,
                ),
                None => add_refused(old(self)@, final(self)@, r),
            },
            is_sorted(final(self)@),
    {
        proof {
            use_type_invariant(&*self);
        }
        let ghost before = self@;
        let created = Event::create_all_day(description, date, id, now);
        let r = self.push_created(created);
        proof {
            if let Some(day) = Date::parsed(date@) {
                lemma_insertion_point_splits(before, EventType::AllDay(day).spec_timestamp());
            }
        }
        r
    }

    /// Adds an event that is due at the minute that `date` and `time` write
    /// as `YYYY-MM-DD` and `HH:MM`, at the second `now` of the civil clock,
    /// and returns its identifier. Texts that write no moment are refused; a
    /// moment that is over by `now` is refused as too old.
    pub fn add_timed(
        &mut self,
        description: &str,
        date: &str,
        time: &str,
        id: String,
        now: i64,
    ) -> (r: Result<String, EventListError>)
        ensures
            match DateTime::parsed(date@, time@) {
                Some(moment) => add_outcome(
                    old(self)@,
                    final(self)@,
                    r,
                    description@,
                    EventType::AtTime(moment),
                    id@,
                    now as int,
                ),
                None => add_refused(old(self)@, final(self)@, r),
            },
            is_sorted(final(self)@),
    {
        proof {
            use_type_invariant(&*self);
        }
        let ghost before = self@;
        let created = Event::create_timed(description, date, time, id, now);
        let r = self.push_created(created);
        proof {
            if let Some(moment) = DateTime::parsed(date@, time@) {
                lemma_insertion_point_splits(before, EventType::AtTime(moment).spec_timestamp());
            }
        }
        r
    }

    /// Remove an event by its ID, and every other event of the same ID with
    /// it. Returns the description of the first of them. Where no event has
    /// the ID, the list stays as it is.
    pub fn remove_by_id(&mut self, id: &str) -> (r: Result<String, EventListError>)
        ensures
            match r {
                Ok(description) => has_id(old(self)@, id@) && description@ == old(self)@[index_of_id(
                    old(self)@,
                    id@,
                )].description@ && final(self)@ == without_id(old(self)@, id@),
                Err(error) => error == EventListError::NoSuchEvent && !has_id(old(self)@, id@)
                    && final(self)@ == old(self)@,
            },
            !has_id(final(self)@, id@),
            is_sorted(final(self)@),
    {
        proof {
            use_type_invariant(&*self);
        }
        let wanted = String::from_str(id);
        let mut first: usize = 0;
        while first < self.events.len() && self.events[first].id != wanted
            invariant
                0 <= first <= self.events.len(),
                wanted@ == id@,
                forall|j: int| 0 <= j < first ==> self.events@[j].id@ != id@,
            decreases self.events.len() - first,
        {
            first += 1;
        }
        proof {
            lemma_index_of_id_at(self.events@, id@, first as int);
        }
        if first == self.events.len() {
            return Err(EventListError::NoSuchEvent);
        }
        let description = self.events[first].description.clone();
        let mut events: Vec<Event> = Vec::new();
        core::mem::swap(&mut self.events, &mut events);
        let ghost all = events@;
        let ghost keep = lacks_id(id@);
        let mut kept: Vec<Event> = Vec::new();
        for event in it: events
            invariant
                it.seq() == all,
                is_sorted(all),
                wanted@ == id@,
                keep == lacks_id(id@),
                kept@ == all.take(it.index()).filter(keep),
                is_sorted(kept@),
                forall|j: int, k: int|
                    0 <= j < kept.len() && it.index() <= k < all.len() ==> kept@[j].key()
                        <= all[k].key(),
        {
            proof {
                assert(all.take(it.index() + 1) == all.take(it.index()).push(event));
                all.take(it.index()).lemma_filter_push(event, keep);
            }
            if event.id != wanted {
                kept.push(event);
            }
        }
        proof {
            assert(all.take(all.len() as int) == all);
            lemma_filtered_lacks_id(all, id@);
        }
        self.events = kept;
        Ok(description)
    }

    /// Remove all outdated events. Returns their number. Reads the local
    /// clock.
    pub fn remove_outdated(&mut self) -> (removed: usize)
        ensures
            exists|now: int| #[trigger] still_due(old(self)@, now) == final(self)@,
            removed == old(self)@.len() - final(self)@.len(),
            is_sorted(final(self)@),
    {
        let now = local_now();
        let ghost before = self@;
        let removed = self.remove_outdated_at(now);
        assert(still_due(before, now as int) == self@);
        removed
    }

    /// Removes the events that are over at the second `now` of the civil
    /// clock: those for which no time is left. Returns their number.
    pub fn remove_outdated_at(&mut self, now: i64) -> (removed: usize)
        ensures
            final(self)@ == still_due(old(self)@, now as int),
            removed == old(self)@.len() - final(self)@.len(),
            forall|i: int|
                0 <= i < final(self)@.len() ==> !(#[trigger] final(self)@[i]).due.is_over(now as int)
                    && old(self)@.contains(final(self)@[i]),
            forall|i: int|
                0 <= i < old(self)@.len() && !(#[trigger] old(self)@[i]).due.is_over(now as int)
                    ==> final(self)@.contains(old(self)@[i]),
            is_sorted(final(self)@),
    {
        proof {
            use_type_invariant(&*self);
        }
        let mut events: Vec<Event> = Vec::new();
        core::mem::swap(&mut self.events, &mut events);
        let ghost all = events@;
        let ghost keep = is_due(now as int);
        let initial_elements = events.len();
        let mut kept: Vec<Event> = Vec::new();
        for event in it: events
            invariant
                it.seq() == all,
                is_sorted(all),
                keep == is_due(now as int),
                kept@ == all.take(it.index()).filter(keep),
                kept.len() <= it.index(),
                is_sorted(kept@),
                forall|j: int| 0 <= j < kept.len() ==> !(#[trigger] kept@[j]).due.is_over(now as int),
                forall|j: int, k: int|
                    0 <= j < kept.len() && it.index() <= k < all.len() ==> kept@[j].key()
                        <= all[k].key(),
        {
            proof {
                assert(all.take(it.index() + 1) == all.take(it.index()).push(event));
                all.take(it.index()).lemma_filter_push(event, keep);
            }
            if event.due.remaining(now).is_some() {
                kept.push(event);
            }
        }
        proof {
            assert(all.take(all.len() as int) == all);
            lemma_filter_keeps_exactly(all, keep);
        }
        let final_elements = kept.len();
        self.events = kept;
        initial_elements - final_elements
    }
}

/// A walk through the events of a list, earliest first.
pub struct EventListIterator<'a> {
    index: usize,
    max: usize,
    list: &'a Vec<Event>,
}

impl<'a> EventListIterator<'a> {
    /// The walk has not passed the end of its list.
    #[verifier::type_invariant]
    closed spec fn within(&self) -> bool {
        self.index <= self.max && self.max == self.list@.len()
    }

    /// The events that the walk has yet to show, in their order.
    pub closed spec fn remaining(&self) -> Seq<Event> {
        self.list@.skip(self.index as int)
    }

    /// Shows the next event of the walk, or None when none is left.
    pub fn next(&mut self) -> (r: Option<&'a Event>)
        ensures
            match r {
                Some(event) => old(self).remaining().len() > 0 && *event == old(
                    self,
                ).remaining()[0] && final(self).remaining() == old(self).remaining().skip(1),
                None => old(self).remaining().len() == 0 && final(self).remaining() == old(
                    self,
                ).remaining(),
            },
    {
        proof {
            use_type_invariant(&*self);
        }
        if self.index >= self.max {
            None
        } else {
            let list: &'a Vec<Event> = self.list;
            let event = &list[self.index];
            self.index += 1;
            assert(self.list@.skip(self.index as int) == old(self).remaining().skip(1));
            Some(event)
        }
    }
}

impl EventList {
    /// Starts a walk through the events, earliest first.
    pub fn into_iter(&self) -> (walk: EventListIterator<'_>)
        ensures
            walk.remaining() == self@,
    {
        assert(self.events@.skip(0) == self.events@);
        EventListIterator { index: 0, max: self.events.len(), list: &self.events }
    }
}

/// The index of an identifier is the place of an event that has it, before
/// which no event has it.
pub proof fn lemma_index_of_id_at(events: Seq<Event>, id: Seq<char>, at: int)
    requires
        0 <= at <= events.len(),
        forall|j: int| 0 <= j < at ==> events[j].id@ != id,
        at < events.len() ==> events[at].id@ == id,
    ensures
        index_of_id(events, id) == at,
        has_id(events, id) == (at < events.len()),
    decreases at,
{
    if at > 0 {
        let rest = events.skip(1);
        assert forall|j: int| 0 <= j < at - 1 implies rest[j].id@ != id by {
            assert(rest[j] == events[j + 1]);
        }
        lemma_index_of_id_at(rest, id, at - 1);
    }
    if at < events.len() {
        assert(events[at].id@ == id);
    } else {
        assert forall|i: int| 0 <= i < events.len() implies events[i].id@ != id by {}
    }
}

/// Once the events of an identifier are taken out, no event has it.
pub proof fn lemma_filtered_lacks_id(events: Seq<Event>, id: Seq<char>)
    ensures
        !has_id(without_id(events, id), id),
{
    let keep = lacks_id(id);
    let rest = events.filter(keep);
    assert forall|i: int| 0 <= i < rest.len() implies rest[i].id@ != id by {
        events.lemma_filter_pred(keep, i);
    }
}

/// A list that is sorted stays sorted when events are put in their places
/// one after another, and grows by their number.
pub proof fn lemma_inserted_all_is_sorted(events: Seq<Event>, more: Seq<Event>)
    requires
        is_sorted(events),
    ensures
        is_sorted(inserted_all(events, more)),
        inserted_all(events, more).len() == events.len() + more.len(),
    decreases more.len(),
{
    if more.len() > 0 {
        lemma_inserted_all_is_sorted(events, more.drop_last());
        lemma_inserted_is_sorted(inserted_all(events, more.drop_last()), more.last());
    }
}

/// Putting events in their places loses none and invents none: the list
/// holds what it held and what was put in, each as often as before.
pub proof fn lemma_inserted_all_keeps_events(events: Seq<Event>, more: Seq<Event>)
    ensures
        inserted_all(events, more).to_multiset() == events.to_multiset().add(more.to_multiset()),
    decreases more.len(),
{
    broadcast use vstd::multiset::group_multiset_axioms;

    if more.len() == 0 {
        assert(more.to_multiset() =~= Multiset::<Event>::empty()) by {
            more.to_multiset_ensures();
        }
        assert(events.to_multiset().add(more.to_multiset()) =~= events.to_multiset());
    } else {
        let shorter = more.drop_last();
        let before = inserted_all(events, shorter);
        lemma_inserted_all_keeps_events(events, shorter);
        lemma_insertion_point_splits(before, more.last().key());
        vstd::seq_lib::to_multiset_insert(
            before,
            insertion_point(before, more.last().key()),
            more.last(),
        );
        assert(shorter.push(more.last()) == more);
        vstd::seq_lib::to_multiset_build(shorter, more.last());
        assert(inserted_all(events, more).to_multiset() =~= events.to_multiset().add(
            more.to_multiset(),
        ));
    }
}

/// Two lists of the same events, however ordered, have the same sort keys,
/// each as often as the other.
pub proof fn lemma_keys_of_same_events(a: Seq<Event>, b: Seq<Event>)
    requires
        a.to_multiset() == b.to_multiset(),
    ensures
        keys(a).to_multiset() == keys(b).to_multiset(),
    decreases a.len(),
{
    broadcast use vstd::multiset::group_multiset_axioms;

    a.to_multiset_ensures();
    b.to_multiset_ensures();
    if a.len() == 0 {
        assert(b.len() == 0);
        assert(keys(a) =~= keys(b));
    } else {
        let last = a.last();
        let shorter = a.drop_last();
        assert(shorter.push(last) == a);
        vstd::seq_lib::to_multiset_build(shorter, last);
        assert(a.to_multiset().count(last) > 0);
        assert(b.contains(last));
        let at = choose|at: int| 0 <= at < b.len() && b[at] == last;
        let rest = b.remove(at);
        assert(rest.insert(at, last) == b);
        vstd::seq_lib::to_multiset_insert(rest, at, last);
        assert(shorter.to_multiset() =~= a.to_multiset().remove(last));
        assert(rest.to_multiset() =~= b.to_multiset().remove(last));
        lemma_keys_of_same_events(shorter, rest);
        assert(keys(a) == keys(shorter).push(last.key()));
        assert(keys(b) == keys(rest).insert(at, last.key()));
        vstd::seq_lib::to_multiset_build(keys(shorter), last.key());
        vstd::seq_lib::to_multiset_insert(keys(rest), at, last.key());
    }
}

/// The order in which events are put into the list is immaterial to the
/// order in which they fall due: whichever way the same events are put into
/// an empty list, one after another, the list shows the same sort keys at
/// the same places.
pub proof fn lemma_insertion_order_is_immaterial(a: Seq<Event>, b: Seq<Event>)
    requires
        a.to_multiset() == b.to_multiset(),
    ensures
        keys(inserted_all(Seq::empty(), a)) == keys(inserted_all(Seq::empty(), b)),
        is_sorted(inserted_all(Seq::empty(), a)),
        is_sorted(inserted_all(Seq::empty(), b)),
{
    broadcast use vstd::multiset::group_multiset_axioms;

    let none = Seq::<Event>::empty();
    let one = inserted_all(none, a);
    let other = inserted_all(none, b);
    lemma_inserted_all_is_sorted(none, a);
    lemma_inserted_all_is_sorted(none, b);
    lemma_inserted_all_keeps_events(none, a);
    lemma_inserted_all_keeps_events(none, b);
    assert(one.to_multiset() =~= other.to_multiset());
    lemma_keys_of_same_events(one, other);
    let no_later = |x: int, y: int| x <= y;
    assert(vstd::relations::sorted_by(keys(one), no_later)) by {
        assert forall|i: int, j: int| 0 <= i < j < keys(one).len() implies #[trigger] no_later(
            keys(one)[i],
            keys(one)[j],
        ) by {
            assert(one[i].key() <= one[j].key());
        }
    }
    assert(vstd::relations::sorted_by(keys(other), no_later)) by {
        assert forall|i: int, j: int| 0 <= i < j < keys(other).len() implies #[trigger] no_later(
            keys(other)[i],
            keys(other)[j],
        ) by {
            assert(other[i].key() <= other[j].key());
        }
    }
    assert(vstd::relations::total_ordering(no_later));
    vstd::seq_lib::lemma_sorted_unique(keys(one), keys(other), no_later);
}

/// Events that already stand in the order in which they fall due stay as
/// they are when they are put into an empty list one after another.
pub proof fn lemma_sorted_events_stay(events: Seq<Event>)
    requires
        is_sorted(events),
    ensures
        inserted_all(Seq::empty(), events) == events,
    decreases events.len(),
{
    if events.len() > 0 {
        let shorter = events.drop_last();
        assert(is_sorted(shorter));
        lemma_sorted_events_stay(shorter);
        assert forall|j: int| 0 <= j < shorter.len() implies shorter[j].key()
            <= events.last().key() by {
            assert(shorter[j] == events[j]);
        }
        lemma_insertion_point_at(shorter, events.last().key(), shorter.len() as int);
        assert(shorter.insert(shorter.len() as int, events.last()) == events);
    }
}

/// What a list gives to be kept in storage is read back as that list.
pub proof fn lemma_load_after_save(events: Seq<Event>, stored: Vec<StoredEvent>)
    requires
        is_sorted(events),
        all_restorable(stored@),
        restored_events(stored@) == events,
    ensures
        loaded(Stored::Events(stored)) == Ok::<Seq<Event>, EventListError>(events),
{
    lemma_sorted_events_stay(events);
}

/// A sorted list is still sorted after events have been taken out of it.
pub proof fn lemma_filtered_is_sorted(events: Seq<Event>, keep: spec_fn(Event) -> bool)
    requires
        is_sorted(events),
    ensures
        is_sorted(events.filter(keep)),
    decreases events.len(),
{
    reveal(Seq::filter);
    if events.len() > 0 {
        let shorter = events.drop_last();
        assert(is_sorted(shorter));
        lemma_filtered_is_sorted(shorter, keep);
        let kept = shorter.filter(keep);
        if keep(events.last()) {
            let all = kept.push(events.last());
            assert forall|i: int, j: int| 0 <= i <= j < all.len() implies all[i].key()
                <= all[j].key() by {
                if j == kept.len() && i < kept.len() {
                    assert(kept.contains(kept[i]));
                    shorter.lemma_filter_contains_rev(keep, kept[i]);
                    assert(shorter.contains(kept[i]));
                    let from = choose|from: int| 0 <= from < shorter.len() && shorter[from] == kept[i];
                    assert(events[from].key() <= events[events.len() - 1].key());
                } else if j < kept.len() {
                    assert(kept[i].key() <= kept[j].key());
                }
            }
        }
    }
}

/// An event that was removed by its identifier does not come back: what
/// the list gives to be kept in storage after the removal is read back as a
/// list in which no event has the identifier.
pub proof fn lemma_removed_stays_removed(events: Seq<Event>, id: Seq<char>, stored: Vec<StoredEvent>)
    requires
        is_sorted(events),
        all_restorable(stored@),
        restored_events(stored@) == without_id(events, id),
    ensures
        loaded(Stored::Events(stored)) == Ok::<Seq<Event>, EventListError>(
            without_id(events, id),
        ),
        !has_id(without_id(events, id), id),
{
    lemma_filtered_is_sorted(events, lacks_id(id));
    lemma_load_after_save(without_id(events, id), stored);
    lemma_filtered_lacks_id(events, id);
}

/// Taking out the events of an identifier that no event has leaves the list
/// as it is.
pub proof fn lemma_without_unknown_id(events: Seq<Event>, id: Seq<char>)
    requires
        !has_id(events, id),
    ensures
        without_id(events, id) == events,
{
    let keep = lacks_id(id);
    assert forall|i: int| 0 <= i < events.len() implies keep(#[trigger] events[i]) by {
        assert(events[i].id@ != id);
    }
    lemma_filter_of_kept(events, keep);
}

/// What is left of a list after events have been taken out: the events
/// that were to be kept, every one of them and no other.
pub proof fn lemma_filter_keeps_exactly(events: Seq<Event>, keep: spec_fn(Event) -> bool)
    ensures
        forall|i: int|
            0 <= i < events.filter(keep).len() ==> keep(#[trigger] events.filter(keep)[i])
                && events.contains(events.filter(keep)[i]),
        forall|i: int|
            0 <= i < events.len() && keep(#[trigger] events[i]) ==> events.filter(keep).contains(
                events[i],
            ),
{
    let rest = events.filter(keep);
    assert forall|i: int| 0 <= i < rest.len() implies keep(#[trigger] rest[i]) && events.contains(
        rest[i],
    ) by {
        events.lemma_filter_pred(keep, i);
        assert(rest.contains(rest[i]));
        events.lemma_filter_contains_rev(keep, rest[i]);
    }
    assert forall|i: int| 0 <= i < events.len() && keep(#[trigger] events[i]) implies rest.contains(
        events[i],
    ) by {
        events.lemma_filter_contains(keep, i);
    }
}

/// A list of which every event is kept is left as it is.
pub proof fn lemma_filter_of_kept(events: Seq<Event>, keep: spec_fn(Event) -> bool)
    requires
        forall|i: int| 0 <= i < events.len() ==> keep(#[trigger] events[i]),
    ensures
        events.filter(keep) == events,
    decreases events.len(),
{
    reveal(Seq::filter);
    if events.len() > 0 {
        let shorter = events.drop_last();
        assert forall|i: int| 0 <= i < shorter.len() implies keep(#[trigger] shorter[i]) by {
            assert(shorter[i] == events[i]);
        }
        lemma_filter_of_kept(shorter, keep);
        assert(keep(events[events.len() - 1]));
        assert(shorter.push(events.last()) == events);
    }
}

/// Removing the outdated events removes exactly those for which no time is
/// left, and removing them once more removes nothing.
pub proof fn lemma_remove_outdated_is_idempotent(events: Seq<Event>, now: int)
    ensures
        forall|i: int|
            0 <= i < still_due(events, now).len() ==> !(#[trigger] still_due(events, now)[i]).due.is_over(
                now,
            ),
        forall|i: int|
            0 <= i < events.len() && !(#[trigger] events[i]).due.is_over(now) ==> still_due(
                events,
                now,
            ).contains(events[i]),
        still_due(still_due(events, now), now) == still_due(events, now),
{
    let keep = is_due(now);
    lemma_filter_keeps_exactly(events, keep);
    lemma_filter_of_kept(events.filter(keep), keep);
}

} // verus!
