//! The order of events: by the last second of their deadlines, and by
//! nothing else. Two events that are due at the same second are equal in this
//! order, whatever they are about.

use vstd::prelude::*;
use core::cmp::Ordering;
use vstd::std_specs::cmp::PartialEqSpecImpl;
use vstd::std_specs::cmp::PartialOrdSpecImpl;
use crate::event::Event;

verus! {

impl PartialEq for Event {
    fn eq(&self, other: &Self) -> (r: bool) {
        self.due.timestamp() == other.due.timestamp()
    }
}

impl PartialEqSpecImpl for Event {
    open spec fn obeys_eq_spec() -> bool {
        true
    }

    open spec fn eq_spec(&self, other: &Event) -> bool {
        self.key() == other.key()
    }
}

impl Eq for Event {

}

impl PartialOrd for Event {
    fn partial_cmp(&self, other: &Self) -> (r: Option<Ordering>) {
        let mine = self.due.timestamp();
        let theirs = other.due.timestamp();
        if mine < theirs {
            Some(Ordering::Less)
        } else if mine == theirs {
            Some(Ordering::Equal)
        } else {
            Some(Ordering::Greater)
        }
    }
}

impl PartialOrdSpecImpl for Event {
    open spec fn obeys_partial_cmp_spec() -> bool {
        true
    }

    open spec fn partial_cmp_spec(&self, other: &Event) -> Option<Ordering> {
        if self.key() < other.key() {
            Some(Ordering::Less)
        } else if self.key() == other.key() {
            Some(Ordering::Equal)
        } else {
            Some(Ordering::Greater)
        }
    }
}

} // verus!
