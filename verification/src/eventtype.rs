//! When an event is due: on a day, or at a minute of a day.

use vstd::prelude::*;
use vstd::string::StringExecFns;
use crate::date::Date;
use crate::datetime::DateTime;
use crate::text::{decimal_digits, push_decimal};

verus! {

/// The deadline of an event.
#[derive(Debug, Clone, Copy, PartialEq, Eq, Structural)]
pub enum EventType {
    /// Due on a day, through its last second.
    AllDay(Date),
    /// Due at a minute, through its last second.
    AtTime(DateTime),
}

/// The time that is left until a deadline.
#[derive(Debug, Clone, Copy, PartialEq, Eq, Structural)]
pub enum Remaining {
    /// Whole days until a day.
    Days(u64),
    /// Whole days until a minute, and the whole hours left over.
    DaysAndHours(u64, u64),
}

impl Remaining {
    /// How the time that is left reads in a list of events.
    pub open spec fn text(&self) -> Seq<char> {
        match *self {
            Remaining::Days(days) => if days == 0 {
                seq!['T', 'o', 'd', 'a', 'y']
            } else if days == 1 {
                seq!['T', 'o', 'm', 'o', 'r', 'r', 'o', 'w']
            } else {
                decimal_digits(days as nat) + seq!['d']
            },
            Remaining::DaysAndHours(days, hours) => if days == 0 {
                decimal_digits(hours as nat) + seq!['h']
            } else {
                decimal_digits(days as nat) + seq!['d', ' '] + decimal_digits(hours as nat)
                    + seq!['h']
            },
        }
    }

    /// How the time that is left reads in a list of events: `Today`,
    /// `Tomorrow` or a number of days like `12d` until a day; hours like
    /// `5h`, or days and hours like `3d 5h`, until a minute.
    pub fn label(&self) -> (s: String)
        ensures
            s@ == self.text(),
    {
        proof {
            reveal_strlit("Today");
            reveal_strlit("Tomorrow");
            reveal_strlit("d");
            reveal_strlit("d ");
            reveal_strlit("h");
        }
        let mut s = String::new();
        match *self {
            Remaining::Days(days) => {
                if days == 0 {
                    s.append("Today");
                } else if days == 1 {
                    s.append("Tomorrow");
                } else {
                    push_decimal(&mut s, days);
                    s.append("d");
                }
            },
            Remaining::DaysAndHours(days, hours) => {
                if days == 0 {
                    push_decimal(&mut s, hours);
                    s.append("h");
                } else {
                    push_decimal(&mut s, days);
                    s.append("d ");
                    push_decimal(&mut s, hours);
                    s.append("h");
                }
            },
        }
        assert(s@ =~= self.text());
        s
    }
}

impl EventType {
    /// The sort key of the deadline: its last second on the civil clock.
    pub open spec fn spec_timestamp(&self) -> int {
        match *self {
            EventType::AllDay(date) => date.spec_timestamp(),
            EventType::AtTime(moment) => moment.spec_timestamp(),
        }
    }

    /// The deadline has passed at the second `now`: its last second lies
    /// strictly before `now`.
    pub open spec fn is_over(&self, now: int) -> bool {
        self.spec_timestamp() < now
    }

    /// `left` is the time from the second `now` until the deadline: days
    /// for a day, days and hours for a minute, nothing once it has passed.
    pub open spec fn remaining_is(&self, now: int, left: Option<Remaining>) -> bool {
        match (*self, left) {
            (EventType::AllDay(date), None) => date.spec_days_until(now).is_none(),
            (EventType::AllDay(date), Some(Remaining::Days(days))) => date.spec_days_until(now)
                == Some(days as int),
            (EventType::AtTime(moment), None) => moment.spec_remaining_until(now).is_none(),
            (
                EventType::AtTime(moment),
                Some(Remaining::DaysAndHours(days, hours)),
            ) => moment.spec_remaining_until(now) == Some((days as int, hours as int)),
            _ => false,
        }
    }

    /// The sort key of the deadline: its last second on the civil clock.
    pub fn timestamp(&self) -> (t: i64)
        ensures
            t == self.spec_timestamp(),
    {
        match self {
            EventType::AllDay(date) => date.timestamp(),
            EventType::AtTime(datetime) => datetime.timestamp(),
        }
    }

    /// The time that is left from the second `now` of the civil clock until
    /// the deadline; None once the deadline has passed.
    pub fn remaining(&self, now: i64) -> (left: Option<Remaining>)
        ensures
            self.remaining_is(now as int, left),
            left.is_none() == self.is_over(now as int),
    {
        match self {
            EventType::AllDay(date) => match date.days_until(now) {
                Some(days) => Some(Remaining::Days(days)),
                None => None,
            },
            EventType::AtTime(datetime) => match datetime.remaining_until(now) {
                Some((days, hours)) => Some(Remaining::DaysAndHours(days, hours)),
                None => None,
            },
        }
    }
}

/// The time that is left is fixed by the deadline and the clock.
pub proof fn lemma_remaining_is_unique(
    due: EventType,
    now: int,
    a: Option<Remaining>,
    b: Option<Remaining>,
)
    requires
        due.remaining_is(now, a),
        due.remaining_is(now, b),
    ensures
        a == b,
{
}

} // verus!
