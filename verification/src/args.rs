//! What the user asked for: the action that the words of a command line
//! stand for, once they have been told apart.

use vstd::prelude::*;
use vstd::std_specs::convert::FromSpecImpl;
use vstd::string::StringExecFns;
use crate::date::Date;
use crate::date_errors::DateError;
use crate::datetime::DateTime;

pub mod validators;

verus! {

/// Why the words stand for no action.
#[derive(Debug, Clone, Copy, PartialEq, Eq, Structural)]
pub enum ParseError {
    /// The date or the time of day does not exist.
    InvalidDate,
    /// The command is not known.
    UnknownOption,
    /// An event was to be added, and nothing says what it is about.
    MissingDescription,
    /// An event was to be added, and nothing says when it is due.
    MissingDate,
    /// An event was to be removed, and nothing says which.
    MissingEventId,
}

impl From<DateError> for ParseError {
    fn from(error: DateError) -> (r: ParseError) {
        ParseError::InvalidDate
    }
}

impl FromSpecImpl<DateError> for ParseError {
    open spec fn obeys_from_spec() -> bool {
        true
    }

    open spec fn from_spec(error: DateError) -> ParseError {
        ParseError::InvalidDate
    }
}

/// What the user asked for.
#[derive(Debug)]
pub enum Action {
    /// Show the events.
    List,
    /// Add an event of this description that is due on this day.
    Add(String, Date),
    /// Add an event of this description that is due at this minute.
    AddWithTime(String, DateTime),
    /// Remove the event of this identifier.
    RemoveById(String),
    /// Remove the events that are over.
    RemoveOutdated,
}

/// The words that came with a command, told apart.
#[derive(Debug)]
pub struct Arguments {
    /// What the event is about.
    pub description: Option<String>,
    /// The date on which the event is due, as `YYYY-MM-DD`.
    pub date: Option<String>,
    /// The time of day at which the event is due, as `HH:MM`.
    pub time: Option<String>,
    /// The identifier of an event.
    pub id: Option<String>,
    /// Whether the events that are over were named.
    pub outdated: bool,
}

/// `r` is the action for adding what the words describe.
pub open spec fn is_add(r: Result<Action, ParseError>, arguments: Arguments) -> bool {
    match (arguments.description, arguments.date) {
        (None, _) => r matches Err(ParseError::MissingDescription),
        (Some(_), None) => r matches Err(ParseError::MissingDate),
        (Some(description), Some(date)) => match arguments.time {
            Some(time) => match DateTime::parsed(date@, time@) {
                Some(moment) => r matches Ok(Action::AddWithTime(about, due)) && about@
                    == description@ && due == moment,
                None => r matches Err(ParseError::InvalidDate),
            },
            None => match Date::parsed(date@) {
                Some(day) => r matches Ok(Action::Add(about, due)) && about@ == description@
                    && due == day,
                None => r matches Err(ParseError::InvalidDate),
            },
        },
    }
}

/// `r` is the action for removing what the words name.
pub open spec fn is_rm(r: Result<Action, ParseError>, arguments: Arguments) -> bool {
    if arguments.outdated {
        r matches Ok(Action::RemoveOutdated)
    } else {
        match arguments.id {
            Some(id) => r matches Ok(Action::RemoveById(given)) && given@ == id@,
            None => r matches Err(ParseError::MissingEventId),
        }
    }
}

/// The name of the command that adds an event.
pub open spec fn add_command() -> Seq<char> {
    seq!['a', 'd', 'd']
}

/// The name of the command that removes events.
pub open spec fn rm_command() -> Seq<char> {
    seq!['r', 'm']
}

/// The action that a command and its words stand for: no command shows the
/// events, `add` adds one and `rm` removes some; any other command, and
/// `add` or `rm` without words, is unknown.
pub fn parse(subcommand: &str, arguments: Option<&Arguments>) -> (r: Result<Action, ParseError>)
    ensures
        subcommand@.len() == 0 ==> r matches Ok(Action::List),
        subcommand@ == add_command() ==> match arguments {
            Some(given) => is_add(r, *given),
            None => r matches Err(ParseError::UnknownOption),
        },
        subcommand@ == rm_command() ==> match arguments {
            Some(given) => is_rm(r, *given),
            None => r matches Err(ParseError::UnknownOption),
        },
        subcommand@.len() != 0 && subcommand@ != add_command() && subcommand@ != rm_command()
            ==> r matches Err(ParseError::UnknownOption),
{
    proof {
        reveal_strlit("add");
        reveal_strlit("rm");
        assert("add"@ =~= add_command());
        assert("rm"@ =~= rm_command());
    }
    let command = String::from_str(subcommand);
    if subcommand.is_empty() {
        Ok(Action::List)
    } else if command == String::from_str("add") {
        match arguments {
            Some(given) => parse_add(given),
            None => Err(ParseError::UnknownOption),
        }
    } else if command == String::from_str("rm") {
        match arguments {
            Some(given) => parse_rm(given),
            None => Err(ParseError::UnknownOption),
        }
    } else {
        Err(ParseError::UnknownOption)
    }
}

/// The action for `add`: what the event is about and when it is due, on a
/// day or, where a time of day is given, at a minute.
pub fn parse_add(arguments: &Arguments) -> (r: Result<Action, ParseError>)
    ensures
        is_add(r, *arguments),
{
    let description = match &arguments.description {
        Some(description) => description,
        None => {
            return Err(ParseError::MissingDescription);
        },
    };
    let date = match &arguments.date {
        Some(date) => date,
        None => {
            return Err(ParseError::MissingDate);
        },
    };
    match &arguments.time {
        Some(time) => match DateTime::try_from(date.as_str(), time.as_str()) {
            Ok(moment) => Ok(Action::AddWithTime(description.clone(), moment)),
            Err(error) => Err(ParseError::from(error)),
        },
        None => match Date::try_from(date.as_str()) {
            Ok(day) => Ok(Action::Add(description.clone(), day)),
            Err(error) => Err(ParseError::from(error)),
        },
    }
}

/// The action for `rm`: the events that are over where they were named,
/// else the event of the identifier.
pub fn parse_rm(arguments: &Arguments) -> (r: Result<Action, ParseError>)
    ensures
        is_rm(r, *arguments),
{
    if arguments.outdated {
        Ok(Action::RemoveOutdated)
    } else {
        match &arguments.id {
            Some(id) => Ok(Action::RemoveById(id.clone())),
            None => Err(ParseError::MissingEventId),
        }
    }
}

} // verus!
