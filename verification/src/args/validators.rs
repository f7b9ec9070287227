//! Checks of single words of a command line, before anything is done with
//! them.

use vstd::prelude::*;
use vstd::string::StringExecFns;
use crate::date::{date_in, Date};
use crate::datetime::{time_in, time_of};

verus! {

/// The complaint about a word that writes no date.
pub open spec fn invalid_date_message(input: Seq<char>) -> Seq<char> {
    seq!['I', 'n', 'v', 'a', 'l', 'i', 'd', ' ', 'd', 'a', 't', 'e', ':', ' ', '\''] + input
        + seq!['\'']
}

/// The complaint about a word that writes no time of day.
pub open spec fn invalid_time_message(input: Seq<char>) -> Seq<char> {
    seq!['I', 'n', 'v', 'a', 'l', 'i', 'd', ' ', 't', 'i', 'm', 'e', ':', ' ', '\''] + input
        + seq!['\'']
}

/// Accepts a word that writes a date as `YYYY-MM-DD`, and complains about
/// any other.
pub fn date(input: String) -> (r: Result<(), String>)
    ensures
        match r {
            Ok(_) => date_in(input@).is_some(),
            Err(message) => date_in(input@).is_none() && message@ == invalid_date_message(input@),
        },
{
    match Date::try_from(input.as_str()) {
        Ok(_) => Ok(()),
        Err(_) => {
            proof {
                reveal_strlit("Invalid date: '");
                reveal_strlit("'");
            }
            let mut message = String::from_str("Invalid date: '");
            message.append(input.as_str());
            message.append("'");
            assert(message@ =~= invalid_date_message(input@));
            Err(message)
        },
    }
}

/// Accepts a word that writes a time of day as `HH:MM`, and complains about
/// any other.
pub fn time(input: String) -> (r: Result<(), String>)
    ensures
        match r {
            Ok(_) => time_in(input@).is_some(),
            Err(message) => time_in(input@).is_none() && message@ == invalid_time_message(input@),
        },
{
    match time_of(input.as_str()) {
        Some(_) => Ok(()),
        None => {
            proof {
                reveal_strlit("Invalid time: '");
                reveal_strlit("'");
            }
            let mut message = String::from_str("Invalid time: '");
            message.append(input.as_str());
            message.append("'");
            assert(message@ =~= invalid_time_message(input@));
            Err(message)
        },
    }
}

} // verus!
