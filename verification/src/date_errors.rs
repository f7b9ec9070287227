//! What can be wrong with a date or a time of day.

use vstd::prelude::*;

verus! {

/// Why a date or a time of day was refused.
#[derive(Debug, Clone, Copy, PartialEq, Eq, Structural)]
pub enum DateError {
    /// The date is not valid
    InvalidDate,
}

} // verus!
