//! A personal reminder tracker: events that fall due on a day or at a minute,
//! kept in chronological order, with the time that is left until each.

pub mod args;
pub mod calendar;
pub mod clock;
pub mod date;
pub mod date_errors;
pub mod datetime;
pub mod event;
pub mod eventlist;
pub mod eventtype;
pub mod ordering;
pub mod storage;
pub mod text;
