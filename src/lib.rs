//! A weekly planner core: calendar dates as day counts, the Monday that opens
//! a date's week, weekday labels, and the state of a seven-column week view.

pub mod date;
pub mod planner;

pub use date::{CalendarDate, Weekday, compute_last_monday, weekday_to_japanese};
