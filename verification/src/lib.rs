//! Month calendar: the days of a month laid out in weeks, with the saved
//! event of each day, Czech day and month names, public holidays and
//! non-working days.
pub mod calendar;
pub mod client;
pub mod date;
pub mod holidays;
pub mod model;
pub mod names;
