//! A small date-and-time library: dates from 1970 on, with calendar
//! navigation, verified against a mathematical model of the Gregorian calendar.

pub mod calendar;
pub mod clock;
pub mod datetime;
pub mod laws;
pub mod model;
pub mod order;
pub mod text;

pub use datetime::DateTime;
