//! Calendar fields from a count of seconds since the start of year 0, and
//! back, with a yearly window of daylight saving time.

pub mod calendar;
pub mod calendar_laws;
pub mod comparison;
pub mod daylight_savings;
pub mod time_formatter;

pub use crate::daylight_savings::DaylightSavings;
pub use crate::time_formatter::{TimeFormattable, TimeFormatter};
