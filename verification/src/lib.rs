//! Unix epoch values: reading them, writing them as ISO-8601 timestamps, and moving them by
//! durations, with months and years counted on the calendar.

pub mod apply;
pub mod calendar;
pub mod command;
pub mod duration;
pub mod epoch;
pub mod error;
pub mod iso;
pub mod text;

pub use apply::apply_duration;
pub use calendar::{
    add_months_to_date, add_years_to_date, days_in_month, is_leap_year, CalendarDate, TimeOfDay,
};
pub use command::{plan, process_line, shift, Plan};
pub use duration::{is_duration, Duration};
pub use epoch::{calendar_to_epoch, epoch_to_calendar, now, parse_epoch};
pub use error::EtError;
pub use iso::{format_iso, parse_iso};
