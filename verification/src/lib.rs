//! A verified Persian (Jalali/Shamsi) calendar engine: date and date-time
//! values with validated invariants, the 33-year cycle leap rule,
//! bidirectional Gregorian conversion over an epoch-anchored day count,
//! calendar-unit and duration arithmetic with explicit clamping rules, and a
//! specifier-driven formatting and parsing engine with Persian name tables.
//!
//! Every operation carries a contract over the mathematical model of the
//! calendar, and the central laws — the Gregorian conversion round trip and
//! the format/parse round trip — are proved as theorems.

pub mod calendar;
pub mod date;
pub mod datetime;
pub mod error;
pub mod events;
pub mod gregorian;
pub mod handlers;
pub mod logic;
pub mod names;
pub mod pattern;
pub mod text;

pub use crate::date::ParsiDate;
pub use crate::datetime::ParsiDateTime;
pub use crate::error::{DateError, ParseErrorKind};
pub use crate::gregorian::{CivilDate, CivilDateTime};
pub use crate::logic::{
    add_to_datetime, convert_from_gregorian, convert_to_gregorian, get_current_parsi_datetime,
    get_date_info, get_days_diff, get_weekday, is_leap_year, sub_from_datetime, DateInfo,
};
