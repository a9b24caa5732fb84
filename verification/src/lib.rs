//! SAC13 calendar dates and their exact conversion to and from the
//! proleptic Gregorian calendar and linear day counts.
//!
//! The SAC13 year has thirteen months of 28 days, a year day at its end and,
//! in leap years, a leap day after August. Every date type names the same
//! days, from SAC13 `A000-01-01` to `Z999-13-29`, and converts to every
//! other by way of the Julian Day Number.

use vstd::prelude::*;

pub mod ascii;
pub mod cycle;
pub mod date_gregorian;
pub mod date_sac13;
pub mod day_counts;
mod euclid;
pub mod gregorian;
pub mod model;
pub mod month;
pub mod month_ordinal;
pub mod parse;
pub mod prelude;
pub mod scalars;
pub mod text;
pub mod traits;
pub mod weekday;
pub mod year;
pub mod year_ordinal;

pub use date_gregorian::GregorianDate;
pub use date_sac13::Date;
pub use month::Month;
pub use parse::parse_date_str;
pub use parse::ComponentOrder;
pub use parse::GregorianOrSac13;
pub use parse::ParsedDate;
pub use traits::CalendarDate;
pub use traits::Convert;
pub use weekday::Weekday;
pub use year::Year;

verus! {

/// The type of a year: a common year has 365 days, a leap year 366.
#[derive(Clone, Copy, PartialEq, Eq, Debug, Hash, Structural)]
pub enum YearType {
    Common,
    Leap,
}

} // verus!
