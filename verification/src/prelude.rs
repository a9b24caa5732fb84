//! Reexports for common types.

pub use crate::CalendarDate;
pub use crate::Convert;
pub use crate::Date;
pub use crate::GregorianDate;
pub use crate::Month;
pub use crate::Year;
