//! Primitive types for linear day counts like the Julian Day Number.

pub use crate::scalars::CycleEpochDay;
pub use crate::scalars::JulianDay;
pub use crate::scalars::Sac13Day;
pub use crate::scalars::UnixDay;
pub use crate::year_ordinal::YearOrdinal;
