//! What every date type has in common: each value stands for one day, named
//! by its Julian Day Number, and each day of the supported range has exactly
//! one value in every type.

use crate::scalars::JulianDay;
use vstd::prelude::*;

verus! {

/// Whether `j` is the Julian Day Number of a supported day, from SAC13
/// `A000-01-01` to `Z999-13-29`.
pub open spec fn in_julian_range(j: int) -> bool {
    JulianDay::MIN_INT <= j <= JulianDay::MAX_INT
}

/// A minimum set of functionality a typical calendar should provide.
///
/// A date type is a one-to-one naming of the supported days: `julian` gives
/// the Julian Day Number of a date and `of_julian` the date of a Julian Day
/// Number. Every implementation proves that the two are inverses.
pub trait CalendarDate: Sized {
    /// Whether the value is a date of this calendar. This holds of every
    /// value that a program can hold.
    spec fn is_valid(&self) -> bool;

    /// The Julian Day Number of the date.
    spec fn julian(&self) -> int;

    /// The date with the given Julian Day Number.
    spec fn of_julian(j: int) -> Self;

    /// Every supported day has a date, and that date falls on that day.
    proof fn lemma_of_julian(j: int)
        requires
            in_julian_range(j),
        ensures
            Self::of_julian(j).is_valid(),
            Self::of_julian(j).julian() == j,
    ;

    /// Every date falls on a supported day, and is the only date of that day.
    proof fn lemma_julian(self)
        requires
            self.is_valid(),
        ensures
            in_julian_range(self.julian()),
            Self::of_julian(self.julian()) == self,
    ;

    /// Earliest representable date.
    fn min_value() -> (r: Self)
        ensures
            r == Self::of_julian(JulianDay::MIN_INT as int),
    ;

    /// Latest representable date.
    fn max_value() -> (r: Self)
        ensures
            r == Self::of_julian(JulianDay::MAX_INT as int),
    ;

    /// Convert the date into the corresponding Julian Day Number.
    fn as_julian(&self) -> (j: i32)
        ensures
            self.is_valid(),
            j == self.julian(),
    ;

    /// Get the date from the corresponding Julian Day Number; `None` for a
    /// day outside the supported range.
    fn from_julian(value: i32) -> (r: Option<Self>)
        ensures
            r == (if in_julian_range(value as int) {
                Some(Self::of_julian(value as int))
            } else {
                None
            }),
    ;

    /// The day after; `None` after the latest date.
    fn tomorrow(self) -> (r: Option<Self>)
        ensures
            r == (if self.julian() < JulianDay::MAX_INT {
                Some(Self::of_julian(self.julian() + 1))
            } else {
                None
            }),
    {
        let j = self.as_julian();
        proof {
            self.lemma_julian();
        }
        Self::from_julian(j + 1)
    }

    /// The day before; `None` before the earliest date.
    fn yesterday(self) -> (r: Option<Self>)
        ensures
            r == (if self.julian() > JulianDay::MIN_INT {
                Some(Self::of_julian(self.julian() - 1))
            } else {
                None
            }),
    {
        let j = self.as_julian();
        proof {
            self.lemma_julian();
        }
        Self::from_julian(j - 1)
    }
}

/// Conversion between calendars: every date type converts to every other,
/// by way of the Julian Day Number.
pub trait Convert: CalendarDate {
    /// Converts the calendar date to a different calendar system: the result
    /// is the date of the same day.
    fn convert<T: CalendarDate>(self) -> (r: T)
        ensures
            r == T::of_julian(self.julian()),
    ;
}

impl<S: CalendarDate> Convert for S {
    fn convert<T: CalendarDate>(self) -> (r: T) {
        let j = self.as_julian();
        proof {
            self.lemma_julian();
        }
        T::from_julian(j).unwrap()
    }
}

/// The date of the day after `x`, where there is one.
pub open spec fn day_after<T: CalendarDate>(x: T) -> Option<T> {
    if x.julian() < JulianDay::MAX_INT {
        Some(T::of_julian(x.julian() + 1))
    } else {
        None
    }
}

/// The date of the day before `x`, where there is one.
pub open spec fn day_before<T: CalendarDate>(x: T) -> Option<T> {
    if x.julian() > JulianDay::MIN_INT {
        Some(T::of_julian(x.julian() - 1))
    } else {
        None
    }
}

/// Converting a date to its own type gives the date back.
pub proof fn lemma_convert_to_self<T: CalendarDate>(x: T)
    requires
        x.is_valid(),
    ensures
        T::of_julian(x.julian()) == x,
{
    x.lemma_julian();
}

/// Converting a date to another type and back gives the date back.
pub proof fn lemma_convert_there_and_back<S: CalendarDate, T: CalendarDate>(x: S)
    requires
        x.is_valid(),
    ensures
        T::of_julian(x.julian()).is_valid(),
        S::of_julian(T::of_julian(x.julian()).julian()) == x,
{
    x.lemma_julian();
    T::lemma_of_julian(x.julian());
}

/// The day before the day after a date is that date.
pub proof fn lemma_tomorrow_yesterday<T: CalendarDate>(x: T)
    requires
        x.is_valid(),
        x.julian() < JulianDay::MAX_INT,
    ensures
        day_after(x) matches Some(t) && t.is_valid() && day_before(t) == Some(x),
{
    x.lemma_julian();
    T::lemma_of_julian(x.julian() + 1);
}

/// The day after the day before a date is that date.
pub proof fn lemma_yesterday_tomorrow<T: CalendarDate>(x: T)
    requires
        x.is_valid(),
        x.julian() > JulianDay::MIN_INT,
    ensures
        day_before(x) matches Some(y) && y.is_valid() && day_after(y) == Some(x),
{
    x.lemma_julian();
    T::lemma_of_julian(x.julian() - 1);
}

/// Day by day, every date type steps as the Julian Day Number does: the day
/// after the date of day `j - 1` is the date of day `j`, and the day before
/// the date of day `j` is the date of day `j - 1`.
pub proof fn lemma_lockstep<T: CalendarDate>(j: int)
    requires
        in_julian_range(j - 1),
        in_julian_range(j),
    ensures
        day_after(T::of_julian(j - 1)) == Some(T::of_julian(j)),
        day_before(T::of_julian(j)) == Some(T::of_julian(j - 1)),
{
    T::lemma_of_julian(j - 1);
    T::lemma_of_julian(j);
}

/// Only the latest date has no day after, and only the earliest has no day
/// before.
pub proof fn lemma_boundary<T: CalendarDate>(x: T)
    requires
        x.is_valid(),
    ensures
        day_after(x) is None <==> x == T::of_julian(JulianDay::MAX_INT as int),
        day_before(x) is None <==> x == T::of_julian(JulianDay::MIN_INT as int),
{
    x.lemma_julian();
    T::lemma_of_julian(JulianDay::MAX_INT as int);
    T::lemma_of_julian(JulianDay::MIN_INT as int);
}

} // verus!
