//! Dates as plain numbers: what the contracts of the date types speak of.

use core::cmp::Ordering;
use vstd::prelude::*;

verus! {

/// A year and a day of that year, counted from zero.
pub struct YearDay {
    pub year: int,
    pub day: int,
}

/// A year, a month and a day of that month, both counted from one.
pub struct Ymd {
    pub year: int,
    pub month: int,
    pub day: int,
}

/// Whether date `a` comes before date `b`: by year, then month, then day.
pub open spec fn date_before(a: Ymd, b: Ymd) -> bool {
    a.year < b.year || (a.year == b.year && (a.month < b.month || (a.month == b.month && a.day
        < b.day)))
}

/// How date `a` compares with date `b`: by year, then month, then day.
pub open spec fn date_order(a: Ymd, b: Ymd) -> Ordering {
    if date_before(a, b) {
        Ordering::Less
    } else if date_before(b, a) {
        Ordering::Greater
    } else {
        Ordering::Equal
    }
}

/// How the number `a` compares with the number `b`.
pub open spec fn number_order(a: int, b: int) -> Ordering {
    if a < b {
        Ordering::Less
    } else if a > b {
        Ordering::Greater
    } else {
        Ordering::Equal
    }
}

/// Whether day `a` of a year comes before day `b` of a year: by year, then
/// day.
pub open spec fn year_day_before(a: YearDay, b: YearDay) -> bool {
    a.year < b.year || (a.year == b.year && a.day < b.day)
}

/// How day `a` of a year compares with day `b` of a year: by year, then day.
pub open spec fn year_day_order(a: YearDay, b: YearDay) -> Ordering {
    if year_day_before(a, b) {
        Ordering::Less
    } else if year_day_before(b, a) {
        Ordering::Greater
    } else {
        Ordering::Equal
    }
}

} // verus!
