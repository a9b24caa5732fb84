//! The Gregorian calendar date, restricted to the days that have a SAC13
//! date.

use crate::euclid::floor_div;
use crate::euclid::floor_mod;
use crate::gregorian::closed_date;
use crate::gregorian::closed_julian;
use crate::gregorian::date_julian;
use crate::gregorian::first_date;
use crate::gregorian::is_date;
use crate::gregorian::is_leap_year;
use crate::gregorian::is_month_day;
use crate::gregorian::last_date;
use crate::gregorian::lemma_closed_date_in_range;
use crate::gregorian::lemma_closed_julian;
use crate::gregorian::lemma_date_julian_injective;
use crate::gregorian::lemma_date_julian_range;
use crate::gregorian::lemma_first_and_last_date;
use crate::gregorian::lemma_next_date;
use crate::gregorian::lemma_previous_date;
use crate::gregorian::month_len;
use crate::gregorian::next_date;
use crate::gregorian::previous_date;
use crate::gregorian::written_date;
use crate::model::date_order;
use crate::model::Ymd;
use crate::scalars::JulianDay;
use crate::text::push_integer;
use crate::text::push_two_digits;
use crate::traits::CalendarDate;
use core::cmp::Ordering;
use vstd::prelude::*;
use vstd::std_specs::cmp::PartialOrdSpecImpl;

verus! {

/// The three components of a date as numbers.
pub open spec fn ymd(year: i16, month: u8, day: u8) -> Ymd {
    Ymd { year: year as int, month: month as int, day: day as int }
}

/// Gregorian Calendar date (proleptic, when applicable).
///
/// The implementation for the Gregorian Calendar is very slim: it is only
/// here to allow conversions from the Gregorian Calendar to SAC13 and
/// vice-versa.
#[derive(Debug, Clone, Copy, PartialEq, Eq, Ord, Hash, Structural)]
pub struct GregorianDate {
    year: i16,
    month: u8,
    day: u8,
}

impl View for GregorianDate {
    type V = Ymd;

    /// The year, the month and the day.
    closed spec fn view(&self) -> Ymd {
        ymd(self.year, self.month, self.day)
    }
}

impl GregorianDate {
    /// The date is a supported Gregorian date.
    #[verifier::type_invariant]
    pub open spec fn valid(self) -> bool {
        is_date(self@)
    }

    /// Two dates with the same year, month and day are the same date.
    pub proof fn lemma_view_injective(a: GregorianDate, b: GregorianDate)
        requires
            a@ == b@,
        ensures
            a == b,
    {
    }

    /// The date with the given numbers.
    pub closed spec fn of_ymd(d: Ymd) -> GregorianDate {
        GregorianDate { year: d.year as i16, month: d.month as u8, day: d.day as u8 }
    }

    /// A date made from the numbers of a supported date has those numbers.
    pub proof fn lemma_of_ymd(d: Ymd)
        requires
            is_date(d),
        ensures
            GregorianDate::of_ymd(d)@ == d,
    {
    }

    /// Earliest representable date: -10'000-03-22, which corresponds to
    /// A000-01-01 in SAC13.
    pub fn min_value() -> (r: GregorianDate)
        ensures
            r@ == first_date(),
    {
        GregorianDate { year: -10000, month: 3, day: 22 }
    }

    /// Latest representable date: 16'000-03-17, which corresponds to
    /// Z999-13-29 in SAC13.
    pub fn max_value() -> (r: GregorianDate)
        ensures
            r@ == last_date(),
    {
        GregorianDate { year: 16000, month: 3, day: 17 }
    }

    /// Creates a Gregorian Calendar date from its components year, month and
    /// day.
    ///
    /// Returns `None` if the given date doesn't exist in the Gregorian
    /// Calendar, like day zero or August 32nd, or February 29th on common
    /// years, and if it has no SAC13 date.
    pub fn from_ymd(year: i16, month: u8, day: u8) -> (r: Option<GregorianDate>)
        ensures
            r is Some <==> is_date(ymd(year, month, day)),
            r matches Some(d) ==> d@ == ymd(year, month, day),
    {
        match Self::month_len(year, month) {
            None => None,
            Some(len) => {
                if day == 0 || day > len {
                    None
                } else {
                    Self::limit_sac13(year, month, day)
                }
            },
        }
    }

    /// Whether the year is a leap year: every fourth year, but of the
    /// centuries only every fourth.
    pub fn is_leap_year(year: i16) -> (r: bool)
        ensures
            r == is_leap_year(year as int),
    {
        if floor_mod(year as i32, 400) == 0 {
            true
        } else if floor_mod(year as i32, 100) == 0 {
            false
        } else {
            floor_mod(year as i32, 4) == 0
        }
    }

    /// The number of days of the month; `None` unless the month is from 1
    /// to 12.
    pub fn month_len(year: i16, month: u8) -> (r: Option<u8>)
        ensures
            r is Some <==> 1 <= month <= 12,
            r matches Some(len) ==> len == month_len(year as int, month as int),
    {
        if month == 0 || month > 12 {
            return None;
        }
        Some(
            if month == 2 {
                if Self::is_leap_year(year) {
                    29
                } else {
                    28
                }
            } else if month == 4 || month == 6 || month == 9 || month == 11 {
                30
            } else {
                31
            },
        )
    }

    /// Year component of the date.
    pub fn year(&self) -> (r: i16)
        ensures
            r == self@.year,
    {
        self.year
    }

    /// Month component of the date.
    pub fn month(&self) -> (r: u8)
        ensures
            r == self@.month,
            1 <= r <= 12,
    {
        proof {
            use_type_invariant(self);
        }
        self.month
    }

    /// Day component of the date.
    pub fn day(&self) -> (r: u8)
        ensures
            r == self@.day,
            1 <= r <= month_len(self@.year, self@.month),
    {
        proof {
            use_type_invariant(self);
        }
        self.day
    }

    /// The date as it is written: year, month and day with hyphens between
    /// them, as in `2024-12-05`.
    pub fn to_string(&self) -> (r: String)
        ensures
            r@ == written_date(self@),
    {
        let mut s = String::new();
        push_integer(&mut s, self.year as i32);
        s.push('-');
        push_two_digits(&mut s, self.month);
        s.push('-');
        push_two_digits(&mut s, self.day);
        assert(s@ =~= written_date(self@));
        s
    }

    /// The date, if it is a supported date: not before the earliest and not
    /// after the latest.
    fn limit_sac13(year: i16, month: u8, day: u8) -> (r: Option<GregorianDate>)
        requires
            is_month_day(ymd(year, month, day)),
        ensures
            r is Some <==> is_date(ymd(year, month, day)),
            r matches Some(d) ==> d@ == ymd(year, month, day),
    {
        if matches!(Self::const_cmp((year, month, day), (-10000, 3, 22)), Ordering::Less)
            || matches!(Self::const_cmp((year, month, day), (16000, 3, 17)), Ordering::Greater) {
            None
        } else {
            Some(GregorianDate { year, month, day })
        }
    }

    /// Compares two dates given by year, month and day.
    fn const_cmp(lhs: (i16, u8, u8), rhs: (i16, u8, u8)) -> (r: Ordering)
        ensures
            r == date_order(ymd(lhs.0, lhs.1, lhs.2), ymd(rhs.0, rhs.1, rhs.2)),
    {
        if lhs.0 < rhs.0 {
            Ordering::Less
        } else if lhs.0 > rhs.0 {
            Ordering::Greater
        } else if lhs.1 < rhs.1 {
            Ordering::Less
        } else if lhs.1 > rhs.1 {
            Ordering::Greater
        } else if lhs.2 < rhs.2 {
            Ordering::Less
        } else if lhs.2 > rhs.2 {
            Ordering::Greater
        } else {
            Ordering::Equal
        }
    }
}

impl PartialOrd for GregorianDate {
    /// Dates are ordered by year, then month, then day, which is the order
    /// of the days on which they fall.
    fn partial_cmp(&self, other: &GregorianDate) -> (r: Option<Ordering>) {
        Some(
            Self::const_cmp(
                (self.year, self.month, self.day),
                (other.year, other.month, other.day),
            ),
        )
    }
}

impl PartialOrdSpecImpl for GregorianDate {
    open spec fn obeys_partial_cmp_spec() -> bool {
        true
    }

    open spec fn partial_cmp_spec(&self, other: &GregorianDate) -> Option<Ordering> {
        Some(date_order(self@, other@))
    }
}

impl CalendarDate for GregorianDate {
    open spec fn is_valid(&self) -> bool {
        self.valid()
    }

    open spec fn julian(&self) -> int {
        date_julian(self@)
    }

    closed spec fn of_julian(j: int) -> GregorianDate {
        GregorianDate::of_ymd(closed_date(j))
    }

    proof fn lemma_of_julian(j: int) {
        lemma_closed_date_in_range(j);
        GregorianDate::lemma_of_ymd(closed_date(j));
        assert(Self::of_julian(j).is_valid());
    }

    proof fn lemma_julian(self) {
        assert(self.is_valid());
        lemma_date_julian_range(self@);
        let other = Self::of_julian(self.julian());
        Self::lemma_of_julian(self.julian());
        assert(other.is_valid());
        lemma_date_julian_injective(self@, other@);
        GregorianDate::lemma_view_injective(self, other);
    }

    fn min_value() -> (r: GregorianDate)
        ensures
            r@ == first_date(),
    {
        let r = GregorianDate { year: -10000, month: 3, day: 22 };
        proof {
            assert(r.is_valid());
            lemma_first_and_last_date();
            r.lemma_julian();
        }
        r
    }

    fn max_value() -> (r: GregorianDate)
        ensures
            r@ == last_date(),
    {
        let r = GregorianDate { year: 16000, month: 3, day: 17 };
        proof {
            assert(r.is_valid());
            lemma_first_and_last_date();
            r.lemma_julian();
        }
        r
    }

    /// The Julian Day Number in closed form, after E. G. Richards.
    fn as_julian(&self) -> (j: i32) {
        proof {
            use_type_invariant(self);
            assert(self.is_valid());
            lemma_closed_julian(self@);
        }
        let day: i32 = self.day as i32;
        let month: i32 = self.month as i32;
        let year: i32 = self.year as i32;

        let h: i32 = month - 2;
        let g: i32 = year + 4716 - floor_div(12 - h, 12);
        let f: i32 = floor_mod(h - 1 + 12, 12);
        let e: i32 = floor_div(1461 * g, 4) + day - 1 - 1401;
        let j: i32 = e + floor_div(153 * f + 2, 5);
        let c: i32 = floor_div(g + 184, 100);
        let j: i32 = j - floor_div(3 * c, 4) + 38;
        assert(j == closed_julian(self@));
        j
    }

    /// The date in closed form, after E. G. Richards.
    fn from_julian(value: i32) -> (r: Option<GregorianDate>) {
        if value < JulianDay::MIN_INT || value > JulianDay::MAX_INT {
            return None;
        }
        proof {
            lemma_closed_date_in_range(value as int);
        }
        let c: i32 = floor_div(4 * value + 274277, 146097);
        let f: i32 = value + 1401 + floor_div(c * 3, 4) - 38;
        let e: i32 = 4 * f + 3;
        let g: i32 = floor_div(floor_mod(e, 1461), 4);
        let h: i32 = 5 * g + 2;

        let day: i32 = floor_div(floor_mod(h, 153), 5) + 1;
        let month: i32 = floor_mod(floor_div(h, 153) + 2, 12) + 1;
        let year: i32 = floor_div(e, 1461) - 4716 + floor_div(12 + 2 - month, 12);
        assert(closed_date(value as int) == Ymd {
            year: year as int,
            month: month as int,
            day: day as int,
        });
        let r = GregorianDate { year: year as i16, month: month as u8, day: day as u8 };
        proof {
            assert(r.is_valid());
            assert(r.julian() == value);
            r.lemma_julian();
        }
        Some(r)
    }

    /// The day after, found on the calendar: the next day of the month, or
    /// the first day of the next month, which after December is January of
    /// the next year.
    fn tomorrow(self) -> (r: Option<GregorianDate>)
        ensures
            r is None <==> self@ == last_date(),
            r matches Some(d) ==> d@ == next_date(self@),
    {
        proof {
            use_type_invariant(&self);
            assert(self.is_valid());
            lemma_date_julian_range(self@);
            lemma_next_date(self@);
            lemma_date_julian_range(next_date(self@));
        }
        let len = match Self::month_len(self.year, self.month) {
            Some(len) => len,
            None => {
                return None;
            },
        };
        let next = if self.day < len {
            Self::limit_sac13(self.year, self.month, self.day + 1)
        } else if self.month < 12 {
            Self::limit_sac13(self.year, self.month + 1, 1)
        } else {
            Self::limit_sac13(self.year + 1, 1, 1)
        };
        proof {
            if let Some(d) = next {
                assert(d.is_valid());
                d.lemma_julian();
            }
        }
        next
    }

    /// The day before, found on the calendar: the previous day of the month,
    /// or the last day of the previous month, which before January is
    /// December of the previous year.
    fn yesterday(self) -> (r: Option<GregorianDate>)
        ensures
            r is None <==> self@ == first_date(),
            r matches Some(d) ==> d@ == previous_date(self@),
    {
        proof {
            use_type_invariant(&self);
            assert(self.is_valid());
            lemma_date_julian_range(self@);
            lemma_previous_date(self@);
            lemma_date_julian_range(previous_date(self@));
        }
        let previous = if self.day > 1 {
            Self::limit_sac13(self.year, self.month, self.day - 1)
        } else {
            let month: u8 = if self.month == 1 {
                12
            } else {
                self.month - 1
            };
            let year: i16 = if month == 12 {
                self.year - 1
            } else {
                self.year
            };
            match Self::month_len(year, month) {
                Some(len) => Self::limit_sac13(year, month, len),
                None => None,
            }
        };
        proof {
            if let Some(d) = previous {
                assert(d.is_valid());
                d.lemma_julian();
            }
        }
        previous
    }
}

} // verus!
