//! A year and a day of that year: the form between a SAC13 date and a
//! linear day count.

use crate::cycle::cycle_day_of_year;
use crate::cycle::cycle_year;
use crate::cycle::is_year_day;
use crate::cycle::lemma_cycle_days_sum;
use crate::cycle::lemma_cycle_split_in_range;
use crate::cycle::lemma_year_day_number_injective;
use crate::cycle::lemma_year_day_number_range;
use crate::cycle::year_day_number;
use crate::cycle::year_len;
use crate::cycle::DAYS_IN_293_YEARS;
use crate::cycle::DAYS_IN_33_YEARS;
use crate::cycle::DAYS_IN_4_YEARS;
use crate::cycle::RAW_YEAR_OFFSET;
use crate::model::year_day_order;
use crate::model::YearDay;
use crate::scalars::CycleEpochDay;
use crate::scalars::JulianDay;
use crate::text::decimal_text;
use crate::text::push_decimal;
use crate::text::push_year;
use crate::text::year_text;
use crate::traits::CalendarDate;
use crate::year::Year;
use core::cmp::Ordering;
use vstd::prelude::*;
use vstd::std_specs::cmp::PartialOrdSpecImpl;

verus! {

/// SAC13 year ordinal. Consists of a year and the day of the year, counted
/// from zero.
#[derive(Clone, Copy, PartialEq, Eq, Ord, Hash, Debug, Structural)]
pub struct YearOrdinal {
    year: Year,
    day: u16,
}

impl View for YearOrdinal {
    type V = YearDay;

    /// The number of the year and the day of the year.
    closed spec fn view(&self) -> YearDay {
        YearDay { year: self.year@, day: self.day as int }
    }
}

impl YearOrdinal {
    /// The day is one of the days of the year, and the year a supported year.
    #[verifier::type_invariant]
    pub open spec fn valid(self) -> bool {
        is_year_day(self@.year, self@.day)
    }

    /// Two values with the same year and day are the same value.
    pub proof fn lemma_view_injective(a: YearOrdinal, b: YearOrdinal)
        requires
            a@ == b@,
        ensures
            a == b,
    {
        Year::lemma_view_injective(a.year, b.year);
    }

    /// Day `day` of the year; `None` if the year has no such day.
    pub fn new(year: Year, day: u16) -> (r: Option<YearOrdinal>)
        ensures
            r is Some <==> day < year_len(year@),
            r matches Some(yo) ==> yo@ == (YearDay { year: year@, day: day as int }),
    {
        proof {
            use_type_invariant(&year);
        }
        if day >= year.days() {
            None
        } else {
            Some(YearOrdinal { year, day })
        }
    }

    /// Year component.
    pub fn year(&self) -> (r: Year)
        ensures
            r@ == self@.year,
    {
        self.year
    }

    /// Day of the year, counted from zero.
    pub fn day(&self) -> (r: u16)
        ensures
            r == self@.day,
            r < year_len(self@.year),
    {
        proof {
            use_type_invariant(self);
        }
        self.day
    }

    /// The year as it is written, a hyphen and the day of the year.
    pub fn to_string(&self) -> (r: String)
        ensures
            r@ == year_text(self@.year) + seq!['-'] + decimal_text(self@.day),
    {
        proof {
            use_type_invariant(self);
            use_type_invariant(&self.year);
        }
        let mut s = String::new();
        push_year(&mut s, self.year.value());
        s.push('-');
        push_decimal(&mut s, self.day as u32);
        assert(s@ =~= year_text(self@.year) + seq!['-'] + decimal_text(self@.day));
        s
    }

    /// The year and day of year of a day of the leap cycle epoch.
    pub fn from_epoch_day(value: CycleEpochDay) -> (r: YearOrdinal)
        ensures
            is_year_day(r@.year, r@.day),
            year_day_number(r@.year, r@.day) == value@ - CycleEpochDay::MIN_INT,
    {
        let mut d: u32 = value.value();
        let mut y: u32 = 0;
        proof {
            lemma_cycle_split_in_range(d as int);
        }
        let ghost total = d as int;

        let f: u32 = d / DAYS_IN_293_YEARS;
        d -= f * DAYS_IN_293_YEARS;
        y += f * 293;

        let f: u32 = d / DAYS_IN_33_YEARS;
        d -= f * DAYS_IN_33_YEARS;
        y += f * 33;

        let f: u32 = d / DAYS_IN_4_YEARS;
        d -= f * DAYS_IN_4_YEARS;
        y += f * 4;

        // The years that remain: common, leap, common, common.
        if d >= 731 {
            d -= 731;
            y += 2 + d / 365;
            d %= 365;
        } else if d >= 365 {
            d -= 365;
            y += 1;
        }
        assert(y == cycle_year(total));
        assert(d == cycle_day_of_year(total));

        let year = Year::new((y - RAW_YEAR_OFFSET as u32) as u16).unwrap();
        YearOrdinal { year, day: d as u16 }
    }

    /// The day of the leap cycle epoch on which the day falls.
    pub fn epoch_day(self) -> (r: CycleEpochDay)
        ensures
            r@ == CycleEpochDay::MIN_INT + year_day_number(self@.year, self@.day),
    {
        proof {
            use_type_invariant(&self);
            use_type_invariant(&self.year);
            lemma_cycle_days_sum(self@.year);
            lemma_year_day_number_range(self@.year, self@.day);
        }
        let mut d: u32 = self.day as u32;
        let mut y: u32 = (self.year.value() + RAW_YEAR_OFFSET) as u32;

        let f: u32 = y / 293;
        d += f * DAYS_IN_293_YEARS;
        y -= f * 293;

        let f: u32 = y / 33;
        d += f * DAYS_IN_33_YEARS;
        y -= f * 33;

        let f: u32 = y / 4;
        d += f * DAYS_IN_4_YEARS;
        y -= f * 4;

        // The years that remain: common, leap, common, common.
        d += y * 365;
        if y >= 2 {
            d += 1;
        }

        CycleEpochDay::new(d).unwrap()
    }
}

impl PartialOrd for YearOrdinal {
    /// Days of years are ordered by year, then day, which is the order of
    /// the days on which they fall.
    fn partial_cmp(&self, other: &YearOrdinal) -> (r: Option<Ordering>) {
        let a = self.year.value();
        let b = other.year.value();
        Some(
            if a < b {
                Ordering::Less
            } else if a > b {
                Ordering::Greater
            } else if self.day < other.day {
                Ordering::Less
            } else if self.day > other.day {
                Ordering::Greater
            } else {
                Ordering::Equal
            },
        )
    }
}

impl PartialOrdSpecImpl for YearOrdinal {
    open spec fn obeys_partial_cmp_spec() -> bool {
        true
    }

    open spec fn partial_cmp_spec(&self, other: &YearOrdinal) -> Option<Ordering> {
        Some(year_day_order(self@, other@))
    }
}

impl CalendarDate for YearOrdinal {
    open spec fn is_valid(&self) -> bool {
        self.valid()
    }

    /// The day number of the day, counted from the Julian Day Number of the
    /// first day of year zero.
    open spec fn julian(&self) -> int {
        JulianDay::MIN_INT + year_day_number(self@.year, self@.day)
    }

    closed spec fn of_julian(j: int) -> YearOrdinal {
        let d = j - CycleEpochDay::JULIAN_OFFSET;
        YearOrdinal {
            year: Year::of_int(cycle_year(d) - RAW_YEAR_OFFSET),
            day: cycle_day_of_year(d) as u16,
        }
    }

    proof fn lemma_of_julian(j: int) {
        let d = j - CycleEpochDay::JULIAN_OFFSET;
        lemma_cycle_split_in_range(d);
        Year::lemma_of_int(cycle_year(d) - RAW_YEAR_OFFSET);
        assert(Self::of_julian(j).is_valid());
    }

    proof fn lemma_julian(self) {
        assert(self.is_valid());
        lemma_year_day_number_range(self@.year, self@.day);
        let j = self.julian();
        let other = Self::of_julian(j);
        Self::lemma_of_julian(j);
        assert(other.is_valid());
        lemma_year_day_number_injective(
            self@.year,
            self@.day,
            other@.year,
            other@.day,
        );
        Self::lemma_view_injective(self, other);
    }

    fn min_value() -> (r: YearOrdinal)
        ensures
            r@ == (YearDay { year: 0, day: 0 }),
    {
        let r = YearOrdinal { year: Year::min_value(), day: 0 };
        proof {
            assert(r.is_valid());
            r.lemma_julian();
        }
        r
    }

    fn max_value() -> (r: YearOrdinal)
        ensures
            r@ == (YearDay { year: 25999, day: 364 }),
    {
        proof {
            crate::cycle::lemma_days_before_year_total();
            assert(year_len(25999) == 365);
        }
        let r = YearOrdinal { year: Year::max_value(), day: 364 };
        proof {
            assert(r.is_valid());
            r.lemma_julian();
        }
        r
    }

    fn as_julian(&self) -> (j: i32) {
        proof {
            use_type_invariant(self);
            assert(self.is_valid());
        }
        let day = self.epoch_day();
        let j = day.as_julian();
        assert(j == self.julian());
        j
    }

    fn from_julian(value: i32) -> (r: Option<YearOrdinal>) {
        match CycleEpochDay::from_julian(value) {
            Some(day) => {
                let r = Self::from_epoch_day(day);
                proof {
                    CycleEpochDay::lemma_of_julian(value as int);
                    use_type_invariant(&r);
                    assert(r.is_valid());
                    assert(r.julian() == value);
                    r.lemma_julian();
                }
                Some(r)
            },
            None => None,
        }
    }
}

} // verus!
