//! The SAC13 calendar date: year, month and day.

use crate::cycle::is_leap;
use crate::cycle::is_year_day;
use crate::cycle::lemma_days_before_year_total;
use crate::cycle::year_day_number;
use crate::cycle::year_len;
use crate::model::date_before;
use crate::model::date_order;
use crate::model::YearDay;
use crate::model::Ymd;
use crate::month::Month;
use crate::scalars::JulianDay;
use crate::text::push_two_digits;
use crate::text::push_year;
use crate::text::two_digit_text;
use crate::text::year_text;
use crate::traits::in_julian_range;
use crate::traits::CalendarDate;
use crate::year::Year;
use crate::year_ordinal::YearOrdinal;
use core::cmp::Ordering;
use vstd::prelude::*;
use vstd::std_specs::cmp::PartialOrdSpecImpl;

verus! {

/// The number of days of month `m` of the SAC13 year `y`: all months have
/// 28 days, except Addenduary, and August in leap years, which have 29.
pub open spec fn month_len(y: int, m: int) -> int {
    if m == 13 || (m == 6 && is_leap(y)) {
        29
    } else {
        28
    }
}

/// The number of days of the SAC13 year `y` that lie before its month `m`:
/// the sum of the lengths of the months before `m`.
pub open spec fn days_before_month(y: int, m: int) -> int
    decreases m,
{
    if m <= 1 {
        0
    } else {
        days_before_month(y, m - 1) + month_len(y, m - 1)
    }
}

/// Whether the three numbers are a SAC13 date of a supported year.
pub open spec fn is_date(d: Ymd) -> bool {
    &&& 0 <= d.year <= 25999
    &&& 1 <= d.month <= 13
    &&& 1 <= d.day <= month_len(d.year, d.month)
}

/// The day of the year, counted from zero, on which a SAC13 date falls.
pub open spec fn day_of_year(d: Ymd) -> int {
    days_before_month(d.year, d.month) + d.day - 1
}

/// The Julian Day Number of a SAC13 date.
pub open spec fn date_julian(d: Ymd) -> int {
    JulianDay::MIN_INT + year_day_number(d.year, day_of_year(d))
}

/// The SAC13 date of day `d`, counted from zero, of year `y`.
pub open spec fn date_of_year_day(y: int, d: int) -> Ymd {
    if is_leap(y) && d == 168 {
        Ymd { year: y, month: 6, day: 29 }
    } else {
        let t = if is_leap(y) && d > 168 {
            d - 1
        } else {
            d
        };
        if t == 364 {
            Ymd { year: y, month: 13, day: 29 }
        } else {
            Ymd { year: y, month: t / 28 + 1, day: t % 28 + 1 }
        }
    }
}

/// A SAC13 date as it is written: the year with its millennium letter, the
/// month and the day, with hyphens between them.
pub open spec fn written_date(d: Ymd) -> Seq<char> {
    year_text(d.year) + seq!['-'] + two_digit_text(d.month) + seq!['-'] + two_digit_text(d.day)
}

/// The SAC13 date of the day after a date that is not the last of its year
/// or whose year is not the last.
pub open spec fn next_date(d: Ymd) -> Ymd {
    if d.day < month_len(d.year, d.month) {
        Ymd { year: d.year, month: d.month, day: d.day + 1 }
    } else if d.month < 13 {
        Ymd { year: d.year, month: d.month + 1, day: 1 }
    } else {
        Ymd { year: d.year + 1, month: 1, day: 1 }
    }
}

/// The SAC13 date of the day before a date that is not the first of its
/// year or whose year is not the first.
pub open spec fn previous_date(d: Ymd) -> Ymd {
    if d.day > 1 {
        Ymd { year: d.year, month: d.month, day: d.day - 1 }
    } else if d.month > 1 {
        Ymd { year: d.year, month: d.month - 1, day: month_len(d.year, d.month - 1) }
    } else {
        Ymd { year: d.year - 1, month: 13, day: 29 }
    }
}

/// The months before month `m` have 28 days each, and one more once the leap
/// day of August lies before `m`; the thirteen months make up the year.
pub proof fn lemma_days_before_month(y: int, m: int)
    requires
        1 <= m <= 14,
    ensures
        days_before_month(y, m) == 28 * (m - 1) + (if is_leap(y) && m > 6 {
            1int
        } else {
            0int
        }) + (if m == 14 {
            1int
        } else {
            0int
        }),
        days_before_month(y, 14) == year_len(y),
{
    reveal_with_fuel(days_before_month, 15);
}

/// A SAC13 date falls on a day of its year.
pub proof fn lemma_day_of_year_range(d: Ymd)
    requires
        is_date(d),
    ensures
        is_year_day(d.year, day_of_year(d)),
{
    lemma_days_before_month(d.year, d.month);
}

/// Every day of a year is a SAC13 date, and falls on that day of the year.
pub proof fn lemma_date_of_year_day(y: int, d: int)
    requires
        is_year_day(y, d),
    ensures
        is_date(date_of_year_day(y, d)),
        date_of_year_day(y, d).year == y,
        day_of_year(date_of_year_day(y, d)) == d,
{
    let r = date_of_year_day(y, d);
    lemma_days_before_month(y, r.month);
}

/// No two SAC13 dates of one year fall on the same day of the year.
pub proof fn lemma_day_of_year_injective(a: Ymd, b: Ymd)
    requires
        is_date(a),
        is_date(b),
        a.year == b.year,
        day_of_year(a) == day_of_year(b),
    ensures
        a == b,
{
    lemma_days_before_month(a.year, a.month);
    lemma_days_before_month(b.year, b.month);
}

/// A SAC13 date that comes before another falls on an earlier day.
pub proof fn lemma_date_order(a: Ymd, b: Ymd)
    requires
        is_date(a),
        is_date(b),
        date_before(a, b),
    ensures
        date_julian(a) < date_julian(b),
{
    lemma_days_before_month(a.year, a.month);
    lemma_days_before_month(b.year, b.month);
    if a.year < b.year {
        crate::cycle::lemma_days_before_year_growth(a.year + 1, b.year);
    }
}

/// The order of the SAC13 dates, by year, month and day, is the order of the
/// days on which they fall.
pub proof fn lemma_date_order_is_day_order(a: Ymd, b: Ymd)
    requires
        is_date(a),
        is_date(b),
    ensures
        date_before(a, b) <==> date_julian(a) < date_julian(b),
{
    if date_before(a, b) {
        lemma_date_order(a, b);
    }
    if date_before(b, a) {
        lemma_date_order(b, a);
    }
}

/// No two SAC13 dates fall on the same day.
pub proof fn lemma_date_julian_injective(a: Ymd, b: Ymd)
    requires
        is_date(a),
        is_date(b),
        date_julian(a) == date_julian(b),
    ensures
        a == b,
{
    lemma_day_of_year_range(a);
    lemma_day_of_year_range(b);
    crate::cycle::lemma_year_day_number_injective(
        a.year,
        day_of_year(a),
        b.year,
        day_of_year(b),
    );
    lemma_day_of_year_injective(a, b);
}

/// Every SAC13 date falls on a supported day; the first on the earliest and
/// the last on the latest.
pub proof fn lemma_date_julian_range(d: Ymd)
    requires
        is_date(d),
    ensures
        in_julian_range(date_julian(d)),
        date_julian(d) == JulianDay::MIN_INT <==> d == (Ymd { year: 0, month: 1, day: 1 }),
        date_julian(d) == JulianDay::MAX_INT <==> d == (Ymd { year: 25999, month: 13, day: 29 }),
{
    lemma_day_of_year_range(d);
    crate::cycle::lemma_year_day_number_range(d.year, day_of_year(d));
    lemma_days_before_year_total();
    let first = Ymd { year: 0, month: 1, day: 1 };
    let last = Ymd { year: 25999, month: 13, day: 29 };
    assert(year_len(25999) == 365);
    lemma_days_before_month(25999, 13);
    assert(date_julian(first) == JulianDay::MIN_INT);
    assert(date_julian(last) == JulianDay::MAX_INT);
    if date_julian(d) == JulianDay::MIN_INT {
        lemma_date_julian_injective(d, first);
    }
    if date_julian(d) == JulianDay::MAX_INT {
        lemma_date_julian_injective(d, last);
    }
}

/// The calendar steps as the days are counted: the date after a SAC13 date
/// is a SAC13 date and falls on the next day.
pub proof fn lemma_next_date(d: Ymd)
    requires
        is_date(d),
        d != (Ymd { year: 25999, month: 13, day: 29 }),
    ensures
        is_date(next_date(d)),
        date_julian(next_date(d)) == date_julian(d) + 1,
        previous_date(next_date(d)) == d,
{
    lemma_days_before_month(d.year, d.month);
    lemma_days_before_month(d.year, d.month + 1);
    lemma_days_before_month(d.year + 1, 1);
}

/// The date before a SAC13 date is a SAC13 date and falls on the day before.
pub proof fn lemma_previous_date(d: Ymd)
    requires
        is_date(d),
        d != (Ymd { year: 0, month: 1, day: 1 }),
    ensures
        is_date(previous_date(d)),
        date_julian(previous_date(d)) == date_julian(d) - 1,
        next_date(previous_date(d)) == d,
{
    lemma_days_before_month(d.year, d.month);
    if d.month > 1 {
        lemma_days_before_month(d.year, d.month - 1);
    }
    lemma_days_before_month(d.year - 1, 13);
}

/// SAC13 date.
///
/// Consists of the three components `year`, `month` and `day`.
#[derive(Debug, Clone, Copy, PartialEq, Eq, Ord, Hash, Structural)]
pub struct Date {
    year: Year,
    month: Month,
    day: u8,
}

impl View for Date {
    type V = Ymd;

    /// The number of the year, the ordinal of the month and the day.
    closed spec fn view(&self) -> Ymd {
        Ymd { year: self.year@, month: self.month.ord_spec(), day: self.day as int }
    }
}

impl Date {
    /// The day is one of the days of the month, and the year a supported
    /// year.
    #[verifier::type_invariant]
    pub open spec fn valid(self) -> bool {
        is_date(self@)
    }

    /// Two dates with the same year, month and day are the same date.
    pub proof fn lemma_view_injective(a: Date, b: Date)
        requires
            a@ == b@,
        ensures
            a == b,
    {
        Year::lemma_view_injective(a.year, b.year);
    }

    /// The date with the given numbers.
    pub closed spec fn of_ymd(d: Ymd) -> Date {
        Date { year: Year::of_int(d.year), month: Month::from_ord(d.month), day: d.day as u8 }
    }

    /// A date made from the numbers of a SAC13 date has those numbers.
    pub proof fn lemma_of_ymd(d: Ymd)
        requires
            is_date(d),
        ensures
            Date::of_ymd(d)@ == d,
    {
        Year::lemma_of_int(d.year);
    }

    /// SAC13 date from given year, month, day; `None` unless the month of
    /// that year has such a day.
    pub fn from_ymd(year: Year, month: Month, day: u8) -> (r: Option<Date>)
        ensures
            r is Some <==> 1 <= day <= month_len(year@, month.ord_spec()),
            r matches Some(d) ==> d@ == (Ymd {
                year: year@,
                month: month.ord_spec(),
                day: day as int,
            }),
    {
        proof {
            use_type_invariant(&year);
        }
        if day == 0 || day > Self::month_len(year, month) {
            None
        } else {
            Some(Date { year, month, day })
        }
    }

    /// Like `from_ymd` but from integers instead of typed year and month;
    /// `None` unless the three numbers are a SAC13 date.
    pub fn from_ymd_untyped(year: u16, month: u8, day: u8) -> (r: Option<Date>)
        ensures
            r is Some <==> is_date(Ymd { year: year as int, month: month as int, day: day as int }),
            r matches Some(d) ==> d@ == (Ymd {
                year: year as int,
                month: month as int,
                day: day as int,
            }),
    {
        let y = match Year::new(year) {
            None => return None,
            Some(y) => y,
        };
        let m = match Month::new(month) {
            None => return None,
            Some(m) => m,
        };
        Self::from_ymd(y, m, day)
    }

    /// Year component of the date.
    pub fn year(&self) -> (r: Year)
        ensures
            r@ == self@.year,
    {
        self.year
    }

    /// Month component of the date.
    pub fn month(&self) -> (r: Month)
        ensures
            r.ord_spec() == self@.month,
    {
        self.month
    }

    /// Day component of the date.
    pub fn day(&self) -> (r: u8)
        ensures
            r == self@.day,
            1 <= r <= month_len(self@.year, self@.month),
    {
        proof {
            use_type_invariant(self);
        }
        self.day
    }

    /// SAC13 weekday ordinal: which day of the week it is, 1 to 7, and 8 on
    /// the 29th of a month.
    pub fn weekday_ordinal(&self) -> (r: u8)
        ensures
            r == (if self@.day == 29 {
                8
            } else {
                (self@.day - 1) % 7 + 1
            }),
    {
        proof {
            use_type_invariant(self);
        }
        if self.day == 29 {
            8
        } else {
            (self.day - 1) % 7 + 1
        }
    }

    /// The date as it is written: year, month and day with hyphens between
    /// them, as in `M020-05-21`.
    pub fn to_string(&self) -> (r: String)
        ensures
            r@ == written_date(self@),
    {
        proof {
            use_type_invariant(self);
            use_type_invariant(&self.year);
        }
        let mut s = String::new();
        push_year(&mut s, self.year.value());
        s.push('-');
        push_two_digits(&mut s, self.month.ord());
        s.push('-');
        push_two_digits(&mut s, self.day);
        assert(s@ =~= written_date(self@));
        s
    }

    /// All months have 28 days, except Addenduary, and August on leap years,
    /// which are 29 days long.
    pub fn month_len(year: Year, month: Month) -> (r: u8)
        ensures
            r == month_len(year@, month.ord_spec()),
    {
        if matches!(month, Month::Addenduary) || (matches!(month, Month::August) && year.is_leap()) {
            29
        } else {
            28
        }
    }
}

/// The year and day of year on which a SAC13 date falls.
pub fn date_to_yo(value: Date) -> (r: YearOrdinal)
    ensures
        r@ == (YearDay { year: value@.year, day: day_of_year(value@) }),
{
    proof {
        use_type_invariant(&value);
        use_type_invariant(&value.year);
        lemma_days_before_month(value@.year, value@.month);
    }
    let year = value.year;
    let month = value.month;
    let mut day: u16 = (month.ord() as u16 - 1) * 28 + value.day as u16 - 1;
    if year.is_leap() && month.ord() > 6 {
        day += 1;
    }
    YearOrdinal::new(year, day).unwrap()
}

/// The SAC13 date of a day of a year.
pub fn yo_to_date(value: YearOrdinal) -> (r: Date)
    ensures
        r@ == date_of_year_day(value@.year, value@.day),
        r@.year == value@.year,
        day_of_year(r@) == value@.day,
{
    proof {
        use_type_invariant(&value);
        lemma_date_of_year_day(value@.year, value@.day);
    }
    let mut days: u16 = value.day();
    let year = value.year();
    proof {
        use_type_invariant(&year);
    }
    if year.is_leap() {
        if days == 28 * 6 {
            return Date { year, month: Month::August, day: 29 };
        } else if days > 28 * 6 {
            days -= 1;
        }
    }
    if days == 364 {
        return Date { year, month: Month::Addenduary, day: 29 };
    }
    let day: u8 = ((days % 28) + 1) as u8;
    let month: u8 = ((days / 28) + 1) as u8;
    let month = Month::new(month).unwrap();
    Date { year, month, day }
}

impl PartialOrd for Date {
    /// Dates are ordered by year, then month, then day, which is the order
    /// of the days on which they fall.
    fn partial_cmp(&self, other: &Date) -> (r: Option<Ordering>) {
        let a = (self.year.value(), self.month.ord(), self.day);
        let b = (other.year.value(), other.month.ord(), other.day);
        Some(
            if a.0 < b.0 {
                Ordering::Less
            } else if a.0 > b.0 {
                Ordering::Greater
            } else if a.1 < b.1 {
                Ordering::Less
            } else if a.1 > b.1 {
                Ordering::Greater
            } else if a.2 < b.2 {
                Ordering::Less
            } else if a.2 > b.2 {
                Ordering::Greater
            } else {
                Ordering::Equal
            },
        )
    }
}

impl PartialOrdSpecImpl for Date {
    open spec fn obeys_partial_cmp_spec() -> bool {
        true
    }

    open spec fn partial_cmp_spec(&self, other: &Date) -> Option<Ordering> {
        Some(date_order(self@, other@))
    }
}

impl CalendarDate for Date {
    open spec fn is_valid(&self) -> bool {
        self.valid()
    }

    open spec fn julian(&self) -> int {
        date_julian(self@)
    }

    closed spec fn of_julian(j: int) -> Date {
        let yo = YearOrdinal::of_julian(j);
        Date::of_ymd(date_of_year_day(yo@.year, yo@.day))
    }

    proof fn lemma_of_julian(j: int) {
        let yo = YearOrdinal::of_julian(j);
        YearOrdinal::lemma_of_julian(j);
        assert(yo.valid());
        lemma_date_of_year_day(yo@.year, yo@.day);
        Date::lemma_of_ymd(date_of_year_day(yo@.year, yo@.day));
        assert(Self::of_julian(j).is_valid());
    }

    proof fn lemma_julian(self) {
        assert(self.is_valid());
        lemma_date_julian_range(self@);
        let other = Self::of_julian(self.julian());
        Self::lemma_of_julian(self.julian());
        assert(other.is_valid());
        lemma_date_julian_injective(self@, other@);
        Date::lemma_view_injective(self, other);
    }

    fn min_value() -> (r: Date)
        ensures
            r@ == (Ymd { year: 0, month: 1, day: 1 }),
    {
        let r = Date { year: Year::min_value(), month: Month::March, day: 1 };
        proof {
            assert(r.is_valid());
            lemma_date_julian_range(r@);
            r.lemma_julian();
        }
        r
    }

    fn max_value() -> (r: Date)
        ensures
            r@ == (Ymd { year: 25999, month: 13, day: 29 }),
    {
        let r = Date { year: Year::max_value(), month: Month::Addenduary, day: 29 };
        proof {
            assert(r.is_valid());
            lemma_date_julian_range(r@);
            r.lemma_julian();
        }
        r
    }

    fn as_julian(&self) -> (j: i32) {
        proof {
            use_type_invariant(self);
            assert(self.is_valid());
        }
        let yo = date_to_yo(*self);
        let j = yo.as_julian();
        assert(j == self.julian());
        j
    }

    fn from_julian(value: i32) -> (r: Option<Date>) {
        match YearOrdinal::from_julian(value) {
            Some(yo) => {
                let r = yo_to_date(yo);
                proof {
                    YearOrdinal::lemma_of_julian(value as int);
                    use_type_invariant(&r);
                    assert(r.is_valid());
                    assert(r.julian() == value);
                    r.lemma_julian();
                }
                Some(r)
            },
            None => None,
        }
    }

    /// The day after, found on the calendar: the next day of the month, or
    /// the first day of the next month, which after Addenduary is March of
    /// the next year.
    fn tomorrow(self) -> (r: Option<Date>)
        ensures
            r is None <==> self@ == (Ymd { year: 25999, month: 13, day: 29 }),
            r matches Some(d) ==> d@ == next_date(self@),
    {
        proof {
            use_type_invariant(&self);
            assert(self.is_valid());
            lemma_date_julian_range(self@);
            if self@ != (Ymd { year: 25999, month: 13, day: 29 }) {
                lemma_next_date(self@);
            }
        }
        let next = if self.day < 28 {
            Date { year: self.year, month: self.month, day: self.day + 1 }
        } else if self.day < Self::month_len(self.year, self.month) {
            Date { year: self.year, month: self.month, day: self.day + 1 }
        } else {
            let month = self.month.next();
            if matches!(month, Month::March) {
                match self.year.next() {
                    Some(year) => Date { year, month, day: 1 },
                    None => {
                        return None;
                    },
                }
            } else {
                Date { year: self.year, month, day: 1 }
            }
        };
        proof {
            assert(next.is_valid());
            next.lemma_julian();
        }
        Some(next)
    }

    /// The day before, found on the calendar: the previous day of the month,
    /// or the last day of the previous month, which before March is
    /// Addenduary of the previous year.
    fn yesterday(self) -> (r: Option<Date>)
        ensures
            r is None <==> self@ == (Ymd { year: 0, month: 1, day: 1 }),
            r matches Some(d) ==> d@ == previous_date(self@),
    {
        proof {
            use_type_invariant(&self);
            assert(self.is_valid());
            lemma_date_julian_range(self@);
            if self@ != (Ymd { year: 0, month: 1, day: 1 }) {
                lemma_previous_date(self@);
            }
        }
        let previous = if self.day > 1 {
            Date { year: self.year, month: self.month, day: self.day - 1 }
        } else {
            let month = self.month.previous();
            let year = if matches!(month, Month::Addenduary) {
                match self.year.previous() {
                    Some(year) => year,
                    None => {
                        return None;
                    },
                }
            } else {
                self.year
            };
            Date { year, month, day: Self::month_len(year, month) }
        };
        proof {
            assert(previous.is_valid());
            previous.lemma_julian();
        }
        Some(previous)
    }
}

} // verus!
