//! The proleptic Gregorian calendar as arithmetic: month and year lengths,
//! the count of days up to a date, and the closed forms by which a date and
//! its Julian Day Number are computed from each other.

use crate::model::date_before;
use crate::model::Ymd;
use crate::scalars::JulianDay;
use crate::text::integer_text;
use crate::text::two_digit_text;
use crate::traits::in_julian_range;
use vstd::prelude::*;

verus! {

/// Whether the Gregorian year `y` is a leap year: every fourth year, but of
/// the centuries only every fourth.
pub open spec fn is_leap_year(y: int) -> bool {
    y % 400 == 0 || (y % 100 != 0 && y % 4 == 0)
}

/// The number of days of the Gregorian year `y`.
pub open spec fn year_len(y: int) -> int {
    if is_leap_year(y) {
        366
    } else {
        365
    }
}

/// The number of days of month `m` of the Gregorian year `y`.
pub open spec fn month_len(y: int, m: int) -> int {
    if m == 2 {
        if is_leap_year(y) {
            29
        } else {
            28
        }
    } else if m == 4 || m == 6 || m == 9 || m == 11 {
        30
    } else {
        31
    }
}

/// The number of days of the Gregorian year `y` that lie before its month
/// `m`: the sum of the lengths of the months before `m`.
pub open spec fn days_before_month(y: int, m: int) -> int
    decreases m,
{
    if m <= 1 {
        0
    } else {
        days_before_month(y, m - 1) + month_len(y, m - 1)
    }
}

/// The number of days from 1 January of the year -10000 to 1 January of the
/// year `y`: the sum of the lengths of the years in between.
pub open spec fn days_before_year(y: int) -> int
    decreases y + 10000,
{
    if y <= -10000 {
        0
    } else {
        days_before_year(y - 1) + year_len(y - 1)
    }
}

/// Whether the three numbers are a day of a month of the Gregorian calendar.
pub open spec fn is_month_day(d: Ymd) -> bool {
    &&& 1 <= d.month <= 12
    &&& 1 <= d.day <= month_len(d.year, d.month)
}

/// The earliest supported Gregorian date, -10000-03-22, which is SAC13
/// `A000-01-01`.
pub open spec fn first_date() -> Ymd {
    Ymd { year: -10000, month: 3, day: 22 }
}

/// The latest supported Gregorian date, 16000-03-17, which is SAC13
/// `Z999-13-29`.
pub open spec fn last_date() -> Ymd {
    Ymd { year: 16000, month: 3, day: 17 }
}

/// Whether the three numbers are a supported Gregorian date: a day of a
/// month, not before the earliest and not after the latest supported date.
pub open spec fn is_date(d: Ymd) -> bool {
    &&& is_month_day(d)
    &&& !date_before(d, first_date())
    &&& !date_before(last_date(), d)
}

/// The number of days from 1 January of the year -10000 to the date.
pub open spec fn day_number(d: Ymd) -> int {
    days_before_year(d.year) + days_before_month(d.year, d.month) + d.day - 1
}

/// The Julian Day Number of a Gregorian date: the days are counted from the
/// earliest supported date, day 81 of the year -10000, which falls on the
/// earliest supported Julian Day Number.
pub open spec fn date_julian(d: Ymd) -> int {
    JulianDay::MIN_INT + day_number(d) - 81
}

/// The Julian Day Number of a Gregorian date in closed form, after
/// E. G. Richards: years are counted from March, every fourth has a leap day,
/// and three of every four centuries take theirs back.
pub open spec fn closed_julian(d: Ymd) -> int {
    let h = d.month - 2;
    let g = d.year + 4716 - (12 - h) / 12;
    let f = (h - 1 + 12) % 12;
    let e = (1461 * g) / 4 + d.day - 1 - 1401;
    e + (153 * f + 2) / 5 - (3 * ((g + 184) / 100)) / 4 + 38
}

/// The Gregorian date of a Julian Day Number in closed form, after
/// E. G. Richards.
pub open spec fn closed_date(j: int) -> Ymd {
    let f = j + 1401 + (((4 * j + 274277) / 146097) * 3) / 4 - 38;
    let e = 4 * f + 3;
    let g = (e % 1461) / 4;
    let h = 5 * g + 2;
    let day = (h % 153) / 5 + 1;
    let month = (h / 153 + 2) % 12 + 1;
    let year = e / 1461 - 4716 + (12 + 2 - month) / 12;
    Ymd { year, month, day }
}

/// The months before month `m`, added up.
pub proof fn lemma_days_before_month(y: int, m: int)
    requires
        1 <= m <= 13,
    ensures
        days_before_month(y, m) == (if m <= 2 {
            31 * (m - 1)
        } else {
            (153 * (m - 3) + 2) / 5 + 59 + if is_leap_year(y) {
                1int
            } else {
                0int
            }
        }),
        days_before_month(y, 13) == year_len(y),
{
    reveal_with_fuel(days_before_month, 14);
}

/// Between two years there are at least 365 and at most 366 days a year.
pub proof fn lemma_days_before_year_growth(a: int, b: int)
    requires
        -10000 <= a <= b,
    ensures
        365 * (b - a) <= days_before_year(b) - days_before_year(a) <= 366 * (b - a),
    decreases b - a,
{
    if a < b {
        lemma_days_before_year_growth(a, b - 1);
    }
}

/// Whole multiples of the divisor pass through a division.
proof fn lemma_div_mod_shift(x: int, m: int, q: int)
    by (nonlinear_arith)
    requires
        m > 0,
    ensures
        (m * q + x) / m == q + x / m,
        (m * q + x) % m == x % m,
{
    vstd::arithmetic::div_mod::lemma_fundamental_div_mod(x, m);
    vstd::arithmetic::div_mod::lemma_fundamental_div_mod_converse(
        m * q + x,
        m,
        q + x / m,
        x % m,
    );
}

/// From one year to the next, a quarter of 1461 years grows by 365, and by
/// one more every fourth year.
pub proof fn lemma_quarter_step(g: int)
    ensures
        (1461 * (g + 1)) / 4 - (1461 * g) / 4 == 365 + (if (g + 1) % 4 == 0 {
            1int
        } else {
            0int
        }),
{
    let q = g / 4;
    let r = g % 4;
    assert(g == 4 * q + r);
    assert(1461 * g == 4 * (1461 * q + 365 * r) + r);
    lemma_div_mod_shift(r, 4, 1461 * q + 365 * r);
    assert(1461 * (g + 1) == 4 * (1461 * q + 365 * r + 365) + (r + 1));
    lemma_div_mod_shift(r + 1, 4, 1461 * q + 365 * r + 365);
    assert(g + 1 == 4 * q + (r + 1));
    lemma_div_mod_shift(r + 1, 4, q);
}

/// Three quarters of the count of centuries grow by one at every century
/// but each fourth.
pub proof fn lemma_century_step(n: int)
    ensures
        (3 * ((n + 1) / 100)) / 4 - (3 * (n / 100)) / 4 == (if (n + 1) % 100 == 0 && ((n + 1) / 100)
            % 4 != 1 {
            1int
        } else {
            0int
        }),
{
    let c = n / 100;
    let r = n % 100;
    assert(n == 100 * c + r);
    assert(n + 1 == 100 * c + (r + 1));
    lemma_div_mod_shift(r + 1, 100, c);
    if r == 99 {
        assert((n + 1) / 100 == c + 1);
        assert((n + 1) % 100 == 0);
        let q = (c + 1) / 4;
        let t = (c + 1) % 4;
        assert(c + 1 == 4 * q + t);
        assert(3 * (c + 1) == 4 * (3 * q) + 3 * t);
        lemma_div_mod_shift(3 * t, 4, 3 * q);
        assert(3 * c == 4 * (3 * q) + (3 * t - 3));
        lemma_div_mod_shift(3 * t - 3, 4, 3 * q);
        assert((3 * t) / 4 - (3 * t - 3) / 4 == (if t == 1 {
            0int
        } else {
            1int
        }));
    } else {
        assert((n + 1) / 100 == c);
        assert((n + 1) % 100 != 0);
    }
}

/// The Julian Day Number of 1 January in closed form.
pub open spec fn closed_new_year(y: int) -> int {
    (1461 * (y + 4715)) / 4 - 1057 - (3 * ((y + 4899) / 100)) / 4
}

/// The closed form for 1 January is the closed form of the Julian Day
/// Number, taken of 1 January.
pub proof fn lemma_closed_new_year(y: int)
    ensures
        closed_julian(Ymd { year: y, month: 1, day: 1 }) == closed_new_year(y),
{
}

/// In closed form, 1 January of the next year comes a year's length after
/// 1 January of the year.
pub proof fn lemma_closed_new_year_step(y: int)
    ensures
        closed_new_year(y + 1) == closed_new_year(y) + year_len(y),
{
    let g = y + 4715;
    lemma_quarter_step(g);
    lemma_century_step(g + 184);
    assert(g + 1 == 4 * 1179 + y);
    lemma_div_mod_shift(y, 4, 1179);
    assert((g + 1) % 4 == y % 4);
    assert(g + 185 == 100 * 49 + y);
    lemma_div_mod_shift(y, 100, 49);
    assert((g + 185) % 100 == y % 100);
    assert((g + 185) / 100 == 49 + y / 100);
    let k = y / 100;
    assert(49 + k == 4 * 12 + (k + 1));
    lemma_div_mod_shift(k + 1, 4, 12);
    assert((49 + k) % 4 == (k + 1) % 4);
    let a = k / 4;
    let b = k % 4;
    assert(k == 4 * a + b);
    assert(k + 1 == 4 * a + (b + 1));
    lemma_div_mod_shift(b + 1, 4, a);
    assert((k + 1) % 4 == (b + 1) % 4);
    assert((49 + k) % 4 == 1 <==> b == 0);
    if y % 100 == 0 {
        assert(y == 100 * k);
        assert(y == 400 * a + 100 * b);
        lemma_div_mod_shift(100 * b, 400, a);
        assert(y % 400 == 100 * b);
        assert(y % 400 == 0 <==> b == 0);
        assert(y == 4 * (25 * k));
        lemma_div_mod_shift(0, 4, 25 * k);
        assert(y % 4 == 0);
    } else {
        let m = y / 400;
        assert(y == 400 * m + y % 400);
        assert(y == 100 * (4 * m) + y % 400);
        lemma_div_mod_shift(y % 400, 100, 4 * m);
        assert(y % 400 != 0);
    }
}

/// In closed form, 1 January of the next year comes a year's length after
/// 1 January of the year.
pub proof fn lemma_closed_julian_year_step(y: int)
    ensures
        closed_julian(Ymd { year: y + 1, month: 1, day: 1 }) == closed_julian(
            Ymd { year: y, month: 1, day: 1 },
        ) + year_len(y),
{
    lemma_closed_new_year(y);
    lemma_closed_new_year(y + 1);
    lemma_closed_new_year_step(y);
}

/// The closed form counts the days to the first day of a year, from the
/// year -10000 on.
pub proof fn lemma_closed_julian_new_year(y: int)
    requires
        -10000 <= y,
    ensures
        closed_julian(Ymd { year: y, month: 1, day: 1 }) == date_julian(
            Ymd { year: y, month: 1, day: 1 },
        ),
    decreases y + 10000,
{
    if y == -10000 {
        assert(closed_julian(Ymd { year: y, month: 1, day: 1 }) == -1931365);
    } else {
        lemma_closed_julian_new_year(y - 1);
        lemma_closed_julian_year_step(y - 1);
    }
}

/// The closed form counts the days: for every day of a month, from the year
/// -10000 on, it gives the Julian Day Number of the date.
pub proof fn lemma_closed_julian(d: Ymd)
    requires
        -10000 <= d.year,
        1 <= d.month <= 12,
    ensures
        closed_julian(d) == date_julian(d),
{
    lemma_closed_julian_new_year(d.year);
    lemma_days_before_month(d.year, d.month);
    if d.month >= 3 {
        lemma_closed_julian_year_step(d.year);
        lemma_closed_julian_new_year(d.year + 1);
        assert(days_before_year(d.year + 1) == days_before_year(d.year) + year_len(d.year));
    }
}

/// The day count `f` of a calendar in which every fourth year, counted
/// from March, ends with a leap day, split into the year `g`, the month
/// `mm` counted from March as zero, and the day: the three make up `f`
/// again, and the day is a day of the month.
pub proof fn lemma_split_fourth_year_calendar(f: int)
    ensures
        ({
            let e = 4 * f + 3;
            let g = e / 1461;
            let doy = (e % 1461) / 4;
            let h = 5 * doy + 2;
            let mm = h / 153;
            let day = (h % 153) / 5 + 1;
            &&& 0 <= doy <= 365
            &&& doy == 365 ==> (g + 1) % 4 == 0
            &&& 0 <= mm <= 11
            &&& 1 <= day
            &&& doy == (153 * mm + 2) / 5 + day - 1
            &&& mm < 11 ==> day <= (153 * (mm + 1) + 2) / 5 - (153 * mm + 2) / 5
            &&& mm == 11 ==> day <= 29 && (day == 29 ==> doy == 365)
            &&& f == (1461 * g) / 4 + doy
        }),
{
    let e = 4 * f + 3;
    let g = e / 1461;
    let r = e % 1461;
    let doy = r / 4;
    let s = r % 4;
    assert(e == 1461 * g + r);
    assert(r == 4 * doy + s);
    let a = (1461 * g) / 4;
    let b = (1461 * g) % 4;
    assert(1461 * g == 4 * a + b);
    assert(4 * f + 3 == 4 * (a + doy) + b + s);
    assert(b + s == 3);
    assert(f == a + doy);
    if doy == 365 {
        assert(r == 1460 && s == 0 && b == 3);
        let gq = g / 4;
        let gr = g % 4;
        assert(g == 4 * gq + gr);
        assert(1461 * g == 4 * (1461 * gq + 365 * gr) + gr);
        assert(gr == 3);
    }
    let h = 5 * doy + 2;
    let mm = h / 153;
    let t = h % 153;
    assert(h == 153 * mm + t);
    let w = t / 5;
    let x = t % 5;
    assert(t == 5 * w + x);
    let u = (153 * mm + 2) / 5;
    let v = (153 * mm + 2) % 5;
    assert(153 * mm + 2 == 5 * u + v);
    assert(5 * doy + 4 == 5 * (u + w) + v + x);
    assert(v + x == 4);
    assert(doy == u + w);
    if mm < 11 {
        let u1 = (153 * (mm + 1) + 2) / 5;
        let v1 = (153 * (mm + 1) + 2) % 5;
        assert(153 * (mm + 1) + 2 == 5 * u1 + v1);
        assert(5 * doy + 2 < 153 * (mm + 1));
    }
}

/// The correction for the centuries without a leap day, as it is found from
/// a Julian Day Number: three quarters of the count of centuries.
pub open spec fn century_correction(j: int) -> int {
    (((4 * j + 274277) / 146097) * 3) / 4
}

/// The year, counted from March, into which a Julian Day Number falls once
/// the correction for the centuries is made.
pub open spec fn corrected_year(j: int) -> int {
    (4 * (j + 1363 + century_correction(j)) + 3) / 1461
}

/// The day of that year, counted from 1 March as zero.
pub open spec fn corrected_day_of_year(j: int) -> int {
    ((4 * (j + 1363 + century_correction(j)) + 3) % 1461) / 4
}

/// After 400 years, that is 146097 days, the correction has grown by three
/// and the corrected year by 400; the day of the year is the same.
pub proof fn lemma_correction_period(q: int, r: int)
    ensures
        century_correction(146097 * q + r) == 3 * q + century_correction(r),
        corrected_year(146097 * q + r) == 400 * q + corrected_year(r),
        corrected_day_of_year(146097 * q + r) == corrected_day_of_year(r),
{
    let j = 146097 * q + r;
    let c0 = (4 * r + 274277) / 146097;
    assert(4 * j + 274277 == 146097 * (4 * q) + (4 * r + 274277));
    lemma_div_mod_shift(4 * r + 274277, 146097, 4 * q);
    let c = (4 * j + 274277) / 146097;
    assert(c == 4 * q + c0);
    assert(c * 3 == 4 * (3 * q) + c0 * 3);
    lemma_div_mod_shift(c0 * 3, 4, 3 * q);
    let k = century_correction(j);
    let k0 = century_correction(r);
    assert(k == 3 * q + k0);
    let e0 = 4 * (r + 1363 + k0) + 3;
    assert(4 * (j + 1363 + k) + 3 == 1461 * (400 * q) + e0);
    lemma_div_mod_shift(e0, 1461, 400 * q);
}

/// Within one period of 400 years the correction found from the Julian Day
/// Number is the one that belongs to the corrected year, and the last day
/// of a fourth year falls into no century without a leap day.
pub proof fn lemma_correction_in_period(r: int)
    requires
        0 <= r < 146097,
    ensures
        (3 * ((corrected_year(r) + 184) / 100)) / 4 == century_correction(r),
        3 <= corrected_year(r) <= 403,
        corrected_day_of_year(r) == 365 ==> corrected_year(r) != 15 && corrected_year(r) != 115
            && corrected_year(r) != 215,
{
    let c0 = (4 * r + 274277) / 146097;
    let k0 = century_correction(r);
    let e0 = 4 * (r + 1363 + k0) + 3;
    let g0 = e0 / 1461;
    assert(e0 == 1461 * g0 + e0 % 1461);
    if r < 4480 {
        assert(c0 == 1);
        assert(k0 == 0);
        assert(3 <= g0 <= 15);
    } else if r < 41004 {
        assert(c0 == 2);
        assert(k0 == 1);
        assert(16 <= g0 <= 115);
    } else if r < 77528 {
        assert(c0 == 3);
        assert(k0 == 2);
        assert(116 <= g0 <= 215);
    } else {
        assert(c0 == 4 || c0 == 5);
        assert(k0 == 3);
        assert(216 <= g0 <= 403);
    }
}

/// The correction for the centuries without a leap day, found from the
/// Julian Day Number, is the one that belongs to the year in which the day
/// falls; and where the day is the last of a fourth year, the year that
/// ends with it is a leap year.
pub proof fn lemma_century_correction(j: int)
    ensures
        (3 * ((corrected_year(j) + 184) / 100)) / 4 == century_correction(j),
        corrected_day_of_year(j) == 365 ==> is_leap_year(corrected_year(j) - 4715),
{
    let q = j / 146097;
    let r = j % 146097;
    assert(j == 146097 * q + r);
    lemma_correction_period(q, r);
    lemma_correction_in_period(r);
    let g0 = corrected_year(r);
    let g = corrected_year(j);
    let n0 = (g0 + 184) / 100;
    assert(g + 184 == 100 * (4 * q) + (g0 + 184));
    lemma_div_mod_shift(g0 + 184, 100, 4 * q);
    assert(3 * ((g + 184) / 100) == 4 * (3 * q) + 3 * n0);
    lemma_div_mod_shift(3 * n0, 4, 3 * q);
    if corrected_day_of_year(j) == 365 {
        lemma_split_fourth_year_calendar(j + 1363 + century_correction(j));
        let y = g - 4715;
        assert((g + 1) % 4 == 0);
        assert(y % 4 == 0);
        assert(y == 100 * (4 * (q - 12)) + (g0 + 85));
        lemma_div_mod_shift(g0 + 85, 100, 4 * (q - 12));
        assert(y == 400 * (q - 12) + (g0 + 85));
        lemma_div_mod_shift(g0 + 85, 400, q - 12);
        assert(y % 100 == (g0 + 85) % 100);
        assert(y % 400 == (g0 + 85) % 400);
    }
}

/// The closed form of the date undoes the closed form of the Julian Day
/// Number: it gives a day of a month, on which the given day falls.
pub proof fn lemma_closed_date(j: int)
    ensures
        is_month_day(closed_date(j)),
        closed_julian(closed_date(j)) == j,
{
    let k = century_correction(j);
    let f = j + 1363 + k;
    lemma_century_correction(j);
    lemma_split_fourth_year_calendar(f);
    let e = 4 * f + 3;
    let g = e / 1461;
    let doy = (e % 1461) / 4;
    let h = 5 * doy + 2;
    let mm = h / 153;
    let day = (h % 153) / 5 + 1;
    let month = (mm + 2) % 12 + 1;
    let year = g - 4716 + (14 - month) / 12;
    let d = closed_date(j);
    assert(d == Ymd { year, month, day });
    assert(mm <= 9 ==> month == mm + 3 && year == g - 4716);
    assert(mm >= 10 ==> month == mm - 9 && year == g - 4715);
    assert((month - 2 - 1 + 12) % 12 == mm);
    assert(year + 4716 - (12 - (month - 2)) / 12 == g);
    assert(is_leap_year(g - 4715) ==> is_leap_year(year) || mm <= 9);
}

/// A Gregorian date as it is written: the year, the month and the day, with
/// hyphens between them.
pub open spec fn written_date(d: Ymd) -> Seq<char> {
    integer_text(d.year) + seq!['-'] + two_digit_text(d.month) + seq!['-'] + two_digit_text(d.day)
}

/// The Gregorian date of the day after a date.
pub open spec fn next_date(d: Ymd) -> Ymd {
    if d.day < month_len(d.year, d.month) {
        Ymd { year: d.year, month: d.month, day: d.day + 1 }
    } else if d.month < 12 {
        Ymd { year: d.year, month: d.month + 1, day: 1 }
    } else {
        Ymd { year: d.year + 1, month: 1, day: 1 }
    }
}

/// The Gregorian date of the day before a date.
pub open spec fn previous_date(d: Ymd) -> Ymd {
    if d.day > 1 {
        Ymd { year: d.year, month: d.month, day: d.day - 1 }
    } else if d.month > 1 {
        Ymd { year: d.year, month: d.month - 1, day: month_len(d.year, d.month - 1) }
    } else {
        Ymd { year: d.year - 1, month: 12, day: 31 }
    }
}

/// The calendar steps as the days are counted: the date after a day of a
/// month is a day of a month and falls on the next day.
pub proof fn lemma_next_date(d: Ymd)
    requires
        is_month_day(d),
        -10000 <= d.year,
    ensures
        is_month_day(next_date(d)),
        date_julian(next_date(d)) == date_julian(d) + 1,
        previous_date(next_date(d)) == d,
{
    lemma_days_before_month(d.year, d.month);
    lemma_days_before_month(d.year, d.month + 1);
    lemma_days_before_month(d.year + 1, 1);
}

/// The date before a day of a month is a day of a month and falls on the
/// day before.
pub proof fn lemma_previous_date(d: Ymd)
    requires
        is_month_day(d),
        -10000 <= previous_date(d).year,
    ensures
        is_month_day(previous_date(d)),
        date_julian(previous_date(d)) == date_julian(d) - 1,
        next_date(previous_date(d)) == d,
{
    lemma_days_before_month(d.year, d.month);
    if d.month > 1 {
        lemma_days_before_month(d.year, d.month - 1);
    }
    lemma_days_before_month(d.year - 1, 12);
}

/// A date that comes before another falls on an earlier day.
pub proof fn lemma_date_order(a: Ymd, b: Ymd)
    requires
        is_month_day(a),
        is_month_day(b),
        -10000 <= a.year,
        date_before(a, b),
    ensures
        date_julian(a) < date_julian(b),
{
    lemma_days_before_month(a.year, a.month);
    lemma_days_before_month(b.year, b.month);
    if a.year < b.year {
        lemma_days_before_year_growth(a.year + 1, b.year);
    }
}

/// The order of the dates, by year, month and day, is the order of the days
/// on which they fall.
pub proof fn lemma_date_order_is_day_order(a: Ymd, b: Ymd)
    requires
        is_month_day(a),
        is_month_day(b),
        -10000 <= a.year,
        -10000 <= b.year,
    ensures
        date_before(a, b) <==> date_julian(a) < date_julian(b),
{
    if date_before(a, b) {
        lemma_date_order(a, b);
    }
    if date_before(b, a) {
        lemma_date_order(b, a);
    }
}

/// No two days of a month, from the year -10000 on, fall on the same day.
pub proof fn lemma_date_julian_injective(a: Ymd, b: Ymd)
    requires
        is_month_day(a),
        is_month_day(b),
        -10000 <= a.year,
        -10000 <= b.year,
        date_julian(a) == date_julian(b),
    ensures
        a == b,
{
    if date_before(a, b) {
        lemma_date_order(a, b);
    }
    if date_before(b, a) {
        lemma_date_order(b, a);
    }
}

/// The earliest supported date falls on the earliest supported day and the
/// latest on the latest.
pub proof fn lemma_first_and_last_date()
    ensures
        is_date(first_date()),
        is_date(last_date()),
        date_julian(first_date()) == JulianDay::MIN_INT,
        date_julian(last_date()) == JulianDay::MAX_INT,
{
    lemma_days_before_month(-10000, 3);
    lemma_closed_julian(last_date());
    assert(closed_julian(last_date()) == 7565016);
}

/// The supported dates are the days of a month that fall on a supported day.
pub proof fn lemma_date_julian_range(d: Ymd)
    requires
        is_month_day(d),
        -10000 <= d.year,
    ensures
        is_date(d) <==> in_julian_range(date_julian(d)),
        d == first_date() <==> date_julian(d) == JulianDay::MIN_INT,
        d == last_date() <==> date_julian(d) == JulianDay::MAX_INT,
{
    lemma_first_and_last_date();
    if date_before(d, first_date()) {
        lemma_date_order(d, first_date());
    }
    if date_before(first_date(), d) {
        lemma_date_order(first_date(), d);
    }
    if date_before(d, last_date()) {
        lemma_date_order(d, last_date());
    }
    if date_before(last_date(), d) {
        lemma_date_order(last_date(), d);
    }
}

/// For a supported day the closed form gives a supported date, and the day
/// falls on it.
pub proof fn lemma_closed_date_in_range(j: int)
    requires
        in_julian_range(j),
    ensures
        is_date(closed_date(j)),
        date_julian(closed_date(j)) == j,
{
    lemma_closed_date(j);
    let d = closed_date(j);
    let c = (4 * j + 274277) / 146097;
    assert(c >= -51);
    let k = century_correction(j);
    assert(k >= -39);
    let g = corrected_year(j);
    assert(g >= -5284);
    assert(d.year >= -10000);
    lemma_closed_julian(d);
    lemma_date_julian_range(d);
}

} // verus!
