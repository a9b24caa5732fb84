//! The leap cycle of the SAC13 calendar: which years are leap years, how
//! many days lie before a year, and the nested 293/33/4-year cycles by which
//! both are computed.

use vstd::prelude::*;

verus! {

/// Position of year zero in the 293-year leap cycle.
pub const RAW_YEAR_OFFSET: u16 = 199;

/// Days in a 293-year cycle: 71 leap years and 222 common years.
pub const DAYS_IN_293_YEARS: u32 = 107016;

/// Days in a 33-year cycle: 8 leap years and 25 common years.
pub const DAYS_IN_33_YEARS: u32 = 12053;

/// Days in a 4-year cycle: 1 leap year and 3 common years.
pub const DAYS_IN_4_YEARS: u32 = 1461;

/// Whether the year at position `r` of the leap cycle is a leap year.
pub open spec fn is_leap_raw(r: int) -> bool {
    r % 293 % 33 % 4 == 1
}

/// Whether the SAC13 year `y` is a leap year.
pub open spec fn is_leap(y: int) -> bool {
    is_leap_raw(y + 199)
}

/// The number of days of the SAC13 year `y`.
pub open spec fn year_len(y: int) -> int {
    if is_leap(y) {
        366
    } else {
        365
    }
}

/// The number of days from the first day of year zero to the first day of
/// year `y`: the sum of the lengths of the years before `y`.
pub open spec fn days_before_year(y: int) -> int
    decreases y,
{
    if y <= 0 {
        0
    } else {
        days_before_year(y - 1) + year_len(y - 1)
    }
}

/// The number of days from the start of the leap cycle epoch to the first
/// day of the year at cycle position `r`, by whole 293-, 33- and 4-year
/// cycles and the years that remain.
pub open spec fn cycle_days(r: int) -> int {
    let a = r / 293;
    let b = r % 293;
    let c = b / 33;
    let d = b % 33;
    let e = d / 4;
    let f = d % 4;
    a * 107016 + c * 12053 + e * 1461 + f * 365 + if f >= 2 {
        1int
    } else {
        0int
    }
}

/// From one year to the next the cycle count grows by the length of the year.
pub proof fn lemma_cycle_days_step(r: int)
    requires
        0 <= r,
    ensures
        cycle_days(r + 1) == cycle_days(r) + if is_leap_raw(r) {
            366int
        } else {
            365int
        },
{
    let a = r / 293;
    let b = r % 293;
    let c = b / 33;
    let d = b % 33;
    let e = d / 4;
    let f = d % 4;
    assert(r == 293 * a + b);
    assert(b == 33 * c + d);
    assert(d == 4 * e + f);
    if b == 292 {
        assert((r + 1) / 293 == a + 1 && (r + 1) % 293 == 0);
    } else {
        assert((r + 1) / 293 == a && (r + 1) % 293 == b + 1);
        if d == 32 {
            assert((b + 1) / 33 == c + 1 && (b + 1) % 33 == 0);
        } else {
            assert((b + 1) / 33 == c && (b + 1) % 33 == d + 1);
            if f == 3 {
                assert((d + 1) / 4 == e + 1 && (d + 1) % 4 == 0);
            } else {
                assert((d + 1) / 4 == e && (d + 1) % 4 == f + 1);
            }
        }
    }
}

/// The leap years repeat every 293 years, of which 71 are leap years and
/// 222 are common years.
pub proof fn lemma_cycle_period(r: int)
    requires
        0 <= r,
    ensures
        is_leap_raw(r + 293) == is_leap_raw(r),
        cycle_days(r + 293) == cycle_days(r) + 71 * 366 + 222 * 365,
{
    let a = r / 293;
    let b = r % 293;
    assert(r == 293 * a + b);
    assert((r + 293) / 293 == a + 1 && (r + 293) % 293 == b);
}

/// The cycle count of a SAC13 year is the sum of the lengths of the years
/// before it, counted from the cycle day of year zero.
pub proof fn lemma_cycle_days_sum(y: int)
    requires
        0 <= y,
    ensures
        cycle_days(y + 199) == 72683 + days_before_year(y),
    decreases y,
{
    if y == 0 {
        assert(cycle_days(199) == 72683);
    } else {
        lemma_cycle_days_sum(y - 1);
        lemma_cycle_days_step(y - 1 + 199);
    }
}

/// The number of days of the year at position `r` of the leap cycle.
pub open spec fn raw_year_len(r: int) -> int {
    if is_leap_raw(r) {
        366
    } else {
        365
    }
}

/// Between two years there are at least 365 and at most 366 days a year.
pub proof fn lemma_days_before_year_growth(a: int, b: int)
    requires
        0 <= a <= b,
    ensures
        365 * (b - a) <= days_before_year(b) - days_before_year(a) <= 366 * (b - a),
    decreases b - a,
{
    if a < b {
        lemma_days_before_year_growth(a, b - 1);
    }
}

/// The supported years, 0 to 25'999, have 9'496'301 days in all.
pub proof fn lemma_days_before_year_total()
    ensures
        days_before_year(0) == 0,
        days_before_year(26000) == 9496301,
{
    lemma_cycle_days_sum(26000);
    assert(cycle_days(26199) == 9568984);
}

/// Whether `d` is a day of the supported year `y`, counted from zero.
pub open spec fn is_year_day(y: int, d: int) -> bool {
    0 <= y <= 25999 && 0 <= d < year_len(y)
}

/// The number of days from the first day of year zero to day `d` of year `y`.
pub open spec fn year_day_number(y: int, d: int) -> int {
    days_before_year(y) + d
}

/// Every day of a supported year lies in the span of 9'496'301 days.
pub proof fn lemma_year_day_number_range(y: int, d: int)
    requires
        is_year_day(y, d),
    ensures
        0 <= year_day_number(y, d) <= 9496300,
{
    lemma_days_before_year_growth(0, y);
    lemma_days_before_year_growth(y + 1, 26000);
    lemma_days_before_year_total();
}

/// The order of the days of years, by year and day, is the order of their
/// numbers.
pub proof fn lemma_year_day_order_is_day_order(y1: int, d1: int, y2: int, d2: int)
    requires
        is_year_day(y1, d1),
        is_year_day(y2, d2),
    ensures
        (y1 < y2 || (y1 == y2 && d1 < d2)) <==> year_day_number(y1, d1) < year_day_number(y2, d2),
{
    if y1 < y2 {
        lemma_days_before_year_growth(y1 + 1, y2);
    }
    if y2 < y1 {
        lemma_days_before_year_growth(y2 + 1, y1);
    }
}

/// No two days of supported years have the same number.
pub proof fn lemma_year_day_number_injective(y1: int, d1: int, y2: int, d2: int)
    requires
        is_year_day(y1, d1),
        is_year_day(y2, d2),
        year_day_number(y1, d1) == year_day_number(y2, d2),
    ensures
        y1 == y2,
        d1 == d2,
{
    if y1 < y2 {
        lemma_days_before_year_growth(y1 + 1, y2);
    }
    if y2 < y1 {
        lemma_days_before_year_growth(y2 + 1, y1);
    }
}

/// The number of whole years that the first `d` days of a 4-year cycle hold:
/// a common year, a leap year, then two common years.
pub open spec fn rest_years(d: int) -> int {
    if d >= 731 {
        2 + (d - 731) / 365
    } else if d >= 365 {
        1
    } else {
        0
    }
}

/// The days that remain of the first `d` days of a 4-year cycle after its
/// whole years.
pub open spec fn rest_days(d: int) -> int {
    if d >= 731 {
        (d - 731) % 365
    } else if d >= 365 {
        d - 365
    } else {
        d
    }
}

/// The cycle position of the year into which day `d` of the leap cycle epoch
/// falls, by whole 293-, 33- and 4-year cycles and the years that remain.
pub open spec fn cycle_year(d: int) -> int {
    let a = d / 107016;
    let d1 = d % 107016;
    let c = d1 / 12053;
    let d2 = d1 % 12053;
    let e = d2 / 1461;
    let d3 = d2 % 1461;
    293 * a + 33 * c + 4 * e + rest_years(d3)
}

/// The day of its year, counted from zero, that day `d` of the leap cycle
/// epoch is.
pub open spec fn cycle_day_of_year(d: int) -> int {
    rest_days(d % 107016 % 12053 % 1461)
}

/// Splitting a cycle day into year and day of year undoes the count of days:
/// the day lies in the year found, at the place found.
pub proof fn lemma_cycle_split(d: int)
    requires
        0 <= d,
    ensures
        0 <= cycle_year(d),
        0 <= cycle_day_of_year(d) < raw_year_len(cycle_year(d)),
        cycle_days(cycle_year(d)) + cycle_day_of_year(d) == d,
{
    let a = d / 107016;
    let d1 = d % 107016;
    let c = d1 / 12053;
    let d2 = d1 % 12053;
    let e = d2 / 1461;
    let d3 = d2 % 1461;
    let f = rest_years(d3);
    let t = rest_days(d3);
    assert(d == 107016 * a + d1);
    assert(d1 == 12053 * c + d2);
    assert(d2 == 1461 * e + d3);
    assert(0 <= c <= 8);
    assert(c == 8 ==> d2 < 10592);
    assert(0 <= e <= 8);
    assert(c == 8 ==> e <= 7);
    assert(c == 8 && e == 7 ==> d3 < 365);
    assert(e == 8 ==> d3 < 365);
    assert(0 <= f <= 3);
    assert(e == 8 ==> f == 0);
    assert(c == 8 && e == 7 ==> f == 0);
    let dd = 4 * e + f;
    assert(0 <= dd <= 32);
    assert(c == 8 ==> dd <= 28);
    let b = 33 * c + dd;
    assert(0 <= b <= 292);
    let r = 293 * a + b;
    assert(r == cycle_year(d));
    assert(r / 293 == a && r % 293 == b);
    assert(b / 33 == c && b % 33 == dd);
    assert(dd / 4 == e && dd % 4 == f);
    assert(f * 365 + (if f >= 2 { 1int } else { 0int }) + t == d3);
}

/// Between two cycle positions there are at least 365 and at most 366 days
/// a year.
pub proof fn lemma_cycle_days_growth(a: int, b: int)
    requires
        0 <= a <= b,
    ensures
        365 * (b - a) <= cycle_days(b) - cycle_days(a) <= 366 * (b - a),
    decreases b - a,
{
    if a < b {
        lemma_cycle_days_growth(a, b - 1);
        lemma_cycle_days_step(b - 1);
    }
}

/// A cycle day of the supported span falls into a supported year: taken from
/// the cycle position of year zero, its year and day of year are a day of a
/// supported year, and that day's number is the cycle day taken from the
/// cycle day of `A000-01-01`.
pub proof fn lemma_cycle_split_in_range(d: int)
    requires
        72683 <= d <= 9568983,
    ensures
        is_year_day(cycle_year(d) - 199, cycle_day_of_year(d)),
        year_day_number(cycle_year(d) - 199, cycle_day_of_year(d)) == d - 72683,
{
    let r = cycle_year(d);
    lemma_cycle_split(d);
    lemma_cycle_days_step(r);
    assert(cycle_days(199) == 72683);
    assert(cycle_days(26199) == 9568984);
    if r < 199 {
        lemma_cycle_days_growth(r + 1, 199);
    }
    if r >= 26199 {
        lemma_cycle_days_growth(26199, r);
    }
    lemma_cycle_days_sum(r - 199);
}

} // verus!
