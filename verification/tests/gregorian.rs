use sac13::CalendarDate;
use sac13::GregorianDate;

fn date_greg(year: i16, month: u8, day: u8) -> GregorianDate {
    GregorianDate::from_ymd(year, month, day)
        .expect("The given input was not a valid Gregorian Calendar date")
}

fn same(year: i16, month: u8, day: u8, jdn: i32) {
    assert_eq!(date_greg(year, month, day).as_julian(), jdn);

    assert_eq!(
        date_greg(year, month, day),
        GregorianDate::from_julian(jdn).unwrap()
    );
}

#[test]
fn gregorian_julian_day_number_conversion_works_with_samples() {
    same(2024, 12, 05, 2460650);
    same(2000, 01, 01, 2451545);
    same(2000, 03, 20, 2451624);
    same(1600, 02, 29, 2305507);
}

#[test]
fn gregorian_leap_years_follow_the_rule_of_4_100_and_400() {
    assert!(GregorianDate::is_leap_year(2000));
    assert!(GregorianDate::is_leap_year(2024));
    assert!(GregorianDate::is_leap_year(-10000));
    assert!(GregorianDate::is_leap_year(-4));
    assert!(GregorianDate::is_leap_year(0));
    assert!(!GregorianDate::is_leap_year(1900));
    assert!(!GregorianDate::is_leap_year(2100));
    assert!(!GregorianDate::is_leap_year(-100));
    assert!(!GregorianDate::is_leap_year(2023));
    assert!(!GregorianDate::is_leap_year(-1));
}

#[test]
fn gregorian_month_lengths() {
    let expected = [31, 28, 31, 30, 31, 30, 31, 31, 30, 31, 30, 31];
    for month in 1..=12u8 {
        assert_eq!(
            GregorianDate::month_len(2023, month),
            Some(expected[(month - 1) as usize])
        );
    }
    assert_eq!(GregorianDate::month_len(2024, 2), Some(29));
    assert_eq!(GregorianDate::month_len(1900, 2), Some(28));
    assert_eq!(GregorianDate::month_len(2000, 2), Some(29));
    assert_eq!(GregorianDate::month_len(2000, 0), None);
    assert_eq!(GregorianDate::month_len(2000, 13), None);
}

#[test]
fn gregorian_from_ymd_rejects_what_is_no_date() {
    assert!(GregorianDate::from_ymd(2021, 2, 29).is_none());
    assert!(GregorianDate::from_ymd(2020, 2, 29).is_some());
    assert!(GregorianDate::from_ymd(2020, 0, 1).is_none());
    assert!(GregorianDate::from_ymd(2020, 13, 1).is_none());
    assert!(GregorianDate::from_ymd(2020, 1, 0).is_none());
    assert!(GregorianDate::from_ymd(2020, 8, 32).is_none());
    assert!(GregorianDate::from_ymd(2020, 4, 31).is_none());
    assert!(GregorianDate::from_ymd(1900, 2, 29).is_none());
}

#[test]
fn gregorian_from_ymd_keeps_to_the_supported_range() {
    assert_eq!(
        GregorianDate::from_ymd(-10000, 3, 22),
        Some(GregorianDate::min_value())
    );
    assert!(GregorianDate::from_ymd(-10000, 3, 21).is_none());
    assert!(GregorianDate::from_ymd(-10000, 1, 1).is_none());
    assert!(GregorianDate::from_ymd(-10001, 12, 31).is_none());
    assert_eq!(
        GregorianDate::from_ymd(16000, 3, 17),
        Some(GregorianDate::max_value())
    );
    assert!(GregorianDate::from_ymd(16000, 3, 18).is_none());
    assert!(GregorianDate::from_ymd(16001, 1, 1).is_none());
    assert!(GregorianDate::from_ymd(i16::MAX, 1, 1).is_none());
    assert!(GregorianDate::from_ymd(i16::MIN, 12, 31).is_none());
}

#[test]
fn gregorian_components_are_those_given() {
    let date = date_greg(-2000, 12, 11);
    assert_eq!(date.year(), -2000);
    assert_eq!(date.month(), 12);
    assert_eq!(date.day(), 11);
}

#[test]
fn gregorian_boundaries_have_no_day_beyond() {
    assert_eq!(GregorianDate::min_value().yesterday(), None);
    assert_eq!(GregorianDate::max_value().tomorrow(), None);
    assert_eq!(
        GregorianDate::min_value().tomorrow(),
        Some(date_greg(-10000, 3, 23))
    );
    assert_eq!(
        GregorianDate::max_value().yesterday(),
        Some(date_greg(16000, 3, 16))
    );
    assert_eq!(GregorianDate::min_value().as_julian(), -1931284);
    assert_eq!(GregorianDate::max_value().as_julian(), 7565016);
    assert_eq!(<GregorianDate as CalendarDate>::min_value(), GregorianDate::min_value());
    assert_eq!(<GregorianDate as CalendarDate>::max_value(), GregorianDate::max_value());
}

#[test]
fn gregorian_steps_roll_over_months_and_years() {
    assert_eq!(date_greg(2023, 12, 31).tomorrow(), Some(date_greg(2024, 1, 1)));
    assert_eq!(date_greg(2024, 1, 1).yesterday(), Some(date_greg(2023, 12, 31)));
    assert_eq!(date_greg(2024, 2, 28).tomorrow(), Some(date_greg(2024, 2, 29)));
    assert_eq!(date_greg(2024, 2, 29).tomorrow(), Some(date_greg(2024, 3, 1)));
    assert_eq!(date_greg(2023, 2, 28).tomorrow(), Some(date_greg(2023, 3, 1)));
    assert_eq!(date_greg(2023, 3, 1).yesterday(), Some(date_greg(2023, 2, 28)));
    assert_eq!(date_greg(1900, 3, 1).yesterday(), Some(date_greg(1900, 2, 28)));
    assert_eq!(date_greg(2000, 3, 1).yesterday(), Some(date_greg(2000, 2, 29)));
    assert_eq!(date_greg(-1, 12, 31).tomorrow(), Some(date_greg(0, 1, 1)));
    assert_eq!(date_greg(2024, 4, 30).tomorrow(), Some(date_greg(2024, 5, 1)));
}

#[test]
fn gregorian_from_julian_rejects_days_out_of_range() {
    assert!(GregorianDate::from_julian(-1931285).is_none());
    assert!(GregorianDate::from_julian(7565017).is_none());
    assert!(GregorianDate::from_julian(i32::MIN).is_none());
    assert!(GregorianDate::from_julian(i32::MAX).is_none());
}

#[test]
fn gregorian_known_julian_day_numbers() {
    assert_eq!(date_greg(1970, 1, 1).as_julian(), 2440588);
    assert_eq!(date_greg(-4713, 11, 24).as_julian(), 0);
    assert_eq!(GregorianDate::from_julian(0), Some(date_greg(-4713, 11, 24)));
    assert_eq!(date_greg(2020, 2, 29).as_julian(), 2458909);
}

#[test]
fn gregorian_dates_are_ordered_by_year_month_and_day() {
    assert!(date_greg(2020, 5, 15) < date_greg(2020, 5, 16));
    assert!(date_greg(2020, 4, 17) < date_greg(2020, 5, 16));
    assert!(date_greg(-2019, 6, 17) < date_greg(2020, 5, 16));
    assert!(date_greg(2020, 5, 16) == date_greg(2020, 5, 16));
}

#[test]
fn gregorian_dates_are_written_with_two_digit_month_and_day() {
    assert_eq!(date_greg(2024, 12, 5).to_string(), "2024-12-05");
    assert_eq!(date_greg(-2000, 1, 31).to_string(), "-2000-01-31");
    assert_eq!(date_greg(5, 3, 9).to_string(), "5-03-09");
    assert_eq!(date_greg(0, 10, 10).to_string(), "0-10-10");
    assert_eq!(GregorianDate::min_value().to_string(), "-10000-03-22");
    assert_eq!(GregorianDate::max_value().to_string(), "16000-03-17");
}
