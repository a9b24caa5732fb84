use sac13::parse::ComponentParse;
use sac13::parse::ParsedFormat;
use sac13::parse_date_str;
use sac13::CalendarDate;
use sac13::ComponentOrder;
use sac13::Date;
use sac13::GregorianDate;
use sac13::GregorianOrSac13;
use sac13::Month;
use sac13::ParsedDate;
use sac13::Year;

fn date(y: &str, month: u8, day: u8) -> Date {
    let year = Year::try_from_str(y).expect("Invalid SAC13 year");
    let m = Month::new(month).expect("Month must be a value from 1 - 13.");
    Date::from_ymd(year, m, day).expect("The given input was not a valid SAC13 date")
}

fn date_greg(year: i16, month: u8, day: u8) -> GregorianDate {
    GregorianDate::from_ymd(year, month, day)
        .expect("The given input was not a valid Gregorian Calendar date")
}

fn assert_parse_error(input: &str) {
    assert!(matches!(parse_date_str(input), None), "{}", input);
}

fn parse_expect_greg(input: &str) -> GregorianDate {
    match parse_date_str(input) {
        Some(ParsedDate {
            date: GregorianOrSac13::GregorianDate(x),
            ..
        }) => x,
        _ => panic!("Expected {} to parse as Gregorian date.", input),
    }
}

fn parse_expect_sac13(input: &str) -> Date {
    match parse_date_str(input) {
        Some(ParsedDate {
            date: GregorianOrSac13::Sac13Date(x),
            ..
        }) => x,
        _ => panic!("Expected {} to parse as SAC13 date.", input),
    }
}

fn assert_sac13(input: &str, y: &str, m: u8, d: u8) {
    assert_eq!(parse_expect_sac13(input), date(y, m, d));
}

fn assert_greg(input: &str, y: i16, m: u8, d: u8) {
    assert_eq!(parse_expect_greg(input), date_greg(y, m, d));
}

fn format_of(input: &str) -> ParsedFormat {
    parse_date_str(input).expect("a date").format
}

#[test]
fn parsing_gregorian() {
    // DD-MM-YYYY
    assert_greg("11-12-2000", 2000, 12, 11);
    assert_greg("11.12.2000", 2000, 12, 11);

    // YYYY-MM-DD
    assert_greg("2000-12-11", 2000, 12, 11);
    assert_greg("2000.12.11", 2000, 12, 11);
    assert_greg("2000/12/11", 2000, 12, 11);

    // Gregorian US Format:
    assert_greg("12/11/2000", 2000, 12, 11);
}

#[test]
fn negative_year_greg() {
    assert_greg("-2000-12-11", -2000, 12, 11);
    assert_greg("11-12--2000", -2000, 12, 11);
    assert_greg("-2000.12.11", -2000, 12, 11);
    assert_greg("11.12.-2000", -2000, 12, 11);
}

#[test]
fn parsing_sac13() {
    assert_sac13("M003-02-01", "M003", 02, 01);
    assert_sac13("M003.02.01", "M003", 02, 01);
    assert_sac13("M003/02/01", "M003", 02, 01);

    assert_sac13("01-02-M003", "M003", 02, 01);
    assert_sac13("01.02.M003", "M003", 02, 01);
    assert_sac13("01/02/M003", "M003", 02, 01);

    // Note: SAC13 is always YMD or DMY and never the US format MDY
}

#[test]
fn no_letter_allowed_as_month() {
    assert_parse_error("2001-L-03");
}

#[test]
fn no_letter_allowed_as_day() {
    assert_parse_error("2001-02-L");
}

#[test]
fn ambiguous_year_end_fails_to_parse() {
    assert_parse_error("2020-12-2020");
}

#[test]
fn no_year_end_fails_to_parse() {
    assert_parse_error("01-01-01");
}

#[test]
fn three_digit_components_fail_to_parse() {
    assert_parse_error("001-01-01");
    assert_parse_error("01-01-001");

    assert_parse_error("01-001-2000");
    assert_parse_error("001-01-2000");
}

#[test]
fn three_digit_last_component_fails_to_parse() {
    assert_parse_error("2000-01-001");
    assert_parse_error("M003-02-001");
}

#[test]
fn parsing_rejects_what_is_no_date() {
    assert_parse_error("");
    assert_parse_error("-");
    assert_parse_error("2000");
    assert_parse_error("2000-12");
    assert_parse_error("2000-12-");
    assert_parse_error("2000-12-11-");
    assert_parse_error("2000-12-11-01");
    assert_parse_error("2000-12.11");
    assert_parse_error("2000/12-11");
    assert_parse_error("2000 12 11");
    assert_parse_error("2000-12-11 ");
    assert_parse_error(" 2000-12-11");
    assert_parse_error("2000-1a-11");
    assert_parse_error("2000-00-11");
    assert_parse_error("2000-13-11");
    assert_parse_error("2000-12-00");
    assert_parse_error("2000-12-32");
    assert_parse_error("2001-02-29");
    assert_parse_error("2000-2000-11");
    assert_parse_error("-M003-02-01");
    assert_parse_error("m003-02-01");
    assert_parse_error("M003-02-29");
    assert_parse_error("M003-14-01");
    assert_parse_error("02/01/M003-");
    assert_parse_error("99999-01-01");
    assert_parse_error("32768-01-01");
    assert_parse_error("Z9999-01-01");
    assert_parse_error("16001-01-01");
    assert_parse_error("2000--12-11");
    assert_parse_error("2000-12--11");
    assert_parse_error("2000-12-11\u{0}");
    assert_parse_error("２０００-12-11");
}

#[test]
fn parsing_accepts_short_days_and_months_and_long_years() {
    assert_greg("2000-1-2", 2000, 1, 2);
    assert_greg("1-2-2000", 2000, 2, 1);
    assert_greg("1/2/2000", 2000, 1, 2);
    assert_greg("02000-12-11", 2000, 12, 11);
    assert_greg("0000-12-11", 0, 12, 11);
    assert_greg("-0001-12-11", -1, 12, 11);
    assert_greg("16000-03-17", 16000, 3, 17);
    assert_greg("-10000-03-22", -10000, 3, 22);
    assert_sac13("A000-01-01", "A000", 1, 1);
    assert_sac13("Z999-13-29", "Z999", 13, 29);
    assert_sac13("29.13.Z999", "Z999", 13, 29);
    assert_sac13("M021-06-29", "M021", 6, 29);
    // a year with a letter may have more than three digits
    assert_sac13("A0123-02-01", "A123", 2, 1);
    assert_sac13("C5999-02-01", "Z999", 2, 1);
    assert_greg("-200-12-11", -200, 12, 11);
}

#[test]
fn parsing_with_slashes_is_day_first_for_sac13_and_month_first_for_gregorian() {
    assert_sac13("01/02/M003", "M003", 2, 1);
    assert_greg("01/02/2003", 2003, 1, 2);
    assert_eq!(format_of("01/02/M003").component_order, ComponentOrder::DMY);
    assert_eq!(format_of("01/02/2003").component_order, ComponentOrder::MDY);
    assert_eq!(format_of("2003/02/01").component_order, ComponentOrder::YMD);
    assert_eq!(format_of("01-02-2003").component_order, ComponentOrder::DMY);
}

#[test]
fn parsing_reports_how_the_date_was_written() {
    let format = format_of("2000-12-11");
    assert_eq!(format.separator, b'-');
    assert_eq!(format.component_order, ComponentOrder::YMD);
    assert_eq!(format.len_year, 4);
    assert_eq!(format.len_month, 2);
    assert_eq!(format.len_day, 2);
    assert_eq!(format.to_string(), "YYYY-MM-DD");

    let format = format_of("1.2.-02000");
    assert_eq!(format.separator, b'.');
    assert_eq!(format.component_order, ComponentOrder::DMY);
    assert_eq!(format.len_year, 6);
    assert_eq!(format.len_month, 1);
    assert_eq!(format.len_day, 1);
    assert_eq!(format.to_string(), "D.M.YYYYYY");

    let format = format_of("12/11/2000");
    assert_eq!(format.separator, b'/');
    assert_eq!(format.component_order, ComponentOrder::MDY);
    assert_eq!(format.to_string(), "MM/DD/YYYY");

    let format = format_of("M003-02-01");
    assert_eq!(format.len_year, 4);
    assert_eq!(format.to_string(), "YYYY-MM-DD");
}

#[test]
fn parsed_format_is_written_for_any_lengths() {
    let format = ParsedFormat {
        separator: b'/',
        component_order: ComponentOrder::MDY,
        len_day: 0,
        len_month: 3,
        len_year: 1,
    };
    assert_eq!(format.to_string(), "MMM//Y");
    let format = ParsedFormat {
        separator: b'x',
        component_order: ComponentOrder::DMY,
        len_day: 255,
        len_month: 0,
        len_year: 0,
    };
    assert_eq!(format.to_string(), format!("{}xx", "D".repeat(255)));
}

#[test]
fn parsed_dates_are_written_in_their_calendar() {
    assert_eq!(parse_date_str("11.12.2000").unwrap().date.to_string(), "2000-12-11");
    assert_eq!(parse_date_str("01/02/M003").unwrap().date.to_string(), "M003-02-01");
    assert_eq!(parse_date_str("11.12.-2000").unwrap().date.to_string(), "-2000-12-11");
}

#[test]
fn parsing_round_trip_of_written_dates() {
    for j in [-1931284, -1, 0, 2451624, 2460650, 7565016] {
        let sac13 = Date::from_julian(j).unwrap();
        let greg = GregorianDate::from_julian(j).unwrap();
        assert_eq!(parse_expect_sac13(&sac13.to_string()), sac13);
        if greg.year() >= 1000 || greg.year() <= -100 {
            assert_eq!(parse_expect_greg(&greg.to_string()), greg);
        }
    }
}

fn component(input: &str, start: usize) -> Option<(bool, u8, i16, u8, usize)> {
    ComponentParse::parse(input.as_bytes(), start)
        .map(|(c, next)| (c.letter, c.char_cnt, c.value, c.end, next))
}

#[test]
fn components_are_numbers_up_to_a_separator() {
    assert_eq!(component("2000-12-11", 0), Some((false, 4, 2000, b'-', 5)));
    assert_eq!(component("2000-12-11", 5), Some((false, 2, 12, b'-', 8)));
    assert_eq!(component("2000-12-11", 8), Some((false, 2, 11, 0, 10)));
    assert_eq!(component("2000-12-11", 10), None);
    assert_eq!(component("2000-12-11", 11), None);
    assert_eq!(component("-2000.12", 0), Some((false, 5, -2000, b'.', 6)));
    assert_eq!(component("M003/02", 0), Some((true, 4, 12003, b'/', 5)));
    assert_eq!(component("Z", 0), Some((true, 1, 25, 0, 1)));
    assert_eq!(component("--", 0), Some((false, 1, 0, b'-', 2)));
    assert_eq!(component("-", 0), None);
    assert_eq!(component("-M003", 0), None);
    assert_eq!(component(".", 0), Some((false, 0, 0, b'.', 1)));
    assert_eq!(component("12a", 0), None);
    assert_eq!(component("1M", 0), None);
    assert_eq!(component("32767", 0), Some((false, 5, 32767, 0, 5)));
    assert_eq!(component("32768", 0), None);
    assert_eq!(component("-32767", 0), Some((false, 6, -32767, 0, 6)));
    assert_eq!(component("-32768", 0), None);
    assert_eq!(component("Z2767", 0), None);
    assert_eq!(component("D2767", 0), Some((true, 5, 32767, 0, 5)));
    assert_eq!(component("000000000012", 0), Some((false, 12, 12, 0, 12)));
}

#[test]
fn components_of_more_than_255_characters_are_rejected() {
    let zeros = "0".repeat(255);
    assert_eq!(component(&zeros, 0), Some((false, 255, 0, 0, 255)));
    let zeros = "0".repeat(256);
    assert_eq!(component(&zeros, 0), None);
    let text = format!("{}-01-01", "0".repeat(300));
    assert_parse_error(&text);
}
