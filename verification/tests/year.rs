use sac13::Year;
use sac13::YearType;

fn year(text: &str) -> Year {
    Year::try_from_str(text).expect("Invalid SAC13 year")
}

#[test]
pub fn lib_const_year_num_is_same_as_during_construction() {
    assert_eq!(year("B000").value(), 1000);
}

#[test]
pub fn tests_const_year_num_is_same_as_during_construction() {
    assert_eq!(year("B000").value(), 1000);
}

#[test]
fn snapshot_all_leap_years() {
    let mut y = Year::min_value();
    let mut leap_years = vec![];

    loop {
        if y.is_leap() {
            leap_years.push(y.to_string());
        }

        match y.next() {
            Some(new_y) => y = new_y,
            None => break,
        };
    }

    // 9'496'301 days in 26'000 years: 6'301 days more than 365 a year
    assert_eq!(leap_years.len(), 6301);
    assert_eq!(
        leap_years[..8],
        ["A000", "A004", "A008", "A012", "A016", "A020", "A024", "A028"]
    );
    assert_eq!(
        leap_years[leap_years.len() - 5..],
        ["Z982", "Z986", "Z990", "Z994", "Z998"]
    );
    assert!(leap_years.contains(&"L815".to_string()));
    assert!(leap_years.contains(&"M021".to_string()));
    assert!(!leap_years.contains(&"L814".to_string()));

    let mut expected = vec![];
    for value in 0..=25999u32 {
        if (value + 199) % 293 % 33 % 4 == 1 {
            let letter = (b'A' + (value / 1000) as u8) as char;
            expected.push(format!("{}{:03}", letter, value % 1000));
        }
    }
    assert_eq!(leap_years, expected);
}

#[test]
fn year_new_accepts_0_to_25999() {
    assert_eq!(Year::MIN_INT, 0);
    assert_eq!(Year::MAX_INT, 25999);
    assert_eq!(Year::new(0), Some(Year::min_value()));
    assert_eq!(Year::new(25999), Some(Year::max_value()));
    assert_eq!(Year::new(26000), None);
    assert_eq!(Year::new(u16::MAX), None);
    assert_eq!(Year::new(12024).unwrap().value(), 12024);
}

#[test]
fn year_round_trip_through_its_value() {
    let mut y = Year::min_value();
    loop {
        assert_eq!(Year::new(y.value()), Some(y));
        match y.next() {
            Some(next) => {
                assert_eq!(next.value(), y.value() + 1);
                assert_eq!(next.previous(), Some(y));
                y = next;
            }
            None => break,
        }
    }
    assert_eq!(y, Year::max_value());
}

#[test]
fn year_steps_stop_at_the_boundaries() {
    assert_eq!(Year::min_value().previous(), None);
    assert_eq!(Year::max_value().next(), None);
    assert_eq!(Year::min_value().next(), Year::new(1));
    assert_eq!(Year::max_value().previous(), Year::new(25998));
}

#[test]
fn year_from_text_takes_a_letter_and_three_digits() {
    assert_eq!(Year::try_from_str("M024"), Year::new(12024));
    assert_eq!(Year::try_from_str("A000"), Year::new(0));
    assert_eq!(Year::try_from_str("Z999"), Year::new(25999));
    assert_eq!(Year::try_from_str("B000"), Year::new(1000));
    assert_eq!(Year::try_from_str("m020"), None);
    assert_eq!(Year::try_from_str("20020"), None);
    assert_eq!(Year::try_from_str("-100"), None);
    assert_eq!(Year::try_from_str("20"), None);
    assert_eq!(Year::try_from_str(""), None);
    assert_eq!(Year::try_from_str("M02"), None);
    assert_eq!(Year::try_from_str("M0200"), None);
    assert_eq!(Year::try_from_str("M0a0"), None);
    assert_eq!(Year::try_from_str("M00/"), None);
    assert_eq!(Year::try_from_str("M:00"), None);
    assert_eq!(Year::try_from_str("@000"), None);
    assert_eq!(Year::try_from_str("[000"), None);
    assert_eq!(Year::try_from_str("1234"), None);
    assert_eq!(Year::try_from_str("Mä0"), None);
}

#[test]
fn year_from_digits_takes_a_letter_and_three_digits() {
    assert_eq!(Year::parse_year_digits(b'M', b'0', b'2', b'4'), Year::new(12024));
    assert_eq!(Year::parse_year_digits(b'Z', b'9', b'9', b'9'), Year::new(25999));
    assert_eq!(Year::parse_year_digits(b'a', b'0', b'0', b'0'), None);
    assert_eq!(Year::parse_year_digits(b'A', b'0', b'0', b':'), None);
}

#[test]
fn year_is_written_with_millennium_letter() {
    assert_eq!(Year::new(12020).unwrap().to_string(), "M020");
    assert_eq!(Year::new(12024).unwrap().to_string(), "M024");
    assert_eq!(Year::new(0).unwrap().to_string(), "A000");
    assert_eq!(Year::new(25999).unwrap().to_string(), "Z999");
    assert_eq!(Year::new(1007).unwrap().to_string(), "B007");
}

#[test]
fn year_text_round_trip() {
    let mut y = Year::min_value();
    loop {
        assert_eq!(Year::try_from_str(&y.to_string()), Some(y));
        match y.next() {
            Some(next) => y = next,
            None => break,
        }
    }
}

#[test]
fn year_type_and_days_follow_the_leap_rule() {
    let leap = year("L815");
    assert_eq!(leap.year_type(), YearType::Leap);
    assert!(leap.is_leap());
    assert!(!leap.is_common());
    assert_eq!(leap.days(), 366);

    let common = year("L814");
    assert_eq!(common.year_type(), YearType::Common);
    assert!(!common.is_leap());
    assert!(common.is_common());
    assert_eq!(common.days(), 365);

    // the last year of a 33-year cycle is a common year although its
    // position in the cycle, 32, is a multiple of four
    assert!(Year::new(126).unwrap().is_common());
    assert!(Year::new(0).unwrap().is_leap());
    assert!(Year::new(25999).unwrap().is_common());
}
