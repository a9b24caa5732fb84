use sac13::Month;
use sac13::Weekday;

#[test]
fn into_implementation_works() {
    let m: u8 = Month::March.into();
    assert_eq!(m, 1);

    let m: i32 = Month::September.into();
    assert_eq!(m, 7);
}

#[test]
fn from_into_round_trip_works() {
    for m in 1..=13 {
        let typed: Month = m.try_into().unwrap();
        let num: i32 = typed.into();

        assert_eq!(m, num);
    }
}

#[test]
fn month_conversions_work_for_every_integer_type() {
    assert_eq!(u8::from(Month::Addenduary), 13);
    assert_eq!(u16::from(Month::April), 2);
    assert_eq!(u32::from(Month::May), 3);
    assert_eq!(u64::from(Month::June), 4);
    assert_eq!(u128::from(Month::July), 5);
    assert_eq!(i8::from(Month::August), 6);
    assert_eq!(i16::from(Month::October), 8);
    assert_eq!(i32::from(Month::November), 9);
    assert_eq!(i64::from(Month::December), 10);
    assert_eq!(i128::from(Month::January), 11);

    assert_eq!(Month::try_from(12u8), Ok(Month::February));
    assert_eq!(Month::try_from(13u16), Ok(Month::Addenduary));
    assert_eq!(Month::try_from(1u32), Ok(Month::March));
    assert_eq!(Month::try_from(2u64), Ok(Month::April));
    assert_eq!(Month::try_from(3u128), Ok(Month::May));
    assert_eq!(Month::try_from(4i8), Ok(Month::June));
    assert_eq!(Month::try_from(5i16), Ok(Month::July));
    assert_eq!(Month::try_from(6i32), Ok(Month::August));
    assert_eq!(Month::try_from(7i64), Ok(Month::September));
    assert_eq!(Month::try_from(8i128), Ok(Month::October));

    assert_eq!(Month::try_from(0u8), Err(()));
    assert_eq!(Month::try_from(14u8), Err(()));
    assert_eq!(Month::try_from(256u16 + 1), Err(()));
    assert_eq!(Month::try_from(0u32), Err(()));
    assert_eq!(Month::try_from(u64::MAX), Err(()));
    assert_eq!(Month::try_from(u128::MAX), Err(()));
    assert_eq!(Month::try_from(-1i8), Err(()));
    assert_eq!(Month::try_from(i16::MIN), Err(()));
    assert_eq!(Month::try_from(14i32), Err(()));
    assert_eq!(Month::try_from(257i64), Err(()));
    assert_eq!(Month::try_from(i128::MAX), Err(()));
}

#[test]
fn month_ordinals_run_from_march_to_addenduary() {
    let months = [
        Month::March,
        Month::April,
        Month::May,
        Month::June,
        Month::July,
        Month::August,
        Month::September,
        Month::October,
        Month::November,
        Month::December,
        Month::January,
        Month::February,
        Month::Addenduary,
    ];
    for (i, month) in months.iter().enumerate() {
        let ordinal = (i + 1) as u8;
        assert_eq!(Month::new(ordinal), Some(*month));
        assert_eq!(month.ord(), ordinal);
        assert_eq!(month.next(), months[(i + 1) % 13]);
        assert_eq!(month.previous(), months[(i + 12) % 13]);
        assert_eq!(month.next().previous(), *month);
        assert_eq!(month.previous().next(), *month);
    }
    assert_eq!(Month::new(0), None);
    assert_eq!(Month::new(14), None);
    assert_eq!(Month::new(255), None);
    assert!(Month::March < Month::April);
    assert!(Month::February < Month::Addenduary);
}

#[test]
fn month_names() {
    let names = [
        "March",
        "April",
        "May",
        "June",
        "July",
        "August",
        "September",
        "October",
        "November",
        "December",
        "January",
        "February",
        "Addenduary",
    ];
    for ordinal in 1..=13u8 {
        let month = Month::new(ordinal).unwrap();
        assert_eq!(month.name(), names[(ordinal - 1) as usize]);
        assert_eq!(month.to_string(), names[(ordinal - 1) as usize]);
    }
}

#[test]
fn weekday_names_and_steps() {
    let days = [
        Weekday::Monday,
        Weekday::Tuesday,
        Weekday::Wednesday,
        Weekday::Thursday,
        Weekday::Friday,
        Weekday::Saturday,
        Weekday::Sunday,
    ];
    let names = [
        "Monday",
        "Tuesday",
        "Wednesday",
        "Thursday",
        "Friday",
        "Saturday",
        "Sunday",
    ];
    for (i, day) in days.iter().enumerate() {
        assert_eq!(day.name(), names[i]);
        assert_eq!(day.to_string(), names[i]);
        assert_eq!(day.name_abr2(), &names[i][..2]);
        assert_eq!(day.name_abr3(), &names[i][..3]);
        assert_eq!(day.next(), days[(i + 1) % 7]);
        assert_eq!(day.previous(), days[(i + 6) % 7]);
    }
    assert!(Weekday::Monday < Weekday::Sunday);
}
