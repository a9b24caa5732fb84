use sac13::day_counts::CycleEpochDay;
use sac13::day_counts::JulianDay;
use sac13::day_counts::Sac13Day;
use sac13::day_counts::UnixDay;
use sac13::day_counts::YearOrdinal;
use sac13::prelude::CalendarDate;
use sac13::prelude::Convert;
use sac13::prelude::Date;
use sac13::prelude::GregorianDate;
use sac13::prelude::Month;
use sac13::prelude::Year;

fn date(y: &str, month: u8, day: u8) -> Date {
    let year = Year::try_from_str(y).expect("Invalid SAC13 year");
    let m = Month::new(month).expect("Month must be a value from 1 - 13.");
    Date::from_ymd(year, m, day).expect("The given input was not a valid SAC13 date")
}

fn date_greg(year: i16, month: u8, day: u8) -> GregorianDate {
    GregorianDate::from_ymd(year, month, day)
        .expect("The given input was not a valid Gregorian Calendar date")
}

#[test]
pub fn lib_const_date_construction_works() {}

#[test]
pub fn tests_const_date_construction_works() {}

#[test]
pub fn lib_greg_from_sac13_works() {
    let result: GregorianDate = date("M000", 01, 01).convert();

    assert_eq!(result, date_greg(2000, 03, 20));
}

#[test]
pub fn lib_sac13_from_greg_works() {
    let result: Date = date_greg(2000, 03, 20).convert();
    assert_eq!(result, date("M000", 01, 01));
}

#[test]
pub fn tests_greg_from_sac13_works() {
    let result: GregorianDate = date("M000", 01, 01).convert();

    assert_eq!(result, date_greg(2000, 03, 20));
}

#[test]
pub fn tests_sac13_from_greg_works() {
    let result: Date = date_greg(2000, 03, 20).convert();
    assert_eq!(result, date("M000", 01, 01));
}

#[test]
fn convert_from_a_day_count_to_both_calendars() {
    let date_sac13: Date = JulianDay::new(2460000).unwrap().convert();
    let date_gregorian: GregorianDate = date_sac13.convert();
    assert_eq!(date_gregorian, date_greg(2023, 2, 24));
    assert_eq!(date_sac13.as_julian(), 2460000);
    assert_eq!(date_gregorian.as_julian(), 2460000);
}

fn check_day(j: i32) {
    let jd = JulianDay::new(j).unwrap();
    let sac13 = Date::from_julian(j).unwrap();
    let greg = GregorianDate::from_julian(j).unwrap();
    let unix = UnixDay::from_julian(j).unwrap();
    let cycle = CycleEpochDay::from_julian(j).unwrap();
    let count = Sac13Day::from_julian(j).unwrap();
    let ordinal = YearOrdinal::from_julian(j).unwrap();

    // every type names the day
    assert_eq!(jd.as_julian(), j);
    assert_eq!(sac13.as_julian(), j);
    assert_eq!(greg.as_julian(), j);
    assert_eq!(unix.as_julian(), j);
    assert_eq!(cycle.as_julian(), j);
    assert_eq!(count.as_julian(), j);
    assert_eq!(ordinal.as_julian(), j);

    // converting to the own type gives the value back
    assert_eq!(jd.convert::<JulianDay>(), jd);
    assert_eq!(sac13.convert::<Date>(), sac13);
    assert_eq!(greg.convert::<GregorianDate>(), greg);
    assert_eq!(unix.convert::<UnixDay>(), unix);
    assert_eq!(cycle.convert::<CycleEpochDay>(), cycle);
    assert_eq!(count.convert::<Sac13Day>(), count);
    assert_eq!(ordinal.convert::<YearOrdinal>(), ordinal);

    // and to another type and back as well
    assert_eq!(sac13.convert::<GregorianDate>(), greg);
    assert_eq!(greg.convert::<Date>(), sac13);
    assert_eq!(sac13.convert::<YearOrdinal>(), ordinal);
    assert_eq!(ordinal.convert::<Date>(), sac13);
    assert_eq!(unix.convert::<Sac13Day>(), count);
    assert_eq!(cycle.convert::<UnixDay>(), unix);

    // stepping there and back
    if j < JulianDay::MAX_INT {
        assert_eq!(sac13.tomorrow().unwrap().yesterday(), Some(sac13));
        assert_eq!(greg.tomorrow().unwrap().yesterday(), Some(greg));
        assert_eq!(ordinal.tomorrow().unwrap().yesterday(), Some(ordinal));
        assert_eq!(sac13.tomorrow(), Date::from_julian(j + 1));
        assert_eq!(greg.tomorrow(), GregorianDate::from_julian(j + 1));
        assert_eq!(ordinal.tomorrow(), YearOrdinal::from_julian(j + 1));
    } else {
        assert_eq!(sac13.tomorrow(), None);
        assert_eq!(greg.tomorrow(), None);
        assert_eq!(ordinal.tomorrow(), None);
    }
    if j > JulianDay::MIN_INT {
        assert_eq!(sac13.yesterday().unwrap().tomorrow(), Some(sac13));
        assert_eq!(greg.yesterday().unwrap().tomorrow(), Some(greg));
        assert_eq!(ordinal.yesterday().unwrap().tomorrow(), Some(ordinal));
        assert_eq!(sac13.yesterday(), Date::from_julian(j - 1));
        assert_eq!(greg.yesterday(), GregorianDate::from_julian(j - 1));
        assert_eq!(ordinal.yesterday(), YearOrdinal::from_julian(j - 1));
    } else {
        assert_eq!(sac13.yesterday(), None);
        assert_eq!(greg.yesterday(), None);
        assert_eq!(ordinal.yesterday(), None);
    }
}

#[test]
fn all_types_agree_on_chosen_days() {
    for j in [
        JulianDay::MIN_INT,
        JulianDay::MIN_INT + 1,
        -1,
        0,
        1,
        2305507,
        2440588,
        2451545,
        2451624,
        2459462,
        2460650,
        JulianDay::MAX_INT - 1,
        JulianDay::MAX_INT,
    ] {
        check_day(j);
    }
}

#[test]
fn all_types_agree_on_every_thousandth_day() {
    let mut j = JulianDay::MIN_INT;
    while j <= JulianDay::MAX_INT {
        check_day(j);
        j += 997;
    }
}

#[test]
fn first_and_last_day_are_the_same_in_every_type() {
    assert_eq!(Date::min_value().convert::<GregorianDate>(), GregorianDate::min_value());
    assert_eq!(Date::max_value().convert::<GregorianDate>(), GregorianDate::max_value());
    assert_eq!(GregorianDate::min_value().convert::<Date>(), Date::min_value());
    assert_eq!(GregorianDate::max_value().convert::<Date>(), Date::max_value());
    assert_eq!(Date::min_value().convert::<JulianDay>(), JulianDay::min_value());
    assert_eq!(Date::max_value().convert::<JulianDay>(), JulianDay::max_value());
    assert_eq!(Date::min_value().convert::<UnixDay>(), UnixDay::min_value());
    assert_eq!(Date::max_value().convert::<Sac13Day>(), Sac13Day::max_value());
    assert_eq!(Date::min_value().convert::<CycleEpochDay>(), CycleEpochDay::min_value());
    assert_eq!(<Date as CalendarDate>::min_value(), Date::min_value());
    assert_eq!(<UnixDay as CalendarDate>::max_value(), UnixDay::max_value());
}

#[test]
fn every_type_is_ordered_as_the_days_are() {
    let days = [
        JulianDay::MIN_INT,
        -400,
        -1,
        0,
        1,
        2305507,
        2451544,
        2451545,
        2451624,
        2459461,
        2459462,
        2459463,
        2460650,
        JulianDay::MAX_INT,
    ];
    for a in days {
        for b in days {
            let expected = a.cmp(&b);
            assert_eq!(JulianDay::new(a).partial_cmp(&JulianDay::new(b)), Some(expected));
            assert_eq!(UnixDay::from_julian(a).partial_cmp(&UnixDay::from_julian(b)), Some(expected));
            assert_eq!(Sac13Day::from_julian(a).partial_cmp(&Sac13Day::from_julian(b)), Some(expected));
            assert_eq!(
                CycleEpochDay::from_julian(a).partial_cmp(&CycleEpochDay::from_julian(b)),
                Some(expected)
            );
            let (ya, yb) = (YearOrdinal::from_julian(a).unwrap(), YearOrdinal::from_julian(b).unwrap());
            assert_eq!(ya.partial_cmp(&yb), Some(expected));
            assert_eq!(ya.cmp(&yb), expected);
            let (da, db) = (Date::from_julian(a).unwrap(), Date::from_julian(b).unwrap());
            assert_eq!(da.partial_cmp(&db), Some(expected));
            assert_eq!(da.cmp(&db), expected);
            assert_eq!(da < db, a < b);
            assert_eq!(da >= db, a >= b);
            let (ga, gb) = (
                GregorianDate::from_julian(a).unwrap(),
                GregorianDate::from_julian(b).unwrap(),
            );
            assert_eq!(ga.partial_cmp(&gb), Some(expected));
            assert_eq!(ga.cmp(&gb), expected);
            assert_eq!(ga < gb, a < b);
            assert_eq!(da.year().partial_cmp(&db.year()), Some(da.year().value().cmp(&db.year().value())));
            assert_eq!(da.month().partial_cmp(&db.month()), Some(da.month().ord().cmp(&db.month().ord())));
        }
    }
}
