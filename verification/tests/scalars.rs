use sac13::day_counts::CycleEpochDay;
use sac13::day_counts::JulianDay;
use sac13::day_counts::Sac13Day;
use sac13::day_counts::UnixDay;
use sac13::CalendarDate;
use sac13::Convert;
use sac13::Date;
use sac13::GregorianDate;
use sac13::Weekday;

#[test]
fn tests_automatic_max_calculation_for_scalars_works_as_expected() {
    assert_eq!(UnixDay::max_value().value(), 5124428);
}

#[test]
fn tests_exhaustive_day_conversion_check() {
    for j in JulianDay::MIN_INT..=JulianDay::MAX_INT {
        let has_yesterday = j != JulianDay::MIN_INT;
        let has_tomorrow = j != JulianDay::MAX_INT;

        let jd = JulianDay::new(j).unwrap();
        let sac13 = Date::from_julian(j).unwrap();
        let greg = GregorianDate::from_julian(j).unwrap();

        if has_yesterday {
            let j_y = j - 1;

            let jd_y = JulianDay::new(j_y).unwrap();
            let sac13_y = Date::from_julian(j_y).unwrap();
            let greg_y = GregorianDate::from_julian(j_y).unwrap();

            assert_eq!(jd_y.tomorrow().unwrap(), jd, "JD: {}", j);
            assert_eq!(sac13_y.tomorrow().unwrap(), sac13, "JD: {}", j);
            assert_eq!(greg_y.tomorrow().unwrap(), greg, "JD: {}", j);
        } else {
            assert_eq!(jd, JulianDay::min_value(), "JD: {}", j);
            assert_eq!(sac13, Date::min_value(), "JD: {}", j);
            assert_eq!(greg, GregorianDate::min_value(), "JD: {}", j);
        }

        if has_tomorrow {
            let j_t = j + 1;

            let jd_t = JulianDay::new(j_t).unwrap();
            let sac13_t = Date::from_julian(j_t).unwrap();
            let greg_t = GregorianDate::from_julian(j_t).unwrap();

            assert_eq!(jd_t.yesterday().unwrap(), jd, "JD: {}", j);
            assert_eq!(sac13_t.yesterday().unwrap(), sac13, "JD: {}", j);
            assert_eq!(greg_t.yesterday().unwrap(), greg, "JD: {}", j);
        } else {
            assert_eq!(jd, JulianDay::max_value(), "JD: {}", j);
            assert_eq!(sac13, Date::max_value(), "JD: {}", j);
            assert_eq!(greg, GregorianDate::max_value(), "JD: {}", j);
        }
    }
}

#[test]
fn every_day_count_spans_the_same_days() {
    assert_eq!(JulianDay::MIN_INT, -1931284);
    assert_eq!(JulianDay::MAX_INT, 7565016);
    assert_eq!(UnixDay::MIN_INT, -4371872);
    assert_eq!(UnixDay::MAX_INT, 5124428);
    assert_eq!(CycleEpochDay::MIN_INT, 72683);
    assert_eq!(CycleEpochDay::MAX_INT, 9568983);
    assert_eq!(Sac13Day::MIN_INT, 0);
    assert_eq!(Sac13Day::MAX_INT, 9496300);

    assert_eq!(JulianDay::min_value().as_julian(), -1931284);
    assert_eq!(UnixDay::min_value().as_julian(), -1931284);
    assert_eq!(CycleEpochDay::min_value().as_julian(), -1931284);
    assert_eq!(Sac13Day::min_value().as_julian(), -1931284);

    assert_eq!(JulianDay::max_value().as_julian(), 7565016);
    assert_eq!(UnixDay::max_value().as_julian(), 7565016);
    assert_eq!(CycleEpochDay::max_value().as_julian(), 7565016);
    assert_eq!(Sac13Day::max_value().as_julian(), 7565016);
}

#[test]
fn day_counts_are_offsets_of_the_julian_day_number() {
    assert_eq!(UnixDay::new(0).unwrap().as_julian(), 2440588);
    assert_eq!(UnixDay::from_julian(2440588), UnixDay::new(0));
    assert_eq!(UnixDay::from_julian(2451624), UnixDay::new(11036));
    assert_eq!(CycleEpochDay::new(72683).unwrap().as_julian(), -1931284);
    assert_eq!(CycleEpochDay::from_julian(0), CycleEpochDay::new(2003967));
    assert_eq!(Sac13Day::new(0).unwrap().as_julian(), -1931284);
    assert_eq!(Sac13Day::from_julian(0), Sac13Day::new(1931284));
    assert_eq!(JulianDay::new(2451624).unwrap().as_julian(), 2451624);
    assert_eq!(JulianDay::from_julian(-5), JulianDay::new(-5));
}

#[test]
fn day_counts_reject_values_out_of_range() {
    assert!(JulianDay::new(JulianDay::MIN_INT - 1).is_none());
    assert!(JulianDay::new(JulianDay::MAX_INT + 1).is_none());
    assert!(JulianDay::new(JulianDay::MIN_INT).is_some());
    assert!(JulianDay::new(JulianDay::MAX_INT).is_some());
    assert!(UnixDay::new(UnixDay::MIN_INT - 1).is_none());
    assert!(UnixDay::new(UnixDay::MAX_INT + 1).is_none());
    assert!(CycleEpochDay::new(CycleEpochDay::MIN_INT - 1).is_none());
    assert!(CycleEpochDay::new(CycleEpochDay::MAX_INT + 1).is_none());
    assert!(CycleEpochDay::new(0).is_none());
    assert!(Sac13Day::new(Sac13Day::MAX_INT + 1).is_none());
    assert!(Sac13Day::new(u32::MAX).is_none());

    assert!(UnixDay::from_julian(JulianDay::MIN_INT - 1).is_none());
    assert!(UnixDay::from_julian(JulianDay::MAX_INT + 1).is_none());
    assert!(UnixDay::from_julian(i32::MIN).is_none());
    assert!(UnixDay::from_julian(i32::MAX).is_none());
    assert!(CycleEpochDay::from_julian(i32::MIN).is_none());
    assert!(Sac13Day::from_julian(JulianDay::MIN_INT - 1).is_none());
    assert!(JulianDay::from_julian(i32::MAX).is_none());
}

#[test]
fn day_counts_step_by_one_and_stop_at_the_boundaries() {
    assert_eq!(JulianDay::min_value().yesterday(), None);
    assert_eq!(JulianDay::max_value().tomorrow(), None);
    assert_eq!(UnixDay::min_value().yesterday(), None);
    assert_eq!(UnixDay::max_value().tomorrow(), None);
    assert_eq!(CycleEpochDay::min_value().yesterday(), None);
    assert_eq!(CycleEpochDay::max_value().tomorrow(), None);
    assert_eq!(Sac13Day::min_value().yesterday(), None);
    assert_eq!(Sac13Day::max_value().tomorrow(), None);

    assert_eq!(JulianDay::new(10).unwrap().tomorrow(), JulianDay::new(11));
    assert_eq!(JulianDay::new(10).unwrap().yesterday(), JulianDay::new(9));
    assert_eq!(Sac13Day::new(0).unwrap().tomorrow(), Sac13Day::new(1));
    assert_eq!(UnixDay::new(0).unwrap().yesterday(), UnixDay::new(-1));

    // the steps that the calendar trait provides agree
    assert_eq!(CalendarDate::tomorrow(JulianDay::new(10).unwrap()), JulianDay::new(11));
    assert_eq!(CalendarDate::yesterday(JulianDay::new(10).unwrap()), JulianDay::new(9));
    assert_eq!(CalendarDate::tomorrow(JulianDay::max_value()), None);
    assert_eq!(CalendarDate::yesterday(JulianDay::min_value()), None);
    assert_eq!(CalendarDate::tomorrow(CycleEpochDay::max_value()), None);
    assert_eq!(CalendarDate::yesterday(Sac13Day::min_value()), None);
}

#[test]
fn weekday_of_julian_day_follows_the_week() {
    assert_eq!(JulianDay::new(0).unwrap().weekday(), Weekday::Monday);
    assert_eq!(JulianDay::new(1).unwrap().weekday(), Weekday::Tuesday);
    assert_eq!(JulianDay::new(6).unwrap().weekday(), Weekday::Sunday);
    assert_eq!(JulianDay::new(7).unwrap().weekday(), Weekday::Monday);
    assert_eq!(JulianDay::new(-1).unwrap().weekday(), Weekday::Sunday);
    assert_eq!(JulianDay::new(-7).unwrap().weekday(), Weekday::Monday);
    assert_eq!(JulianDay::new(-8).unwrap().weekday(), Weekday::Sunday);
    assert_eq!(JulianDay::new(2451624).unwrap().weekday(), Weekday::Monday);
    // 2024-12-05 was a Thursday
    assert_eq!(JulianDay::new(2460650).unwrap().weekday(), Weekday::Thursday);
    // 1970-01-01 was a Thursday
    let unix_epoch: JulianDay = UnixDay::new(0).unwrap().convert();
    assert_eq!(unix_epoch.weekday(), Weekday::Thursday);
}

#[test]
fn day_counts_are_written_in_decimal() {
    assert_eq!(JulianDay::new(2451624).unwrap().to_string(), "2451624");
    assert_eq!(JulianDay::new(0).unwrap().to_string(), "0");
    assert_eq!(JulianDay::new(-7).unwrap().to_string(), "-7");
    assert_eq!(JulianDay::min_value().to_string(), "-1931284");
    assert_eq!(UnixDay::new(11036).unwrap().to_string(), "11036");
    assert_eq!(UnixDay::new(-10).unwrap().to_string(), "-10");
    assert_eq!(CycleEpochDay::min_value().to_string(), "72683");
    assert_eq!(Sac13Day::max_value().to_string(), "9496300");
    assert_eq!(Sac13Day::min_value().to_string(), "0");
}
