//! Gregorian conversion in both directions, weekdays, and the round trip.

use mitra::date::ParsiDate;
use mitra::datetime::ParsiDateTime;
use mitra::error::DateError;
use mitra::gregorian::{CivilDate, CivilDateTime};
use mitra::logic::{convert_from_gregorian, convert_to_gregorian, get_days_diff, get_weekday};

fn civil(year: i32, month: u32, day: u32) -> CivilDate {
    CivilDate { year, month, day }
}

#[test]
fn epoch_alignment() {
    let first = ParsiDate::new(1, 1, 1).unwrap();
    assert_eq!(first.to_gregorian(), Ok(civil(622, 3, 21)));
    assert_eq!(ParsiDate::from_gregorian(civil(622, 3, 21)), Ok(first));
    assert_eq!(
        ParsiDate::from_gregorian(civil(622, 3, 20)),
        Err(DateError::GregorianConversionError)
    );
}

#[test]
fn nowruz_fixture() {
    // Farvardin 1st, 1403 is Gregorian 2024-03-20.
    let nowruz = ParsiDate::new(1403, 1, 1).unwrap();
    assert_eq!(nowruz.to_gregorian(), Ok(civil(2024, 3, 20)));
    assert_eq!(ParsiDate::from_gregorian(civil(2024, 3, 20)), Ok(nowruz));
}

#[test]
fn conversion_fixtures() {
    assert_eq!(
        ParsiDate::new(1403, 5, 2).unwrap().to_gregorian(),
        Ok(civil(2024, 7, 23))
    );
    assert_eq!(
        ParsiDate::from_gregorian(civil(2023, 3, 20)),
        Ok(ParsiDate::new(1401, 12, 29).unwrap())
    );
    assert_eq!(
        ParsiDate::from_gregorian(civil(2023, 3, 21)),
        Ok(ParsiDate::new(1402, 1, 1).unwrap())
    );
    assert_eq!(
        ParsiDate::new(1403, 12, 30).unwrap().to_gregorian(),
        Ok(civil(2025, 3, 20))
    );
}

#[test]
fn gregorian_round_trip_on_many_dates() {
    let dates = [
        (1, 1, 1),
        (1, 12, 29),
        (100, 7, 30),
        (1399, 12, 30),
        (1403, 1, 1),
        (1403, 6, 31),
        (1403, 12, 30),
        (1404, 1, 1),
        (5000, 3, 14),
        (9999, 12, 29),
    ];
    for (y, m, d) in dates {
        let date = ParsiDate::new(y, m, d).unwrap();
        let g = date.to_gregorian().unwrap();
        assert_eq!(ParsiDate::from_gregorian(g), Ok(date));
    }
}

#[test]
fn datetime_conversion_keeps_time() {
    let dt = ParsiDateTime::new(1403, 5, 2, 15, 30, 45).unwrap();
    let g = convert_to_gregorian(dt).unwrap();
    assert_eq!(g.date, civil(2024, 7, 23));
    assert_eq!((g.hour, g.minute, g.second), (15, 30, 45));
    assert_eq!(convert_from_gregorian(g), Ok(dt));
}

#[test]
fn from_gregorian_rejects_bad_civil_input() {
    let bad_month = CivilDateTime { date: civil(2024, 13, 1), hour: 0, minute: 0, second: 0 };
    assert_eq!(convert_from_gregorian(bad_month), Err(DateError::GregorianConversionError));
    let bad_day = CivilDateTime { date: civil(2023, 2, 29), hour: 0, minute: 0, second: 0 };
    assert_eq!(convert_from_gregorian(bad_day), Err(DateError::GregorianConversionError));
    let bad_time = CivilDateTime { date: civil(2024, 7, 23), hour: 24, minute: 0, second: 0 };
    assert_eq!(convert_from_gregorian(bad_time), Err(DateError::InvalidTime));
    let far_future = CivilDateTime { date: civil(30000, 1, 1), hour: 0, minute: 0, second: 0 };
    assert_eq!(convert_from_gregorian(far_future), Err(DateError::GregorianConversionError));
}

#[test]
fn weekday_names() {
    // 1403/05/02 is Gregorian 2024-07-23, a Tuesday.
    assert_eq!(
        ParsiDate::new(1403, 5, 2).unwrap().weekday(),
        Ok("سه‌شنبه".to_string())
    );
    // 1403/01/04 is Gregorian 2024-03-23, a Saturday.
    assert_eq!(ParsiDate::new(1403, 1, 4).unwrap().weekday(), Ok("شنبه".to_string()));
    // 1403/01/10 is Gregorian 2024-03-29, a Friday.
    assert_eq!(ParsiDate::new(1403, 1, 10).unwrap().weekday(), Ok("جمعه".to_string()));
    let dt = ParsiDateTime::new(1403, 5, 2, 0, 0, 0).unwrap();
    assert_eq!(get_weekday(dt), Ok("سه‌شنبه".to_string()));
}

#[test]
fn days_between_farvardin() {
    let d1 = ParsiDate::new(1403, 1, 1).unwrap();
    let d2 = ParsiDate::new(1403, 2, 1).unwrap();
    assert_eq!(d1.days_between(&d2), Ok(31));
    assert_eq!(d2.days_between(&d1), Ok(31));
    let d3 = ParsiDate::new(1404, 1, 1).unwrap();
    assert_eq!(d1.days_between(&d3), Ok(366));
    assert_eq!(d1.days_between(&d1), Ok(0));
}

#[test]
fn days_diff_between_datetimes() {
    let dt1 = ParsiDateTime::new(1403, 1, 1, 10, 0, 0).unwrap();
    let dt2 = ParsiDateTime::new(1403, 2, 1, 3, 30, 0).unwrap();
    assert_eq!(get_days_diff(dt1, dt2), Ok(31));
    assert_eq!(get_days_diff(dt2, dt1), Ok(31));
}
