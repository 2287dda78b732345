//! Leap years, month lengths, validation, and day-of-year ordinals.

use mitra::date::ParsiDate;
use mitra::datetime::ParsiDateTime;
use mitra::error::DateError;
use mitra::logic::is_leap_year;

#[test]
fn leap_year_cycle_samples() {
    assert!(ParsiDate::is_persian_leap_year(1399));
    assert!(!ParsiDate::is_persian_leap_year(1400));
    assert!(ParsiDate::is_persian_leap_year(1403));
    assert!(!ParsiDate::is_persian_leap_year(1404));
    assert!(ParsiDate::is_persian_leap_year(1408));
    assert!(!ParsiDate::is_persian_leap_year(0));
    assert!(!ParsiDate::is_persian_leap_year(-5));
    assert!(!ParsiDate::is_persian_leap_year(9999));
}

#[test]
fn leap_year_1403_gives_esfand_30() {
    assert!(is_leap_year(1403));
    assert_eq!(ParsiDate::days_in_month(1403, 12), 30);
    assert!(!is_leap_year(1404));
    assert_eq!(ParsiDate::days_in_month(1404, 12), 29);
}

#[test]
fn month_length_table() {
    for m in 1..=6u32 {
        assert_eq!(ParsiDate::days_in_month(1403, m), 31);
        assert_eq!(ParsiDate::days_in_month(1404, m), 31);
    }
    for m in 7..=11u32 {
        assert_eq!(ParsiDate::days_in_month(1403, m), 30);
        assert_eq!(ParsiDate::days_in_month(1404, m), 30);
    }
    assert_eq!(ParsiDate::days_in_month(1403, 0), 0);
    assert_eq!(ParsiDate::days_in_month(1403, 13), 0);
}

#[test]
fn gregorian_leap_rule() {
    assert!(ParsiDate::is_gregorian_leap_year(2000));
    assert!(ParsiDate::is_gregorian_leap_year(2024));
    assert!(!ParsiDate::is_gregorian_leap_year(1900));
    assert!(!ParsiDate::is_gregorian_leap_year(2021));
}

#[test]
fn construction_validates() {
    assert!(ParsiDate::new(1403, 5, 2).is_ok());
    assert!(ParsiDate::new(1403, 12, 30).is_ok());
    assert_eq!(ParsiDate::new(1404, 12, 30), Err(DateError::InvalidDate));
    assert_eq!(ParsiDate::new(1403, 13, 1), Err(DateError::InvalidDate));
    assert_eq!(ParsiDate::new(1403, 7, 31), Err(DateError::InvalidDate));
    assert_eq!(ParsiDate::new(0, 1, 1), Err(DateError::InvalidDate));
    assert_eq!(ParsiDate::new(10000, 1, 1), Err(DateError::InvalidDate));
    assert!(ParsiDate::new(9999, 12, 29).is_ok());
    assert_eq!(ParsiDate::new(9999, 12, 30), Err(DateError::InvalidDate));
}

#[test]
fn datetime_construction_validates_time() {
    let dt = ParsiDateTime::new(1403, 5, 2, 15, 30, 45).unwrap();
    assert_eq!(dt.date(), ParsiDate::new(1403, 5, 2).unwrap());
    assert_eq!(dt.hour(), 15);
    assert_eq!(dt.minute(), 30);
    assert_eq!(dt.second(), 45);
    assert_eq!(ParsiDateTime::new(1404, 12, 30, 10, 0, 0), Err(DateError::InvalidDate));
    assert_eq!(ParsiDateTime::new(1403, 5, 2, 24, 0, 0), Err(DateError::InvalidTime));
    assert_eq!(ParsiDateTime::new(1403, 5, 2, 10, 60, 0), Err(DateError::InvalidTime));
    assert_eq!(ParsiDateTime::new(1403, 5, 2, 10, 0, 60), Err(DateError::InvalidTime));
}

#[test]
fn ordinal_day_of_year() {
    assert_eq!(ParsiDate::new(1403, 1, 1).unwrap().ordinal(), Ok(1));
    assert_eq!(ParsiDate::new(1403, 1, 2).unwrap().ordinal(), Ok(2));
    assert_eq!(ParsiDate::new(1403, 2, 1).unwrap().ordinal(), Ok(32));
    assert_eq!(ParsiDate::new(1403, 5, 2).unwrap().ordinal(), Ok(126));
    assert_eq!(ParsiDate::new(1403, 12, 30).unwrap().ordinal(), Ok(366));
    assert_eq!(ParsiDate::new(1404, 12, 29).unwrap().ordinal(), Ok(365));
}

#[test]
fn from_ordinal_round_trips() {
    assert_eq!(ParsiDate::from_ordinal(1403, 1), Ok(ParsiDate::new(1403, 1, 1).unwrap()));
    assert_eq!(ParsiDate::from_ordinal(1403, 100), Ok(ParsiDate::new(1403, 4, 7).unwrap()));
    assert_eq!(ParsiDate::from_ordinal(1403, 366), Ok(ParsiDate::new(1403, 12, 30).unwrap()));
    assert_eq!(ParsiDate::from_ordinal(1404, 365), Ok(ParsiDate::new(1404, 12, 29).unwrap()));
    assert_eq!(ParsiDate::from_ordinal(1404, 366), Err(DateError::InvalidOrdinal));
    assert_eq!(ParsiDate::from_ordinal(1403, 367), Err(DateError::InvalidOrdinal));
    assert_eq!(ParsiDate::from_ordinal(1403, 0), Err(DateError::InvalidOrdinal));
    assert_eq!(ParsiDate::from_ordinal(0, 100), Err(DateError::InvalidDate));
}

#[test]
fn first_and_last_days() {
    let d = ParsiDate::new(1403, 5, 15).unwrap();
    assert_eq!(d.first_day_of_month(), ParsiDate::new(1403, 5, 1).unwrap());
    assert_eq!(d.last_day_of_month(), ParsiDate::new(1403, 5, 31).unwrap());
    assert_eq!(d.first_day_of_year(), ParsiDate::new(1403, 1, 1).unwrap());
    assert_eq!(d.last_day_of_year(), ParsiDate::new(1403, 12, 30).unwrap());
    let e = ParsiDate::new(1404, 12, 5).unwrap();
    assert_eq!(e.last_day_of_month(), ParsiDate::new(1404, 12, 29).unwrap());
    assert_eq!(e.last_day_of_year(), ParsiDate::new(1404, 12, 29).unwrap());
}

#[test]
fn week_of_year_samples() {
    assert_eq!(ParsiDate::new(1403, 1, 1).unwrap().week_of_year(), Ok(1));
    assert_eq!(ParsiDate::new(1403, 1, 3).unwrap().week_of_year(), Ok(1));
    assert_eq!(ParsiDate::new(1403, 1, 4).unwrap().week_of_year(), Ok(2));
    assert_eq!(ParsiDate::new(1403, 5, 2).unwrap().week_of_year(), Ok(19));
    assert_eq!(ParsiDate::new(1403, 12, 30).unwrap().week_of_year(), Ok(53));
    assert_eq!(ParsiDate::new(1404, 12, 29).unwrap().week_of_year(), Ok(53));
}
