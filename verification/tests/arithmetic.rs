//! Calendar-unit and duration arithmetic, clamping rules, and the
//! add/subtract mirror.

use mitra::date::ParsiDate;
use mitra::datetime::ParsiDateTime;
use mitra::error::DateError;
use mitra::logic::{add_to_datetime, sub_from_datetime};

#[test]
fn add_days_within_and_across_years() {
    let date = ParsiDate::new(1403, 12, 28).unwrap();
    assert_eq!(date.add_days(1), Ok(ParsiDate::new(1403, 12, 29).unwrap()));
    assert_eq!(date.add_days(2), Ok(ParsiDate::new(1403, 12, 30).unwrap()));
    assert_eq!(date.add_days(3), Ok(ParsiDate::new(1404, 1, 1).unwrap()));
    assert_eq!(date.add_days(10), Ok(ParsiDate::new(1404, 1, 8).unwrap()));
}

#[test]
fn day_add_rolls_over_leap_year_end() {
    // 1403 is leap, so Esfand has 30 days: 29 -> 30 -> 1404/1/1.
    let date = ParsiDate::new(1403, 12, 29).unwrap();
    assert_eq!(date.add_days(2), Ok(ParsiDate::new(1404, 1, 1).unwrap()));
}

#[test]
fn add_negative_days_and_sub_days_agree() {
    let start = ParsiDate::new(1404, 1, 1).unwrap();
    assert_eq!(start.add_days(-1), Ok(ParsiDate::new(1403, 12, 30).unwrap()));
    assert_eq!(start.sub_days(1), Ok(ParsiDate::new(1403, 12, 30).unwrap()));
    assert_eq!(start.add_days(-366), Ok(ParsiDate::new(1403, 1, 1).unwrap()));
    assert_eq!(start.sub_days(366), Ok(ParsiDate::new(1403, 1, 1).unwrap()));
    let mid = ParsiDate::new(1403, 6, 15).unwrap();
    assert_eq!(mid.sub_days(100), Ok(ParsiDate::new(1403, 3, 8).unwrap()));
}

#[test]
fn day_arithmetic_cannot_leave_the_calendar() {
    let first = ParsiDate::new(1, 1, 1).unwrap();
    assert_eq!(first.add_days(-1), Err(DateError::ArithmeticOverflow));
    assert_eq!(first.sub_days(1), Err(DateError::ArithmeticOverflow));
    let last = ParsiDate::new(9999, 12, 29).unwrap();
    assert_eq!(last.add_days(1), Err(DateError::ArithmeticOverflow));
}

#[test]
fn month_add_clamps_day() {
    // Shahrivar 31st plus one month lands in 30-day Mehr: clamps to the 30th.
    let date = ParsiDate::new(1403, 6, 31).unwrap();
    assert_eq!(date.add_months(1), Ok(ParsiDate::new(1403, 7, 30).unwrap()));
    let farvardin = ParsiDate::new(1403, 1, 31).unwrap();
    assert_eq!(farvardin.add_months(6), Ok(ParsiDate::new(1403, 7, 30).unwrap()));
    assert_eq!(farvardin.add_months(12), Ok(ParsiDate::new(1404, 1, 31).unwrap()));
    let mehr = ParsiDate::new(1403, 7, 15).unwrap();
    assert_eq!(mehr.add_months(-7), Ok(ParsiDate::new(1402, 12, 15).unwrap()));
}

#[test]
fn month_sub_clamps_into_short_esfand() {
    let date = ParsiDate::new(1403, 3, 31).unwrap();
    assert_eq!(date.sub_months(3), Ok(ParsiDate::new(1402, 12, 29).unwrap()));
}

#[test]
fn month_add_is_not_generally_invertible() {
    let date = ParsiDate::new(1403, 6, 31).unwrap();
    let clamped = date.add_months(1).unwrap();
    assert_eq!(clamped.sub_months(1), Ok(ParsiDate::new(1403, 6, 30).unwrap()));
}

#[test]
fn year_add_clamps_leap_day() {
    let leap_day = ParsiDate::new(1403, 12, 30).unwrap();
    assert_eq!(leap_day.add_years(1), Ok(ParsiDate::new(1404, 12, 29).unwrap()));
    assert_eq!(leap_day.add_years(-4), Ok(ParsiDate::new(1399, 12, 30).unwrap()));
    assert_eq!(leap_day.sub_years(1), Ok(ParsiDate::new(1402, 12, 29).unwrap()));
    let plain = ParsiDate::new(1403, 5, 2).unwrap();
    assert_eq!(plain.add_years(1), Ok(ParsiDate::new(1404, 5, 2).unwrap()));
    assert_eq!(plain.add_years(9000), Err(DateError::ArithmeticOverflow));
    assert_eq!(plain.sub_years(1403), Err(DateError::ArithmeticOverflow));
}

#[test]
fn duration_addition_rolls_over_midnight() {
    let dt = ParsiDateTime::new(1403, 1, 1, 23, 59, 58).unwrap();
    let next = dt.add_duration(3).unwrap();
    assert_eq!(next.date(), ParsiDate::new(1403, 1, 2).unwrap());
    assert_eq!(next.time(), (0, 0, 1));
    let plus_25h = dt.add_duration(25 * 3600).unwrap();
    assert_eq!(plus_25h.date(), ParsiDate::new(1403, 1, 3).unwrap());
    assert_eq!(plus_25h.time(), (0, 59, 58));
}

#[test]
fn duration_subtraction_crosses_year_backwards() {
    let dt = ParsiDateTime::new(1403, 1, 1, 0, 0, 5).unwrap();
    let prev = dt.sub_duration(10).unwrap();
    assert_eq!(prev.date(), ParsiDate::new(1402, 12, 29).unwrap());
    assert_eq!(prev.time(), (23, 59, 55));
}

#[test]
fn datetime_calendar_ops_keep_time() {
    let dt = ParsiDateTime::new(1403, 1, 15, 10, 30, 0).unwrap();
    let moved = dt.add_days(20).unwrap();
    assert_eq!(moved.date(), ParsiDate::new(1403, 2, 4).unwrap());
    assert_eq!(moved.time(), (10, 30, 0));
}

#[test]
fn add_to_datetime_dispatches_units() {
    let base = ParsiDateTime::new(1403, 5, 2, 10, 30, 0).unwrap();
    let d = add_to_datetime(base, Some(3), None, None, None, None, None).unwrap();
    assert_eq!(d.date(), ParsiDate::new(1403, 5, 5).unwrap());
    let m = add_to_datetime(base, None, Some(2), None, None, None, None).unwrap();
    assert_eq!(m.date(), ParsiDate::new(1403, 7, 2).unwrap());
    let y = add_to_datetime(base, None, None, Some(1), None, None, None).unwrap();
    assert_eq!(y.date(), ParsiDate::new(1404, 5, 2).unwrap());
    let h = add_to_datetime(base, None, None, None, Some(14), None, None).unwrap();
    assert_eq!(h.date(), ParsiDate::new(1403, 5, 3).unwrap());
    assert_eq!(h.time(), (0, 30, 0));
    let mi = add_to_datetime(base, None, None, None, None, Some(-31), None).unwrap();
    assert_eq!(mi.time(), (9, 59, 0));
    let s = add_to_datetime(base, None, None, None, None, None, Some(90)).unwrap();
    assert_eq!(s.time(), (10, 31, 30));
}

#[test]
fn sub_from_datetime_mirrors_add() {
    let base = ParsiDateTime::new(1403, 5, 2, 10, 30, 0).unwrap();
    let via_sub = sub_from_datetime(base, Some(5), None, None, None, None, None).unwrap();
    let via_add = add_to_datetime(base, Some(-5), None, None, None, None, None).unwrap();
    assert_eq!(via_sub, via_add);
    assert_eq!(via_sub.date(), ParsiDate::new(1403, 4, 28).unwrap());
    let via_sub_h = sub_from_datetime(base, None, None, None, Some(11), None, None).unwrap();
    let via_add_h = add_to_datetime(base, None, None, None, Some(-11), None, None).unwrap();
    assert_eq!(via_sub_h, via_add_h);
    assert_eq!(via_sub_h.date(), ParsiDate::new(1403, 5, 1).unwrap());
    assert_eq!(via_sub_h.time(), (23, 30, 0));
}

#[test]
fn oversized_magnitudes_fail_with_range_error() {
    let base = ParsiDateTime::new(1403, 5, 2, 10, 30, 0).unwrap();
    assert_eq!(
        sub_from_datetime(base, None, None, None, Some(u64::MAX), None, None),
        Err(DateError::ArithmeticOverflow)
    );
    assert_eq!(
        sub_from_datetime(base, Some(u64::MAX), None, None, None, None, None),
        Err(DateError::ArithmeticOverflow)
    );
    assert_eq!(
        add_to_datetime(base, None, None, None, Some(i64::MAX), None, None),
        Err(DateError::ArithmeticOverflow)
    );
}
