//! The command-level operations, the event table, and error rendering.

use mitra::datetime::ParsiDateTime;
use mitra::error::{map_parsidate_error, DateError, ParseErrorKind};
use mitra::events::{get_event_indicator, get_events_for_date, Event, EventTable};
use mitra::handlers::{handle_add, handle_format, handle_sub, parse_input_datetime_or_date, FormatStyle};
use mitra::logic::{get_current_parsi_datetime, get_date_info};

#[test]
fn parse_input_accepts_common_forms() {
    let (dt, with_time) = parse_input_datetime_or_date("1403/05/02 10:30:00").unwrap();
    assert_eq!(dt, ParsiDateTime::new(1403, 5, 2, 10, 30, 0).unwrap());
    assert!(with_time);
    let (dt2, with_time2) = parse_input_datetime_or_date("1403-05-02T10:30:00").unwrap();
    assert_eq!(dt2, dt);
    assert!(with_time2);
    let (dt3, with_time3) = parse_input_datetime_or_date("1403-05-02 10:30:00").unwrap();
    assert_eq!(dt3, dt);
    assert!(with_time3);
    let (d4, with_time4) = parse_input_datetime_or_date("1403/05/02").unwrap();
    assert_eq!(d4, ParsiDateTime::new(1403, 5, 2, 0, 0, 0).unwrap());
    assert!(!with_time4);
    let (d5, with_time5) = parse_input_datetime_or_date("  1403-05-02  ").unwrap();
    assert_eq!(d5, d4);
    assert!(!with_time5);
    assert_eq!(
        parse_input_datetime_or_date("02.05.1403"),
        Err(DateError::ParseError(ParseErrorKind::FormatMismatch))
    );
}

#[test]
fn add_command_renders_like_its_input() {
    let line = handle_add("1403/01/01", Some(5), None, None, None, None, None).unwrap();
    assert_eq!(line, "1403/01/06");
    let line2 = handle_add("1403/01/01 10:00:00", None, None, None, Some(3), None, None).unwrap();
    assert_eq!(line2, "1403/01/01 13:00:00");
    let line3 = handle_add("1403/06/31", None, Some(1), None, None, None, None).unwrap();
    assert_eq!(line3, "1403/07/30");
    assert_eq!(
        handle_add("bogus", Some(1), None, None, None, None, None),
        Err(DateError::ParseError(ParseErrorKind::FormatMismatch))
    );
}

#[test]
fn sub_command_is_add_with_negated_delta() {
    let via_sub = handle_sub("1403/05/02", Some(5), None, None, None, None, None).unwrap();
    let via_add = handle_add("1403/05/02", Some(-5), None, None, None, None, None).unwrap();
    assert_eq!(via_sub, via_add);
    assert_eq!(via_sub, "1403/04/28");
    let rolled = handle_sub("1403/01/10", Some(15), None, None, None, None, None).unwrap();
    assert_eq!(rolled, "1402/12/24");
}

#[test]
fn format_command_styles_and_patterns() {
    assert_eq!(
        handle_format("1403/05/02", Some(FormatStyle::Short), None).unwrap(),
        "1403/05/02"
    );
    assert_eq!(
        handle_format("1403/05/02 10:30:00", Some(FormatStyle::Short), None).unwrap(),
        "1403/05/02 10:30:00"
    );
    assert_eq!(
        handle_format("1403/05/02", Some(FormatStyle::Long), None).unwrap(),
        "2 مرداد 1403"
    );
    assert_eq!(
        handle_format("1403/05/02", Some(FormatStyle::Iso), None).unwrap(),
        "1403-05-02"
    );
    assert_eq!(
        handle_format("1403/05/02 10:30:00", Some(FormatStyle::Iso), None).unwrap(),
        "1403-05-02T10:30:00"
    );
    assert_eq!(
        handle_format("1403/05/02", None, Some("%d %B %Y")).unwrap(),
        "02 مرداد 1403"
    );
}

fn sample_event(holiday: bool, month: u32, day: u32, title: &str) -> Event {
    Event {
        holiday,
        month,
        day,
        title: title.to_string(),
        hijri_month: Some(9),
        hijri_day: Some(21),
    }
}

#[test]
fn event_table_strips_hijri_fields_from_fixed_events() {
    let table = EventTable::new(1403, vec![sample_event(true, 1, 1, "نوروز")], vec![]);
    assert_eq!(table.fixed_persian_events.len(), 1);
    let e = &table.fixed_persian_events[0];
    assert!(e.holiday);
    assert_eq!((e.month, e.day), (1, 1));
    assert_eq!(e.title, "نوروز");
    assert!(e.hijri_month.is_none());
    assert!(e.hijri_day.is_none());
}

#[test]
fn events_lookup_combines_fixed_and_mapped() {
    let table = EventTable::new(
        1403,
        vec![sample_event(true, 1, 1, "نوروز"), sample_event(false, 1, 2, "روز دوم")],
        vec![sample_event(false, 1, 1, "رویداد قمری")],
    );
    let on_ref_year = get_events_for_date(&table, 1403, 1, 1).unwrap();
    assert_eq!(on_ref_year.len(), 2);
    assert_eq!(on_ref_year[0].title, "نوروز");
    assert_eq!(on_ref_year[1].title, "رویداد قمری");
    let other_year = get_events_for_date(&table, 1404, 1, 1).unwrap();
    assert_eq!(other_year.len(), 1);
    assert_eq!(other_year[0].title, "نوروز");
    assert!(get_events_for_date(&table, 1403, 7, 9).is_none());
}

#[test]
fn events_lookup_disabled_on_failed_load() {
    let table = EventTable::new(0, vec![sample_event(true, 1, 1, "نوروز")], vec![]);
    assert!(get_events_for_date(&table, 1403, 1, 1).is_none());
    assert!(get_event_indicator(&table, 1403, 1, 1).is_none());
}

#[test]
fn event_indicator_marks_holidays() {
    let table = EventTable::new(
        1403,
        vec![sample_event(true, 1, 1, "نوروز"), sample_event(false, 1, 2, "روز دوم")],
        vec![],
    );
    assert_eq!(get_event_indicator(&table, 1403, 1, 1), Some('*'));
    assert_eq!(get_event_indicator(&table, 1403, 1, 2), Some('+'));
    assert_eq!(get_event_indicator(&table, 1403, 1, 3), None);
}

#[test]
fn error_rendering_names_the_operation() {
    assert_eq!(
        map_parsidate_error(&DateError::ArithmeticOverflow, "adding days"),
        "Error while adding days: Date arithmetic resulted in overflow/underflow or went outside supported year range [1, 9999]"
    );
    assert_eq!(
        map_parsidate_error(
            &DateError::ParseError(ParseErrorKind::InvalidMonthName),
            "parsing date with explicit format"
        ),
        "Error while parsing date with explicit format: Parse error: could not recognize Persian month name in input"
    );
}

#[test]
fn date_info_fields() {
    let dt = ParsiDateTime::new(1403, 5, 2, 15, 30, 45).unwrap();
    let info = get_date_info(dt, true).unwrap();
    assert_eq!(info.parsi_date_formatted, "1403/05/02");
    assert_eq!(info.parsi_time_formatted.as_deref(), Some("15:30:45"));
    assert_eq!(info.weekday, "سه‌شنبه");
    assert_eq!(info.day_of_year, 126);
    assert_eq!(info.days_in_month, 31);
    assert!(info.is_leap_year);
    assert_eq!(info.gregorian_equivalent, "2024-07-23 15:30:45");
    assert_eq!(info.first_day_of_month, "1403/05/01");
    assert_eq!(info.last_day_of_month, "1403/05/31");
    assert_eq!(info.first_day_of_year, "1403/01/01");
    assert_eq!(info.last_day_of_year, "1403/12/30");
    let info2 = get_date_info(dt, false).unwrap();
    assert!(info2.parsi_time_formatted.is_none());
    assert_eq!(info2.gregorian_equivalent, "2024-07-23");
}

#[test]
fn current_datetime_is_a_valid_persian_instant() {
    let now = get_current_parsi_datetime().unwrap();
    assert!(now.date().is_valid());
    assert!(now.year() > 1300);
    assert!(now.hour() < 24 && now.minute() < 60 && now.second() < 60);
}
