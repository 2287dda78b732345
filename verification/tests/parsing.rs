//! Pattern-driven parsing, its error taxonomy, and the format/parse round
//! trip.

use mitra::date::ParsiDate;
use mitra::datetime::ParsiDateTime;
use mitra::error::{DateError, ParseErrorKind};

#[test]
fn parse_date_patterns() {
    assert_eq!(
        ParsiDate::parse("1403/05/02", "%Y/%m/%d"),
        Ok(ParsiDate::new(1403, 5, 2).unwrap())
    );
    assert_eq!(
        ParsiDate::parse("1399-12-30", "%Y-%m-%d"),
        Ok(ParsiDate::new(1399, 12, 30).unwrap())
    );
    assert_eq!(
        ParsiDate::parse("02 مرداد 1403", "%d %B %Y"),
        Ok(ParsiDate::new(1403, 5, 2).unwrap())
    );
}

#[test]
fn parse_date_errors() {
    assert_eq!(
        ParsiDate::parse("1403-05-02", "%Y/%m/%d"),
        Err(DateError::ParseError(ParseErrorKind::FormatMismatch))
    );
    assert_eq!(
        ParsiDate::parse("1403/05/02 extra", "%Y/%m/%d"),
        Err(DateError::ParseError(ParseErrorKind::FormatMismatch))
    );
    assert_eq!(
        ParsiDate::parse("1403/05/2", "%Y/%m/%d"),
        Err(DateError::ParseError(ParseErrorKind::InvalidNumber))
    );
    assert_eq!(
        ParsiDate::parse("abcd/05/02", "%Y/%m/%d"),
        Err(DateError::ParseError(ParseErrorKind::InvalidNumber))
    );
    assert_eq!(
        ParsiDate::parse("1404/12/30", "%Y/%m/%d"),
        Err(DateError::ParseError(ParseErrorKind::InvalidDateValue))
    );
    assert_eq!(
        ParsiDate::parse("Tuesday 1403", "%A %Y"),
        Err(DateError::ParseError(ParseErrorKind::UnsupportedSpecifier))
    );
    assert_eq!(
        ParsiDate::parse("Summer 1403", "%K %Y"),
        Err(DateError::ParseError(ParseErrorKind::UnsupportedSpecifier))
    );
    assert_eq!(
        ParsiDate::parse("10:30 1403", "%H:%M %Y"),
        Err(DateError::ParseError(ParseErrorKind::UnsupportedSpecifier))
    );
    assert_eq!(
        ParsiDate::parse("02 Бахман 1399", "%d %B %Y"),
        Err(DateError::ParseError(ParseErrorKind::InvalidMonthName))
    );
}

#[test]
fn parse_datetime_patterns() {
    assert_eq!(
        ParsiDateTime::parse("1403/05/02 15:30:45", "%Y/%m/%d %H:%M:%S"),
        Ok(ParsiDateTime::new(1403, 5, 2, 15, 30, 45).unwrap())
    );
    assert_eq!(
        ParsiDateTime::parse("1403-05-02T09:05:00", "%Y-%m-%dT%T"),
        Ok(ParsiDateTime::new(1403, 5, 2, 9, 5, 0).unwrap())
    );
    assert_eq!(
        ParsiDateTime::parse("22 بهمن 1399 - 23:59:59", "%d %B %Y - %T"),
        Ok(ParsiDateTime::new(1399, 11, 22, 23, 59, 59).unwrap())
    );
}

#[test]
fn parse_datetime_fixture() {
    assert_eq!(
        ParsiDateTime::parse("1403/05/02 10:30:00", "%Y/%m/%d %H:%M:%S"),
        Ok(ParsiDateTime::new(1403, 5, 2, 10, 30, 0).unwrap())
    );
    assert_eq!(
        ParsiDateTime::parse("1403/05/02 10:30:00", "%A"),
        Err(DateError::ParseError(ParseErrorKind::UnsupportedSpecifier))
    );
}

#[test]
fn parse_datetime_errors() {
    let fmt = "%Y/%m/%d %H:%M:%S";
    assert_eq!(
        ParsiDateTime::parse("1403/05/02 24:00:00", fmt),
        Err(DateError::ParseError(ParseErrorKind::InvalidTimeValue))
    );
    assert_eq!(
        ParsiDateTime::parse("1404/12/30 10:00:00", fmt),
        Err(DateError::ParseError(ParseErrorKind::InvalidDateValue))
    );
    assert_eq!(
        ParsiDateTime::parse("1403/05/02 15:3:45", fmt),
        Err(DateError::ParseError(ParseErrorKind::InvalidNumber))
    );
    assert_eq!(
        ParsiDateTime::parse("1403/05/02 15-30-45", fmt),
        Err(DateError::ParseError(ParseErrorKind::FormatMismatch))
    );
    assert_eq!(
        ParsiDateTime::parse("1403/05/02", fmt),
        Err(DateError::ParseError(ParseErrorKind::FormatMismatch))
    );
    assert_eq!(
        ParsiDateTime::parse("1403/05/02 15:30:45 extra", fmt),
        Err(DateError::ParseError(ParseErrorKind::FormatMismatch))
    );
}

#[test]
fn format_parse_round_trip_samples() {
    let patterns = ["%Y/%m/%d %H:%M:%S", "%Y-%m-%dT%T", "%d %B %Y %H.%M.%S", "%Y%m%d%H%M%S"];
    let values = [
        (1403, 1, 1, 0, 0, 0),
        (1403, 5, 2, 10, 30, 0),
        (1399, 12, 30, 23, 59, 59),
        (9999, 12, 29, 12, 1, 2),
        (1000, 7, 30, 6, 6, 6),
    ];
    for (y, m, d, h, mi, s) in values {
        let dt = ParsiDateTime::new(y, m, d, h, mi, s).unwrap();
        for p in patterns {
            let text = dt.format(p);
            assert_eq!(ParsiDateTime::parse(&text, p), Ok(dt), "pattern {p} text {text}");
        }
    }
}

#[test]
fn date_format_parse_round_trip_samples() {
    let patterns = ["%Y/%m/%d", "%Y-%m-%d", "%d %B %Y"];
    for (y, m, d) in [(1403, 1, 1), (1403, 12, 30), (2500, 11, 15)] {
        let date = ParsiDate::new(y, m, d).unwrap();
        for p in patterns {
            let text = date.format(p);
            assert_eq!(ParsiDate::parse(&text, p), Ok(date), "pattern {p} text {text}");
        }
    }
}
