//! Styles, specifier rendering, and display forms.

use mitra::date::ParsiDate;
use mitra::datetime::ParsiDateTime;

#[test]
fn predefined_styles() {
    let date = ParsiDate::new(1403, 5, 2).unwrap();
    assert_eq!(date.format("short"), "1403/05/02");
    assert_eq!(date.format("long"), "2 مرداد 1403");
    assert_eq!(date.format("iso"), "1403-05-02");
    assert_eq!(date.to_string(), "1403/05/02");
}

#[test]
fn date_specifiers() {
    let date = ParsiDate::new(1403, 1, 7).unwrap();
    assert_eq!(date.format_strftime("%Y-%m-%d"), "1403-01-07");
    assert_eq!(date.format_strftime("%A، %d %B %Y (%K)"), "سه‌شنبه، 07 فروردین 1403 (بهار)");
    assert_eq!(
        date.format_strftime("Year %Y, Day %j (Weekday %w)"),
        "Year 1403, Day 007 (Weekday 3)"
    );
    assert_eq!(date.format_strftime("Year %Y, Week %W"), "Year 1403, Week 02");
    assert_eq!(
        date.format_strftime("Discount %d%% off on %m/%d!"),
        "Discount 07% off on 01/07!"
    );
    assert_eq!(date.format_strftime("%Y %x %m"), "1403 %x 01");
}

#[test]
fn date_format_custom_pattern_via_format() {
    let date = ParsiDate::new(1403, 5, 2).unwrap();
    assert_eq!(date.format("%d %B %Y"), "02 مرداد 1403");
    assert_eq!(date.format("%Y-%j (%K)"), "1403-126 (تابستان)");
}

#[test]
fn datetime_specifiers() {
    let dt = ParsiDateTime::new(1403, 5, 2, 8, 5, 30).unwrap();
    assert_eq!(dt.format("%Y-%m-%d %H:%M:%S"), "1403-05-02 08:05:30");
    assert_eq!(dt.format("%d %B (%K) %Y ساعت %H:%M"), "02 مرداد (تابستان) 1403 ساعت 08:05");
    assert_eq!(dt.format("%Y/Week %W %H:%M"), "1403/Week 19 08:05");
    assert_eq!(dt.format("%Y-%m-%dT%T"), "1403-05-02T08:05:30");
    assert_eq!(
        dt.format("%A، %d %B %Y - %T (روز %j سال، روز هفته %w)"),
        "سه‌شنبه، 02 مرداد 1403 - 08:05:30 (روز 126 سال، روز هفته 3)"
    );
    assert_eq!(dt.format("Time is %H:%M %% %S seconds"), "Time is 08:05 % 30 seconds");
}

#[test]
fn datetime_display_form() {
    let dt = ParsiDateTime::new(1403, 5, 2, 10, 30, 0).unwrap();
    assert_eq!(dt.to_string(), "1403/05/02 10:30:00");
}

#[test]
fn season_names_by_month() {
    assert_eq!(ParsiDate::new(1403, 2, 15).unwrap().format_strftime("%K"), "بهار");
    assert_eq!(ParsiDate::new(1403, 6, 31).unwrap().format_strftime("%K"), "تابستان");
    assert_eq!(ParsiDate::new(1403, 9, 1).unwrap().format_strftime("%K"), "پاییز");
    assert_eq!(ParsiDate::new(1403, 12, 30).unwrap().format_strftime("%K"), "زمستان");
}

#[test]
fn trailing_percent_is_literal() {
    let date = ParsiDate::new(1403, 1, 1).unwrap();
    assert_eq!(date.format_strftime("abc%"), "abc%");
    assert_eq!(date.format_strftime("100%%"), "100%");
}

#[test]
fn weekday_names_all_week() {
    // 1403/01/04 is a Saturday; the seven names follow in order.
    let names = ["شنبه", "یکشنبه", "دوشنبه", "سه‌شنبه", "چهارشنبه", "پنجشنبه", "جمعه"];
    for (i, name) in names.iter().enumerate() {
        let d = ParsiDate::new(1403, 1, 4 + i as u32).unwrap();
        assert_eq!(d.weekday().unwrap(), *name);
        assert_eq!(d.format_strftime("%A"), *name);
    }
}
