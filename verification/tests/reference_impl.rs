//! Cross-checks of the engine against an independent Persian calendar
//! implementation and its Gregorian backend.

use mitra::date::ParsiDate;

#[test]
fn leap_years_agree_with_reference() {
    for year in 1..=9999i32 {
        assert_eq!(
            ParsiDate::is_persian_leap_year(year),
            parsidate::ParsiDate::is_persian_leap_year(year),
            "year {year}"
        );
    }
}

#[test]
fn conversions_agree_with_reference_over_a_long_scan() {
    let start = ParsiDate::new(1398, 1, 1).unwrap();
    for offset in 0..3000i64 {
        let mine = start.add_days(offset).unwrap();
        let g = mine.to_gregorian().unwrap();
        let g_ref = chrono::NaiveDate::from_ymd_opt(g.year, g.month, g.day).unwrap();
        let theirs = parsidate::ParsiDate::from_gregorian(g_ref).unwrap();
        assert_eq!(
            (mine.year(), mine.month(), mine.day()),
            (theirs.year(), theirs.month(), theirs.day()),
            "offset {offset}"
        );
        let g_theirs = theirs.to_gregorian().unwrap();
        assert_eq!(
            (g.year, g.month, g.day),
            (
                chrono::Datelike::year(&g_theirs),
                chrono::Datelike::month(&g_theirs),
                chrono::Datelike::day(&g_theirs)
            ),
            "offset {offset}"
        );
    }
}

#[test]
fn weekdays_and_ordinals_agree_with_reference() {
    let samples = [
        (1, 1, 1),
        (500, 6, 31),
        (1399, 12, 30),
        (1403, 5, 2),
        (1404, 1, 1),
        (4000, 9, 10),
        (9999, 12, 29),
    ];
    for (y, m, d) in samples {
        let mine = ParsiDate::new(y, m, d).unwrap();
        let theirs = parsidate::ParsiDate::new(y, m, d).unwrap();
        assert_eq!(mine.weekday().unwrap(), theirs.weekday().unwrap(), "{y}/{m}/{d}");
        assert_eq!(mine.ordinal().unwrap(), theirs.ordinal().unwrap(), "{y}/{m}/{d}");
    }
}

#[test]
fn calendar_arithmetic_agrees_with_reference() {
    let starts = [(1403, 1, 31), (1403, 6, 31), (1403, 12, 30), (1401, 7, 15), (1399, 12, 30)];
    for (y, m, d) in starts {
        let mine = ParsiDate::new(y, m, d).unwrap();
        let theirs = parsidate::ParsiDate::new(y, m, d).unwrap();
        for delta in [-25i32, -13, -7, -1, 0, 1, 5, 11, 13, 26, 120] {
            let a = mine.add_months(delta).unwrap();
            let b = theirs.add_months(delta).unwrap();
            assert_eq!((a.year(), a.month(), a.day()), (b.year(), b.month(), b.day()));
            let c = mine.add_years(delta).unwrap();
            let e = theirs.add_years(delta).unwrap();
            assert_eq!((c.year(), c.month(), c.day()), (e.year(), e.month(), e.day()));
            let f = mine.add_days(delta as i64).unwrap();
            let g = theirs.add_days(delta as i64).unwrap();
            assert_eq!((f.year(), f.month(), f.day()), (g.year(), g.month(), g.day()));
        }
        let s1 = mine.sub_months(7).unwrap();
        let s2 = theirs.sub_months(7).unwrap();
        assert_eq!((s1.year(), s1.month(), s1.day()), (s2.year(), s2.month(), s2.day()));
    }
}

#[test]
fn duration_arithmetic_agrees_with_reference() {
    let mine = mitra::datetime::ParsiDateTime::new(1403, 12, 30, 22, 15, 40).unwrap();
    let theirs = parsidate::ParsiDateTime::new(1403, 12, 30, 22, 15, 40).unwrap();
    for secs in [-900000i64, -86401, -3600, -1, 0, 1, 59, 3600, 86400, 900000] {
        let a = mine.add_duration(secs).unwrap();
        let b = theirs.add_duration(chrono::Duration::seconds(secs)).unwrap();
        assert_eq!(
            (a.year(), a.month(), a.day(), a.time()),
            (b.year(), b.month(), b.day(), b.time()),
            "secs {secs}"
        );
    }
}

#[test]
fn datetime_parse_agrees_with_reference() {
    for (input, fmt) in [
        ("1403/05/02 15:30:45", "%Y/%m/%d %H:%M:%S"),
        ("1403-05-02T09:05:00", "%Y-%m-%dT%T"),
        ("22 بهمن 1399 - 23:59:59", "%d %B %Y - %T"),
    ] {
        let a = mitra::datetime::ParsiDateTime::parse(input, fmt).unwrap();
        let b = parsidate::ParsiDateTime::parse(input, fmt).unwrap();
        assert_eq!(
            (a.year(), a.month(), a.day(), a.time()),
            (b.year(), b.month(), b.day(), b.time())
        );
    }
}

#[test]
fn formatting_agrees_with_reference() {
    let mine = ParsiDate::new(1403, 1, 7).unwrap();
    let theirs = parsidate::ParsiDate::new(1403, 1, 7).unwrap();
    for pattern in ["short", "long", "iso", "%Y-%m-%d", "%A، %d %B %Y (%K)", "%j %w %W"] {
        assert_eq!(mine.format(pattern), theirs.format(pattern), "pattern {pattern}");
    }
}
