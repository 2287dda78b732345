//! The engine's application-facing operations: current time, duration and
//! calendar arithmetic dispatch, differences, conversions, and the assembled
//! per-date information record.

use vstd::prelude::*;
use chrono::{Datelike, Timelike};
use crate::calendar;
use crate::date::ParsiDate;
use crate::datetime;
use crate::datetime::ParsiDateTime;
use crate::error::DateError;
use crate::gregorian;
use crate::gregorian::{CivilDate, CivilDateTime};
use crate::names;
use crate::pattern;
use crate::text;

verus! {

/// Detailed information about a date, every field already rendered for
/// display.
#[derive(Debug)]
pub struct DateInfo {
    pub parsi_date_formatted: String,
    pub parsi_time_formatted: Option<String>,
    pub weekday: String,
    pub day_of_year: u32,
    pub days_in_month: u32,
    pub is_leap_year: bool,
    pub gregorian_equivalent: String,
    pub first_day_of_month: String,
    pub last_day_of_month: String,
    pub first_day_of_year: String,
    pub last_day_of_year: String,
}

/// Relies on chrono's `Local::now` with the `Datelike` and `Timelike`
/// accessors of the naive local time: the wall clock read as Gregorian
/// calendar fields, each within its documented range.
#[verifier::external_body]
fn now_gregorian() -> (r: (i32, u32, u32, u32, u32, u32))
    ensures
        1 <= r.1 <= 12,
        1 <= r.2 <= 31,
        r.3 <= 23,
        r.4 <= 59,
        r.5 <= 59,
{
    let now = chrono::Local::now().naive_local();
    (now.year(), now.month(), now.day(), now.hour(), now.minute(), now.second())
}

/// Reads the wall clock and converts the current local time to Persian.
/// Whatever instant the clock reports, a success is a valid date-time.
pub fn get_current_parsi_datetime() -> (r: Result<ParsiDateTime, DateError>)
    ensures
        match r {
            Ok(dt) => dt.spec_valid(),
            Err(e) => e == DateError::GregorianConversionError,
        },
{
    let (gy, gmo, gd, gh, gmi, gs) = now_gregorian();
    ParsiDateTime::from_gregorian(
        CivilDateTime {
            date: CivilDate { year: gy, month: gmo, day: gd },
            hour: gh,
            minute: gmi,
            second: gs,
        },
    )
}

/// The seconds meant by a single duration unit.
pub open spec fn spec_duration_secs(
    hours: Option<i64>,
    minutes: Option<i64>,
    seconds: Option<i64>,
) -> int {
    if hours is Some {
        hours->0 * 3600
    } else if minutes is Some {
        minutes->0 * 60
    } else {
        seconds->0 as int
    }
}

/// What a successful addition returns, by unit priority: days, then months,
/// then years, then one duration unit.
pub open spec fn spec_add_outcome(
    base: ParsiDateTime,
    days: Option<i64>,
    months: Option<i32>,
    years: Option<i32>,
    hours: Option<i64>,
    minutes: Option<i64>,
    seconds: Option<i64>,
    result: ParsiDateTime,
) -> bool {
    if days is Some {
        &&& result.date.spec_day_number() == base.date.spec_day_number() + days->0
        &&& result.hour == base.hour && result.minute == base.minute && result.second
            == base.second
    } else if months is Some {
        let t = 12 * base.date.year + (base.date.month - 1) + months->0;
        &&& result.date.year == t / 12
        &&& result.date.month == t % 12 + 1
        &&& result.date.day == if base.date.day <= calendar::spec_days_in_month(
            result.date.year as int,
            result.date.month as int,
        ) {
            base.date.day as int
        } else {
            calendar::spec_days_in_month(result.date.year as int, result.date.month as int)
        }
        &&& result.hour == base.hour && result.minute == base.minute && result.second
            == base.second
    } else if years is Some {
        &&& result.date.year == base.date.year + years->0
        &&& result.date.month == base.date.month
        &&& result.date.day == if base.date.month == 12 && base.date.day == 30
            && !calendar::spec_is_leap_year(base.date.year + years->0) {
            29
        } else {
            base.date.day as int
        }
        &&& result.hour == base.hour && result.minute == base.minute && result.second
            == base.second
    } else {
        result.spec_second_number() == base.spec_second_number() + spec_duration_secs(
            hours,
            minutes,
            seconds,
        )
    }
}

/// The error owed when an addition fails, by the same unit priority.
pub open spec fn spec_add_err(
    base: ParsiDateTime,
    days: Option<i64>,
    months: Option<i32>,
    years: Option<i32>,
    hours: Option<i64>,
    minutes: Option<i64>,
    seconds: Option<i64>,
    e: DateError,
) -> bool {
    if !base.spec_valid() {
        e == if !base.date.spec_valid() {
            DateError::InvalidDate
        } else {
            DateError::InvalidTime
        }
    } else if days is Some {
        e == DateError::ArithmeticOverflow && !(0 <= base.date.spec_day_number() + days->0
            < calendar::spec_days_before_year(10000))
    } else if months is Some {
        e == DateError::ArithmeticOverflow && !(1 <= (12 * base.date.year + (base.date.month - 1)
            + months->0) / 12 <= 9999)
    } else if years is Some {
        e == DateError::ArithmeticOverflow && !(1 <= base.date.year + years->0 <= 9999)
    } else {
        e == DateError::ArithmeticOverflow && !(0 <= base.spec_second_number()
            + spec_duration_secs(hours, minutes, seconds) < datetime::spec_total_seconds())
    }
}

/// Applies exactly one duration or calendar unit to a date-time. Calendar
/// units clamp as the calendar requires; duration units are exact.
pub fn add_to_datetime(
    base_pdt: ParsiDateTime,
    days: Option<i64>,
    months: Option<i32>,
    years: Option<i32>,
    hours: Option<i64>,
    minutes: Option<i64>,
    seconds: Option<i64>,
) -> (r: Result<ParsiDateTime, DateError>)
    requires
        days is Some || months is Some || years is Some || hours is Some || minutes is Some
            || seconds is Some,
    ensures
        match r {
            Ok(dt) => base_pdt.spec_valid() && dt.spec_valid() && spec_add_outcome(
                base_pdt,
                days,
                months,
                years,
                hours,
                minutes,
                seconds,
                dt,
            ),
            Err(e) => spec_add_err(base_pdt, days, months, years, hours, minutes, seconds, e),
        },
{
    if let Some(d) = days {
        base_pdt.add_days(d)
    } else if let Some(m) = months {
        base_pdt.add_months(m)
    } else if let Some(y) = years {
        base_pdt.add_years(y)
    } else {
        if !base_pdt.is_valid() {
            return Err(
                if !base_pdt.date().is_valid() {
                    DateError::InvalidDate
                } else {
                    DateError::InvalidTime
                },
            );
        }
        proof {
            datetime::lemma_second_number_bound(base_pdt);
            calendar::lemma_days_before_year_upper(10000);
        }
        let secs: i64 = if let Some(h) = hours {
            match h.checked_mul(3600) {
                Some(s) => s,
                None => {
                    return Err(DateError::ArithmeticOverflow);
                },
            }
        } else if let Some(m) = minutes {
            match m.checked_mul(60) {
                Some(s) => s,
                None => {
                    return Err(DateError::ArithmeticOverflow);
                },
            }
        } else if let Some(s) = seconds {
            s
        } else {
            return Err(DateError::ArithmeticOverflow);
        };
        base_pdt.add_duration(secs)
    }
}

/// What a successful subtraction returns; unsigned magnitudes, the same
/// clamping rules, and an out-of-range magnitude is itself an overflow.
pub open spec fn spec_sub_outcome(
    base: ParsiDateTime,
    days: Option<u64>,
    months: Option<u32>,
    years: Option<u32>,
    hours: Option<u64>,
    minutes: Option<u64>,
    seconds: Option<u64>,
    result: ParsiDateTime,
) -> bool {
    if days is Some {
        &&& result.date.spec_day_number() == base.date.spec_day_number() - days->0
        &&& result.hour == base.hour && result.minute == base.minute && result.second
            == base.second
    } else if months is Some {
        let t = 12 * base.date.year + (base.date.month - 1) - months->0;
        &&& months->0 <= i32::MAX
        &&& result.date.year == t / 12
        &&& result.date.month == t % 12 + 1
        &&& result.date.day == if base.date.day <= calendar::spec_days_in_month(
            result.date.year as int,
            result.date.month as int,
        ) {
            base.date.day as int
        } else {
            calendar::spec_days_in_month(result.date.year as int, result.date.month as int)
        }
        &&& result.hour == base.hour && result.minute == base.minute && result.second
            == base.second
    } else if years is Some {
        &&& years->0 <= i32::MAX
        &&& result.date.year == base.date.year - years->0
        &&& result.date.month == base.date.month
        &&& result.date.day == if base.date.month == 12 && base.date.day == 30
            && !calendar::spec_is_leap_year(base.date.year - years->0) {
            29
        } else {
            base.date.day as int
        }
        &&& result.hour == base.hour && result.minute == base.minute && result.second
            == base.second
    } else {
        result.spec_second_number() == base.spec_second_number() - spec_sub_duration_secs(
            hours,
            minutes,
            seconds,
        )
    }
}

/// The seconds meant by a single unsigned duration unit.
pub open spec fn spec_sub_duration_secs(
    hours: Option<u64>,
    minutes: Option<u64>,
    seconds: Option<u64>,
) -> int {
    if hours is Some {
        hours->0 * 3600
    } else if minutes is Some {
        minutes->0 * 60
    } else {
        seconds->0 as int
    }
}

/// The error owed when a subtraction fails.
pub open spec fn spec_sub_err(
    base: ParsiDateTime,
    days: Option<u64>,
    months: Option<u32>,
    years: Option<u32>,
    hours: Option<u64>,
    minutes: Option<u64>,
    seconds: Option<u64>,
    e: DateError,
) -> bool {
    if !base.spec_valid() {
        e == if !base.date.spec_valid() {
            DateError::InvalidDate
        } else {
            DateError::InvalidTime
        }
    } else if days is Some {
        e == DateError::ArithmeticOverflow && !(0 <= base.date.spec_day_number() - days->0
            < calendar::spec_days_before_year(10000))
    } else if months is Some {
        e == DateError::ArithmeticOverflow && (months->0 > i32::MAX || !(1 <= (12 * base.date.year
            + (base.date.month - 1) - months->0) / 12 <= 9999))
    } else if years is Some {
        e == DateError::ArithmeticOverflow && (years->0 > i32::MAX || !(1 <= base.date.year
            - years->0 <= 9999))
    } else {
        e == DateError::ArithmeticOverflow && !(0 <= base.spec_second_number()
            - spec_sub_duration_secs(hours, minutes, seconds) < datetime::spec_total_seconds())
    }
}

/// Subtracts exactly one duration or calendar unit, all magnitudes unsigned;
/// the mirror of `add_to_datetime` under negation.
pub fn sub_from_datetime(
    base_pdt: ParsiDateTime,
    days: Option<u64>,
    months: Option<u32>,
    years: Option<u32>,
    hours: Option<u64>,
    minutes: Option<u64>,
    seconds: Option<u64>,
) -> (r: Result<ParsiDateTime, DateError>)
    requires
        days is Some || months is Some || years is Some || hours is Some || minutes is Some
            || seconds is Some,
    ensures
        match r {
            Ok(dt) => base_pdt.spec_valid() && dt.spec_valid() && spec_sub_outcome(
                base_pdt,
                days,
                months,
                years,
                hours,
                minutes,
                seconds,
                dt,
            ),
            Err(e) => spec_sub_err(base_pdt, days, months, years, hours, minutes, seconds, e),
        },
{
    if let Some(d) = days {
        base_pdt.sub_days(d)
    } else if let Some(m) = months {
        base_pdt.sub_months(m)
    } else if let Some(y) = years {
        base_pdt.sub_years(y)
    } else {
        if !base_pdt.is_valid() {
            return Err(
                if !base_pdt.date().is_valid() {
                    DateError::InvalidDate
                } else {
                    DateError::InvalidTime
                },
            );
        }
        proof {
            datetime::lemma_second_number_bound(base_pdt);
            calendar::lemma_days_before_year_upper(10000);
        }
        let secs: i64 = if let Some(h) = hours {
            if h > (i64::MAX as u64) / 3600 {
                return Err(DateError::ArithmeticOverflow);
            }
            (h as i64) * 3600
        } else if let Some(m) = minutes {
            if m > (i64::MAX as u64) / 60 {
                return Err(DateError::ArithmeticOverflow);
            }
            (m as i64) * 60
        } else if let Some(s) = seconds {
            if s > i64::MAX as u64 {
                return Err(DateError::ArithmeticOverflow);
            }
            s as i64
        } else {
            return Err(DateError::ArithmeticOverflow);
        };
        base_pdt.sub_duration(secs)
    }
}

/// The addition outcome is a function of its inputs: at most one result
/// satisfies it, so the contracts of the add and sub commands pin their
/// results down.
pub proof fn lemma_add_outcome_unique(
    base: ParsiDateTime,
    days: Option<i64>,
    months: Option<i32>,
    years: Option<i32>,
    hours: Option<i64>,
    minutes: Option<i64>,
    seconds: Option<i64>,
    r1: ParsiDateTime,
    r2: ParsiDateTime,
)
    requires
        r1.spec_valid(),
        r2.spec_valid(),
        spec_add_outcome(base, days, months, years, hours, minutes, seconds, r1),
        spec_add_outcome(base, days, months, years, hours, minutes, seconds, r2),
    ensures
        r1 == r2,
{
    if days is Some {
        calendar::lemma_day_number_injective(
            r1.date.year as int,
            r1.date.month as int,
            r1.date.day as int,
            r2.date.year as int,
            r2.date.month as int,
            r2.date.day as int,
        );
    } else if months is Some || years is Some {
    } else {
        datetime::lemma_second_number_injective(r1, r2);
    }
}

/// The absolute difference in whole days between the date parts of two
/// date-times.
pub fn get_days_diff(pdt1: ParsiDateTime, pdt2: ParsiDateTime) -> (r: Result<u64, DateError>)
    ensures
        match r {
            Ok(n) => pdt1.date.spec_valid() && pdt2.date.spec_valid() && (n
                == pdt1.date.spec_day_number() - pdt2.date.spec_day_number() || n
                == pdt2.date.spec_day_number() - pdt1.date.spec_day_number()),
            Err(e) => e == DateError::InvalidDate && !(pdt1.date.spec_valid()
                && pdt2.date.spec_valid()),
        },
{
    let d1 = pdt1.date();
    let d2 = pdt2.date();
    let diff = d1.days_between(&d2)?;
    Ok(diff as u64)
}

/// The Persian weekday name of the date part.
pub fn get_weekday(pdt: ParsiDateTime) -> (r: Result<String, DateError>)
    ensures
        match r {
            Ok(s) => pdt.date.spec_valid() && s@ == names::spec_weekday_name(
                gregorian::spec_weekday_sat0(pdt.date.spec_day_number()),
            ),
            Err(e) => e == DateError::InvalidDate && !pdt.date.spec_valid(),
        },
{
    let d = pdt.date();
    d.weekday()
}

/// Converts a Persian date-time to its Gregorian civil equivalent.
pub fn convert_to_gregorian(pdt: ParsiDateTime) -> (r: Result<CivilDateTime, DateError>)
    ensures
        match r {
            Ok(g) => {
                &&& pdt.spec_valid()
                &&& gregorian::spec_civil_date_valid(
                    g.date.year as int,
                    g.date.month as int,
                    g.date.day as int,
                )
                &&& gregorian::spec_g_day_number(
                    g.date.year as int,
                    g.date.month as int,
                    g.date.day as int,
                ) == pdt.date.spec_day_number() + gregorian::spec_epoch_day_number()
                &&& g.hour == pdt.hour && g.minute == pdt.minute && g.second == pdt.second
            },
            Err(e) => !pdt.spec_valid() && e == if !pdt.date.spec_valid() {
                DateError::InvalidDate
            } else {
                DateError::InvalidTime
            },
        },
{
    pdt.to_gregorian()
}

/// Converts a Gregorian civil date-time to Persian.
pub fn convert_from_gregorian(gregorian_ndt: CivilDateTime) -> (r: Result<ParsiDateTime, DateError>)
    ensures
        match r {
            Ok(dt) => {
                &&& dt.spec_valid()
                &&& dt.date.spec_day_number() + gregorian::spec_epoch_day_number()
                    == gregorian::spec_g_day_number(
                    gregorian_ndt.date.year as int,
                    gregorian_ndt.date.month as int,
                    gregorian_ndt.date.day as int,
                )
                &&& dt.hour == gregorian_ndt.hour && dt.minute == gregorian_ndt.minute
                    && dt.second == gregorian_ndt.second
            },
            Err(e) => if e == DateError::GregorianConversionError {
                !(gregorian::spec_civil_date_valid(
                    gregorian_ndt.date.year as int,
                    gregorian_ndt.date.month as int,
                    gregorian_ndt.date.day as int,
                ) && gregorian::spec_epoch_day_number() <= gregorian::spec_g_day_number(
                    gregorian_ndt.date.year as int,
                    gregorian_ndt.date.month as int,
                    gregorian_ndt.date.day as int,
                ) < gregorian::spec_epoch_day_number() + calendar::spec_days_before_year(10000))
            } else {
                e == DateError::InvalidTime && !datetime::spec_time_valid(
                    gregorian_ndt.hour as int,
                    gregorian_ndt.minute as int,
                    gregorian_ndt.second as int,
                )
            },
        },
{
    ParsiDateTime::from_gregorian(gregorian_ndt)
}

/// Whether a Persian year is leap.
pub fn is_leap_year(year: i32) -> (r: bool)
    ensures
        r == calendar::spec_is_leap_year(year as int),
{
    ParsiDate::is_persian_leap_year(year)
}

/// Assembles the full information record of a valid date-time; each field's
/// text is the engine's own rendering.
pub fn get_date_info(pdt: ParsiDateTime, was_datetime: bool) -> (r: Result<DateInfo, DateError>)
    ensures
        match r {
            Ok(info) => {
                &&& pdt.spec_valid()
                &&& info.parsi_date_formatted@ == pattern::spec_date_display(pdt.date)
                &&& match info.parsi_time_formatted {
                    Some(t) => was_datetime && t@ == text::spec_pad2(pdt.hour as int).add(
                        seq![':'],
                    ).add(text::spec_pad2(pdt.minute as int)).add(seq![':']).add(
                        text::spec_pad2(pdt.second as int),
                    ),
                    None => !was_datetime,
                }
                &&& info.weekday@ == names::spec_weekday_name(
                    gregorian::spec_weekday_sat0(pdt.date.spec_day_number()),
                )
                &&& info.day_of_year == pattern::spec_ordinal(pdt.date)
                &&& info.days_in_month == calendar::spec_days_in_month(
                    pdt.date.year as int,
                    pdt.date.month as int,
                )
                &&& info.is_leap_year == calendar::spec_is_leap_year(pdt.date.year as int)
                &&& exists|g: CivilDateTime|
                    {
                        &&& gregorian::spec_g_day_number(
                            g.date.year as int,
                            g.date.month as int,
                            g.date.day as int,
                        ) == pdt.date.spec_day_number() + gregorian::spec_epoch_day_number()
                        &&& gregorian::spec_civil_date_valid(
                            g.date.year as int,
                            g.date.month as int,
                            g.date.day as int,
                        )
                        &&& g.hour == pdt.hour && g.minute == pdt.minute && g.second == pdt.second
                        &&& info.gregorian_equivalent@ == #[trigger] spec_civil_rendering(
                            g,
                            was_datetime,
                        )
                    }
                &&& info.first_day_of_month@ == pattern::spec_date_display(
                    ParsiDate { day: 1, ..pdt.date },
                )
                &&& info.last_day_of_month@ == pattern::spec_date_display(
                    ParsiDate {
                        day: calendar::spec_days_in_month(
                            pdt.date.year as int,
                            pdt.date.month as int,
                        ) as u32,
                        ..pdt.date
                    },
                )
                &&& info.first_day_of_year@ == pattern::spec_date_display(
                    ParsiDate { month: 1, day: 1, ..pdt.date },
                )
                &&& info.last_day_of_year@ == pattern::spec_date_display(
                    ParsiDate {
                        month: 12,
                        day: calendar::spec_days_in_month(pdt.date.year as int, 12) as u32,
                        ..pdt.date
                    },
                )
            },
            Err(e) => !pdt.spec_valid() && e == if !pdt.date.spec_valid() {
                DateError::InvalidDate
            } else {
                DateError::InvalidTime
            },
        },
{
    let date = pdt.date();
    let g_ndt = convert_to_gregorian(pdt)?;
    let weekday = match get_weekday(pdt) {
        Ok(w) => w,
        Err(_) => {
            proof {
                assert(false);
            }
            return Err(DateError::InvalidDate);
        },
    };
    let day_of_year = match date.ordinal() {
        Ok(n) => n,
        Err(_) => {
            proof {
                assert(false);
            }
            return Err(DateError::InvalidDate);
        },
    };
    let time_formatted = if was_datetime {
        let mut v = text::pad2_chars(pdt.hour());
        v.push(':');
        let mut mi = text::pad2_chars(pdt.minute());
        v.append(&mut mi);
        v.push(':');
        let mut se = text::pad2_chars(pdt.second());
        v.append(&mut se);
        proof {
            assert(v@ =~= text::spec_pad2(pdt.hour as int).add(seq![':']).add(
                text::spec_pad2(pdt.minute as int),
            ).add(seq![':']).add(text::spec_pad2(pdt.second as int)));
        }
        Some(text::string_from_chars(&v))
    } else {
        None
    };
    let info = DateInfo {
        parsi_date_formatted: date.to_string(),
        parsi_time_formatted: time_formatted,
        weekday,
        day_of_year,
        days_in_month: ParsiDate::days_in_month(date.year(), date.month()),
        is_leap_year: is_leap_year(date.year()),
        gregorian_equivalent: render_civil(&g_ndt, was_datetime),
        first_day_of_month: date.first_day_of_month().to_string(),
        last_day_of_month: date.last_day_of_month().to_string(),
        first_day_of_year: date.first_day_of_year().to_string(),
        last_day_of_year: date.last_day_of_year().to_string(),
    };
    Ok(info)
}

/// The engine's rendering of a civil date-time: ISO date, with the time
/// appended when the value carries one.
pub open spec fn spec_civil_rendering(g: CivilDateTime, with_time: bool) -> Seq<char> {
    let date_part = spec_pad4(g.date.year as int).add(seq!['-']).add(
        text::spec_pad2(g.date.month as int),
    ).add(seq!['-']).add(text::spec_pad2(g.date.day as int));
    if with_time {
        date_part.add(seq![' ']).add(text::spec_pad2(g.hour as int)).add(seq![':']).add(
            text::spec_pad2(g.minute as int),
        ).add(seq![':']).add(text::spec_pad2(g.second as int))
    } else {
        date_part
    }
}

/// A number rendered to at least four digits, zero-padded.
pub open spec fn spec_pad4(n: int) -> Seq<char> {
    if 0 <= n < 10000 {
        seq![
            text::spec_digit_char(n / 1000),
            text::spec_digit_char((n / 100) % 10),
            text::spec_digit_char((n / 10) % 10),
            text::spec_digit_char(n % 10),
        ]
    } else {
        text::spec_int_digits(n)
    }
}

fn pad4_chars(n: i32) -> (v: Vec<char>)
    ensures
        v@ == spec_pad4(n as int),
{
    if 0 <= n && n < 10000 {
        let u = n as u32;
        let mut v: Vec<char> = Vec::new();
        v.push(text::digit_char(u / 1000));
        v.push(text::digit_char((u / 100) % 10));
        v.push(text::digit_char((u / 10) % 10));
        v.push(text::digit_char(u % 10));
        v
    } else {
        text::i32_to_chars(n)
    }
}

fn render_civil(g: &CivilDateTime, with_time: bool) -> (s: String)
    ensures
        s@ == spec_civil_rendering(*g, with_time),
{
    let mut v = pad4_chars(g.date.year);
    v.push('-');
    let mut mo = text::pad2_chars(g.date.month);
    v.append(&mut mo);
    v.push('-');
    let mut dd = text::pad2_chars(g.date.day);
    v.append(&mut dd);
    if with_time {
        v.push(' ');
        let mut h = text::pad2_chars(g.hour);
        v.append(&mut h);
        v.push(':');
        let mut mi = text::pad2_chars(g.minute);
        v.append(&mut mi);
        v.push(':');
        let mut se = text::pad2_chars(g.second);
        v.append(&mut se);
    }
    proof {
        assert(v@ =~= spec_civil_rendering(*g, with_time));
    }
    text::string_from_chars(&v)
}

} // verus!
