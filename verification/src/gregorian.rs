//! The proleptic Gregorian calendar used as the conversion target: leap rule,
//! month lengths, civil date types, and the bijection between civil dates and
//! day numbers counted from civil year 1, January 1st (day 0). The Persian
//! epoch (1/1/1) falls on civil 622-03-21, which anchors the two day lines.

use vstd::prelude::*;
use crate::calendar;

verus! {

/// A Gregorian calendar date, used only as a conversion target.
#[derive(Debug, Clone, Copy, PartialEq, Eq, Hash, Structural)]
pub struct CivilDate {
    pub year: i32,
    pub month: u32,
    pub day: u32,
}

/// A Gregorian calendar date with a time of day.
#[derive(Debug, Clone, Copy, PartialEq, Eq, Hash, Structural)]
pub struct CivilDateTime {
    pub date: CivilDate,
    pub hour: u32,
    pub minute: u32,
    pub second: u32,
}

/// The standard Gregorian leap rule: divisible by 4 and not by 100, unless
/// divisible by 400.
pub open spec fn spec_g_is_leap_year(year: int) -> bool {
    (year % 4 == 0 && year % 100 != 0) || year % 400 == 0
}

/// Number of days in a Gregorian month; 0 for an invalid month number.
pub open spec fn spec_g_days_in_month(year: int, month: int) -> int {
    if month == 1 || month == 3 || month == 5 || month == 7 || month == 8 || month == 10
        || month == 12 {
        31
    } else if month == 4 || month == 6 || month == 9 || month == 11 {
        30
    } else if month == 2 {
        if spec_g_is_leap_year(year) {
            29
        } else {
            28
        }
    } else {
        0
    }
}

pub open spec fn spec_g_year_length(year: int) -> int {
    if spec_g_is_leap_year(year) {
        366
    } else {
        365
    }
}

/// Days elapsed from civil 1-01-01 to the first day of `year`.
pub open spec fn spec_g_days_before_year(year: int) -> int
    decreases year,
{
    if year <= 1 {
        0
    } else {
        spec_g_days_before_year(year - 1) + spec_g_year_length(year - 1)
    }
}

/// Days elapsed from the start of civil `year` to the start of its `month`.
pub open spec fn spec_g_days_before_month(year: int, month: int) -> int
    decreases month,
{
    if month <= 1 {
        0
    } else {
        spec_g_days_before_month(year, month - 1) + spec_g_days_in_month(year, month - 1)
    }
}

/// The day number of a civil date: days elapsed from 1-01-01, which is day 0.
pub open spec fn spec_g_day_number(year: int, month: int, day: int) -> int {
    spec_g_days_before_year(year) + spec_g_days_before_month(year, month) + day - 1
}

/// A valid civil date of the positive era.
pub open spec fn spec_civil_date_valid(year: int, month: int, day: int) -> bool {
    &&& year >= 1
    &&& 1 <= month <= 12
    &&& 1 <= day <= spec_g_days_in_month(year, month)
}

/// The day number of the Persian epoch, civil 622-03-21.
pub open spec fn spec_epoch_day_number() -> int {
    spec_g_day_number(622, 3, 21)
}

pub fn g_is_leap_year(year: i32) -> (r: bool)
    ensures
        r == spec_g_is_leap_year(year as int),
{
    (year % 4 == 0 && year % 100 != 0) || year % 400 == 0
}

pub fn g_days_in_month(year: i32, month: u32) -> (n: u32)
    ensures
        n == spec_g_days_in_month(year as int, month as int),
{
    if month == 1 || month == 3 || month == 5 || month == 7 || month == 8 || month == 10
        || month == 12 {
        31
    } else if month == 4 || month == 6 || month == 9 || month == 11 {
        30
    } else if month == 2 {
        if g_is_leap_year(year) {
            29
        } else {
            28
        }
    } else {
        0
    }
}

pub fn g_year_length(year: i32) -> (n: u64)
    ensures
        n == spec_g_year_length(year as int),
{
    if g_is_leap_year(year) {
        366
    } else {
        365
    }
}

pub proof fn lemma_g_days_before_year_upper(year: int)
    requires
        year >= 1,
    ensures
        spec_g_days_before_year(year) <= 366 * (year - 1),
    decreases year,
{
    if year > 1 {
        lemma_g_days_before_year_upper(year - 1);
    }
}

pub proof fn lemma_g_days_before_year_lower(year: int)
    requires
        year >= 1,
    ensures
        spec_g_days_before_year(year) >= 365 * (year - 1),
    decreases year,
{
    if year > 1 {
        lemma_g_days_before_year_lower(year - 1);
    }
}

pub proof fn lemma_g_days_before_month_nonneg(year: int, m: int)
    ensures
        0 <= spec_g_days_before_month(year, m),
    decreases m,
{
    if m > 1 {
        lemma_g_days_before_month_nonneg(year, m - 1);
    }
}

pub proof fn lemma_g_days_before_month_mono(year: int, m1: int, m2: int)
    requires
        1 <= m1 <= m2,
    ensures
        0 <= spec_g_days_before_month(year, m1) <= spec_g_days_before_month(year, m2),
        m1 < m2 ==> spec_g_days_before_month(year, m1) + spec_g_days_in_month(year, m1)
            <= spec_g_days_before_month(year, m2),
    decreases m2,
{
    lemma_g_days_before_month_nonneg(year, m1);
    if m1 < m2 {
        lemma_g_days_before_month_mono(year, m1, m2 - 1);
    }
}

/// The twelve Gregorian month lengths of a year sum to the year's length.
pub proof fn lemma_g_months_fill_year(year: int)
    ensures
        spec_g_days_before_month(year, 13) == spec_g_year_length(year),
{
    reveal_with_fuel(spec_g_days_before_month, 13);
}

/// A valid civil date's day number lies within its year's slice.
pub proof fn lemma_g_day_number_range(year: int, month: int, day: int)
    requires
        spec_civil_date_valid(year, month, day),
    ensures
        spec_g_days_before_year(year) <= spec_g_day_number(year, month, day),
        spec_g_day_number(year, month, day) < spec_g_days_before_year(year)
            + spec_g_year_length(year),
{
    lemma_g_days_before_month_mono(year, 1, month);
    lemma_g_days_before_month_mono(year, month, month + 1);
    lemma_g_days_before_month_mono(year, month + 1, 13);
    lemma_g_months_fill_year(year);
}

pub fn g_days_before_year(year: i32) -> (n: u64)
    requires
        1 <= year <= 20001,
    ensures
        n == spec_g_days_before_year(year as int),
{
    let mut acc: u64 = 0;
    let mut y: i32 = 1;
    while y < year
        invariant
            1 <= y <= year <= 20001,
            acc == spec_g_days_before_year(y as int),
            acc <= 366 * (y - 1),
        decreases year - y,
    {
        proof {
            lemma_g_days_before_year_upper(y as int);
        }
        acc = acc + g_year_length(y);
        y = y + 1;
    }
    acc
}

pub fn g_days_before_month(year: i32, month: u32) -> (n: u64)
    requires
        1 <= month <= 12,
    ensures
        n == spec_g_days_before_month(year as int, month as int),
        n <= 366,
{
    let mut acc: u64 = 0;
    let mut m: u32 = 1;
    while m < month
        invariant
            1 <= m <= month <= 12,
            acc == spec_g_days_before_month(year as int, m as int),
            acc <= 31 * (m - 1),
        decreases month - m,
    {
        acc = acc + g_days_in_month(year, m) as u64;
        m = m + 1;
    }
    acc
}

/// The day number of a valid civil date of a year up to 20000.
pub fn g_day_number(year: i32, month: u32, day: u32) -> (n: u64)
    requires
        spec_civil_date_valid(year as int, month as int, day as int),
        year <= 20000,
    ensures
        n == spec_g_day_number(year as int, month as int, day as int),
{
    proof {
        lemma_g_day_number_range(year as int, month as int, day as int);
        lemma_g_days_before_year_upper(year as int);
        lemma_g_days_before_month_nonneg(year as int, month as int);
    }
    g_days_before_year(year) + g_days_before_month(year, month) + (day as u64) - 1
}

/// The day number of the Persian epoch, civil 622-03-21.
pub fn epoch_day_number() -> (n: u64)
    ensures
        n == spec_epoch_day_number(),
        n <= 227365,
{
    proof {
        lemma_g_days_before_year_upper(622);
        reveal_with_fuel(spec_g_days_before_month, 4);
    }
    g_day_number(622, 3, 21)
}

/// Recovers the unique valid civil date with the given day number.
pub fn civil_from_day_number(n: u64) -> (res: (i32, u32, u32))
    requires
        n < spec_g_days_before_year(20001),
    ensures
        spec_civil_date_valid(res.0 as int, res.1 as int, res.2 as int),
        res.0 <= 20000,
        spec_g_day_number(res.0 as int, res.1 as int, res.2 as int) == n,
{
    let mut y: i32 = 1;
    let mut rem: u64 = n;
    while rem >= g_year_length(y)
        invariant
            1 <= y <= 20000,
            n < spec_g_days_before_year(20001),
            rem == n - spec_g_days_before_year(y as int),
            rem >= 0,
        decreases 20001 - y,
    {
        proof {
            if y as int + 1 == 20001 {
                assert(spec_g_days_before_year(20001) == spec_g_days_before_year(y as int)
                    + spec_g_year_length(y as int));
                assert(false);
            }
        }
        rem = rem - g_year_length(y);
        y = y + 1;
    }
    let mut m: u32 = 1;
    while rem >= g_days_in_month(y, m) as u64
        invariant
            1 <= m <= 12,
            1 <= y <= 20000,
            rem == n - spec_g_days_before_year(y as int) - spec_g_days_before_month(
                y as int,
                m as int,
            ),
            rem >= 0,
            n - spec_g_days_before_year(y as int) < spec_g_year_length(y as int),
        decreases 12 - m,
    {
        proof {
            if m as int + 1 == 13 {
                lemma_g_months_fill_year(y as int);
                assert(false);
            }
        }
        rem = rem - g_days_in_month(y, m) as u64;
        m = m + 1;
    }
    let d: u32 = (rem + 1) as u32;
    (y, m, d)
}

/// The weekday slot of a Persian day number, counted with Saturday as 0. The
/// anchoring fact is that civil 1-01-01 (day number 0) was a Monday.
pub open spec fn spec_weekday_sat0(persian_day_number: int) -> int {
    (persian_day_number + spec_epoch_day_number() + 2) % 7
}

pub fn weekday_sat0(persian_day_number: u64) -> (w: u32)
    requires
        persian_day_number < calendar::spec_days_before_year(10000),
    ensures
        w == spec_weekday_sat0(persian_day_number as int),
        w < 7,
{
    proof {
        calendar::lemma_days_before_year_upper(10000);
    }
    ((persian_day_number + epoch_day_number() + 2) % 7) as u32
}

} // verus!
