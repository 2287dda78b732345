//! Core arithmetic of the Persian (Jalali) calendar: the 33-year cycle leap
//! rule, month lengths, and the bijection between dates and day numbers
//! counted from the calendar's epoch (year 1, Farvardin 1st = day 0).

use vstd::prelude::*;

verus! {

/// A Persian year is leap when its remainder modulo 33 falls on one of the
/// eight leap slots of the cycle. Years below 1 are never leap.
pub open spec fn spec_is_leap_year(year: int) -> bool {
    year > 0 && {
        let r = year % 33;
        r == 1 || r == 5 || r == 9 || r == 13 || r == 17 || r == 22 || r == 26 || r == 30
    }
}

/// Number of days in a Persian month: 31 for months 1-6, 30 for months 7-11,
/// and 29 or 30 for Esfand (month 12) depending on the leap rule. An invalid
/// month number has 0 days.
pub open spec fn spec_days_in_month(year: int, month: int) -> int {
    if 1 <= month <= 6 {
        31
    } else if 7 <= month <= 11 {
        30
    } else if month == 12 {
        if spec_is_leap_year(year) {
            30
        } else {
            29
        }
    } else {
        0
    }
}

/// Number of days in a Persian year.
pub open spec fn spec_year_length(year: int) -> int {
    if spec_is_leap_year(year) {
        366
    } else {
        365
    }
}

/// Days elapsed from 1/1/1 to the first day of `year`.
pub open spec fn spec_days_before_year(year: int) -> int
    decreases year,
{
    if year <= 1 {
        0
    } else {
        spec_days_before_year(year - 1) + spec_year_length(year - 1)
    }
}

/// Days elapsed from the first day of `year` to the first day of its `month`.
pub open spec fn spec_days_before_month(year: int, month: int) -> int
    decreases month,
{
    if month <= 1 {
        0
    } else {
        spec_days_before_month(year, month - 1) + spec_days_in_month(year, month - 1)
    }
}

/// The day number of a date: days elapsed from 1/1/1, so that 1/1/1 is day 0.
pub open spec fn spec_day_number(year: int, month: int, day: int) -> int {
    spec_days_before_year(year) + spec_days_before_month(year, month) + day - 1
}

/// A (year, month, day) triple is a valid Persian date within the supported
/// year range [1, 9999].
pub open spec fn spec_date_valid(year: int, month: int, day: int) -> bool {
    &&& 1 <= year <= 9999
    &&& 1 <= month <= 12
    &&& 1 <= day <= spec_days_in_month(year, month)
}

pub fn is_persian_leap_year(year: i32) -> (r: bool)
    ensures
        r == spec_is_leap_year(year as int),
{
    if year <= 0 {
        return false;
    }
    let r = year % 33;
    r == 1 || r == 5 || r == 9 || r == 13 || r == 17 || r == 22 || r == 26 || r == 30
}

pub fn days_in_month(year: i32, month: u32) -> (n: u32)
    ensures
        n == spec_days_in_month(year as int, month as int),
{
    if 1 <= month && month <= 6 {
        31
    } else if 7 <= month && month <= 11 {
        30
    } else if month == 12 {
        if is_persian_leap_year(year) {
            30
        } else {
            29
        }
    } else {
        0
    }
}

pub fn year_length(year: i32) -> (n: u64)
    ensures
        n == spec_year_length(year as int),
{
    if is_persian_leap_year(year) {
        366
    } else {
        365
    }
}

/// The accumulated year lengths grow by at most 366 per year.
pub proof fn lemma_days_before_year_upper(year: int)
    requires
        year >= 1,
    ensures
        spec_days_before_year(year) <= 366 * (year - 1),
    decreases year,
{
    if year > 1 {
        lemma_days_before_year_upper(year - 1);
    }
}

/// Day counts of year starts are strictly increasing with the year.
pub proof fn lemma_days_before_year_mono(y1: int, y2: int)
    requires
        1 <= y1 <= y2,
    ensures
        spec_days_before_year(y1) <= spec_days_before_year(y2),
        y1 < y2 ==> spec_days_before_year(y1) + spec_year_length(y1) <= spec_days_before_year(y2),
    decreases y2,
{
    if y1 < y2 {
        lemma_days_before_year_mono(y1, y2 - 1);
    }
}

/// Month offsets are never negative.
pub proof fn lemma_days_before_month_nonneg(year: int, m: int)
    ensures
        0 <= spec_days_before_month(year, m),
    decreases m,
{
    if m > 1 {
        lemma_days_before_month_nonneg(year, m - 1);
    }
}

/// Month offsets are non-negative and increase with the month.
pub proof fn lemma_days_before_month_mono(year: int, m1: int, m2: int)
    requires
        1 <= m1 <= m2,
    ensures
        0 <= spec_days_before_month(year, m1) <= spec_days_before_month(year, m2),
        m1 < m2 ==> spec_days_before_month(year, m1) + spec_days_in_month(year, m1)
            <= spec_days_before_month(year, m2),
    decreases m2,
{
    lemma_days_before_month_nonneg(year, m1);
    if m1 < m2 {
        lemma_days_before_month_mono(year, m1, m2 - 1);
    }
}

/// The twelve month lengths of a year sum to the year's length.
pub proof fn lemma_months_fill_year(year: int)
    ensures
        spec_days_before_month(year, 13) == spec_year_length(year),
{
    reveal_with_fuel(spec_days_before_month, 13);
}

/// A valid date's day number lies within its year's slice of the day line.
pub proof fn lemma_day_number_range(year: int, month: int, day: int)
    requires
        spec_date_valid(year, month, day),
    ensures
        spec_days_before_year(year) <= spec_day_number(year, month, day),
        spec_day_number(year, month, day) < spec_days_before_year(year) + spec_year_length(year),
        spec_day_number(year, month, day) < spec_days_before_year(10000),
{
    lemma_days_before_month_mono(year, 1, month);
    lemma_days_before_month_mono(year, month + 1, 13);
    lemma_days_before_month_mono(year, month, month + 1);
    lemma_months_fill_year(year);
    lemma_days_before_year_mono(year, 10000);
}

/// Two valid dates with the same day number are the same date.
pub proof fn lemma_day_number_injective(y1: int, m1: int, d1: int, y2: int, m2: int, d2: int)
    requires
        spec_date_valid(y1, m1, d1),
        spec_date_valid(y2, m2, d2),
        spec_day_number(y1, m1, d1) == spec_day_number(y2, m2, d2),
    ensures
        y1 == y2 && m1 == m2 && d1 == d2,
{
    lemma_day_number_range(y1, m1, d1);
    lemma_day_number_range(y2, m2, d2);
    if y1 < y2 {
        lemma_days_before_year_mono(y1, y2);
        assert(false);
    }
    if y2 < y1 {
        lemma_days_before_year_mono(y2, y1);
        assert(false);
    }
    lemma_days_before_month_mono(y1, m1, m1 + 1);
    lemma_days_before_month_mono(y2, m2, m2 + 1);
    if m1 < m2 {
        lemma_days_before_month_mono(y1, m1 + 1, m2);
        assert(false);
    }
    if m2 < m1 {
        lemma_days_before_month_mono(y1, m2 + 1, m1);
        assert(false);
    }
}

/// Days elapsed from 1/1/1 to the start of `year`, computed by summing year
/// lengths.
pub fn days_before_year(year: i32) -> (n: u64)
    requires
        1 <= year <= 10000,
    ensures
        n == spec_days_before_year(year as int),
{
    let mut acc: u64 = 0;
    let mut y: i32 = 1;
    while y < year
        invariant
            1 <= y <= year <= 10000,
            acc == spec_days_before_year(y as int),
            acc <= 366 * (y - 1),
        decreases year - y,
    {
        proof {
            lemma_days_before_year_upper(y as int);
        }
        acc = acc + year_length(y);
        y = y + 1;
    }
    acc
}

/// Days elapsed from the start of `year` to the start of its `month`.
pub fn days_before_month(year: i32, month: u32) -> (n: u64)
    requires
        1 <= month <= 12,
    ensures
        n == spec_days_before_month(year as int, month as int),
        n <= 366,
{
    let mut acc: u64 = 0;
    let mut m: u32 = 1;
    while m < month
        invariant
            1 <= m <= month <= 12,
            acc == spec_days_before_month(year as int, m as int),
            acc <= 31 * (m - 1),
        decreases month - m,
    {
        acc = acc + days_in_month(year, m) as u64;
        m = m + 1;
    }
    acc
}

/// The day number of a valid date.
pub fn day_number(year: i32, month: u32, day: u32) -> (n: u64)
    requires
        spec_date_valid(year as int, month as int, day as int),
    ensures
        n == spec_day_number(year as int, month as int, day as int),
        n < spec_days_before_year(10000),
{
    proof {
        lemma_day_number_range(year as int, month as int, day as int);
        lemma_days_before_year_upper(10000);
    }
    days_before_year(year) + days_before_month(year, month) + (day as u64) - 1
}

/// Recovers the unique valid date with the given day number.
pub fn date_from_day_number(n: u64) -> (res: (i32, u32, u32))
    requires
        n < spec_days_before_year(10000),
    ensures
        spec_date_valid(res.0 as int, res.1 as int, res.2 as int),
        spec_day_number(res.0 as int, res.1 as int, res.2 as int) == n,
{
    let mut y: i32 = 1;
    let mut rem: u64 = n;
    proof {
        lemma_days_before_year_upper(10000);
    }
    while rem >= year_length(y)
        invariant
            1 <= y <= 9999,
            n < spec_days_before_year(10000),
            rem == n - spec_days_before_year(y as int),
            rem >= 0,
        decreases 10000 - y,
    {
        proof {
            if y as int + 1 == 10000 {
                assert(spec_days_before_year(10000) == spec_days_before_year(y as int)
                    + spec_year_length(y as int));
                assert(false);
            }
        }
        rem = rem - year_length(y);
        y = y + 1;
    }
    // rem is now the 0-based day within year y.
    let (m, d) = month_day_from_ordinal0(y, rem);
    (y, m, d)
}

/// Splits a 0-based day-of-year offset into the month and 1-based day it
/// falls on.
pub fn month_day_from_ordinal0(year: i32, ord0: u64) -> (res: (u32, u32))
    requires
        1 <= year <= 9999,
        0 <= ord0 < spec_year_length(year as int),
    ensures
        1 <= res.0 <= 12,
        1 <= res.1 <= spec_days_in_month(year as int, res.0 as int),
        spec_days_before_month(year as int, res.0 as int) + res.1 - 1 == ord0,
{
    let mut rem: u64 = ord0;
    let mut m: u32 = 1;
    while rem >= days_in_month(year, m) as u64
        invariant
            1 <= m <= 12,
            1 <= year <= 9999,
            rem == ord0 - spec_days_before_month(year as int, m as int),
            rem >= 0,
            ord0 < spec_year_length(year as int),
        decreases 12 - m,
    {
        proof {
            if m as int + 1 == 13 {
                lemma_months_fill_year(year as int);
                assert(false);
            }
        }
        rem = rem - days_in_month(year, m) as u64;
        m = m + 1;
    }
    let d: u32 = (rem + 1) as u32;
    (m, d)
}

} // verus!
