//! `ParsiDate`: an immutable Persian calendar date with validation, Gregorian
//! conversion, weekday and ordinal queries, and calendar-unit arithmetic with
//! the engine's clamping rules.

use vstd::prelude::*;
use crate::calendar;
use crate::error::DateError;
use crate::gregorian;
use crate::gregorian::CivilDate;
use crate::names;
use crate::text;

verus! {

/// A date in the Persian (Jalali) calendar. The supported range is year 1,
/// Farvardin 1st through year 9999, Esfand 29th.
#[derive(Debug, Clone, Copy, PartialEq, Eq, Hash, Structural)]
pub struct ParsiDate {
    pub year: i32,
    pub month: u32,
    pub day: u32,
}

impl ParsiDate {
    /// The date's components form a real calendar day in the supported range.
    pub open spec fn spec_valid(self) -> bool {
        calendar::spec_date_valid(self.year as int, self.month as int, self.day as int)
    }

    /// Days elapsed from the calendar's first day (1/1/1 is day 0).
    pub open spec fn spec_day_number(self) -> int {
        calendar::spec_day_number(self.year as int, self.month as int, self.day as int)
    }

    /// Validating constructor: succeeds exactly on valid dates.
    pub fn new(year: i32, month: u32, day: u32) -> (r: Result<Self, DateError>)
        ensures
            match r {
                Ok(d) => d.spec_valid() && d.year == year && d.month == month && d.day == day,
                Err(e) => e == DateError::InvalidDate && !calendar::spec_date_valid(
                    year as int,
                    month as int,
                    day as int,
                ),
            },
    {
        let date = ParsiDate { year, month, day };
        if date.is_valid() {
            Ok(date)
        } else {
            Err(DateError::InvalidDate)
        }
    }

    /// Internal fast path for components already proven valid; never exposed
    /// to unvalidated input.
    pub(crate) fn new_unchecked(year: i32, month: u32, day: u32) -> (d: Self)
        requires
            calendar::spec_date_valid(year as int, month as int, day as int),
        ensures
            d.year == year && d.month == month && d.day == day,
            d.spec_valid(),
    {
        ParsiDate { year, month, day }
    }

    /// The date with the given 1-based day-of-year ordinal.
    pub fn from_ordinal(year: i32, ordinal: u32) -> (r: Result<Self, DateError>)
        ensures
            match r {
                Ok(d) => d.spec_valid() && d.year == year && 1 <= ordinal
                    <= calendar::spec_year_length(year as int) && calendar::spec_days_before_month(
                    year as int,
                    d.month as int,
                ) + d.day == ordinal,
                Err(e) => if ordinal == 0 || ordinal > calendar::spec_year_length(year as int) {
                    e == DateError::InvalidOrdinal
                } else {
                    e == DateError::InvalidDate && !(1 <= year <= 9999)
                },
            },
    {
        if ordinal == 0 {
            return Err(DateError::InvalidOrdinal);
        }
        let days_in_year = calendar::year_length(year);
        if ordinal as u64 > days_in_year {
            return Err(DateError::InvalidOrdinal);
        }
        if year < 1 || year > 9999 {
            return Err(DateError::InvalidDate);
        }
        let (m, d) = calendar::month_day_from_ordinal0(year, (ordinal - 1) as u64);
        Ok(ParsiDate { year, month: m, day: d })
    }

    #[inline]
    pub fn year(&self) -> (y: i32)
        ensures
            y == self.year,
    {
        self.year
    }

    #[inline]
    pub fn month(&self) -> (m: u32)
        ensures
            m == self.month,
    {
        self.month
    }

    #[inline]
    pub fn day(&self) -> (d: u32)
        ensures
            d == self.day,
    {
        self.day
    }

    /// Comprehensive validity check of the stored components.
    pub fn is_valid(&self) -> (r: bool)
        ensures
            r == self.spec_valid(),
    {
        if self.year < 1 || self.year > 9999 {
            return false;
        }
        if self.month < 1 || self.month > 12 {
            return false;
        }
        self.day >= 1 && self.day <= Self::days_in_month(self.year, self.month)
    }

    /// Whether a Persian year is leap under the engine's 33-year cycle rule.
    pub fn is_persian_leap_year(year: i32) -> (r: bool)
        ensures
            r == calendar::spec_is_leap_year(year as int),
    {
        calendar::is_persian_leap_year(year)
    }

    /// Whether a Gregorian year is leap under the standard civil rule.
    pub fn is_gregorian_leap_year(year: i32) -> (r: bool)
        ensures
            r == gregorian::spec_g_is_leap_year(year as int),
    {
        gregorian::g_is_leap_year(year)
    }

    /// Days in the given Persian month; 0 for an invalid month number.
    pub fn days_in_month(year: i32, month: u32) -> (n: u32)
        ensures
            n == calendar::spec_days_in_month(year as int, month as int),
    {
        calendar::days_in_month(year, month)
    }

    /// The 1-based day-of-year ordinal of a valid date.
    pub fn ordinal(&self) -> (r: Result<u32, DateError>)
        ensures
            match r {
                Ok(n) => self.spec_valid() && n == calendar::spec_days_before_month(
                    self.year as int,
                    self.month as int,
                ) + self.day && 1 <= n <= calendar::spec_year_length(self.year as int),
                Err(e) => e == DateError::InvalidDate && !self.spec_valid(),
            },
    {
        if !self.is_valid() {
            return Err(DateError::InvalidDate);
        }
        proof {
            calendar::lemma_days_before_month_mono(self.year as int, 1, self.month as int);
            calendar::lemma_days_before_month_mono(
                self.year as int,
                self.month as int,
                self.month as int + 1,
            );
            calendar::lemma_days_before_month_mono(self.year as int, self.month as int + 1, 13);
            calendar::lemma_months_fill_year(self.year as int);
        }
        let before = calendar::days_before_month(self.year, self.month);
        Ok((before as u32) + self.day)
    }

    /// The weekday slot of a valid date, Saturday being 0.
    pub fn weekday_num_sat_0(&self) -> (r: Result<u32, DateError>)
        ensures
            match r {
                Ok(w) => self.spec_valid() && w == gregorian::spec_weekday_sat0(
                    self.spec_day_number(),
                ) && w < 7,
                Err(e) => e == DateError::InvalidDate && !self.spec_valid(),
            },
    {
        if !self.is_valid() {
            return Err(DateError::InvalidDate);
        }
        let dn = calendar::day_number(self.year, self.month, self.day);
        Ok(gregorian::weekday_sat0(dn))
    }

    /// The Persian weekday name of a valid date.
    pub fn weekday(&self) -> (r: Result<String, DateError>)
        ensures
            match r {
                Ok(s) => self.spec_valid() && s@ == names::spec_weekday_name(
                    gregorian::spec_weekday_sat0(self.spec_day_number()),
                ),
                Err(e) => e == DateError::InvalidDate && !self.spec_valid(),
            },
    {
        let w = self.weekday_num_sat_0()?;
        let name = names::weekday_name(w);
        let chars = text::str_chars(name);
        Ok(text::string_from_chars(&chars))
    }

    /// The week number of the year, with weeks starting on Saturday and week
    /// 1 holding Farvardin 1st.
    pub fn week_of_year(&self) -> (r: Result<u32, DateError>)
        ensures
            match r {
                Ok(w) => self.spec_valid() && w == (calendar::spec_days_before_month(
                    self.year as int,
                    self.month as int,
                ) + self.day + gregorian::spec_weekday_sat0(
                    calendar::spec_days_before_year(self.year as int),
                ) - 1) / 7 + 1,
                Err(e) => e == DateError::InvalidDate && !self.spec_valid(),
            },
    {
        if !self.is_valid() {
            return Err(DateError::InvalidDate);
        }
        let first_day = ParsiDate::new_unchecked(self.year, 1, 1);
        let first_weekday = match first_day.weekday_num_sat_0() {
            Ok(w) => w,
            Err(e) => {
                return Err(e);
            },
        };
        let current_ordinal = match self.ordinal() {
            Ok(n) => n,
            Err(e) => {
                return Err(e);
            },
        };
        let effective: u32 = current_ordinal + first_weekday;
        Ok((effective - 1) / 7 + 1)
    }

    /// Converts a valid Persian date to its Gregorian civil equivalent; the
    /// result is the unique civil date whose day number matches.
    pub fn to_gregorian(&self) -> (r: Result<CivilDate, DateError>)
        ensures
            match r {
                Ok(g) => self.spec_valid() && gregorian::spec_civil_date_valid(
                    g.year as int,
                    g.month as int,
                    g.day as int,
                ) && gregorian::spec_g_day_number(g.year as int, g.month as int, g.day as int)
                    == self.spec_day_number() + gregorian::spec_epoch_day_number(),
                Err(e) => e == DateError::InvalidDate && !self.spec_valid(),
            },
    {
        if !self.is_valid() {
            return Err(DateError::InvalidDate);
        }
        let dn = calendar::day_number(self.year, self.month, self.day);
        let epoch = gregorian::epoch_day_number();
        proof {
            calendar::lemma_days_before_year_upper(10000);
            gregorian::lemma_g_days_before_year_lower(20001);
        }
        let (gy, gm, gd) = gregorian::civil_from_day_number(dn + epoch);
        Ok(CivilDate { year: gy, month: gm, day: gd })
    }

    /// Converts a Gregorian civil date to the Persian date with the same day
    /// number. Fails exactly when the input is not a well-formed civil date
    /// or falls outside the window covered by Persian years 1 through 9999.
    pub fn from_gregorian(g: CivilDate) -> (r: Result<Self, DateError>)
        ensures
            match r {
                Ok(d) => d.spec_valid() && gregorian::spec_civil_date_valid(
                    g.year as int,
                    g.month as int,
                    g.day as int,
                ) && d.spec_day_number() + gregorian::spec_epoch_day_number()
                    == gregorian::spec_g_day_number(g.year as int, g.month as int, g.day as int),
                Err(e) => {
                    &&& e == DateError::GregorianConversionError
                    &&& !(gregorian::spec_civil_date_valid(g.year as int, g.month as int, g.day as int)
                        && gregorian::spec_epoch_day_number() <= gregorian::spec_g_day_number(
                        g.year as int,
                        g.month as int,
                        g.day as int,
                    ) < gregorian::spec_epoch_day_number() + calendar::spec_days_before_year(10000))
                },
            },
    {
        if g.year < 1 || g.month < 1 || g.month > 12 || g.day < 1 || g.day
            > gregorian::g_days_in_month(g.year, g.month) {
            return Err(DateError::GregorianConversionError);
        }
        let epoch = gregorian::epoch_day_number();
        let p_total = calendar::days_before_year(10000);
        if g.year > 20000 {
            proof {
                gregorian::lemma_g_days_before_year_lower(g.year as int);
                gregorian::lemma_g_days_before_month_nonneg(g.year as int, g.month as int);
                calendar::lemma_days_before_year_upper(10000);
            }
            return Err(DateError::GregorianConversionError);
        }
        let n = gregorian::g_day_number(g.year, g.month, g.day);
        if n < epoch {
            return Err(DateError::GregorianConversionError);
        }
        if n - epoch >= p_total {
            return Err(DateError::GregorianConversionError);
        }
        let (y, m, d) = calendar::date_from_day_number(n - epoch);
        Ok(ParsiDate { year: y, month: m, day: d })
    }

    /// Adds a signed number of days; exact, no clamping. Fails exactly when
    /// the result leaves the supported range (or the step overflows).
    pub fn add_days(&self, days: i64) -> (r: Result<Self, DateError>)
        ensures
            match r {
                Ok(d) => self.spec_valid() && d.spec_valid() && d.spec_day_number()
                    == self.spec_day_number() + days,
                Err(e) => if !self.spec_valid() {
                    e == DateError::InvalidDate
                } else {
                    e == DateError::ArithmeticOverflow && !(0 <= self.spec_day_number() + days
                        < calendar::spec_days_before_year(10000))
                },
            },
    {
        if !self.is_valid() {
            return Err(DateError::InvalidDate);
        }
        let dn = calendar::day_number(self.year, self.month, self.day);
        proof {
            calendar::lemma_days_before_year_upper(10000);
        }
        let new_dn = match (dn as i64).checked_add(days) {
            Some(v) => v,
            None => {
                return Err(DateError::ArithmeticOverflow);
            },
        };
        let p_total = calendar::days_before_year(10000);
        if new_dn < 0 || new_dn >= p_total as i64 {
            return Err(DateError::ArithmeticOverflow);
        }
        let (y, m, d) = calendar::date_from_day_number(new_dn as u64);
        Ok(ParsiDate { year: y, month: m, day: d })
    }

    /// Subtracts an unsigned number of days; the mirror of `add_days`.
    pub fn sub_days(&self, days: u64) -> (r: Result<Self, DateError>)
        ensures
            match r {
                Ok(d) => self.spec_valid() && d.spec_valid() && d.spec_day_number()
                    == self.spec_day_number() - days,
                Err(e) => if !self.spec_valid() {
                    e == DateError::InvalidDate
                } else {
                    e == DateError::ArithmeticOverflow && !(0 <= self.spec_day_number() - days
                        < calendar::spec_days_before_year(10000))
                },
            },
    {
        if !self.is_valid() {
            return Err(DateError::InvalidDate);
        }
        if days > i64::MAX as u64 {
            let dn = calendar::day_number(self.year, self.month, self.day);
            proof {
                calendar::lemma_days_before_year_upper(10000);
            }
            return Err(DateError::ArithmeticOverflow);
        }
        self.add_days(-(days as i64))
    }

    /// Adds a signed number of months to the linearized month index, clamping
    /// the day down to the target month's length when needed.
    pub fn add_months(&self, months_to_add: i32) -> (r: Result<Self, DateError>)
        ensures
            match r {
                Ok(d) => {
                    let t = 12 * self.year + (self.month - 1) + months_to_add;
                    &&& self.spec_valid()
                    &&& d.spec_valid()
                    &&& d.year == t / 12
                    &&& d.month == t % 12 + 1
                    &&& d.day == if self.day <= calendar::spec_days_in_month(
                        d.year as int,
                        d.month as int,
                    ) {
                        self.day as int
                    } else {
                        calendar::spec_days_in_month(d.year as int, d.month as int)
                    }
                },
                Err(e) => if !self.spec_valid() {
                    e == DateError::InvalidDate
                } else {
                    e == DateError::ArithmeticOverflow && !(1 <= (12 * self.year + (self.month - 1)
                        + months_to_add) / 12 <= 9999)
                },
            },
    {
        if !self.is_valid() {
            return Err(DateError::InvalidDate);
        }
        let total: i64 = 12 * (self.year as i64) + ((self.month - 1) as i64) + (months_to_add
            as i64);
        let mut q: i64 = total / 12;
        let mut rem: i64 = total % 12;
        if rem < 0 {
            q = q - 1;
            rem = rem + 12;
        }
        proof {
            vstd::arithmetic::div_mod::lemma_fundamental_div_mod_converse(
                total as int,
                12,
                q as int,
                rem as int,
            );
        }
        if q < 1 || q > 9999 {
            return Err(DateError::ArithmeticOverflow);
        }
        let target_year: i32 = q as i32;
        let target_month: u32 = (rem + 1) as u32;
        let max_days = Self::days_in_month(target_year, target_month);
        let target_day = if self.day <= max_days {
            self.day
        } else {
            max_days
        };
        Ok(ParsiDate { year: target_year, month: target_month, day: target_day })
    }

    /// Subtracts an unsigned number of months; the mirror of `add_months`
    /// under negation, with the same clamping rule.
    pub fn sub_months(&self, months_to_sub: u32) -> (r: Result<Self, DateError>)
        ensures
            match r {
                Ok(d) => {
                    let t = 12 * self.year + (self.month - 1) - months_to_sub;
                    &&& self.spec_valid()
                    &&& d.spec_valid()
                    &&& months_to_sub <= i32::MAX
                    &&& d.year == t / 12
                    &&& d.month == t % 12 + 1
                    &&& d.day == if self.day <= calendar::spec_days_in_month(
                        d.year as int,
                        d.month as int,
                    ) {
                        self.day as int
                    } else {
                        calendar::spec_days_in_month(d.year as int, d.month as int)
                    }
                },
                Err(e) => if months_to_sub > i32::MAX {
                    e == DateError::ArithmeticOverflow
                } else if !self.spec_valid() {
                    e == DateError::InvalidDate
                } else {
                    e == DateError::ArithmeticOverflow && !(1 <= (12 * self.year + (self.month - 1)
                        - months_to_sub) / 12 <= 9999)
                },
            },
    {
        if months_to_sub > i32::MAX as u32 {
            return Err(DateError::ArithmeticOverflow);
        }
        self.add_months(-(months_to_sub as i32))
    }

    /// Adds a signed number of years, keeping month and day except that
    /// Esfand 30th is clamped to the 29th in a non-leap target year.
    pub fn add_years(&self, years_to_add: i32) -> (r: Result<Self, DateError>)
        ensures
            match r {
                Ok(d) => {
                    &&& self.spec_valid()
                    &&& d.spec_valid()
                    &&& d.year == self.year + years_to_add
                    &&& d.month == self.month
                    &&& d.day == if self.month == 12 && self.day == 30
                        && !calendar::spec_is_leap_year(self.year + years_to_add) {
                        29
                    } else {
                        self.day as int
                    }
                },
                Err(e) => if !self.spec_valid() {
                    e == DateError::InvalidDate
                } else {
                    e == DateError::ArithmeticOverflow && !(1 <= self.year + years_to_add <= 9999)
                },
            },
    {
        if !self.is_valid() {
            return Err(DateError::InvalidDate);
        }
        let target_year = match self.year.checked_add(years_to_add) {
            Some(y) => y,
            None => {
                return Err(DateError::ArithmeticOverflow);
            },
        };
        if target_year < 1 || target_year > 9999 {
            return Err(DateError::ArithmeticOverflow);
        }
        let target_day = if self.month == 12 && self.day == 30 && !calendar::is_persian_leap_year(
            target_year,
        ) {
            29
        } else {
            self.day
        };
        Ok(ParsiDate { year: target_year, month: self.month, day: target_day })
    }

    /// Subtracts an unsigned number of years; the mirror of `add_years`
    /// under negation, with the same Esfand clamping rule.
    pub fn sub_years(&self, years_to_sub: u32) -> (r: Result<Self, DateError>)
        ensures
            match r {
                Ok(d) => {
                    &&& self.spec_valid()
                    &&& d.spec_valid()
                    &&& years_to_sub <= i32::MAX
                    &&& d.year == self.year - years_to_sub
                    &&& d.month == self.month
                    &&& d.day == if self.month == 12 && self.day == 30
                        && !calendar::spec_is_leap_year(self.year - years_to_sub) {
                        29
                    } else {
                        self.day as int
                    }
                },
                Err(e) => if years_to_sub > i32::MAX {
                    e == DateError::ArithmeticOverflow
                } else if !self.spec_valid() {
                    e == DateError::InvalidDate
                } else {
                    e == DateError::ArithmeticOverflow && !(1 <= self.year - years_to_sub <= 9999)
                },
            },
    {
        if years_to_sub > i32::MAX as u32 {
            return Err(DateError::ArithmeticOverflow);
        }
        self.add_years(-(years_to_sub as i32))
    }

    /// The absolute number of days separating two valid dates.
    pub fn days_between(&self, other: &ParsiDate) -> (r: Result<i64, DateError>)
        ensures
            match r {
                Ok(n) => self.spec_valid() && other.spec_valid() && n >= 0 && (n
                    == self.spec_day_number() - other.spec_day_number() || n
                    == other.spec_day_number() - self.spec_day_number()),
                Err(e) => e == DateError::InvalidDate && !(self.spec_valid()
                    && other.spec_valid()),
            },
    {
        if !self.is_valid() || !other.is_valid() {
            return Err(DateError::InvalidDate);
        }
        let dn1 = calendar::day_number(self.year, self.month, self.day);
        let dn2 = calendar::day_number(other.year, other.month, other.day);
        proof {
            calendar::lemma_days_before_year_upper(10000);
        }
        if dn1 >= dn2 {
            Ok((dn1 - dn2) as i64)
        } else {
            Ok((dn2 - dn1) as i64)
        }
    }

    /// Formats the date with a predefined style word (`"short"`, `"long"`,
    /// `"iso"`) or a custom specifier pattern; total and best-effort.
    pub fn format(&self, style_or_pattern: &str) -> (s: String)
        ensures
            s@ == crate::pattern::spec_format_date_styled(*self, style_or_pattern@),
    {
        let sp = text::str_chars(style_or_pattern);
        let out = if text::chars_eq_str(&sp, "short") {
            crate::pattern::date_display_chars(self)
        } else if text::chars_eq_str(&sp, "long") {
            crate::pattern::date_long_chars(self)
        } else if text::chars_eq_str(&sp, "iso") {
            crate::pattern::date_iso_chars(self)
        } else {
            crate::pattern::format_date_chars(self, &sp)
        };
        text::string_from_chars(&out)
    }

    /// Formats the date through a specifier pattern alone.
    pub fn format_strftime(&self, pattern: &str) -> (s: String)
        ensures
            s@ == crate::pattern::spec_format_date(*self, pattern@),
    {
        let sp = text::str_chars(pattern);
        let out = crate::pattern::format_date_chars(self, &sp);
        text::string_from_chars(&out)
    }

    /// The `YYYY/MM/DD` display form.
    pub fn to_string(&self) -> (s: String)
        ensures
            s@ == crate::pattern::spec_date_display(*self),
    {
        let out = crate::pattern::date_display_chars(self);
        text::string_from_chars(&out)
    }

    /// Parses a date from `s` against the specifier pattern `format`.
    pub fn parse(s: &str, format: &str) -> (r: Result<Self, DateError>)
        ensures
            r == crate::pattern::spec_parse_date(format@, s@),
    {
        let p = text::str_chars(format);
        let inp = text::str_chars(s);
        crate::pattern::parse_date_chars(&p, &inp)
    }

    /// The first day of this date's month.
    pub fn first_day_of_month(&self) -> (d: Self)
        ensures
            d.year == self.year && d.month == self.month && d.day == 1,
            self.spec_valid() ==> d.spec_valid(),
    {
        ParsiDate { year: self.year, month: self.month, day: 1 }
    }

    /// The last day of this date's month.
    pub fn last_day_of_month(&self) -> (d: Self)
        ensures
            d.year == self.year && d.month == self.month,
            d.day == calendar::spec_days_in_month(self.year as int, self.month as int),
            self.spec_valid() ==> d.spec_valid(),
    {
        let last = Self::days_in_month(self.year, self.month);
        ParsiDate { year: self.year, month: self.month, day: last }
    }

    /// Farvardin 1st of this date's year.
    pub fn first_day_of_year(&self) -> (d: Self)
        ensures
            d.year == self.year && d.month == 1 && d.day == 1,
            self.spec_valid() ==> d.spec_valid(),
    {
        ParsiDate { year: self.year, month: 1, day: 1 }
    }

    /// The last day of Esfand of this date's year.
    pub fn last_day_of_year(&self) -> (d: Self)
        ensures
            d.year == self.year && d.month == 12,
            d.day == calendar::spec_days_in_month(self.year as int, 12),
            self.spec_valid() ==> d.spec_valid(),
    {
        let last = Self::days_in_month(self.year, 12);
        ParsiDate { year: self.year, month: 12, day: last }
    }
}

} // verus!
