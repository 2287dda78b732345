//! `ParsiDateTime`: a `ParsiDate` with a time of day, duration arithmetic
//! over an absolute second count, and Gregorian conversion that passes the
//! time of day through unchanged.

use vstd::prelude::*;
use crate::calendar;
use crate::date::ParsiDate;
use crate::error::DateError;
use crate::gregorian;
use crate::gregorian::{CivilDate, CivilDateTime};

verus! {

/// A date and time of day in the Persian calendar.
#[derive(Debug, Clone, Copy, PartialEq, Eq, Hash, Structural)]
pub struct ParsiDateTime {
    pub date: ParsiDate,
    pub hour: u32,
    pub minute: u32,
    pub second: u32,
}

/// The time-of-day fields lie in their clock ranges.
pub open spec fn spec_time_valid(hour: int, minute: int, second: int) -> bool {
    0 <= hour <= 23 && 0 <= minute <= 59 && 0 <= second <= 59
}

/// Total number of seconds covered by the supported date range.
pub open spec fn spec_total_seconds() -> int {
    calendar::spec_days_before_year(10000) * 86400
}

impl ParsiDateTime {
    pub open spec fn spec_valid(self) -> bool {
        self.date.spec_valid() && spec_time_valid(
            self.hour as int,
            self.minute as int,
            self.second as int,
        )
    }

    /// Seconds elapsed from the calendar's first midnight (1/1/1, 00:00:00).
    pub open spec fn spec_second_number(self) -> int {
        self.date.spec_day_number() * 86400 + self.hour * 3600 + self.minute * 60 + self.second
    }

    /// Validating constructor: an invalid date is reported before an invalid
    /// time.
    pub fn new(year: i32, month: u32, day: u32, hour: u32, minute: u32, second: u32) -> (r: Result<
        Self,
        DateError,
    >)
        ensures
            match r {
                Ok(dt) => dt.spec_valid() && dt.date.year == year && dt.date.month == month
                    && dt.date.day == day && dt.hour == hour && dt.minute == minute && dt.second
                    == second,
                Err(e) => if !calendar::spec_date_valid(year as int, month as int, day as int) {
                    e == DateError::InvalidDate
                } else {
                    e == DateError::InvalidTime && !spec_time_valid(
                        hour as int,
                        minute as int,
                        second as int,
                    )
                },
            },
    {
        let date = ParsiDate::new(year, month, day)?;
        if hour > 23 || minute > 59 || second > 59 {
            return Err(DateError::InvalidTime);
        }
        Ok(ParsiDateTime { date, hour, minute, second })
    }

    /// Attaches a time of day to an already validated date; only the time
    /// fields are checked.
    pub fn from_date_and_time(date: ParsiDate, hour: u32, minute: u32, second: u32) -> (r: Result<
        Self,
        DateError,
    >)
        ensures
            match r {
                Ok(dt) => dt.date == date && dt.hour == hour && dt.minute == minute && dt.second
                    == second && spec_time_valid(hour as int, minute as int, second as int),
                Err(e) => e == DateError::InvalidTime && !spec_time_valid(
                    hour as int,
                    minute as int,
                    second as int,
                ),
            },
    {
        if hour > 23 || minute > 59 || second > 59 {
            return Err(DateError::InvalidTime);
        }
        Ok(ParsiDateTime { date, hour, minute, second })
    }

    /// Internal fast path for components already proven valid; never exposed
    /// to unvalidated input.
    pub(crate) fn new_unchecked(year: i32, month: u32, day: u32, hour: u32, minute: u32,
        second: u32) -> (dt: Self)
        requires
            calendar::spec_date_valid(year as int, month as int, day as int),
            spec_time_valid(hour as int, minute as int, second as int),
        ensures
            dt.date.year == year && dt.date.month == month && dt.date.day == day,
            dt.hour == hour && dt.minute == minute && dt.second == second,
            dt.spec_valid(),
    {
        ParsiDateTime { date: ParsiDate::new_unchecked(year, month, day), hour, minute, second }
    }

    #[inline]
    pub fn date(&self) -> (d: ParsiDate)
        ensures
            d == self.date,
    {
        self.date
    }

    #[inline]
    pub fn year(&self) -> (y: i32)
        ensures
            y == self.date.year,
    {
        self.date.year
    }

    #[inline]
    pub fn month(&self) -> (m: u32)
        ensures
            m == self.date.month,
    {
        self.date.month
    }

    #[inline]
    pub fn day(&self) -> (d: u32)
        ensures
            d == self.date.day,
    {
        self.date.day
    }

    #[inline]
    pub fn hour(&self) -> (h: u32)
        ensures
            h == self.hour,
    {
        self.hour
    }

    #[inline]
    pub fn minute(&self) -> (m: u32)
        ensures
            m == self.minute,
    {
        self.minute
    }

    #[inline]
    pub fn second(&self) -> (s: u32)
        ensures
            s == self.second,
    {
        self.second
    }

    #[inline]
    pub fn time(&self) -> (t: (u32, u32, u32))
        ensures
            t.0 == self.hour && t.1 == self.minute && t.2 == self.second,
    {
        (self.hour, self.minute, self.second)
    }

    pub fn is_valid(&self) -> (r: bool)
        ensures
            r == self.spec_valid(),
    {
        self.date.is_valid() && self.hour <= 23 && self.minute <= 59 && self.second <= 59
    }

    /// Reports which half of an invalid value is at fault, date part first.
    fn invalidity_error(&self) -> (e: DateError)
        requires
            !self.spec_valid(),
        ensures
            e == if !self.date.spec_valid() {
                DateError::InvalidDate
            } else {
                DateError::InvalidTime
            },
    {
        if !self.date.is_valid() {
            DateError::InvalidDate
        } else {
            DateError::InvalidTime
        }
    }

    /// Converts to the Gregorian civil date-time with the same day number,
    /// carrying the time of day through unchanged.
    pub fn to_gregorian(&self) -> (r: Result<CivilDateTime, DateError>)
        ensures
            match r {
                Ok(g) => {
                    &&& self.spec_valid()
                    &&& gregorian::spec_civil_date_valid(
                        g.date.year as int,
                        g.date.month as int,
                        g.date.day as int,
                    )
                    &&& gregorian::spec_g_day_number(
                        g.date.year as int,
                        g.date.month as int,
                        g.date.day as int,
                    ) == self.date.spec_day_number() + gregorian::spec_epoch_day_number()
                    &&& g.hour == self.hour && g.minute == self.minute && g.second == self.second
                },
                Err(e) => !self.spec_valid() && e == if !self.date.spec_valid() {
                    DateError::InvalidDate
                } else {
                    DateError::InvalidTime
                },
            },
    {
        if !self.is_valid() {
            return Err(self.invalidity_error());
        }
        let gd = self.date.to_gregorian()?;
        Ok(CivilDateTime { date: gd, hour: self.hour, minute: self.minute, second: self.second })
    }

    /// Converts a Gregorian civil date-time to Persian; the date part must be
    /// a well-formed civil date inside the supported window and the time of
    /// day must be a valid clock time.
    pub fn from_gregorian(g: CivilDateTime) -> (r: Result<Self, DateError>)
        ensures
            match r {
                Ok(dt) => {
                    &&& dt.spec_valid()
                    &&& gregorian::spec_civil_date_valid(
                        g.date.year as int,
                        g.date.month as int,
                        g.date.day as int,
                    )
                    &&& dt.date.spec_day_number() + gregorian::spec_epoch_day_number()
                        == gregorian::spec_g_day_number(
                        g.date.year as int,
                        g.date.month as int,
                        g.date.day as int,
                    )
                    &&& dt.hour == g.hour && dt.minute == g.minute && dt.second == g.second
                },
                Err(e) => if e == DateError::GregorianConversionError {
                    !(gregorian::spec_civil_date_valid(
                        g.date.year as int,
                        g.date.month as int,
                        g.date.day as int,
                    ) && gregorian::spec_epoch_day_number() <= gregorian::spec_g_day_number(
                        g.date.year as int,
                        g.date.month as int,
                        g.date.day as int,
                    ) < gregorian::spec_epoch_day_number() + calendar::spec_days_before_year(
                        10000,
                    ))
                } else {
                    e == DateError::InvalidTime && !spec_time_valid(
                        g.hour as int,
                        g.minute as int,
                        g.second as int,
                    )
                },
            },
    {
        let date = ParsiDate::from_gregorian(g.date)?;
        if g.hour > 23 || g.minute > 59 || g.second > 59 {
            return Err(DateError::InvalidTime);
        }
        Ok(ParsiDateTime { date, hour: g.hour, minute: g.minute, second: g.second })
    }

    /// Adds a signed number of days to the date part, keeping the time.
    pub fn add_days(&self, days: i64) -> (r: Result<Self, DateError>)
        ensures
            match r {
                Ok(dt) => self.spec_valid() && dt.spec_valid() && dt.date.spec_day_number()
                    == self.date.spec_day_number() + days && dt.hour == self.hour && dt.minute
                    == self.minute && dt.second == self.second,
                Err(e) => if !self.spec_valid() {
                    e == if !self.date.spec_valid() {
                        DateError::InvalidDate
                    } else {
                        DateError::InvalidTime
                    }
                } else {
                    e == DateError::ArithmeticOverflow && !(0 <= self.date.spec_day_number() + days
                        < calendar::spec_days_before_year(10000))
                },
            },
    {
        if !self.is_valid() {
            return Err(self.invalidity_error());
        }
        let date = self.date.add_days(days)?;
        Ok(ParsiDateTime { date, hour: self.hour, minute: self.minute, second: self.second })
    }

    /// Subtracts an unsigned number of days, keeping the time.
    pub fn sub_days(&self, days: u64) -> (r: Result<Self, DateError>)
        ensures
            match r {
                Ok(dt) => self.spec_valid() && dt.spec_valid() && dt.date.spec_day_number()
                    == self.date.spec_day_number() - days && dt.hour == self.hour && dt.minute
                    == self.minute && dt.second == self.second,
                Err(e) => if !self.spec_valid() {
                    e == if !self.date.spec_valid() {
                        DateError::InvalidDate
                    } else {
                        DateError::InvalidTime
                    }
                } else {
                    e == DateError::ArithmeticOverflow && !(0 <= self.date.spec_day_number() - days
                        < calendar::spec_days_before_year(10000))
                },
            },
    {
        if !self.is_valid() {
            return Err(self.invalidity_error());
        }
        let date = self.date.sub_days(days)?;
        Ok(ParsiDateTime { date, hour: self.hour, minute: self.minute, second: self.second })
    }

    /// Adds a signed number of months with day clamping, keeping the time.
    pub fn add_months(&self, months: i32) -> (r: Result<Self, DateError>)
        ensures
            match r {
                Ok(dt) => {
                    let t = 12 * self.date.year + (self.date.month - 1) + months;
                    &&& self.spec_valid()
                    &&& dt.spec_valid()
                    &&& dt.date.year == t / 12
                    &&& dt.date.month == t % 12 + 1
                    &&& dt.date.day == if self.date.day <= calendar::spec_days_in_month(
                        dt.date.year as int,
                        dt.date.month as int,
                    ) {
                        self.date.day as int
                    } else {
                        calendar::spec_days_in_month(dt.date.year as int, dt.date.month as int)
                    }
                    &&& dt.hour == self.hour && dt.minute == self.minute && dt.second
                        == self.second
                },
                Err(e) => if !self.spec_valid() {
                    e == if !self.date.spec_valid() {
                        DateError::InvalidDate
                    } else {
                        DateError::InvalidTime
                    }
                } else {
                    e == DateError::ArithmeticOverflow && !(1 <= (12 * self.date.year
                        + (self.date.month - 1) + months) / 12 <= 9999)
                },
            },
    {
        if !self.is_valid() {
            return Err(self.invalidity_error());
        }
        let date = self.date.add_months(months)?;
        Ok(ParsiDateTime { date, hour: self.hour, minute: self.minute, second: self.second })
    }

    /// Subtracts an unsigned number of months, keeping the time.
    pub fn sub_months(&self, months: u32) -> (r: Result<Self, DateError>)
        ensures
            match r {
                Ok(dt) => {
                    let t = 12 * self.date.year + (self.date.month - 1) - months;
                    &&& self.spec_valid()
                    &&& dt.spec_valid()
                    &&& months <= i32::MAX
                    &&& dt.date.year == t / 12
                    &&& dt.date.month == t % 12 + 1
                    &&& dt.date.day == if self.date.day <= calendar::spec_days_in_month(
                        dt.date.year as int,
                        dt.date.month as int,
                    ) {
                        self.date.day as int
                    } else {
                        calendar::spec_days_in_month(dt.date.year as int, dt.date.month as int)
                    }
                    &&& dt.hour == self.hour && dt.minute == self.minute && dt.second
                        == self.second
                },
                Err(e) => if !self.spec_valid() {
                    e == if !self.date.spec_valid() {
                        DateError::InvalidDate
                    } else {
                        DateError::InvalidTime
                    }
                } else if months > i32::MAX {
                    e == DateError::ArithmeticOverflow
                } else {
                    e == DateError::ArithmeticOverflow && !(1 <= (12 * self.date.year
                        + (self.date.month - 1) - months) / 12 <= 9999)
                },
            },
    {
        if !self.is_valid() {
            return Err(self.invalidity_error());
        }
        let date = self.date.sub_months(months)?;
        Ok(ParsiDateTime { date, hour: self.hour, minute: self.minute, second: self.second })
    }

    /// Adds a signed number of years with the Esfand clamping rule, keeping
    /// the time.
    pub fn add_years(&self, years: i32) -> (r: Result<Self, DateError>)
        ensures
            match r {
                Ok(dt) => {
                    &&& self.spec_valid()
                    &&& dt.spec_valid()
                    &&& dt.date.year == self.date.year + years
                    &&& dt.date.month == self.date.month
                    &&& dt.date.day == if self.date.month == 12 && self.date.day == 30
                        && !calendar::spec_is_leap_year(self.date.year + years) {
                        29
                    } else {
                        self.date.day as int
                    }
                    &&& dt.hour == self.hour && dt.minute == self.minute && dt.second
                        == self.second
                },
                Err(e) => if !self.spec_valid() {
                    e == if !self.date.spec_valid() {
                        DateError::InvalidDate
                    } else {
                        DateError::InvalidTime
                    }
                } else {
                    e == DateError::ArithmeticOverflow && !(1 <= self.date.year + years <= 9999)
                },
            },
    {
        if !self.is_valid() {
            return Err(self.invalidity_error());
        }
        let date = self.date.add_years(years)?;
        Ok(ParsiDateTime { date, hour: self.hour, minute: self.minute, second: self.second })
    }

    /// Subtracts an unsigned number of years, keeping the time.
    pub fn sub_years(&self, years: u32) -> (r: Result<Self, DateError>)
        ensures
            match r {
                Ok(dt) => {
                    &&& self.spec_valid()
                    &&& dt.spec_valid()
                    &&& years <= i32::MAX
                    &&& dt.date.year == self.date.year - years
                    &&& dt.date.month == self.date.month
                    &&& dt.date.day == if self.date.month == 12 && self.date.day == 30
                        && !calendar::spec_is_leap_year(self.date.year - years) {
                        29
                    } else {
                        self.date.day as int
                    }
                    &&& dt.hour == self.hour && dt.minute == self.minute && dt.second
                        == self.second
                },
                Err(e) => if !self.spec_valid() {
                    e == if !self.date.spec_valid() {
                        DateError::InvalidDate
                    } else {
                        DateError::InvalidTime
                    }
                } else if years > i32::MAX {
                    e == DateError::ArithmeticOverflow
                } else {
                    e == DateError::ArithmeticOverflow && !(1 <= self.date.year - years <= 9999)
                },
            },
    {
        if !self.is_valid() {
            return Err(self.invalidity_error());
        }
        let date = self.date.sub_years(years)?;
        Ok(ParsiDateTime { date, hour: self.hour, minute: self.minute, second: self.second })
    }

    /// Adds a signed number of seconds over the absolute second count; exact
    /// modular arithmetic with day, month and year rollover and no clamping.
    pub fn add_duration(&self, seconds: i64) -> (r: Result<Self, DateError>)
        ensures
            match r {
                Ok(dt) => self.spec_valid() && dt.spec_valid() && dt.spec_second_number()
                    == self.spec_second_number() + seconds,
                Err(e) => if !self.spec_valid() {
                    e == if !self.date.spec_valid() {
                        DateError::InvalidDate
                    } else {
                        DateError::InvalidTime
                    }
                } else {
                    e == DateError::ArithmeticOverflow && !(0 <= self.spec_second_number()
                        + seconds < spec_total_seconds())
                },
            },
    {
        if !self.is_valid() {
            return Err(self.invalidity_error());
        }
        let dn = calendar::day_number(self.date.year, self.date.month, self.date.day);
        proof {
            calendar::lemma_days_before_year_upper(10000);
        }
        let total: i64 = (dn as i64) * 86400 + (self.hour as i64) * 3600 + (self.minute as i64)
            * 60 + (self.second as i64);
        let new_total: i64 = match total.checked_add(seconds) {
            Some(v) => v,
            None => {
                return Err(DateError::ArithmeticOverflow);
            },
        };
        let p_total = calendar::days_before_year(10000);
        if new_total < 0 || new_total >= (p_total as i64) * 86400 {
            return Err(DateError::ArithmeticOverflow);
        }
        let new_dn: u64 = (new_total as u64) / 86400;
        let tod: u64 = (new_total as u64) % 86400;
        let (y, m, d) = calendar::date_from_day_number(new_dn);
        let hour: u32 = (tod / 3600) as u32;
        let minute: u32 = ((tod % 3600) / 60) as u32;
        let second: u32 = (tod % 60) as u32;
        proof {
            assert(tod == hour * 3600 + minute * 60 + second) by (nonlinear_arith)
                requires
                    tod < 86400,
                    hour == tod / 3600,
                    minute == (tod % 3600) / 60,
                    second == tod % 60,
            ;
            assert(hour < 24 && minute < 60 && second < 60) by (nonlinear_arith)
                requires
                    tod < 86400,
                    hour == tod / 3600,
                    minute == (tod % 3600) / 60,
                    second == tod % 60,
            ;
        }
        Ok(ParsiDateTime { date: ParsiDate { year: y, month: m, day: d }, hour, minute, second })
    }

    /// Subtracts a signed number of seconds; the mirror of `add_duration`.
    pub fn sub_duration(&self, seconds: i64) -> (r: Result<Self, DateError>)
        ensures
            match r {
                Ok(dt) => self.spec_valid() && dt.spec_valid() && dt.spec_second_number()
                    == self.spec_second_number() - seconds,
                Err(e) => if !self.spec_valid() {
                    e == if !self.date.spec_valid() {
                        DateError::InvalidDate
                    } else {
                        DateError::InvalidTime
                    }
                } else {
                    e == DateError::ArithmeticOverflow && !(0 <= self.spec_second_number()
                        - seconds < spec_total_seconds())
                },
            },
    {
        if !self.is_valid() {
            return Err(self.invalidity_error());
        }
        if seconds == i64::MIN {
            let dn = calendar::day_number(self.date.year, self.date.month, self.date.day);
            proof {
                calendar::lemma_days_before_year_upper(10000);
            }
            return Err(DateError::ArithmeticOverflow);
        }
        self.add_duration(-seconds)
    }

    /// Formats the date-time through a specifier pattern; total and
    /// best-effort.
    pub fn format(&self, pattern: &str) -> (s: String)
        ensures
            s@ == crate::pattern::spec_format_datetime(*self, pattern@),
    {
        let sp = crate::text::str_chars(pattern);
        let out = crate::pattern::format_datetime_chars(self, &sp);
        crate::text::string_from_chars(&out)
    }

    /// The `YYYY/MM/DD HH:MM:SS` display form.
    pub fn to_string(&self) -> (s: String)
        ensures
            s@ == crate::pattern::spec_datetime_display(*self),
    {
        let out = crate::pattern::datetime_display_chars(self);
        crate::text::string_from_chars(&out)
    }

    /// Parses a date-time from `s` against the specifier pattern `format`.
    pub fn parse(s: &str, format: &str) -> (r: Result<Self, DateError>)
        ensures
            r == crate::pattern::spec_parse_datetime(format@, s@),
    {
        let p = crate::text::str_chars(format);
        let inp = crate::text::str_chars(s);
        crate::pattern::parse_datetime_chars(&p, &inp)
    }

    /// The week number of the year of the date part.
    pub fn week_of_year(&self) -> (r: Result<u32, DateError>)
        ensures
            match r {
                Ok(w) => self.date.spec_valid() && w == (calendar::spec_days_before_month(
                    self.date.year as int,
                    self.date.month as int,
                ) + self.date.day + gregorian::spec_weekday_sat0(
                    calendar::spec_days_before_year(self.date.year as int),
                ) - 1) / 7 + 1,
                Err(e) => e == DateError::InvalidDate && !self.date.spec_valid(),
            },
    {
        self.date.week_of_year()
    }
}

/// A valid date-time's absolute second count lies inside the supported
/// window.
pub proof fn lemma_second_number_bound(dt: ParsiDateTime)
    requires
        dt.spec_valid(),
    ensures
        0 <= dt.spec_second_number() < spec_total_seconds(),
{
    calendar::lemma_day_number_range(dt.date.year as int, dt.date.month as int, dt.date.day as int);
    calendar::lemma_days_before_year_mono(1, dt.date.year as int);
    let dn = dt.date.spec_day_number();
    let total = calendar::spec_days_before_year(10000);
    assert(0 <= dn * 86400 + dt.hour * 3600 + dt.minute * 60 + dt.second < total * 86400)
        by (nonlinear_arith)
        requires
            0 <= dn,
            dn <= total - 1,
            dt.hour <= 23,
            dt.minute <= 59,
            dt.second <= 59,
    ;
}

/// A valid date-time is determined by its absolute second count: two valid
/// values with the same count are the same value. Together with the day
/// number injectivity this makes every arithmetic outcome unique.
pub proof fn lemma_second_number_injective(dt1: ParsiDateTime, dt2: ParsiDateTime)
    requires
        dt1.spec_valid(),
        dt2.spec_valid(),
        dt1.spec_second_number() == dt2.spec_second_number(),
    ensures
        dt1 == dt2,
{
    let tod1 = dt1.hour * 3600 + dt1.minute * 60 + dt1.second;
    let tod2 = dt2.hour * 3600 + dt2.minute * 60 + dt2.second;
    let sn = dt1.spec_second_number();
    vstd::arithmetic::div_mod::lemma_fundamental_div_mod_converse(
        sn,
        86400,
        dt1.date.spec_day_number(),
        tod1 as int,
    );
    vstd::arithmetic::div_mod::lemma_fundamental_div_mod_converse(
        sn,
        86400,
        dt2.date.spec_day_number(),
        tod2 as int,
    );
    calendar::lemma_day_number_injective(
        dt1.date.year as int,
        dt1.date.month as int,
        dt1.date.day as int,
        dt2.date.year as int,
        dt2.date.month as int,
        dt2.date.day as int,
    );
    vstd::arithmetic::div_mod::lemma_fundamental_div_mod_converse(
        tod1 as int,
        3600,
        dt1.hour as int,
        (dt1.minute * 60 + dt1.second) as int,
    );
    vstd::arithmetic::div_mod::lemma_fundamental_div_mod_converse(
        tod2 as int,
        3600,
        dt2.hour as int,
        (dt2.minute * 60 + dt2.second) as int,
    );
    vstd::arithmetic::div_mod::lemma_fundamental_div_mod_converse(
        (dt1.minute * 60 + dt1.second) as int,
        60,
        dt1.minute as int,
        dt1.second as int,
    );
    vstd::arithmetic::div_mod::lemma_fundamental_div_mod_converse(
        (dt2.minute * 60 + dt2.second) as int,
        60,
        dt2.minute as int,
        dt2.second as int,
    );
}

/// Converting a valid Persian date to Gregorian and back yields the same
/// date: the outputs promised by `ParsiDate::to_gregorian` and
/// `ParsiDate::from_gregorian` compose to the identity.
pub proof fn lemma_gregorian_round_trip(d: ParsiDate, g: CivilDate, d2: ParsiDate)
    requires
        d.spec_valid(),
        gregorian::spec_g_day_number(g.year as int, g.month as int, g.day as int)
            == d.spec_day_number() + gregorian::spec_epoch_day_number(),
        d2.spec_valid(),
        d2.spec_day_number() + gregorian::spec_epoch_day_number() == gregorian::spec_g_day_number(
            g.year as int,
            g.month as int,
            g.day as int,
        ),
    ensures
        d2 == d,
{
    calendar::lemma_day_number_injective(
        d.year as int,
        d.month as int,
        d.day as int,
        d2.year as int,
        d2.month as int,
        d2.day as int,
    );
}

/// The date-time version of the conversion round trip: the time of day is
/// carried through both directions unchanged, so the whole value returns.
pub proof fn lemma_gregorian_round_trip_datetime(
    dt: ParsiDateTime,
    g: CivilDateTime,
    dt2: ParsiDateTime,
)
    requires
        dt.spec_valid(),
        gregorian::spec_g_day_number(g.date.year as int, g.date.month as int, g.date.day as int)
            == dt.date.spec_day_number() + gregorian::spec_epoch_day_number(),
        g.hour == dt.hour && g.minute == dt.minute && g.second == dt.second,
        dt2.spec_valid(),
        dt2.date.spec_day_number() + gregorian::spec_epoch_day_number()
            == gregorian::spec_g_day_number(
            g.date.year as int,
            g.date.month as int,
            g.date.day as int,
        ),
        dt2.hour == g.hour && dt2.minute == g.minute && dt2.second == g.second,
    ensures
        dt2 == dt,
{
    calendar::lemma_day_number_injective(
        dt.date.year as int,
        dt.date.month as int,
        dt.date.day as int,
        dt2.date.year as int,
        dt2.date.month as int,
        dt2.date.day as int,
    );
}

} // verus!
