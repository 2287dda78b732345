//! Command-level operations: flexible date/date-time input parsing, the
//! add/sub commands, and styled formatting, each returning the text a
//! front end prints.

use vstd::prelude::*;
use crate::datetime::ParsiDateTime;
use crate::error::DateError;
use crate::error::ParseErrorKind;
use crate::logic;
use crate::pattern;
use crate::text;

verus! {

/// A predefined output style for the format command.
#[derive(Debug, Clone, Copy, PartialEq, Eq, Structural)]
pub enum FormatStyle {
    /// `YYYY/MM/DD`, with the time appended for date-time input.
    Short,
    /// `D MonthName YYYY`.
    Long,
    /// `YYYY-MM-DD`, ISO separators, with `T` and the time for date-time
    /// input.
    Iso,
}

/// The sequence with its leading whitespace removed.
pub open spec fn spec_trim_front(s: Seq<char>) -> Seq<char>
    decreases s.len(),
{
    if s.len() > 0 && text::spec_is_space(s[0]) {
        spec_trim_front(s.skip(1))
    } else {
        s
    }
}

/// The sequence with its trailing whitespace removed.
pub open spec fn spec_trim_back(s: Seq<char>) -> Seq<char>
    decreases s.len(),
{
    if s.len() > 0 && text::spec_is_space(s.last()) {
        spec_trim_back(s.drop_last())
    } else {
        s
    }
}

pub open spec fn spec_trim(s: Seq<char>) -> Seq<char> {
    spec_trim_back(spec_trim_front(s))
}

/// Removes leading and trailing whitespace characters.
fn trim_chars(v: &Vec<char>) -> (t: Vec<char>)
    ensures
        t@ == spec_trim(v@),
{
    let n = v.len();
    let mut a: usize = 0;
    proof {
        assert(v@.skip(0) =~= v@);
    }
    while a < n && text::is_space(v[a])
        invariant
            n == v@.len(),
            0 <= a <= n,
            spec_trim_front(v@) == spec_trim_front(v@.skip(a as int)),
        decreases n - a,
    {
        proof {
            assert(v@.skip(a as int)[0] == v@[a as int]);
            assert(v@.skip(a as int).skip(1) =~= v@.skip(a as int + 1));
        }
        a = a + 1;
    }
    proof {
        assert(spec_trim_front(v@) == v@.skip(a as int));
    }
    let mut b: usize = n;
    proof {
        assert(v@.skip(a as int) =~= v@.subrange(a as int, b as int));
    }
    while b > a && text::is_space(v[b - 1])
        invariant
            n == v@.len(),
            0 <= a <= b <= n,
            spec_trim_back(v@.skip(a as int)) == spec_trim_back(v@.subrange(a as int, b as int)),
        decreases b,
    {
        proof {
            assert(v@.subrange(a as int, b as int).last() == v@[b as int - 1]);
            assert(v@.subrange(a as int, b as int).drop_last() =~= v@.subrange(
                a as int,
                b as int - 1,
            ));
        }
        b = b - 1;
    }
    proof {
        assert(spec_trim_back(v@.subrange(a as int, b as int)) == v@.subrange(a as int, b as int));
    }
    let mut t: Vec<char> = Vec::new();
    let mut i: usize = a;
    while i < b
        invariant
            0 <= a <= i <= b <= v@.len(),
            t@ == v@.subrange(a as int, i as int),
        decreases b - i,
    {
        t.push(v[i]);
        i = i + 1;
        proof {
            assert(t@ =~= v@.subrange(a as int, i as int));
        }
    }
    t
}

/// The outcome of reading a flexible date or date-time input: the common
/// formats are tried most-specific first, and a date-only input is lifted
/// to midnight. The flag says whether the input carried a time.
pub open spec fn spec_parse_input(s: Seq<char>) -> Result<(ParsiDateTime, bool), DateError> {
    let t = spec_trim(s);
    match pattern::spec_parse_datetime("%Y/%m/%d %H:%M:%S"@, t) {
        Ok(dt) => Ok((dt, true)),
        Err(_) => match pattern::spec_parse_datetime("%Y-%m-%dT%T"@, t) {
            Ok(dt) => Ok((dt, true)),
            Err(_) => match pattern::spec_parse_datetime("%Y-%m-%d %H:%M:%S"@, t) {
                Ok(dt) => Ok((dt, true)),
                Err(_) => match pattern::spec_parse_date("%Y/%m/%d"@, t) {
                    Ok(d) => Ok(
                        (ParsiDateTime { date: d, hour: 0, minute: 0, second: 0 }, false),
                    ),
                    Err(_) => match pattern::spec_parse_date("%Y-%m-%d"@, t) {
                        Ok(d) => Ok(
                            (ParsiDateTime { date: d, hour: 0, minute: 0, second: 0 }, false),
                        ),
                        Err(_) => Err(
                            DateError::ParseError(ParseErrorKind::FormatMismatch),
                        ),
                    },
                },
            },
        },
    }
}

/// Reads an input as a date-time, then as a date at midnight, trying the
/// common slash and ISO formats; the flag reports whether a time was given.
pub fn parse_input_datetime_or_date(input: &str) -> (r: Result<(ParsiDateTime, bool), DateError>)
    ensures
        r == spec_parse_input(input@),
{
    let v = text::str_chars(input);
    let t = trim_chars(&v);
    let f1 = text::str_chars("%Y/%m/%d %H:%M:%S");
    match pattern::parse_datetime_chars(&f1, &t) {
        Ok(pdt) => {
            return Ok((pdt, true));
        },
        Err(_) => {},
    }
    let f2 = text::str_chars("%Y-%m-%dT%T");
    match pattern::parse_datetime_chars(&f2, &t) {
        Ok(pdt) => {
            return Ok((pdt, true));
        },
        Err(_) => {},
    }
    let f3 = text::str_chars("%Y-%m-%d %H:%M:%S");
    match pattern::parse_datetime_chars(&f3, &t) {
        Ok(pdt) => {
            return Ok((pdt, true));
        },
        Err(_) => {},
    }
    let f4 = text::str_chars("%Y/%m/%d");
    match pattern::parse_date_chars(&f4, &t) {
        Ok(d) => {
            let pdt = ParsiDateTime::new_unchecked(d.year(), d.month(), d.day(), 0, 0, 0);
            return Ok((pdt, false));
        },
        Err(_) => {},
    }
    let f5 = text::str_chars("%Y-%m-%d");
    match pattern::parse_date_chars(&f5, &t) {
        Ok(d) => {
            let pdt = ParsiDateTime::new_unchecked(d.year(), d.month(), d.day(), 0, 0, 0);
            return Ok((pdt, false));
        },
        Err(_) => {},
    }
    Err(DateError::ParseError(ParseErrorKind::FormatMismatch))
}

/// The line printed for an arithmetic result: the full date-time when the
/// input carried a time, the date alone otherwise.
pub open spec fn spec_result_line(dt: ParsiDateTime, was_datetime: bool) -> Seq<char> {
    if was_datetime {
        pattern::spec_datetime_display(dt)
    } else {
        pattern::spec_date_display(dt.date)
    }
}

/// Runs the add command: parses the base input, applies the one given unit,
/// and renders the result the way the input was given.
pub fn handle_add(
    base_dt_str: &str,
    days: Option<i64>,
    months: Option<i32>,
    years: Option<i32>,
    hours: Option<i64>,
    minutes: Option<i64>,
    seconds: Option<i64>,
) -> (r: Result<String, DateError>)
    requires
        days is Some || months is Some || years is Some || hours is Some || minutes is Some
            || seconds is Some,
    ensures
        match r {
            Ok(s) => match spec_parse_input(base_dt_str@) {
                Ok(pr) => exists|dt: ParsiDateTime|
                    {
                        &&& #[trigger] logic::spec_add_outcome(
                            pr.0,
                            days,
                            months,
                            years,
                            hours,
                            minutes,
                            seconds,
                            dt,
                        )
                        &&& pr.0.spec_valid()
                        &&& dt.spec_valid()
                        &&& s@ == spec_result_line(dt, pr.1)
                    },
                Err(_) => false,
            },
            Err(e) => match spec_parse_input(base_dt_str@) {
                Ok(pr) => logic::spec_add_err(pr.0, days, months, years, hours, minutes, seconds, e),
                Err(pe) => e == pe,
            },
        },
{
    let (base_pdt, was_datetime) = parse_input_datetime_or_date(base_dt_str)?;
    let result_pdt = logic::add_to_datetime(
        base_pdt,
        days,
        months,
        years,
        hours,
        minutes,
        seconds,
    )?;
    let line = if was_datetime {
        result_pdt.to_string()
    } else {
        result_pdt.date().to_string()
    };
    Ok(line)
}

/// Runs the sub command: the unsigned mirror of the add command.
pub fn handle_sub(
    base_dt_str: &str,
    days: Option<u64>,
    months: Option<u32>,
    years: Option<u32>,
    hours: Option<u64>,
    minutes: Option<u64>,
    seconds: Option<u64>,
) -> (r: Result<String, DateError>)
    requires
        days is Some || months is Some || years is Some || hours is Some || minutes is Some
            || seconds is Some,
    ensures
        match r {
            Ok(s) => match spec_parse_input(base_dt_str@) {
                Ok(pr) => exists|dt: ParsiDateTime|
                    {
                        &&& #[trigger] logic::spec_sub_outcome(
                            pr.0,
                            days,
                            months,
                            years,
                            hours,
                            minutes,
                            seconds,
                            dt,
                        )
                        &&& pr.0.spec_valid()
                        &&& dt.spec_valid()
                        &&& s@ == spec_result_line(dt, pr.1)
                    },
                Err(_) => false,
            },
            Err(e) => match spec_parse_input(base_dt_str@) {
                Ok(pr) => logic::spec_sub_err(pr.0, days, months, years, hours, minutes, seconds, e),
                Err(pe) => e == pe,
            },
        },
{
    let (base_pdt, was_datetime) = parse_input_datetime_or_date(base_dt_str)?;
    let result_pdt = logic::sub_from_datetime(
        base_pdt,
        days,
        months,
        years,
        hours,
        minutes,
        seconds,
    )?;
    let line = if was_datetime {
        result_pdt.to_string()
    } else {
        result_pdt.date().to_string()
    };
    Ok(line)
}

/// The text the format command produces for a parsed input under the chosen
/// style or custom pattern.
pub open spec fn spec_format_choice(
    pdt: ParsiDateTime,
    was_datetime: bool,
    style: Option<FormatStyle>,
    pattern_str: Option<&str>,
) -> Seq<char> {
    match style {
        Some(FormatStyle::Short) => if was_datetime {
            pattern::spec_format_datetime(pdt, "%Y/%m/%d %H:%M:%S"@)
        } else {
            pattern::spec_date_display(pdt.date)
        },
        Some(FormatStyle::Long) => pattern::spec_date_long(pdt.date),
        Some(FormatStyle::Iso) => if was_datetime {
            pattern::spec_format_datetime(pdt, "%Y-%m-%dT%T"@)
        } else {
            pattern::spec_date_iso(pdt.date)
        },
        None => pattern::spec_format_datetime(pdt, pattern_str->0@),
    }
}

/// Runs the format command: parses the input, then renders it with the
/// predefined style or the custom pattern.
pub fn handle_format(datetime_string: &str, style: Option<FormatStyle>, pattern_str: Option<&str>)
    -> (r: Result<String, DateError>)
    requires
        style is Some || pattern_str is Some,
    ensures
        match r {
            Ok(s) => match spec_parse_input(datetime_string@) {
                Ok(pr) => s@ == spec_format_choice(pr.0, pr.1, style, pattern_str),
                Err(_) => false,
            },
            Err(e) => spec_parse_input(datetime_string@) matches Err(pe) && e == pe,
        },
{
    let (pdt, was_datetime) = parse_input_datetime_or_date(datetime_string)?;
    proof {
        // The styled-format contract picks its branch by comparing the style
        // word; the words are told apart by their lengths once revealed.
        reveal_strlit("short");
        reveal_strlit("long");
        reveal_strlit("iso");
        assert("short"@.len() == 5);
        assert("long"@.len() == 4);
        assert("iso"@.len() == 3);
        assert("long"@ != "short"@);
        assert("iso"@ != "short"@);
        assert("iso"@ != "long"@);
    }
    let formatted = match style {
        Some(FormatStyle::Short) => {
            let s = if was_datetime {
                pdt.format("%Y/%m/%d %H:%M:%S")
            } else {
                pdt.date().format("short")
            };
            proof {
                assert(s@ == spec_format_choice(pdt, was_datetime, style, pattern_str));
            }
            s
        },
        Some(FormatStyle::Long) => {
            let s = pdt.date().format("long");
            proof {
                assert(s@ == spec_format_choice(pdt, was_datetime, style, pattern_str));
            }
            s
        },
        Some(FormatStyle::Iso) => {
            let s = if was_datetime {
                pdt.format("%Y-%m-%dT%T")
            } else {
                pdt.date().format("iso")
            };
            proof {
                assert(s@ == spec_format_choice(pdt, was_datetime, style, pattern_str));
            }
            s
        },
        None => match pattern_str {
            Some(p) => {
                let s = pdt.format(p);
                proof {
                    assert(s@ == spec_format_choice(pdt, was_datetime, style, pattern_str));
                }
                s
            },
            None => {
                proof {
                    assert(false);
                }
                String::new()
            },
        },
    };
    Ok(formatted)
}

} // verus!
