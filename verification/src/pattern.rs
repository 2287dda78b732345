//! The pattern engine: rendering dates and date-times through `%`-prefixed
//! format specifiers, and the stricter inverse that reads a date or
//! date-time back out of text. Formatting is total and best-effort;
//! parsing rejects specifiers whose value cannot be recovered from the
//! input.

use vstd::prelude::*;
use crate::calendar;
use crate::date::ParsiDate;
use crate::datetime::ParsiDateTime;
use crate::error::{DateError, ParseErrorKind};
use crate::gregorian;
use crate::names;
use crate::text;

verus! {

/// The 1-based day-of-year ordinal of a date.
pub open spec fn spec_ordinal(d: ParsiDate) -> int {
    calendar::spec_days_before_month(d.year as int, d.month as int) + d.day
}

/// The weekday slot of a date, Saturday being 0.
pub open spec fn spec_weekday(d: ParsiDate) -> int {
    gregorian::spec_weekday_sat0(d.spec_day_number())
}

/// The week of the year, weeks starting on Saturday, week 1 holding
/// Farvardin 1st.
pub open spec fn spec_week_of_year(d: ParsiDate) -> int {
    (spec_ordinal(d) + gregorian::spec_weekday_sat0(
        calendar::spec_days_before_year(d.year as int),
    ) - 1) / 7 + 1
}

/// What `%B` renders for a date: the month's Persian name, with the first
/// month's name for a zero month and an error marker beyond twelve.
pub open spec fn spec_month_name_out(month: int) -> Seq<char> {
    if month == 0 {
        names::spec_month_name(1)
    } else {
        names::spec_month_name(month)
    }
}

/// The text a single date specifier renders to.
pub open spec fn spec_date_spec_out(d: ParsiDate, c: char) -> Seq<char> {
    if c == '%' {
        seq!['%']
    } else if c == 'Y' {
        text::spec_int_digits(d.year as int)
    } else if c == 'm' {
        text::spec_pad2(d.month as int)
    } else if c == 'd' {
        text::spec_pad2(d.day as int)
    } else if c == 'B' {
        spec_month_name_out(d.month as int)
    } else if c == 'A' {
        if d.spec_valid() {
            names::spec_weekday_name(spec_weekday(d))
        } else {
            "?WeekdayError?"@
        }
    } else if c == 'w' {
        if d.spec_valid() {
            text::spec_udigits(spec_weekday(d))
        } else {
            seq!['?']
        }
    } else if c == 'j' {
        if d.spec_valid() {
            text::spec_pad3(spec_ordinal(d))
        } else {
            "???"@
        }
    } else if c == 'K' {
        if d.spec_valid() {
            names::spec_season_name(d.month as int)
        } else {
            "?SeasonError?"@
        }
    } else if c == 'W' {
        if d.spec_valid() {
            text::spec_pad2(spec_week_of_year(d))
        } else {
            "?WeekError?"@
        }
    } else {
        seq!['%', c]
    }
}

/// The text a single date-time specifier renders to: the time specifiers,
/// falling back to the date ones.
pub open spec fn spec_datetime_spec_out(dt: ParsiDateTime, c: char) -> Seq<char> {
    if c == 'H' {
        text::spec_pad2(dt.hour as int)
    } else if c == 'M' {
        text::spec_pad2(dt.minute as int)
    } else if c == 'S' {
        text::spec_pad2(dt.second as int)
    } else if c == 'T' {
        text::spec_pad2(dt.hour as int).add(seq![':']).add(text::spec_pad2(dt.minute as int)).add(
            seq![':'],
        ).add(text::spec_pad2(dt.second as int))
    } else {
        spec_date_spec_out(dt.date, c)
    }
}

/// A date rendered through a specifier pattern. A lone trailing `%` is
/// emitted as itself.
pub open spec fn spec_format_date(d: ParsiDate, p: Seq<char>) -> Seq<char>
    decreases p.len(),
{
    if p.len() == 0 {
        Seq::empty()
    } else if p[0] == '%' {
        if p.len() == 1 {
            seq!['%']
        } else {
            spec_date_spec_out(d, p[1]).add(spec_format_date(d, p.skip(2)))
        }
    } else {
        seq![p[0]].add(spec_format_date(d, p.skip(1)))
    }
}

/// A date-time rendered through a specifier pattern.
pub open spec fn spec_format_datetime(dt: ParsiDateTime, p: Seq<char>) -> Seq<char>
    decreases p.len(),
{
    if p.len() == 0 {
        Seq::empty()
    } else if p[0] == '%' {
        if p.len() == 1 {
            seq!['%']
        } else {
            spec_datetime_spec_out(dt, p[1]).add(spec_format_datetime(dt, p.skip(2)))
        }
    } else {
        seq![p[0]].add(spec_format_datetime(dt, p.skip(1)))
    }
}

/// The "short" style: `YYYY/MM/DD`, which is also the display form.
pub open spec fn spec_date_display(d: ParsiDate) -> Seq<char> {
    text::spec_int_digits(d.year as int).add(seq!['/']).add(text::spec_pad2(d.month as int)).add(
        seq!['/'],
    ).add(text::spec_pad2(d.day as int))
}

/// The "long" style: `D MonthName YYYY` with an unpadded day.
pub open spec fn spec_date_long(d: ParsiDate) -> Seq<char> {
    text::spec_udigits(d.day as int).add(seq![' ']).add(spec_month_name_out(d.month as int)).add(
        seq![' '],
    ).add(text::spec_int_digits(d.year as int))
}

/// The "iso" style: `YYYY-MM-DD`.
pub open spec fn spec_date_iso(d: ParsiDate) -> Seq<char> {
    text::spec_int_digits(d.year as int).add(seq!['-']).add(text::spec_pad2(d.month as int)).add(
        seq!['-'],
    ).add(text::spec_pad2(d.day as int))
}

/// The display form of a date-time: `YYYY/MM/DD HH:MM:SS`.
pub open spec fn spec_datetime_display(dt: ParsiDateTime) -> Seq<char> {
    spec_date_display(dt.date).add(seq![' ']).add(text::spec_pad2(dt.hour as int)).add(
        seq![':'],
    ).add(text::spec_pad2(dt.minute as int)).add(seq![':']).add(text::spec_pad2(dt.second as int))
}

/// What a date's `format` does with a style word or custom pattern.
pub open spec fn spec_format_date_styled(d: ParsiDate, style_or_pattern: Seq<char>) -> Seq<char> {
    if style_or_pattern == "short"@ {
        spec_date_display(d)
    } else if style_or_pattern == "long"@ {
        spec_date_long(d)
    } else if style_or_pattern == "iso"@ {
        spec_date_iso(d)
    } else {
        spec_format_date(d, style_or_pattern)
    }
}

/// The `YYYY/MM/DD` display form of a date.
pub fn date_display_chars(d: &ParsiDate) -> (v: Vec<char>)
    ensures
        v@ == spec_date_display(*d),
{
    let mut v = text::i32_to_chars(d.year);
    v.push('/');
    let mut mo = text::pad2_chars(d.month);
    v.append(&mut mo);
    v.push('/');
    let mut dd = text::pad2_chars(d.day);
    v.append(&mut dd);
    proof {
        assert(v@ =~= spec_date_display(*d));
    }
    v
}

/// The `D MonthName YYYY` long form of a date.
pub fn date_long_chars(d: &ParsiDate) -> (v: Vec<char>)
    ensures
        v@ == spec_date_long(*d),
{
    let mut v = text::u64_to_chars(d.day as u64);
    v.push(' ');
    let name = if d.month == 0 {
        names::month_name(1)
    } else {
        names::month_name(d.month)
    };
    let mut nm = text::str_chars(name);
    v.append(&mut nm);
    v.push(' ');
    let mut y = text::i32_to_chars(d.year);
    v.append(&mut y);
    proof {
        assert(v@ =~= spec_date_long(*d));
    }
    v
}

/// The `YYYY-MM-DD` ISO form of a date.
pub fn date_iso_chars(d: &ParsiDate) -> (v: Vec<char>)
    ensures
        v@ == spec_date_iso(*d),
{
    let mut v = text::i32_to_chars(d.year);
    v.push('-');
    let mut mo = text::pad2_chars(d.month);
    v.append(&mut mo);
    v.push('-');
    let mut dd = text::pad2_chars(d.day);
    v.append(&mut dd);
    proof {
        assert(v@ =~= spec_date_iso(*d));
    }
    v
}

/// The `YYYY/MM/DD HH:MM:SS` display form of a date-time.
pub fn datetime_display_chars(dt: &ParsiDateTime) -> (v: Vec<char>)
    ensures
        v@ == spec_datetime_display(*dt),
{
    let mut v = date_display_chars(&dt.date);
    v.push(' ');
    let mut h = text::pad2_chars(dt.hour);
    v.append(&mut h);
    v.push(':');
    let mut mi = text::pad2_chars(dt.minute);
    v.append(&mut mi);
    v.push(':');
    let mut s = text::pad2_chars(dt.second);
    v.append(&mut s);
    proof {
        assert(v@ =~= spec_datetime_display(*dt));
    }
    v
}

/// The text rendered for one date specifier.
fn date_spec_out(d: &ParsiDate, c: char) -> (v: Vec<char>)
    ensures
        v@ == spec_date_spec_out(*d, c),
{
    match c {
        '%' => {
            let mut v: Vec<char> = Vec::new();
            v.push('%');
            v
        },
        'Y' => text::i32_to_chars(d.year),
        'm' => text::pad2_chars(d.month),
        'd' => text::pad2_chars(d.day),
        'B' => {
            let name = if d.month == 0 {
                names::month_name(1)
            } else {
                names::month_name(d.month)
            };
            text::str_chars(name)
        },
        'A' => {
            match d.weekday_num_sat_0() {
                Ok(w) => text::str_chars(names::weekday_name(w)),
                Err(_) => text::str_chars("?WeekdayError?"),
            }
        },
        'w' => {
            match d.weekday_num_sat_0() {
                Ok(w) => text::u64_to_chars(w as u64),
                Err(_) => {
                    let mut v: Vec<char> = Vec::new();
                    v.push('?');
                    v
                },
            }
        },
        'j' => {
            match d.ordinal() {
                Ok(n) => text::pad3_chars(n),
                Err(_) => text::str_chars("???"),
            }
        },
        'K' => {
            if d.is_valid() {
                text::str_chars(names::season_name(d.month))
            } else {
                text::str_chars("?SeasonError?")
            }
        },
        'W' => {
            match d.week_of_year() {
                Ok(w) => text::pad2_chars(w),
                Err(_) => text::str_chars("?WeekError?"),
            }
        },
        _ => {
            let mut v: Vec<char> = Vec::new();
            v.push('%');
            v.push(c);
            v
        },
    }
}

/// The text rendered for one date-time specifier.
fn datetime_spec_out(dt: &ParsiDateTime, c: char) -> (v: Vec<char>)
    ensures
        v@ == spec_datetime_spec_out(*dt, c),
{
    match c {
        'H' => text::pad2_chars(dt.hour),
        'M' => text::pad2_chars(dt.minute),
        'S' => text::pad2_chars(dt.second),
        'T' => {
            let mut v = text::pad2_chars(dt.hour);
            v.push(':');
            let mut mm = text::pad2_chars(dt.minute);
            v.append(&mut mm);
            v.push(':');
            let mut ss = text::pad2_chars(dt.second);
            v.append(&mut ss);
            proof {
                assert(v@ =~= spec_datetime_spec_out(*dt, c));
            }
            v
        },
        _ => date_spec_out(&dt.date, c),
    }
}

/// Renders a date through a pattern, character run by character run.
pub fn format_date_chars(d: &ParsiDate, p: &Vec<char>) -> (out: Vec<char>)
    ensures
        out@ == spec_format_date(*d, p@),
{
    let mut out: Vec<char> = Vec::new();
    let mut i: usize = 0;
    let n = p.len();
    proof {
        assert(p@.skip(0) =~= p@);
        assert(out@.add(spec_format_date(*d, p@)) =~= spec_format_date(*d, p@));
    }
    while i < n
        invariant
            n == p@.len(),
            0 <= i <= n,
            spec_format_date(*d, p@) == out@.add(spec_format_date(*d, p@.skip(i as int))),
        decreases n - i,
    {
        let ghost pre = out@;
        let ghost rest = p@.skip(i as int);
        let c = p[i];
        if c == '%' {
            if i + 1 < n {
                let s = p[i + 1];
                let mut chunk = date_spec_out(d, s);
                out.append(&mut chunk);
                i = i + 2;
                proof {
                    assert(rest.skip(2) =~= p@.skip(i as int));
                    assert(spec_format_date(*d, rest) == spec_date_spec_out(*d, s).add(
                        spec_format_date(*d, p@.skip(i as int)),
                    ));
                    assert(out@.add(spec_format_date(*d, p@.skip(i as int))) =~= pre.add(
                        spec_format_date(*d, rest),
                    ));
                }
            } else {
                out.push('%');
                i = i + 1;
                proof {
                    assert(rest.len() == 1);
                    assert(out@.add(spec_format_date(*d, p@.skip(i as int))) =~= pre.add(
                        spec_format_date(*d, rest),
                    ));
                }
            }
        } else {
            out.push(c);
            i = i + 1;
            proof {
                assert(rest.skip(1) =~= p@.skip(i as int));
                assert(spec_format_date(*d, rest) == seq![c].add(
                    spec_format_date(*d, p@.skip(i as int)),
                ));
                assert(out@.add(spec_format_date(*d, p@.skip(i as int))) =~= pre.add(
                    spec_format_date(*d, rest),
                ));
            }
        }
    }
    proof {
        assert(p@.skip(n as int) =~= Seq::<char>::empty());
        assert(out@ =~= spec_format_date(*d, p@));
    }
    out
}

/// The field values extracted while parsing an input against a pattern.
#[derive(Debug, Clone, Copy)]
pub struct ParsedValues {
    pub year: Option<u32>,
    pub month: Option<u32>,
    pub day: Option<u32>,
    pub hour: Option<u32>,
    pub minute: Option<u32>,
    pub second: Option<u32>,
}

pub open spec fn spec_empty_values() -> ParsedValues {
    ParsedValues { year: None, month: None, day: None, hour: None, minute: None, second: None }
}

/// The first two characters are decimal digits.
pub open spec fn spec_digits2(s: Seq<char>) -> bool {
    s.len() >= 2 && text::spec_is_ascii_digit(s[0]) && text::spec_is_ascii_digit(s[1])
}

/// The first four characters are decimal digits.
pub open spec fn spec_digits4(s: Seq<char>) -> bool {
    s.len() >= 4 && text::spec_is_ascii_digit(s[0]) && text::spec_is_ascii_digit(s[1])
        && text::spec_is_ascii_digit(s[2]) && text::spec_is_ascii_digit(s[3])
}

pub open spec fn spec_read2(s: Seq<char>) -> int {
    10 * text::spec_digit_val(s[0]) + text::spec_digit_val(s[1])
}

pub open spec fn spec_read4(s: Seq<char>) -> int {
    1000 * text::spec_digit_val(s[0]) + 100 * text::spec_digit_val(s[1]) + 10
        * text::spec_digit_val(s[2]) + text::spec_digit_val(s[3])
}

/// The first eight characters have the `HH:MM:SS` shape.
pub open spec fn spec_hms_shape(s: Seq<char>) -> bool {
    s.len() >= 8 && text::spec_is_ascii_digit(s[0]) && text::spec_is_ascii_digit(s[1]) && s[2]
        == ':' && text::spec_is_ascii_digit(s[3]) && text::spec_is_ascii_digit(s[4]) && s[5] == ':'
        && text::spec_is_ascii_digit(s[6]) && text::spec_is_ascii_digit(s[7])
}

/// One pass of the parser: walks the pattern, consuming matching text from
/// the input and collecting field values; the result is the final field set,
/// or the first error in pattern order.
pub open spec fn spec_parse_step(
    allow_time: bool,
    p: Seq<char>,
    inp: Seq<char>,
    st: ParsedValues,
) -> Result<ParsedValues, ParseErrorKind>
    decreases p.len(),
{
    if p.len() == 0 {
        if inp.len() == 0 {
            Ok(st)
        } else {
            Err(ParseErrorKind::FormatMismatch)
        }
    } else if p[0] == '%' {
        if p.len() < 2 {
            Err(ParseErrorKind::FormatMismatch)
        } else {
            let c = p[1];
            if c == '%' {
                if inp.len() >= 1 && inp[0] == '%' {
                    spec_parse_step(allow_time, p.skip(2), inp.skip(1), st)
                } else {
                    Err(ParseErrorKind::FormatMismatch)
                }
            } else if c == 'Y' {
                if spec_digits4(inp) {
                    spec_parse_step(
                        allow_time,
                        p.skip(2),
                        inp.skip(4),
                        ParsedValues { year: Some(spec_read4(inp) as u32), ..st },
                    )
                } else {
                    Err(ParseErrorKind::InvalidNumber)
                }
            } else if c == 'm' {
                if spec_digits2(inp) {
                    spec_parse_step(
                        allow_time,
                        p.skip(2),
                        inp.skip(2),
                        ParsedValues { month: Some(spec_read2(inp) as u32), ..st },
                    )
                } else {
                    Err(ParseErrorKind::InvalidNumber)
                }
            } else if c == 'd' {
                if spec_digits2(inp) {
                    spec_parse_step(
                        allow_time,
                        p.skip(2),
                        inp.skip(2),
                        ParsedValues { day: Some(spec_read2(inp) as u32), ..st },
                    )
                } else {
                    Err(ParseErrorKind::InvalidNumber)
                }
            } else if c == 'B' {
                match names::spec_month_match(inp) {
                    Some(m) => spec_parse_step(
                        allow_time,
                        p.skip(2),
                        inp.skip(names::spec_month_name(m).len() as int),
                        ParsedValues { month: Some(m as u32), ..st },
                    ),
                    None => Err(ParseErrorKind::InvalidMonthName),
                }
            } else if allow_time && c == 'H' {
                if spec_digits2(inp) {
                    spec_parse_step(
                        allow_time,
                        p.skip(2),
                        inp.skip(2),
                        ParsedValues { hour: Some(spec_read2(inp) as u32), ..st },
                    )
                } else {
                    Err(ParseErrorKind::InvalidNumber)
                }
            } else if allow_time && c == 'M' {
                if spec_digits2(inp) {
                    spec_parse_step(
                        allow_time,
                        p.skip(2),
                        inp.skip(2),
                        ParsedValues { minute: Some(spec_read2(inp) as u32), ..st },
                    )
                } else {
                    Err(ParseErrorKind::InvalidNumber)
                }
            } else if allow_time && c == 'S' {
                if spec_digits2(inp) {
                    spec_parse_step(
                        allow_time,
                        p.skip(2),
                        inp.skip(2),
                        ParsedValues { second: Some(spec_read2(inp) as u32), ..st },
                    )
                } else {
                    Err(ParseErrorKind::InvalidNumber)
                }
            } else if allow_time && c == 'T' {
                if spec_hms_shape(inp) {
                    spec_parse_step(
                        allow_time,
                        p.skip(2),
                        inp.skip(8),
                        ParsedValues {
                            hour: Some(spec_read2(inp) as u32),
                            minute: Some(spec_read2(inp.skip(3)) as u32),
                            second: Some(spec_read2(inp.skip(6)) as u32),
                            ..st
                        },
                    )
                } else {
                    Err(ParseErrorKind::FormatMismatch)
                }
            } else {
                Err(ParseErrorKind::UnsupportedSpecifier)
            }
        }
    } else {
        if inp.len() >= 1 && inp[0] == p[0] {
            spec_parse_step(allow_time, p.skip(1), inp.skip(1), st)
        } else {
            Err(ParseErrorKind::FormatMismatch)
        }
    }
}

/// All collected values fit their fields' numeric widths.
pub open spec fn spec_values_bounded(st: ParsedValues) -> bool {
    &&& (st.year matches Some(y) ==> y < 10000)
    &&& (st.month matches Some(v) ==> v < 100)
    &&& (st.day matches Some(v) ==> v < 100)
    &&& (st.hour matches Some(v) ==> v < 100)
    &&& (st.minute matches Some(v) ==> v < 100)
    &&& (st.second matches Some(v) ==> v < 100)
}

/// Parsing only ever stores values read from at most four digits or a month
/// number, so every stored value stays bounded.
pub proof fn lemma_parse_step_bounded(
    allow_time: bool,
    p: Seq<char>,
    inp: Seq<char>,
    st: ParsedValues,
)
    requires
        spec_values_bounded(st),
    ensures
        spec_parse_step(allow_time, p, inp, st) matches Ok(st2) ==> spec_values_bounded(st2),
    decreases p.len(),
{
    if p.len() == 0 {
    } else if p[0] == '%' {
        if p.len() < 2 {
        } else {
            let c = p[1];
            if c == '%' {
                if inp.len() >= 1 && inp[0] == '%' {
                    lemma_parse_step_bounded(allow_time, p.skip(2), inp.skip(1), st);
                }
            } else if c == 'Y' {
                if spec_digits4(inp) {
                    lemma_parse_step_bounded(
                        allow_time,
                        p.skip(2),
                        inp.skip(4),
                        ParsedValues { year: Some(spec_read4(inp) as u32), ..st },
                    );
                }
            } else if c == 'm' {
                if spec_digits2(inp) {
                    lemma_parse_step_bounded(
                        allow_time,
                        p.skip(2),
                        inp.skip(2),
                        ParsedValues { month: Some(spec_read2(inp) as u32), ..st },
                    );
                }
            } else if c == 'd' {
                if spec_digits2(inp) {
                    lemma_parse_step_bounded(
                        allow_time,
                        p.skip(2),
                        inp.skip(2),
                        ParsedValues { day: Some(spec_read2(inp) as u32), ..st },
                    );
                }
            } else if c == 'B' {
                match names::spec_month_match(inp) {
                    Some(m) => {
                        lemma_parse_step_bounded(
                            allow_time,
                            p.skip(2),
                            inp.skip(names::spec_month_name(m).len() as int),
                            ParsedValues { month: Some(m as u32), ..st },
                        );
                    },
                    None => {},
                }
            } else if allow_time && c == 'H' {
                if spec_digits2(inp) {
                    lemma_parse_step_bounded(
                        allow_time,
                        p.skip(2),
                        inp.skip(2),
                        ParsedValues { hour: Some(spec_read2(inp) as u32), ..st },
                    );
                }
            } else if allow_time && c == 'M' {
                if spec_digits2(inp) {
                    lemma_parse_step_bounded(
                        allow_time,
                        p.skip(2),
                        inp.skip(2),
                        ParsedValues { minute: Some(spec_read2(inp) as u32), ..st },
                    );
                }
            } else if allow_time && c == 'S' {
                if spec_digits2(inp) {
                    lemma_parse_step_bounded(
                        allow_time,
                        p.skip(2),
                        inp.skip(2),
                        ParsedValues { second: Some(spec_read2(inp) as u32), ..st },
                    );
                }
            } else if allow_time && c == 'T' {
                if spec_hms_shape(inp) {
                    lemma_parse_step_bounded(
                        allow_time,
                        p.skip(2),
                        inp.skip(8),
                        ParsedValues {
                            hour: Some(spec_read2(inp) as u32),
                            minute: Some(spec_read2(inp.skip(3)) as u32),
                            second: Some(spec_read2(inp.skip(6)) as u32),
                            ..st
                        },
                    );
                }
            }
        }
    } else {
        if inp.len() >= 1 && inp[0] == p[0] {
            lemma_parse_step_bounded(allow_time, p.skip(1), inp.skip(1), st);
        }
    }
}

/// Reads two digits of the input at `si`, if they are there.
fn read2_at(inp: &Vec<char>, si: usize) -> (r: Option<u32>)
    requires
        si <= inp@.len(),
    ensures
        r is Some <==> spec_digits2(inp@.skip(si as int)),
        r is Some ==> r->0 == spec_read2(inp@.skip(si as int)) && r->0 < 100,
{
    if inp.len() - si < 2 {
        return None;
    }
    proof {
        assert(inp@.skip(si as int)[0] == inp@[si as int]);
        assert(inp@.skip(si as int)[1] == inp@[si as int + 1]);
    }
    let a = match text::digit_val(inp[si]) {
        Some(v) => v,
        None => {
            return None;
        },
    };
    let b = match text::digit_val(inp[si + 1]) {
        Some(v) => v,
        None => {
            return None;
        },
    };
    Some(10 * a + b)
}

/// Reads four digits of the input at `si`, if they are there.
fn read4_at(inp: &Vec<char>, si: usize) -> (r: Option<u32>)
    requires
        si <= inp@.len(),
    ensures
        r is Some <==> spec_digits4(inp@.skip(si as int)),
        r is Some ==> r->0 == spec_read4(inp@.skip(si as int)) && r->0 < 10000,
{
    if inp.len() - si < 4 {
        return None;
    }
    proof {
        assert(inp@.skip(si as int)[0] == inp@[si as int]);
        assert(inp@.skip(si as int)[1] == inp@[si as int + 1]);
        assert(inp@.skip(si as int)[2] == inp@[si as int + 2]);
        assert(inp@.skip(si as int)[3] == inp@[si as int + 3]);
    }
    let a = match text::digit_val(inp[si]) {
        Some(v) => v,
        None => {
            return None;
        },
    };
    let b = match text::digit_val(inp[si + 1]) {
        Some(v) => v,
        None => {
            return None;
        },
    };
    let c = match text::digit_val(inp[si + 2]) {
        Some(v) => v,
        None => {
            return None;
        },
    };
    let d = match text::digit_val(inp[si + 3]) {
        Some(v) => v,
        None => {
            return None;
        },
    };
    Some(1000 * a + 100 * b + 10 * c + d)
}

/// Walks the whole pattern against the input, returning the collected field
/// values or the first error.
#[verifier::rlimit(60)]
pub fn parse_fields(allow_time: bool, p: &Vec<char>, inp: &Vec<char>) -> (r: Result<
    ParsedValues,
    ParseErrorKind,
>)
    ensures
        r == spec_parse_step(allow_time, p@, inp@, spec_empty_values()),
{
    let mut st = ParsedValues {
        year: None,
        month: None,
        day: None,
        hour: None,
        minute: None,
        second: None,
    };
    let mut pi: usize = 0;
    let mut si: usize = 0;
    let pn = p.len();
    let sn = inp.len();
    proof {
        assert(p@.skip(0) =~= p@);
        assert(inp@.skip(0) =~= inp@);
    }
    while pi < pn
        invariant
            pn == p@.len(),
            sn == inp@.len(),
            0 <= pi <= pn,
            0 <= si <= sn,
            spec_parse_step(allow_time, p@, inp@, spec_empty_values()) == spec_parse_step(
                allow_time,
                p@.skip(pi as int),
                inp@.skip(si as int),
                st,
            ),
        decreases pn - pi,
    {
        let ghost rest_p = p@.skip(pi as int);
        let ghost rest_i = inp@.skip(si as int);
        let c = p[pi];
        if c == '%' {
            if pi + 1 >= pn {
                return Err(ParseErrorKind::FormatMismatch);
            }
            let s = p[pi + 1];
            proof {
                assert(rest_p[1] == s);
                assert(rest_p.skip(2) =~= p@.skip(pi as int + 2));
            }
            if s == '%' {
                if si < sn && inp[si] == '%' {
                    proof {
                        assert(rest_i[0] == inp@[si as int]);
                        assert(rest_i.skip(1) =~= inp@.skip(si as int + 1));
                    }
                    pi = pi + 2;
                    si = si + 1;
                } else {
                    proof {
                        if rest_i.len() >= 1 {
                            assert(rest_i[0] == inp@[si as int]);
                        }
                    }
                    return Err(ParseErrorKind::FormatMismatch);
                }
            } else if s == 'Y' {
                match read4_at(inp, si) {
                    Some(v) => {
                        proof {
                            assert(rest_i.skip(4) =~= inp@.skip(si as int + 4));
                        }
                        st = ParsedValues { year: Some(v), ..st };
                        pi = pi + 2;
                        si = si + 4;
                    },
                    None => {
                        return Err(ParseErrorKind::InvalidNumber);
                    },
                }
            } else if s == 'm' || s == 'd' {
                match read2_at(inp, si) {
                    Some(v) => {
                        proof {
                            assert(rest_i.skip(2) =~= inp@.skip(si as int + 2));
                        }
                        if s == 'm' {
                            st = ParsedValues { month: Some(v), ..st };
                        } else {
                            st = ParsedValues { day: Some(v), ..st };
                        }
                        pi = pi + 2;
                        si = si + 2;
                    },
                    None => {
                        return Err(ParseErrorKind::InvalidNumber);
                    },
                }
            } else if s == 'B' {
                match names::month_match(inp, si) {
                    Some((m, len)) => {
                        proof {
                            assert(rest_i.skip(names::spec_month_name(m as int).len() as int)
                                =~= inp@.skip(si as int + len as int));
                        }
                        st = ParsedValues { month: Some(m), ..st };
                        pi = pi + 2;
                        si = si + len;
                    },
                    None => {
                        return Err(ParseErrorKind::InvalidMonthName);
                    },
                }
            } else if allow_time && (s == 'H' || s == 'M' || s == 'S') {
                match read2_at(inp, si) {
                    Some(v) => {
                        proof {
                            assert(rest_i.skip(2) =~= inp@.skip(si as int + 2));
                        }
                        if s == 'H' {
                            st = ParsedValues { hour: Some(v), ..st };
                        } else if s == 'M' {
                            st = ParsedValues { minute: Some(v), ..st };
                        } else {
                            st = ParsedValues { second: Some(v), ..st };
                        }
                        pi = pi + 2;
                        si = si + 2;
                    },
                    None => {
                        return Err(ParseErrorKind::InvalidNumber);
                    },
                }
            } else if allow_time && s == 'T' {
                let h_opt = read2_at(inp, si);
                let shape_ok = match h_opt {
                    Some(_) => sn - si >= 8 && inp[si + 2] == ':' && inp[si + 5] == ':',
                    None => false,
                };
                proof {
                    if rest_i.len() >= 8 {
                        assert(rest_i[2] == inp@[si as int + 2]);
                        assert(rest_i[5] == inp@[si as int + 5]);
                        assert(rest_i[3] == inp@[si as int + 3]);
                        assert(rest_i[4] == inp@[si as int + 4]);
                        assert(rest_i[6] == inp@[si as int + 6]);
                        assert(rest_i[7] == inp@[si as int + 7]);
                    }
                }
                if !shape_ok {
                    proof {
                        assert(!spec_hms_shape(rest_i));
                    }
                    return Err(ParseErrorKind::FormatMismatch);
                }
                let m_opt = read2_at(inp, si + 3);
                let s_opt = read2_at(inp, si + 6);
                proof {
                    assert(rest_i.skip(3) =~= inp@.skip(si as int + 3));
                    assert(rest_i.skip(6) =~= inp@.skip(si as int + 6));
                }
                match (h_opt, m_opt, s_opt) {
                    (Some(h), Some(mv), Some(sv)) => {
                        proof {
                            assert(rest_i.skip(8) =~= inp@.skip(si as int + 8));
                        }
                        st = ParsedValues {
                            hour: Some(h),
                            minute: Some(mv),
                            second: Some(sv),
                            ..st
                        };
                        pi = pi + 2;
                        si = si + 8;
                    },
                    _ => {
                        proof {
                            assert(!spec_hms_shape(rest_i));
                        }
                        return Err(ParseErrorKind::FormatMismatch);
                    },
                }
            } else {
                return Err(ParseErrorKind::UnsupportedSpecifier);
            }
        } else {
            if si < sn && inp[si] == c {
                proof {
                    assert(rest_i[0] == inp@[si as int]);
                    assert(rest_p.skip(1) =~= p@.skip(pi as int + 1));
                    assert(rest_i.skip(1) =~= inp@.skip(si as int + 1));
                }
                pi = pi + 1;
                si = si + 1;
            } else {
                proof {
                    if rest_i.len() >= 1 {
                        assert(rest_i[0] == inp@[si as int]);
                    }
                }
                return Err(ParseErrorKind::FormatMismatch);
            }
        }
    }
    proof {
        assert(p@.skip(pn as int).len() == 0);
        assert(inp@.skip(si as int).len() == inp@.len() - si);
    }
    if si == sn {
        Ok(st)
    } else {
        Err(ParseErrorKind::FormatMismatch)
    }
}

/// The outcome of parsing a date-only input against a pattern: the collected
/// year, month and day, validated as a calendar date.
pub open spec fn spec_parse_date(p: Seq<char>, inp: Seq<char>) -> Result<ParsiDate, DateError> {
    match spec_parse_step(false, p, inp, spec_empty_values()) {
        Err(k) => Err(DateError::ParseError(k)),
        Ok(st) => if st.year is Some && st.month is Some && st.day is Some {
            if calendar::spec_date_valid(st.year->0 as int, st.month->0 as int, st.day->0 as int) {
                Ok(ParsiDate { year: st.year->0 as i32, month: st.month->0, day: st.day->0 })
            } else {
                Err(DateError::ParseError(ParseErrorKind::InvalidDateValue))
            }
        } else {
            Err(DateError::ParseError(ParseErrorKind::FormatMismatch))
        },
    }
}

/// The outcome of parsing a date-time input: all six fields collected, the
/// date checked before the time.
pub open spec fn spec_parse_datetime(p: Seq<char>, inp: Seq<char>) -> Result<
    ParsiDateTime,
    DateError,
> {
    match spec_parse_step(true, p, inp, spec_empty_values()) {
        Err(k) => Err(DateError::ParseError(k)),
        Ok(st) => if st.year is Some && st.month is Some && st.day is Some && st.hour is Some
            && st.minute is Some && st.second is Some {
            if !calendar::spec_date_valid(st.year->0 as int, st.month->0 as int, st.day->0 as int) {
                Err(DateError::ParseError(ParseErrorKind::InvalidDateValue))
            } else if !crate::datetime::spec_time_valid(
                st.hour->0 as int,
                st.minute->0 as int,
                st.second->0 as int,
            ) {
                Err(DateError::ParseError(ParseErrorKind::InvalidTimeValue))
            } else {
                Ok(
                    ParsiDateTime {
                        date: ParsiDate {
                            year: st.year->0 as i32,
                            month: st.month->0,
                            day: st.day->0,
                        },
                        hour: st.hour->0,
                        minute: st.minute->0,
                        second: st.second->0,
                    },
                )
            }
        } else {
            Err(DateError::ParseError(ParseErrorKind::FormatMismatch))
        },
    }
}

/// Every specifier of the pattern is one the parser understands, with no
/// dangling `%`.
pub open spec fn spec_parseable_dt(p: Seq<char>) -> bool
    decreases p.len(),
{
    if p.len() == 0 {
        true
    } else if p[0] == '%' {
        &&& p.len() >= 2
        &&& (p[1] == '%' || p[1] == 'Y' || p[1] == 'm' || p[1] == 'd' || p[1] == 'B' || p[1] == 'H'
            || p[1] == 'M' || p[1] == 'S' || p[1] == 'T')
        &&& spec_parseable_dt(p.skip(2))
    } else {
        spec_parseable_dt(p.skip(1))
    }
}

/// Whether the pattern contains the specifier `%c`.
pub open spec fn spec_mentions(p: Seq<char>, c: char) -> bool
    decreases p.len(),
{
    if p.len() == 0 {
        false
    } else if p[0] == '%' {
        if p.len() < 2 {
            false
        } else {
            p[1] == c || spec_mentions(p.skip(2), c)
        }
    } else {
        spec_mentions(p.skip(1), c)
    }
}

/// The field set that parsing a pattern's own rendering of `dt` collects,
/// walking the pattern and writing each mentioned field's value.
pub open spec fn spec_apply_fields(dt: ParsiDateTime, p: Seq<char>, st: ParsedValues) -> ParsedValues
    decreases p.len(),
{
    if p.len() == 0 {
        st
    } else if p[0] == '%' {
        if p.len() < 2 {
            st
        } else {
            let c = p[1];
            let st2 = if c == 'Y' {
                ParsedValues { year: Some(dt.date.year as u32), ..st }
            } else if c == 'm' || c == 'B' {
                ParsedValues { month: Some(dt.date.month), ..st }
            } else if c == 'd' {
                ParsedValues { day: Some(dt.date.day), ..st }
            } else if c == 'H' {
                ParsedValues { hour: Some(dt.hour), ..st }
            } else if c == 'M' {
                ParsedValues { minute: Some(dt.minute), ..st }
            } else if c == 'S' {
                ParsedValues { second: Some(dt.second), ..st }
            } else if c == 'T' {
                ParsedValues { hour: Some(dt.hour), minute: Some(dt.minute), second: Some(dt.second), ..st }
            } else {
                st
            };
            spec_apply_fields(dt, p.skip(2), st2)
        }
    } else {
        spec_apply_fields(dt, p.skip(1), st)
    }
}

/// The fields collected from a pattern are exactly the mentioned ones,
/// carrying the rendered value, all others untouched.
proof fn lemma_apply_fields(dt: ParsiDateTime, p: Seq<char>, st: ParsedValues)
    ensures
        spec_apply_fields(dt, p, st).year == if spec_mentions(p, 'Y') {
            Some(dt.date.year as u32)
        } else {
            st.year
        },
        spec_apply_fields(dt, p, st).month == if spec_mentions(p, 'm') || spec_mentions(p, 'B') {
            Some(dt.date.month)
        } else {
            st.month
        },
        spec_apply_fields(dt, p, st).day == if spec_mentions(p, 'd') {
            Some(dt.date.day)
        } else {
            st.day
        },
        spec_apply_fields(dt, p, st).hour == if spec_mentions(p, 'H') || spec_mentions(p, 'T') {
            Some(dt.hour)
        } else {
            st.hour
        },
        spec_apply_fields(dt, p, st).minute == if spec_mentions(p, 'M') || spec_mentions(p, 'T') {
            Some(dt.minute)
        } else {
            st.minute
        },
        spec_apply_fields(dt, p, st).second == if spec_mentions(p, 'S') || spec_mentions(p, 'T') {
            Some(dt.second)
        } else {
            st.second
        },
    decreases p.len(),
{
    if p.len() == 0 {
    } else if p[0] == '%' {
        if p.len() < 2 {
        } else {
            let c = p[1];
            let st2 = if c == 'Y' {
                ParsedValues { year: Some(dt.date.year as u32), ..st }
            } else if c == 'm' || c == 'B' {
                ParsedValues { month: Some(dt.date.month), ..st }
            } else if c == 'd' {
                ParsedValues { day: Some(dt.date.day), ..st }
            } else if c == 'H' {
                ParsedValues { hour: Some(dt.hour), ..st }
            } else if c == 'M' {
                ParsedValues { minute: Some(dt.minute), ..st }
            } else if c == 'S' {
                ParsedValues { second: Some(dt.second), ..st }
            } else if c == 'T' {
                ParsedValues { hour: Some(dt.hour), minute: Some(dt.minute), second: Some(dt.second), ..st }
            } else {
                st
            };
            lemma_apply_fields(dt, p.skip(2), st2);
        }
    } else {
        lemma_apply_fields(dt, p.skip(1), st);
    }
}

/// No month name is a prefix of another's name followed by anything, so the
/// name the formatter wrote is the one the parser finds.
proof fn lemma_month_match_name(m: int, tail: Seq<char>)
    requires
        1 <= m <= 12,
    ensures
        names::spec_month_match(names::spec_month_name(m).add(tail)) == Some(m),
{
    reveal_strlit("فروردین");
    reveal_strlit("اردیبهشت");
    reveal_strlit("خرداد");
    reveal_strlit("تیر");
    reveal_strlit("مرداد");
    reveal_strlit("شهریور");
    reveal_strlit("مهر");
    reveal_strlit("آبان");
    reveal_strlit("آذر");
    reveal_strlit("دی");
    reveal_strlit("بهمن");
    reveal_strlit("اسفند");
    let cat = names::spec_month_name(m).add(tail);
    assert(names::spec_is_prefix(names::spec_month_name(m), cat)) by {
        assert(names::spec_month_name(m) =~= cat.subrange(
            0,
            names::spec_month_name(m).len() as int,
        ));
    }
    assert forall|k: int| 1 <= k <= 12 && k != m implies !names::spec_is_prefix(
        #[trigger] names::spec_month_name(k),
        cat,
    ) by {
        if names::spec_is_prefix(names::spec_month_name(k), cat) {
            assert(names::spec_month_name(k)[0] == cat.subrange(
                0,
                names::spec_month_name(k).len() as int,
            )[0]);
            assert(names::spec_month_name(k)[0] == names::spec_month_name(m)[0]);
            assert(names::spec_month_name(k)[1] == cat.subrange(
                0,
                names::spec_month_name(k).len() as int,
            )[1]);
            assert(names::spec_month_name(k)[1] == names::spec_month_name(m)[1]);
            assert(false);
        }
    }
}

/// One step of the round trip: parsing a pattern's own rendering consumes
/// it exactly and collects the rendered field values.
#[verifier::rlimit(100)]
proof fn lemma_parse_format_step(dt: ParsiDateTime, p: Seq<char>, st: ParsedValues)
    requires
        dt.spec_valid(),
        1000 <= dt.date.year,
        spec_parseable_dt(p),
    ensures
        spec_parse_step(true, p, spec_format_datetime(dt, p), st) == Ok::<
            ParsedValues,
            ParseErrorKind,
        >(spec_apply_fields(dt, p, st)),
    decreases p.len(),
{
    let out = spec_format_datetime(dt, p);
    if p.len() == 0 {
    } else if p[0] == '%' {
        let c = p[1];
        let chunk = spec_datetime_spec_out(dt, c);
        let rest = spec_format_datetime(dt, p.skip(2));
        assert(out == chunk.add(rest));
        if c == '%' {
            assert(out[0] == '%');
            assert(out.skip(1) =~= rest);
            lemma_parse_format_step(dt, p.skip(2), st);
        } else if c == 'Y' {
            let y = dt.date.year as int;
            text::lemma_udigits4(y);
            assert(spec_digits4(out));
            assert(spec_read4(out) == 1000 * (y / 1000) + 100 * ((y / 100) % 10) + 10 * ((y / 10)
                % 10) + y % 10);
            assert(spec_read4(out) == y);
            assert(out.skip(4) =~= rest);
            lemma_parse_format_step(
                dt,
                p.skip(2),
                ParsedValues { year: Some(dt.date.year as u32), ..st },
            );
        } else if c == 'm' || c == 'd' || c == 'H' || c == 'M' || c == 'S' {
            let v: int = if c == 'm' {
                dt.date.month as int
            } else if c == 'd' {
                dt.date.day as int
            } else if c == 'H' {
                dt.hour as int
            } else if c == 'M' {
                dt.minute as int
            } else {
                dt.second as int
            };
            assert(chunk == text::spec_pad2(v));
            text::lemma_pad2_read(v);
            assert(spec_digits2(out));
            assert(spec_read2(out) == v);
            assert(out.skip(2) =~= rest);
            if c == 'm' {
                lemma_parse_format_step(
                    dt,
                    p.skip(2),
                    ParsedValues { month: Some(dt.date.month), ..st },
                );
            } else if c == 'd' {
                lemma_parse_format_step(
                    dt,
                    p.skip(2),
                    ParsedValues { day: Some(dt.date.day), ..st },
                );
            } else if c == 'H' {
                lemma_parse_format_step(dt, p.skip(2), ParsedValues { hour: Some(dt.hour), ..st });
            } else if c == 'M' {
                lemma_parse_format_step(
                    dt,
                    p.skip(2),
                    ParsedValues { minute: Some(dt.minute), ..st },
                );
            } else {
                lemma_parse_format_step(
                    dt,
                    p.skip(2),
                    ParsedValues { second: Some(dt.second), ..st },
                );
            }
        } else if c == 'B' {
            let name = names::spec_month_name(dt.date.month as int);
            assert(chunk == name);
            lemma_month_match_name(dt.date.month as int, rest);
            assert(out == name.add(rest));
            assert(out.skip(name.len() as int) =~= rest);
            lemma_parse_format_step(
                dt,
                p.skip(2),
                ParsedValues { month: Some(dt.date.month), ..st },
            );
        } else {
            assert(c == 'T');
            let h = dt.hour as int;
            let mi = dt.minute as int;
            let s = dt.second as int;
            text::lemma_pad2_read(h);
            text::lemma_pad2_read(mi);
            text::lemma_pad2_read(s);
            assert(chunk =~= seq![
                text::spec_digit_char(h / 10),
                text::spec_digit_char(h % 10),
                ':',
                text::spec_digit_char(mi / 10),
                text::spec_digit_char(mi % 10),
                ':',
                text::spec_digit_char(s / 10),
                text::spec_digit_char(s % 10),
            ]);
            assert(spec_hms_shape(out));
            assert(spec_read2(out) == h);
            assert(out.skip(3)[0] == out[3] && out.skip(3)[1] == out[4]);
            assert(spec_read2(out.skip(3)) == mi);
            assert(out.skip(6)[0] == out[6] && out.skip(6)[1] == out[7]);
            assert(spec_read2(out.skip(6)) == s);
            assert(out.skip(8) =~= rest);
            lemma_parse_format_step(
                dt,
                p.skip(2),
                ParsedValues {
                    hour: Some(dt.hour),
                    minute: Some(dt.minute),
                    second: Some(dt.second),
                    ..st
                },
            );
        }
    } else {
        assert(out[0] == p[0]);
        assert(out.skip(1) =~= spec_format_datetime(dt, p.skip(1)));
        lemma_parse_format_step(dt, p.skip(1), st);
    }
}

/// The format/parse round trip: rendering a valid date-time of a four-digit
/// year through any pattern made of parseable specifiers that mentions every
/// field, and parsing the rendering back with the same pattern, returns the
/// very same date-time.
pub proof fn lemma_format_parse_round_trip(dt: ParsiDateTime, p: Seq<char>)
    requires
        dt.spec_valid(),
        1000 <= dt.date.year,
        spec_parseable_dt(p),
        spec_mentions(p, 'Y'),
        spec_mentions(p, 'm') || spec_mentions(p, 'B'),
        spec_mentions(p, 'd'),
        spec_mentions(p, 'H') || spec_mentions(p, 'T'),
        spec_mentions(p, 'M') || spec_mentions(p, 'T'),
        spec_mentions(p, 'S') || spec_mentions(p, 'T'),
    ensures
        spec_parse_datetime(p, spec_format_datetime(dt, p)) == Ok::<ParsiDateTime, DateError>(dt),
{
    lemma_parse_format_step(dt, p, spec_empty_values());
    lemma_apply_fields(dt, p, spec_empty_values());
}

/// Every specifier of the pattern is one the date-only parser understands,
/// with no dangling `%`.
pub open spec fn spec_parseable_date(p: Seq<char>) -> bool
    decreases p.len(),
{
    if p.len() == 0 {
        true
    } else if p[0] == '%' {
        &&& p.len() >= 2
        &&& (p[1] == '%' || p[1] == 'Y' || p[1] == 'm' || p[1] == 'd' || p[1] == 'B')
        &&& spec_parseable_date(p.skip(2))
    } else {
        spec_parseable_date(p.skip(1))
    }
}

/// The field set that parsing a pattern's own rendering of a date collects.
pub open spec fn spec_apply_date_fields(d: ParsiDate, p: Seq<char>, st: ParsedValues) -> ParsedValues
    decreases p.len(),
{
    if p.len() == 0 {
        st
    } else if p[0] == '%' {
        if p.len() < 2 {
            st
        } else {
            let c = p[1];
            let st2 = if c == 'Y' {
                ParsedValues { year: Some(d.year as u32), ..st }
            } else if c == 'm' || c == 'B' {
                ParsedValues { month: Some(d.month), ..st }
            } else if c == 'd' {
                ParsedValues { day: Some(d.day), ..st }
            } else {
                st
            };
            spec_apply_date_fields(d, p.skip(2), st2)
        }
    } else {
        spec_apply_date_fields(d, p.skip(1), st)
    }
}

/// The date-only analog of `lemma_apply_fields`.
proof fn lemma_apply_date_fields(d: ParsiDate, p: Seq<char>, st: ParsedValues)
    requires
        spec_parseable_date(p),
    ensures
        spec_apply_date_fields(d, p, st).year == if spec_mentions(p, 'Y') {
            Some(d.year as u32)
        } else {
            st.year
        },
        spec_apply_date_fields(d, p, st).month == if spec_mentions(p, 'm') || spec_mentions(
            p,
            'B',
        ) {
            Some(d.month)
        } else {
            st.month
        },
        spec_apply_date_fields(d, p, st).day == if spec_mentions(p, 'd') {
            Some(d.day)
        } else {
            st.day
        },
        spec_apply_date_fields(d, p, st).hour == st.hour,
        spec_apply_date_fields(d, p, st).minute == st.minute,
        spec_apply_date_fields(d, p, st).second == st.second,
    decreases p.len(),
{
    if p.len() == 0 {
    } else if p[0] == '%' {
        let c = p[1];
        let st2 = if c == 'Y' {
            ParsedValues { year: Some(d.year as u32), ..st }
        } else if c == 'm' || c == 'B' {
            ParsedValues { month: Some(d.month), ..st }
        } else if c == 'd' {
            ParsedValues { day: Some(d.day), ..st }
        } else {
            st
        };
        lemma_apply_date_fields(d, p.skip(2), st2);
    } else {
        lemma_apply_date_fields(d, p.skip(1), st);
    }
}

/// The date-only analog of `lemma_parse_format_step`.
#[verifier::rlimit(100)]
proof fn lemma_parse_format_date_step(d: ParsiDate, p: Seq<char>, st: ParsedValues)
    requires
        d.spec_valid(),
        1000 <= d.year,
        spec_parseable_date(p),
    ensures
        spec_parse_step(false, p, spec_format_date(d, p), st) == Ok::<
            ParsedValues,
            ParseErrorKind,
        >(spec_apply_date_fields(d, p, st)),
    decreases p.len(),
{
    let out = spec_format_date(d, p);
    if p.len() == 0 {
    } else if p[0] == '%' {
        let c = p[1];
        let chunk = spec_date_spec_out(d, c);
        let rest = spec_format_date(d, p.skip(2));
        assert(out == chunk.add(rest));
        if c == '%' {
            assert(out[0] == '%');
            assert(out.skip(1) =~= rest);
            lemma_parse_format_date_step(d, p.skip(2), st);
        } else if c == 'Y' {
            let y = d.year as int;
            text::lemma_udigits4(y);
            assert(spec_digits4(out));
            assert(spec_read4(out) == 1000 * (y / 1000) + 100 * ((y / 100) % 10) + 10 * ((y / 10)
                % 10) + y % 10);
            assert(spec_read4(out) == y);
            assert(out.skip(4) =~= rest);
            lemma_parse_format_date_step(d, p.skip(2), ParsedValues { year: Some(d.year as u32), ..st });
        } else if c == 'm' || c == 'd' {
            let v: int = if c == 'm' {
                d.month as int
            } else {
                d.day as int
            };
            assert(chunk == text::spec_pad2(v));
            text::lemma_pad2_read(v);
            assert(spec_digits2(out));
            assert(spec_read2(out) == v);
            assert(out.skip(2) =~= rest);
            if c == 'm' {
                lemma_parse_format_date_step(d, p.skip(2), ParsedValues { month: Some(d.month), ..st });
            } else {
                lemma_parse_format_date_step(d, p.skip(2), ParsedValues { day: Some(d.day), ..st });
            }
        } else {
            assert(c == 'B');
            let name = names::spec_month_name(d.month as int);
            assert(chunk == name);
            lemma_month_match_name(d.month as int, rest);
            assert(out == name.add(rest));
            assert(out.skip(name.len() as int) =~= rest);
            lemma_parse_format_date_step(d, p.skip(2), ParsedValues { month: Some(d.month), ..st });
        }
    } else {
        assert(out[0] == p[0]);
        assert(out.skip(1) =~= spec_format_date(d, p.skip(1)));
        lemma_parse_format_date_step(d, p.skip(1), st);
    }
}

/// The date-only format/parse round trip: rendering a valid date of a
/// four-digit year through any pattern of parseable date specifiers that
/// mentions the year, month and day, and parsing the rendering back with
/// the same pattern, returns the very same date.
pub proof fn lemma_date_format_parse_round_trip(d: ParsiDate, p: Seq<char>)
    requires
        d.spec_valid(),
        1000 <= d.year,
        spec_parseable_date(p),
        spec_mentions(p, 'Y'),
        spec_mentions(p, 'm') || spec_mentions(p, 'B'),
        spec_mentions(p, 'd'),
    ensures
        spec_parse_date(p, spec_format_date(d, p)) == Ok::<ParsiDate, DateError>(d),
{
    lemma_parse_format_date_step(d, p, spec_empty_values());
    lemma_apply_date_fields(d, p, spec_empty_values());
}

/// Parses a date-only input against a pattern.
pub fn parse_date_chars(p: &Vec<char>, inp: &Vec<char>) -> (r: Result<ParsiDate, DateError>)
    ensures
        r == spec_parse_date(p@, inp@),
{
    match parse_fields(false, p, inp) {
        Err(k) => Err(DateError::ParseError(k)),
        Ok(st) => {
            proof {
                lemma_parse_step_bounded(false, p@, inp@, spec_empty_values());
            }
            match (st.year, st.month, st.day) {
                (Some(y), Some(mo), Some(d)) => {
                    match ParsiDate::new(y as i32, mo, d) {
                        Ok(date) => Ok(date),
                        Err(_) => Err(DateError::ParseError(ParseErrorKind::InvalidDateValue)),
                    }
                },
                _ => Err(DateError::ParseError(ParseErrorKind::FormatMismatch)),
            }
        },
    }
}

/// Parses a date-time input against a pattern.
pub fn parse_datetime_chars(p: &Vec<char>, inp: &Vec<char>) -> (r: Result<
    ParsiDateTime,
    DateError,
>)
    ensures
        r == spec_parse_datetime(p@, inp@),
{
    match parse_fields(true, p, inp) {
        Err(k) => Err(DateError::ParseError(k)),
        Ok(st) => {
            proof {
                lemma_parse_step_bounded(true, p@, inp@, spec_empty_values());
            }
            match (st.year, st.month, st.day, st.hour, st.minute, st.second) {
                (Some(y), Some(mo), Some(d), Some(h), Some(mi), Some(s)) => {
                    match ParsiDateTime::new(y as i32, mo, d, h, mi, s) {
                        Ok(dt) => Ok(dt),
                        Err(DateError::InvalidDate) => Err(
                            DateError::ParseError(ParseErrorKind::InvalidDateValue),
                        ),
                        Err(_) => Err(DateError::ParseError(ParseErrorKind::InvalidTimeValue)),
                    }
                },
                _ => Err(DateError::ParseError(ParseErrorKind::FormatMismatch)),
            }
        },
    }
}

/// Renders a date-time through a pattern.
pub fn format_datetime_chars(dt: &ParsiDateTime, p: &Vec<char>) -> (out: Vec<char>)
    ensures
        out@ == spec_format_datetime(*dt, p@),
{
    let mut out: Vec<char> = Vec::new();
    let mut i: usize = 0;
    let n = p.len();
    proof {
        assert(p@.skip(0) =~= p@);
        assert(out@.add(spec_format_datetime(*dt, p@)) =~= spec_format_datetime(*dt, p@));
    }
    while i < n
        invariant
            n == p@.len(),
            0 <= i <= n,
            spec_format_datetime(*dt, p@) == out@.add(spec_format_datetime(*dt, p@.skip(i as int))),
        decreases n - i,
    {
        let ghost pre = out@;
        let ghost rest = p@.skip(i as int);
        let c = p[i];
        if c == '%' {
            if i + 1 < n {
                let s = p[i + 1];
                let mut chunk = datetime_spec_out(dt, s);
                out.append(&mut chunk);
                i = i + 2;
                proof {
                    assert(rest.skip(2) =~= p@.skip(i as int));
                    assert(spec_format_datetime(*dt, rest) == spec_datetime_spec_out(*dt, s).add(
                        spec_format_datetime(*dt, p@.skip(i as int)),
                    ));
                    assert(out@.add(spec_format_datetime(*dt, p@.skip(i as int))) =~= pre.add(
                        spec_format_datetime(*dt, rest),
                    ));
                }
            } else {
                out.push('%');
                i = i + 1;
                proof {
                    assert(rest.len() == 1);
                    assert(out@.add(spec_format_datetime(*dt, p@.skip(i as int))) =~= pre.add(
                        spec_format_datetime(*dt, rest),
                    ));
                }
            }
        } else {
            out.push(c);
            i = i + 1;
            proof {
                assert(rest.skip(1) =~= p@.skip(i as int));
                assert(spec_format_datetime(*dt, rest) == seq![c].add(
                    spec_format_datetime(*dt, p@.skip(i as int)),
                ));
                assert(out@.add(spec_format_datetime(*dt, p@.skip(i as int))) =~= pre.add(
                    spec_format_datetime(*dt, rest),
                ));
            }
        }
    }
    proof {
        assert(p@.skip(n as int) =~= Seq::<char>::empty());
        assert(out@ =~= spec_format_datetime(*dt, p@));
    }
    out
}

} // verus!
