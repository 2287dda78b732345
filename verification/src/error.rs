//! The shared error taxonomy of the calendar engine, and the presentation
//! layer that renders each variant to human-readable text.

use vstd::prelude::*;
use vstd::string::StringExecFns;

verus! {

/// The reason a parse attempt was rejected.
#[derive(Debug, Clone, Copy, PartialEq, Eq, Structural)]
pub enum ParseErrorKind {
    FormatMismatch,
    InvalidNumber,
    InvalidDateValue,
    InvalidTimeValue,
    UnsupportedSpecifier,
    InvalidMonthName,
    InvalidWeekdayName,
}

/// The closed set of failures surfaced by the engine. No operation panics on
/// malformed input; each failure is returned as one of these.
#[derive(Debug, Clone, Copy, PartialEq, Eq, Structural)]
pub enum DateError {
    InvalidDate,
    InvalidTime,
    GregorianConversionError,
    ParseError(ParseErrorKind),
    ArithmeticOverflow,
    InvalidOrdinal,
}

pub open spec fn spec_parse_kind_text(kind: ParseErrorKind) -> Seq<char> {
    match kind {
        ParseErrorKind::FormatMismatch => "input string does not match expected format or has extra characters"@,
        ParseErrorKind::InvalidNumber => "could not parse number, required digits mismatch, or value out of range"@,
        ParseErrorKind::InvalidDateValue => "parsed values form a logically invalid date (e.g., day 31 in Mehr, Esfand 30 in non-leap year)"@,
        ParseErrorKind::InvalidTimeValue => "parsed values form a logically invalid time (e.g., hour 24, minute 60)"@,
        ParseErrorKind::UnsupportedSpecifier => "format pattern contains specifier unsupported for parsing (e.g., %A, %j)"@,
        ParseErrorKind::InvalidMonthName => "could not recognize Persian month name in input"@,
        ParseErrorKind::InvalidWeekdayName => "could not recognize Persian weekday name in input"@,
    }
}

pub open spec fn spec_error_text(err: DateError) -> Seq<char> {
    match err {
        DateError::ParseError(kind) => "Parse error: "@.add(spec_parse_kind_text(kind)),
        DateError::InvalidDate => "Operation resulted in an invalid date"@,
        DateError::InvalidTime => "Operation resulted in an invalid time"@,
        DateError::GregorianConversionError => "Gregorian conversion failed. Input might be outside supported range (e.g., before 622 AD)"@,
        DateError::ArithmeticOverflow => "Date arithmetic resulted in overflow/underflow or went outside supported year range [1, 9999]"@,
        DateError::InvalidOrdinal => "Invalid ordinal day number used"@,
    }
}

/// The full text shown for an error raised while performing `context`.
pub open spec fn spec_mapped_error(err: DateError, context: Seq<char>) -> Seq<char> {
    "Error while "@.add(context).add(": "@).add(spec_error_text(err))
}

fn parse_kind_text(kind: &ParseErrorKind) -> (s: &'static str)
    ensures
        s@ == spec_parse_kind_text(*kind),
{
    match kind {
        ParseErrorKind::FormatMismatch => "input string does not match expected format or has extra characters",
        ParseErrorKind::InvalidNumber => "could not parse number, required digits mismatch, or value out of range",
        ParseErrorKind::InvalidDateValue => "parsed values form a logically invalid date (e.g., day 31 in Mehr, Esfand 30 in non-leap year)",
        ParseErrorKind::InvalidTimeValue => "parsed values form a logically invalid time (e.g., hour 24, minute 60)",
        ParseErrorKind::UnsupportedSpecifier => "format pattern contains specifier unsupported for parsing (e.g., %A, %j)",
        ParseErrorKind::InvalidMonthName => "could not recognize Persian month name in input",
        ParseErrorKind::InvalidWeekdayName => "could not recognize Persian weekday name in input",
    }
}

/// Renders an engine error to the human-readable message used by callers,
/// naming the operation that was being performed.
pub fn map_parsidate_error(err: &DateError, context_msg: &str) -> (s: String)
    ensures
        s@ == spec_mapped_error(*err, context_msg@),
{
    let mut s = String::new();
    s.append("Error while ");
    s.append(context_msg);
    s.append(": ");
    match err {
        DateError::ParseError(kind) => {
            s.append("Parse error: ");
            s.append(parse_kind_text(kind));
        },
        DateError::InvalidDate => s.append("Operation resulted in an invalid date"),
        DateError::InvalidTime => s.append("Operation resulted in an invalid time"),
        DateError::GregorianConversionError => s.append(
            "Gregorian conversion failed. Input might be outside supported range (e.g., before 622 AD)",
        ),
        DateError::ArithmeticOverflow => s.append(
            "Date arithmetic resulted in overflow/underflow or went outside supported year range [1, 9999]",
        ),
        DateError::InvalidOrdinal => s.append("Invalid ordinal day number used"),
    }
    proof {
        assert(s@ =~= spec_mapped_error(*err, context_msg@));
    }
    s
}

} // verus!
