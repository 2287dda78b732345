//! The fixed Persian locale tables: month names, weekday names (Saturday is
//! day 0 of the week), and season names, together with the prefix matching
//! used when a month name is read back out of an input string.

use vstd::prelude::*;
use crate::text;

verus! {

/// The full Persian name of a month, or the error marker for an invalid
/// month number.
pub open spec fn spec_month_name(m: int) -> Seq<char> {
    if m == 1 {
        "فروردین"@
    } else if m == 2 {
        "اردیبهشت"@
    } else if m == 3 {
        "خرداد"@
    } else if m == 4 {
        "تیر"@
    } else if m == 5 {
        "مرداد"@
    } else if m == 6 {
        "شهریور"@
    } else if m == 7 {
        "مهر"@
    } else if m == 8 {
        "آبان"@
    } else if m == 9 {
        "آذر"@
    } else if m == 10 {
        "دی"@
    } else if m == 11 {
        "بهمن"@
    } else if m == 12 {
        "اسفند"@
    } else {
        "?InvalidMonth?"@
    }
}

/// The full Persian name of a weekday slot, Saturday being slot 0.
pub open spec fn spec_weekday_name(w: int) -> Seq<char> {
    if w == 0 {
        "شنبه"@
    } else if w == 1 {
        "یکشنبه"@
    } else if w == 2 {
        "دوشنبه"@
    } else if w == 3 {
        "سه‌شنبه"@
    } else if w == 4 {
        "چهارشنبه"@
    } else if w == 5 {
        "پنجشنبه"@
    } else if w == 6 {
        "جمعه"@
    } else {
        "?"@
    }
}

/// The Persian season name of a month: months 1-3 are spring, 4-6 summer,
/// 7-9 autumn, 10-12 winter.
pub open spec fn spec_season_name(m: int) -> Seq<char> {
    if 1 <= m <= 3 {
        "بهار"@
    } else if 4 <= m <= 6 {
        "تابستان"@
    } else if 7 <= m <= 9 {
        "پاییز"@
    } else if 10 <= m <= 12 {
        "زمستان"@
    } else {
        "?SeasonError?"@
    }
}

pub fn month_name(m: u32) -> (s: &'static str)
    ensures
        s@ == spec_month_name(m as int),
{
    match m {
        1 => "فروردین",
        2 => "اردیبهشت",
        3 => "خرداد",
        4 => "تیر",
        5 => "مرداد",
        6 => "شهریور",
        7 => "مهر",
        8 => "آبان",
        9 => "آذر",
        10 => "دی",
        11 => "بهمن",
        12 => "اسفند",
        _ => "?InvalidMonth?",
    }
}

pub fn weekday_name(w: u32) -> (s: &'static str)
    ensures
        s@ == spec_weekday_name(w as int),
{
    match w {
        0 => "شنبه",
        1 => "یکشنبه",
        2 => "دوشنبه",
        3 => "سه‌شنبه",
        4 => "چهارشنبه",
        5 => "پنجشنبه",
        6 => "جمعه",
        _ => "?",
    }
}

pub fn season_name(m: u32) -> (s: &'static str)
    ensures
        s@ == spec_season_name(m as int),
{
    if 1 <= m && m <= 3 {
        "بهار"
    } else if 4 <= m && m <= 6 {
        "تابستان"
    } else if 7 <= m && m <= 9 {
        "پاییز"
    } else if 10 <= m && m <= 12 {
        "زمستان"
    } else {
        "?SeasonError?"
    }
}

/// `p` is an initial run of `s`.
pub open spec fn spec_is_prefix(p: Seq<char>, s: Seq<char>) -> bool {
    p.len() <= s.len() && p == s.subrange(0, p.len() as int)
}

/// The first month (in calendar order) whose Persian name begins the
/// character sequence `s`, if any.
pub open spec fn spec_month_match(s: Seq<char>) -> Option<int> {
    if spec_is_prefix(spec_month_name(1), s) {
        Some(1)
    } else if spec_is_prefix(spec_month_name(2), s) {
        Some(2)
    } else if spec_is_prefix(spec_month_name(3), s) {
        Some(3)
    } else if spec_is_prefix(spec_month_name(4), s) {
        Some(4)
    } else if spec_is_prefix(spec_month_name(5), s) {
        Some(5)
    } else if spec_is_prefix(spec_month_name(6), s) {
        Some(6)
    } else if spec_is_prefix(spec_month_name(7), s) {
        Some(7)
    } else if spec_is_prefix(spec_month_name(8), s) {
        Some(8)
    } else if spec_is_prefix(spec_month_name(9), s) {
        Some(9)
    } else if spec_is_prefix(spec_month_name(10), s) {
        Some(10)
    } else if spec_is_prefix(spec_month_name(11), s) {
        Some(11)
    } else if spec_is_prefix(spec_month_name(12), s) {
        Some(12)
    } else {
        None
    }
}

/// Whether the characters of `name` appear in `input` starting at `pos`.
pub fn is_prefix_at(input: &Vec<char>, pos: usize, name: &str) -> (r: bool)
    requires
        pos <= input@.len(),
    ensures
        r == spec_is_prefix(name@, input@.skip(pos as int)),
{
    let nm = text::str_chars(name);
    if input.len() - pos < nm.len() {
        proof {
            assert(input@.skip(pos as int).len() == input@.len() - pos);
        }
        return false;
    }
    let ilen: usize = input.len();
    let mut i: usize = 0;
    while i < nm.len()
        invariant
            ilen == input@.len(),
            pos + nm@.len() <= ilen,
            nm@ == name@,
            0 <= i <= nm@.len(),
            forall|j: int| 0 <= j < i ==> nm@[j] == input@[pos + j],
        decreases nm@.len() - i,
    {
        if nm[i] != input[pos + i] {
            proof {
                assert(input@.skip(pos as int)[i as int] == input@[pos + i]);
                assert(name@ != input@.skip(pos as int).subrange(0, name@.len() as int));
            }
            return false;
        }
        i = i + 1;
    }
    proof {
        assert(name@ =~= input@.skip(pos as int).subrange(0, name@.len() as int));
    }
    true
}

/// Finds the first month whose name begins `input` at `pos`, returning the
/// month number and the name's length in characters.
pub fn month_match(input: &Vec<char>, pos: usize) -> (r: Option<(u32, usize)>)
    requires
        pos <= input@.len(),
    ensures
        match r {
            Some(p) => spec_month_match(input@.skip(pos as int)) == Some(p.0 as int)
                && p.1 == spec_month_name(p.0 as int).len() && 1 <= p.0 <= 12 && pos + p.1
                <= input@.len(),
            None => spec_month_match(input@.skip(pos as int)) is None,
        },
{
    let mut m: u32 = 1;
    while m <= 12
        invariant
            1 <= m <= 13,
            pos <= input@.len(),
            forall|k: int|
                1 <= k < m ==> !spec_is_prefix(spec_month_name(k), input@.skip(pos as int)),
        decreases 13 - m,
    {
        let nm = month_name(m);
        if is_prefix_at(input, pos, nm) {
            let len = text::str_chars(nm).len();
            proof {
                assert(input@.skip(pos as int).len() == input@.len() - pos);
            }
            return Some((m, len));
        }
        m = m + 1;
    }
    None
}

} // verus!
