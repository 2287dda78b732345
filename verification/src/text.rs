//! Character-level text helpers: decimal rendering of integers, digit
//! classification, and the bridge between `&str`/`String` and `Vec<char>`,
//! which the formatting and parsing engines work on.

use vstd::prelude::*;
use vstd::string::StrSliceExecFns;

verus! {

pub open spec fn spec_digit_char(d: int) -> char {
    if d == 0 {
        '0'
    } else if d == 1 {
        '1'
    } else if d == 2 {
        '2'
    } else if d == 3 {
        '3'
    } else if d == 4 {
        '4'
    } else if d == 5 {
        '5'
    } else if d == 6 {
        '6'
    } else if d == 7 {
        '7'
    } else if d == 8 {
        '8'
    } else if d == 9 {
        '9'
    } else {
        '?'
    }
}

pub open spec fn spec_is_ascii_digit(c: char) -> bool {
    c == '0' || c == '1' || c == '2' || c == '3' || c == '4' || c == '5' || c == '6' || c == '7'
        || c == '8' || c == '9'
}

/// The numeric value of a decimal digit character; 0 for any other character.
pub open spec fn spec_digit_val(c: char) -> int {
    if c == '0' {
        0
    } else if c == '1' {
        1
    } else if c == '2' {
        2
    } else if c == '3' {
        3
    } else if c == '4' {
        4
    } else if c == '5' {
        5
    } else if c == '6' {
        6
    } else if c == '7' {
        7
    } else if c == '8' {
        8
    } else if c == '9' {
        9
    } else {
        0
    }
}

/// The decimal digits of a non-negative integer, without leading zeros.
pub open spec fn spec_udigits(n: int) -> Seq<char>
    decreases n,
{
    if n < 0 {
        Seq::empty()
    } else if n < 10 {
        seq![spec_digit_char(n)]
    } else {
        spec_udigits(n / 10).push(spec_digit_char(n % 10))
    }
}

/// The decimal rendering of an integer, with a leading minus when negative.
pub open spec fn spec_int_digits(n: int) -> Seq<char> {
    if n >= 0 {
        spec_udigits(n)
    } else {
        seq!['-'].add(spec_udigits(-n))
    }
}

/// A number rendered to at least two digits, zero-padded.
pub open spec fn spec_pad2(n: int) -> Seq<char> {
    if 0 <= n < 100 {
        seq![spec_digit_char(n / 10), spec_digit_char(n % 10)]
    } else {
        spec_int_digits(n)
    }
}

/// A number rendered to at least three digits, zero-padded.
pub open spec fn spec_pad3(n: int) -> Seq<char> {
    if 0 <= n < 1000 {
        seq![spec_digit_char(n / 100), spec_digit_char((n / 10) % 10), spec_digit_char(n % 10)]
    } else {
        spec_int_digits(n)
    }
}

pub open spec fn spec_is_space(c: char) -> bool {
    c == ' ' || c == '\t' || c == '\n' || c == '\r'
}

pub fn digit_char(d: u32) -> (c: char)
    requires
        d < 10,
    ensures
        c == spec_digit_char(d as int),
{
    match d {
        0 => '0',
        1 => '1',
        2 => '2',
        3 => '3',
        4 => '4',
        5 => '5',
        6 => '6',
        7 => '7',
        8 => '8',
        _ => '9',
    }
}

pub fn digit_val(c: char) -> (r: Option<u32>)
    ensures
        r is Some <==> spec_is_ascii_digit(c),
        r is Some ==> r->0 == spec_digit_val(c) && r->0 < 10,
{
    match c {
        '0' => Some(0),
        '1' => Some(1),
        '2' => Some(2),
        '3' => Some(3),
        '4' => Some(4),
        '5' => Some(5),
        '6' => Some(6),
        '7' => Some(7),
        '8' => Some(8),
        '9' => Some(9),
        _ => None,
    }
}

pub fn is_space(c: char) -> (r: bool)
    ensures
        r == spec_is_space(c),
{
    c == ' ' || c == '\t' || c == '\n' || c == '\r'
}

pub fn u64_to_chars(n: u64) -> (v: Vec<char>)
    ensures
        v@ == spec_udigits(n as int),
    decreases n,
{
    if n < 10 {
        let mut v: Vec<char> = Vec::new();
        v.push(digit_char(n as u32));
        v
    } else {
        let mut v = u64_to_chars(n / 10);
        v.push(digit_char((n % 10) as u32));
        v
    }
}

pub fn i32_to_chars(n: i32) -> (v: Vec<char>)
    ensures
        v@ == spec_int_digits(n as int),
{
    if n >= 0 {
        u64_to_chars(n as u64)
    } else {
        let mut v: Vec<char> = Vec::new();
        v.push('-');
        let mut rest = u64_to_chars((-(n as i64)) as u64);
        v.append(&mut rest);
        v
    }
}

pub fn pad2_chars(n: u32) -> (v: Vec<char>)
    ensures
        v@ == spec_pad2(n as int),
{
    if n < 100 {
        let mut v: Vec<char> = Vec::new();
        v.push(digit_char(n / 10));
        v.push(digit_char(n % 10));
        v
    } else {
        u64_to_chars(n as u64)
    }
}

pub fn pad3_chars(n: u32) -> (v: Vec<char>)
    ensures
        v@ == spec_pad3(n as int),
{
    if n < 1000 {
        let mut v: Vec<char> = Vec::new();
        v.push(digit_char(n / 100));
        v.push(digit_char((n / 10) % 10));
        v.push(digit_char(n % 10));
        v
    } else {
        u64_to_chars(n as u64)
    }
}

/// A two-digit zero-padded number reads back to itself.
pub proof fn lemma_pad2_read(v: int)
    requires
        0 <= v < 100,
    ensures
        spec_pad2(v).len() == 2,
        spec_is_ascii_digit(spec_pad2(v)[0]) && spec_is_ascii_digit(spec_pad2(v)[1]),
        10 * spec_digit_val(spec_pad2(v)[0]) + spec_digit_val(spec_pad2(v)[1]) == v,
{
    vstd::arithmetic::div_mod::lemma_fundamental_div_mod(v, 10);
}

/// A four-digit year renders to exactly its four digits, which read back to
/// the year.
pub proof fn lemma_udigits4(y: int)
    requires
        1000 <= y <= 9999,
    ensures
        spec_udigits(y) =~= seq![
            spec_digit_char(y / 1000),
            spec_digit_char((y / 100) % 10),
            spec_digit_char((y / 10) % 10),
            spec_digit_char(y % 10),
        ],
        spec_is_ascii_digit(spec_digit_char(y / 1000)),
        spec_is_ascii_digit(spec_digit_char((y / 100) % 10)),
        spec_is_ascii_digit(spec_digit_char((y / 10) % 10)),
        spec_is_ascii_digit(spec_digit_char(y % 10)),
        1000 * (y / 1000) + 100 * ((y / 100) % 10) + 10 * ((y / 10) % 10) + y % 10 == y,
{
    vstd::arithmetic::div_mod::lemma_div_denominator(y, 10, 10);
    vstd::arithmetic::div_mod::lemma_div_denominator(y, 100, 10);
    vstd::arithmetic::div_mod::lemma_fundamental_div_mod(y, 10);
    vstd::arithmetic::div_mod::lemma_fundamental_div_mod(y / 10, 10);
    vstd::arithmetic::div_mod::lemma_fundamental_div_mod(y / 100, 10);
    assert(y / 1000 <= 9) by {
        vstd::arithmetic::div_mod::lemma_div_is_ordered(y, 9999, 1000);
    }
    assert(1 <= y / 1000) by {
        vstd::arithmetic::div_mod::lemma_div_is_ordered(1000, y, 1000);
    }
    assert(spec_udigits(y) == spec_udigits(y / 10).push(spec_digit_char(y % 10)));
    assert(spec_udigits(y / 10) == spec_udigits(y / 100).push(spec_digit_char((y / 10) % 10)));
    assert(spec_udigits(y / 100) == spec_udigits(y / 1000).push(spec_digit_char((y / 100) % 10)));
    assert(spec_udigits(y / 1000) =~= seq![spec_digit_char(y / 1000)]);
}

/// The characters of a string slice, in order.
pub fn str_chars(s: &str) -> (v: Vec<char>)
    ensures
        v@ == s@,
{
    let n = s.unicode_len();
    let mut v: Vec<char> = Vec::new();
    let mut i: usize = 0;
    while i < n
        invariant
            n == s@.len(),
            0 <= i <= n,
            v@ == s@.subrange(0, i as int),
        decreases n - i,
    {
        v.push(s.get_char(i));
        i = i + 1;
    }
    proof {
        assert(v@ =~= s@);
    }
    v
}

/// Whether the collected characters spell exactly the given string.
pub fn chars_eq_str(v: &Vec<char>, s: &str) -> (r: bool)
    ensures
        r == (v@ == s@),
{
    let w = str_chars(s);
    if v.len() != w.len() {
        proof {
            assert(v@.len() != s@.len());
        }
        return false;
    }
    let mut i: usize = 0;
    while i < v.len()
        invariant
            v@.len() == w@.len(),
            w@ == s@,
            0 <= i <= v@.len(),
            forall|j: int| 0 <= j < i ==> v@[j] == w@[j],
        decreases v@.len() - i,
    {
        if v[i] != w[i] {
            proof {
                assert(v@[i as int] != s@[i as int]);
            }
            return false;
        }
        i = i + 1;
    }
    proof {
        assert(v@ =~= s@);
    }
    true
}

/// Relies on `String::push`: appends one character to the string.
#[verifier::external_body]
fn push_char(s: &mut String, c: char)
    ensures
        final(s)@ == old(s)@.push(c),
{
    s.push(c);
}

/// A `String` holding exactly the given characters.
pub fn string_from_chars(v: &Vec<char>) -> (s: String)
    ensures
        s@ == v@,
{
    let mut s = String::new();
    let mut i: usize = 0;
    while i < v.len()
        invariant
            0 <= i <= v@.len(),
            s@ == v@.subrange(0, i as int),
        decreases v@.len() - i,
    {
        push_char(&mut s, v[i]);
        i = i + 1;
    }
    proof {
        assert(s@ =~= v@);
    }
    s
}

} // verus!
