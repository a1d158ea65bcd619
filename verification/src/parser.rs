//! Fixed-position access to the 500-character records of a Modelo 720 file.
//!
//! Positions are 1-based and inclusive, as in the official record layout.
use vstd::prelude::*;
use vstd::string::*;
use crate::text::{
    all_digits, all_digits_in, all_eq, all_eq_in, chars_of, digits_value, digits_value_in,
    lemma_digits_value_bounds, numeric, pow10, string_of, string_of_range,
};

verus! {

/// A parsed record from a Modelo 720 file.
#[derive(Debug, Clone)]
pub struct Record {
    pub line: usize,
    pub tipo: char,
    pub modelo: String,
    pub ejercicio: String,
    pub raw: String,
}

/// `TIPO_REGISTRO`: the first character of a line.
pub open spec fn tipo_of(line: Seq<char>) -> char {
    line[0]
}

/// `MODELO`: positions 2–4.
pub open spec fn modelo_of(line: Seq<char>) -> Seq<char> {
    line.subrange(1, 4)
}

/// `EJERCICIO`: positions 5–8.
pub open spec fn ejercicio_of(line: Seq<char>) -> Seq<char> {
    line.subrange(4, 8)
}

/// The record that `parse_record` builds from `line` at line number `n`.
pub open spec fn record_of(r: Record, line: Seq<char>, n: int) -> bool {
    &&& r.line == n
    &&& r.tipo == tipo_of(line)
    &&& r.modelo@ == modelo_of(line)
    &&& r.ejercicio@ == ejercicio_of(line)
    &&& r.raw@ == line
}

/// Parse a single line (of at least 8 characters) into a Record.
pub fn parse_record(line_str: &str, line_num: usize) -> (r: Record)
    requires
        line_str@.len() >= 8,
    ensures
        record_of(r, line_str@, line_num as int),
{
    let chars = chars_of(line_str);
    Record {
        line: line_num,
        tipo: chars[0],
        modelo: string_of_range(chars.as_slice(), 1, 4),
        ejercicio: string_of_range(chars.as_slice(), 4, 8),
        raw: String::from_str(line_str),
    }
}

/// Characters at positions `start..=end` (1-based); empty when the range
/// leaves the record or starts before position 1.
pub open spec fn field_spec(raw: Seq<char>, start: int, end: int) -> Seq<char> {
    if end > raw.len() || start < 1 {
        Seq::empty()
    } else {
        raw.subrange(start - 1, end)
    }
}

/// The ranges `field` accepts: a range inside the record may be empty
/// (`start == end + 1`) but not reversed further.
pub open spec fn field_range_ok(len: int, start: int, end: int) -> bool {
    end > len || start < 1 || start <= end + 1
}

/// `field` on a character buffer.
pub fn field_chars(raw: &[char], start: usize, end: usize) -> (r: Vec<char>)
    requires
        field_range_ok(raw@.len() as int, start as int, end as int),
    ensures
        r@ == field_spec(raw@, start as int, end as int),
{
    let mut r: Vec<char> = Vec::new();
    if end > raw.len() || start < 1 {
        return r;
    }
    let mut i = start - 1;
    while i < end
        invariant
            start >= 1,
            start - 1 <= i <= end <= raw@.len(),
            r@ == raw@.subrange(start - 1, i as int),
        decreases end - i,
    {
        r.push(raw[i]);
        assert(raw@.subrange(start - 1, i + 1) =~= raw@.subrange(start - 1, i as int).push(
            raw@[i as int],
        ));
        i += 1;
    }
    r
}

/// Extract a substring by 1-based positions (inclusive).
/// `field(raw, 9, 17)` returns characters at positions 9..=17.
pub fn field(raw: &str, start: usize, end: usize) -> (r: String)
    requires
        field_range_ok(raw@.len() as int, start as int, end as int),
    ensures
        r@ == field_spec(raw@, start as int, end as int),
{
    let chars = chars_of(raw);
    let v = field_chars(chars.as_slice(), start, end);
    string_of(v.as_slice())
}

/// The character at 1-based position `pos`, or a space past the end.
pub open spec fn char_at_spec(raw: Seq<char>, pos: int) -> char {
    if pos <= raw.len() {
        raw[pos - 1]
    } else {
        ' '
    }
}

/// `char_at` on a character buffer.
pub fn char_at_chars(raw: &[char], pos: usize) -> (c: char)
    requires
        pos >= 1,
    ensures
        c == char_at_spec(raw@, pos as int),
{
    if pos <= raw.len() {
        raw[pos - 1]
    } else {
        ' '
    }
}

/// Extract a single character at 1-based position (a space past the end).
pub fn char_at(raw: &str, pos: usize) -> (c: char)
    requires
        pos >= 1,
    ensures
        c == char_at_spec(raw@, pos as int),
{
    let chars = chars_of(raw);
    char_at_chars(chars.as_slice(), pos)
}

/// Check if a string is all blanks (spaces).
pub fn is_blank(s: &str) -> (r: bool)
    ensures
        r == all_eq(s@, ' '),
{
    let v = chars_of(s);
    let r = all_eq_in(v.as_slice(), 0, v.len(), ' ');
    assert(v@.subrange(0, v@.len() as int) =~= v@);
    r
}

/// Check if a string is all zeros.
pub fn is_zeros(s: &str) -> (r: bool)
    ensures
        r == all_eq(s@, '0'),
{
    let v = chars_of(s);
    let r = all_eq_in(v.as_slice(), 0, v.len(), '0');
    assert(v@.subrange(0, v@.len() as int) =~= v@);
    r
}

/// Check if a string is all numeric digits (and not empty).
pub fn is_numeric(s: &str) -> (r: bool)
    ensures
        r == numeric(s@),
{
    let v = chars_of(s);
    let r = all_digits_in(v.as_slice(), 0, v.len());
    assert(v@.subrange(0, v@.len() as int) =~= v@);
    v.len() > 0 && r
}

/// The empty date `"00000000"`.
pub open spec fn is_zero_date(s: Seq<char>) -> bool {
    s.len() == 8 && all_eq(s, '0')
}

pub open spec fn leap_year(y: int) -> bool {
    (y % 4 == 0 && y % 100 != 0) || y % 400 == 0
}

pub open spec fn days_in_month(y: int, m: int) -> int {
    if m == 1 || m == 3 || m == 5 || m == 7 || m == 8 || m == 10 || m == 12 {
        31
    } else if m == 4 || m == 6 || m == 9 || m == 11 {
        30
    } else if leap_year(y) {
        29
    } else {
        28
    }
}

/// `AAAAMMDD` made of eight digits naming a day of the Gregorian calendar.
pub open spec fn calendar_date(s: Seq<char>) -> bool {
    let y = digits_value(s.subrange(0, 4));
    let m = digits_value(s.subrange(4, 6));
    let d = digits_value(s.subrange(6, 8));
    &&& s.len() == 8
    &&& all_digits(s)
    &&& 1 <= m <= 12
    &&& 1 <= d <= days_in_month(y, m)
}

/// A date accepted by `validate_date`: the empty date or a calendar date.
pub open spec fn date_ok(s: Seq<char>) -> bool {
    is_zero_date(s) || calendar_date(s)
}

fn is_leap_year(year: u32) -> (r: bool)
    ensures
        r == leap_year(year as int),
{
    (year % 4 == 0 && year % 100 != 0) || (year % 400 == 0)
}

/// `validate_date` on a character buffer.
pub fn date_ok_chars(s: &[char]) -> (r: bool)
    ensures
        r == date_ok(s@),
{
    if s.len() != 8 || !all_digits_in(s, 0, 8) {
        assert(s@.len() == 8 ==> s@.subrange(0, 8) =~= s@);
        proof {
            if s@.len() == 8 && all_eq(s@, '0') {
                assert(all_digits(s@));
            }
        }
        return false;
    }
    assert(s@.subrange(0, 8) =~= s@);
    if all_eq_in(s, 0, 8, '0') {
        return true;
    }
    let year = digits_value_in(s, 0, 4) as u32;
    let month = digits_value_in(s, 4, 6);
    let day = digits_value_in(s, 6, 8);
    proof {
        assert(all_digits(s@.subrange(0, 4)));
        lemma_digits_value_bounds(s@.subrange(0, 4));
        lemma_digits_value_bounds(s@.subrange(4, 6));
        lemma_digits_value_bounds(s@.subrange(6, 8));
        reveal_with_fuel(pow10, 5);
    }
    if month < 1 || month > 12 || day < 1 {
        return false;
    }
    let days: u64 = if month == 1 || month == 3 || month == 5 || month == 7 || month == 8
        || month == 10 || month == 12 {
        31
    } else if month == 4 || month == 6 || month == 9 || month == 11 {
        30
    } else if is_leap_year(year) {
        29
    } else {
        28
    };
    day <= days
}

/// Validate a date in AAAAMMDD format. Returns true if valid or "00000000".
pub fn validate_date(s: &str) -> (r: bool)
    ensures
        r == date_ok(s@),
{
    let v = chars_of(s);
    date_ok_chars(v.as_slice())
}

/// Check if date is strictly "00000000" (empty date).
pub fn is_empty_date(s: &str) -> (r: bool)
    ensures
        r == is_zero_date(s@),
{
    let v = chars_of(s);
    if v.len() != 8 {
        return false;
    }
    let r = all_eq_in(v.as_slice(), 0, 8, '0');
    assert(v@.subrange(0, 8) =~= v@);
    r
}

} // verus!
