//! Spanish tax identifiers: NIF (8 digits and a control letter), NIE
//! (X/Y/Z prefix), special NIF (K/L/M prefix) and CIF (organisations).
use vstd::prelude::*;
use crate::text::{
    all_ascii, all_ascii_in, all_digits, all_digits_in, chars_of, digit_value, digits_value,
    digits_value_in, is_alpha, is_digit, is_ws, lemma_trim_idem, lemma_trim_no_ws_ends,
    lemma_trim_same_tail, lemma_trim_trailing_ws_shorter,
    lemma_utf8_len_bounds, to_digit, trim, trim_bounds, utf8_len, utf8_len_in,
};

verus! {

/// The control letters, indexed by the number modulo 23.
pub open spec fn nif_letters() -> Seq<char> {
    seq![
        'T', 'R', 'W', 'A', 'G', 'M', 'Y', 'F', 'P', 'D', 'X', 'B', 'N', 'J', 'Z', 'S', 'Q', 'V',
        'H', 'L', 'C', 'K', 'E',
    ]
}

/// Control letter of the number `n`.
pub open spec fn nif_letter(n: int) -> char {
    nif_letters()[n % 23]
}

/// Eight digits whose value's control letter is the last character.
pub open spec fn standard_ok(t: Seq<char>) -> bool {
    &&& t.len() == 9
    &&& all_digits(t.subrange(0, 8))
    &&& t[8] == nif_letter(digits_value(t.subrange(0, 8)))
}

/// The leading digit that a NIE letter stands for: X → 0, Y → 1, Z → 2.
pub open spec fn nie_digit(c: char) -> char {
    if c == 'X' {
        '0'
    } else if c == 'Y' {
        '1'
    } else {
        '2'
    }
}

/// NIE: X, Y and Z stand for the leading digits 0, 1 and 2 of a standard NIF.
pub open spec fn nie_ok(t: Seq<char>) -> bool {
    standard_ok(seq![nie_digit(t[0])] + t.drop_first())
}

/// K, L and M NIFs: seven digits, read as the number `0DDDDDDD`, and its letter.
pub open spec fn special_ok(t: Seq<char>) -> bool {
    &&& t.len() == 9
    &&& all_digits(t.subrange(1, 8))
    &&& t[8] == nif_letter(digits_value(t.subrange(1, 8)))
}

/// Digit sum of a doubled digit.
pub open spec fn doubled_digit_sum(d: int) -> int {
    (2 * d) / 10 + (2 * d) % 10
}

/// CIF checksum over the seven digits at positions 2–8: doubled-digit sums
/// at the odd places plus the digits at the even places.
pub open spec fn cif_sum(t: Seq<char>) -> int {
    doubled_digit_sum(digit_value(t[1])) + doubled_digit_sum(digit_value(t[3]))
        + doubled_digit_sum(digit_value(t[5])) + doubled_digit_sum(digit_value(t[7]))
        + digit_value(t[2]) + digit_value(t[4]) + digit_value(t[6])
}

pub open spec fn cif_control_digit(t: Seq<char>) -> int {
    (10 - cif_sum(t) % 10) % 10
}

/// The CIF control letters, indexed by the control digit.
pub open spec fn cif_letters() -> Seq<char> {
    seq!['J', 'A', 'B', 'C', 'D', 'E', 'F', 'G', 'H', 'I']
}

/// The control letter of a CIF: `"JABCDEFGHI"` indexed by its control digit.
pub open spec fn cif_control_letter(t: Seq<char>) -> char {
    cif_letters()[cif_control_digit(t)]
}

/// CIF: organisations A, B, E and H take a digit as control character;
/// P, Q, R, S and W a letter; the others either.
pub open spec fn cif_ok(t: Seq<char>) -> bool {
    let first = t[0];
    let control = t[8];
    let by_digit = to_digit(control) == Some(cif_control_digit(t));
    let by_letter = control == cif_control_letter(t);
    &&& t.len() == 9
    &&& all_digits(t.subrange(1, 8))
    &&& if first == 'A' || first == 'B' || first == 'E' || first == 'H' {
        by_digit
    } else if first == 'P' || first == 'Q' || first == 'R' || first == 'S' || first == 'W' {
        by_letter
    } else {
        by_digit || by_letter
    }
}

pub open spec fn is_nie_prefix(c: char) -> bool {
    c == 'X' || c == 'Y' || c == 'Z'
}

pub open spec fn is_special_prefix(c: char) -> bool {
    c == 'K' || c == 'L' || c == 'M'
}

pub open spec fn is_cif_prefix(c: char) -> bool {
    'A' <= c <= 'W' && !is_special_prefix(c)
}

/// A valid NIF, NIE or CIF once surrounding whitespace is trimmed: nine ASCII
/// characters checked according to the first one.
pub open spec fn nif_valid(s: Seq<char>) -> bool {
    let t = trim(s);
    &&& t.len() == 9
    &&& all_ascii(t)
    &&& if is_nie_prefix(t[0]) {
        nie_ok(t)
    } else if is_special_prefix(t[0]) {
        special_ok(t)
    } else if is_cif_prefix(t[0]) {
        cif_ok(t)
    } else if is_digit(t[0]) {
        is_alpha(t[8]) && standard_ok(t)
    } else {
        false
    }
}

/// The inputs on which `validate_nif` panics: the trimmed value takes nine
/// bytes but holds a multi-byte character, and the check slices it where
/// no character boundary is (CIF: any such character; NIE and K/L/M: a
/// multi-byte last character).
pub open spec fn nif_panics(s: Seq<char>) -> bool {
    let t = trim(s);
    &&& utf8_len(t) == 9
    &&& !all_ascii(t)
    &&& t.len() > 0
    &&& if is_nie_prefix(t[0]) || is_special_prefix(t[0]) {
        t.last() > '\u{7f}'
    } else {
        is_cif_prefix(t[0])
    }
}

/// Control letter of `num`.
fn nif_letter_exec(num: u64) -> (c: char)
    ensures
        c == nif_letter(num as int),
{
    let letters: [char; 23] = [
        'T', 'R', 'W', 'A', 'G', 'M', 'Y', 'F', 'P', 'D', 'X', 'B', 'N', 'J', 'Z', 'S', 'Q', 'V',
        'H', 'L', 'C', 'K', 'E',
    ];
    assert(letters@ =~= nif_letters());
    letters[(num % 23) as usize]
}

/// Standard NIF check of the nine characters `nif`.
fn validate_nif_standard(nif: &[char]) -> (r: bool)
    requires
        nif@.len() == 9,
    ensures
        r == standard_ok(nif@),
{
    if !all_digits_in(nif, 0, 8) {
        return false;
    }
    let num = digits_value_in(nif, 0, 8);
    nif[8] == nif_letter_exec(num)
}

/// NIE check: the prefix letter is replaced by its digit.
fn validate_nie(nif: &[char]) -> (r: bool)
    requires
        nif@.len() == 9,
        is_nie_prefix(nif@[0]),
    ensures
        r == nie_ok(nif@),
{
    let prefix = if nif[0] == 'X' {
        '0'
    } else if nif[0] == 'Y' {
        '1'
    } else {
        '2'
    };
    let mut converted: Vec<char> = Vec::new();
    converted.push(prefix);
    let mut i: usize = 1;
    while i < 9
        invariant
            1 <= i <= 9,
            nif@.len() == 9,
            converted@ == seq![prefix] + nif@.subrange(1, i as int),
        decreases 9 - i,
    {
        converted.push(nif[i]);
        assert(nif@.subrange(1, i + 1) =~= nif@.subrange(1, i as int).push(nif@[i as int]));
        assert(converted@ =~= seq![prefix] + nif@.subrange(1, i + 1));
        i += 1;
    }
    assert(nif@.drop_first() =~= nif@.subrange(1, 9));
    validate_nif_standard(converted.as_slice())
}

/// K, L and M NIFs: the seven digits read as the number `0DDDDDDD`.
fn validate_nif_special(nif: &[char]) -> (r: bool)
    requires
        nif@.len() == 9,
    ensures
        r == special_ok(nif@),
{
    if !all_digits_in(nif, 1, 8) {
        return false;
    }
    let num = digits_value_in(nif, 1, 8);
    nif[8] == nif_letter_exec(num)
}

fn doubled_digit_sum_exec(d: u64) -> (r: u64)
    requires
        d < 10,
    ensures
        r == doubled_digit_sum(d as int),
        r <= 9,
{
    let doubled = d * 2;
    doubled / 10 + doubled % 10
}

/// CIF check of nine ASCII characters.
fn validate_cif(cif: &[char]) -> (r: bool)
    requires
        cif@.len() == 9,
    ensures
        r == cif_ok(cif@),
{
    if !all_digits_in(cif, 1, 8) {
        return false;
    }
    let ghost t = cif@;
    assert forall|k: int| 1 <= k < 8 implies is_digit(#[trigger] t[k]) by {
        assert(t.subrange(1, 8)[k - 1] == t[k]);
    }
    let d1 = (cif[1] as u64) - ('0' as u64);
    let d2 = (cif[2] as u64) - ('0' as u64);
    let d3 = (cif[3] as u64) - ('0' as u64);
    let d4 = (cif[4] as u64) - ('0' as u64);
    let d5 = (cif[5] as u64) - ('0' as u64);
    let d6 = (cif[6] as u64) - ('0' as u64);
    let d7 = (cif[7] as u64) - ('0' as u64);
    let sum = doubled_digit_sum_exec(d1) + doubled_digit_sum_exec(d3) + doubled_digit_sum_exec(d5)
        + doubled_digit_sum_exec(d7) + d2 + d4 + d6;
    let control_digit = (10 - (sum % 10)) % 10;
    let control_letter = cif_letter_exec(control_digit);
    let first = cif[0];
    let control = cif[8];
    let by_digit = is_digit_char(control) && (control as u64) - ('0' as u64) == control_digit;
    let by_letter = control == control_letter;
    if first == 'A' || first == 'B' || first == 'E' || first == 'H' {
        by_digit
    } else if first == 'P' || first == 'Q' || first == 'R' || first == 'S' || first == 'W' {
        by_letter
    } else {
        by_digit || by_letter
    }
}

/// `"JABCDEFGHI"[d]`.
fn cif_letter_exec(d: u64) -> (c: char)
    requires
        d < 10,
    ensures
        c == cif_letters()[d as int],
{
    let letters = ['J', 'A', 'B', 'C', 'D', 'E', 'F', 'G', 'H', 'I'];
    let c = letters[d as usize];
    assert(letters@ =~= cif_letters());
    c
}

fn is_digit_char(c: char) -> (r: bool)
    ensures
        r == is_digit(c),
{
    '0' <= c && c <= '9'
}

/// `validate_nif` on a character buffer.
pub fn validate_nif_chars(s: &[char]) -> (r: bool)
    requires
        !nif_panics(s@),
    ensures
        r == nif_valid(s@),
{
    let (a, b) = trim_bounds(s);
    let ghost t = trim(s@);
    if b - a != 9 {
        proof {
            lemma_utf8_len_bounds(t);
        }
        return false;
    }
    if !all_ascii_in(s, a, b) {
        return false;
    }
    let mut v: Vec<char> = Vec::new();
    let mut i = a;
    while i < b
        invariant
            a <= i <= b <= s@.len(),
            v@ == s@.subrange(a as int, i as int),
        decreases b - i,
    {
        v.push(s[i]);
        assert(s@.subrange(a as int, i + 1) =~= s@.subrange(a as int, i as int).push(
            s@[i as int],
        ));
        i += 1;
    }
    assert(v@ == t);
    let first = v[0];
    if first == 'X' || first == 'Y' || first == 'Z' {
        validate_nie(v.as_slice())
    } else if first == 'K' || first == 'L' || first == 'M' {
        validate_nif_special(v.as_slice())
    } else if 'A' <= first && first <= 'W' {
        validate_cif(v.as_slice())
    } else if '0' <= first && first <= '9' {
        let last = v[8];
        if !(('A' <= last && last <= 'Z') || ('a' <= last && last <= 'z')) {
            return false;
        }
        validate_nif_standard(v.as_slice())
    } else {
        false
    }
}

/// Validate a Spanish NIF/NIE/CIF.
/// The input should be 9 characters, right-aligned with possible leading spaces.
pub fn validate_nif(nif: &str) -> (r: bool)
    requires
        !nif_panics(nif@),
    ensures
        r == nif_valid(nif@),
{
    let v = chars_of(nif);
    validate_nif_chars(v.as_slice())
}

/// `validate_nif` ignores surrounding whitespace: a value and its trimmed
/// form are accepted (and refused) alike.
pub proof fn law_nif_ignores_surrounding_blanks(s: Seq<char>)
    ensures
        nif_valid(s) == nif_valid(trim(s)),
        nif_panics(s) == nif_panics(trim(s)),
{
    lemma_trim_idem(s);
}

/// Eight digits take exactly one control letter: the digits followed by
/// `c` are a valid NIF if and only if `c` is the letter that the table
/// `TRWAGMYFPDXBNJZSQVHLCKE` gives for their value modulo 23.
pub proof fn law_nif_letter_unique(d: Seq<char>, c: char)
    requires
        d.len() == 8,
        all_digits(d),
    ensures
        nif_valid(d.push(c)) <==> c == nif_letter(digits_value(d)),
{
    let t = d.push(c);
    let l = nif_letter(digits_value(d));
    lemma_nif_letter_alpha(digits_value(d));
    assert(t.subrange(0, 8) =~= d);
    assert(is_digit(t[0]));
    if is_ws(c) {
        lemma_trim_trailing_ws_shorter(t);
    } else {
        lemma_trim_no_ws_ends(t);
        if c == l {
            assert(all_ascii(t)) by {
                assert forall|i: int| 0 <= i < t.len() implies crate::text::is_ascii_char(#[trigger] t[i]) by {
                    if i < 8 {
                        assert(is_digit(d[i]));
                    }
                }
            }
        }
    }
}

/// The control letter of a number is the character at its remainder
/// modulo 23 in `TRWAGMYFPDXBNJZSQVHLCKE`: eight digits followed by `c`
/// are a valid NIF exactly when `c` is that character for their value.
pub proof fn law_nif_letter_table(d: Seq<char>, c: char)
    requires
        d.len() == 8,
        all_digits(d),
    ensures
        nif_valid(d.push(c)) <==> c == "TRWAGMYFPDXBNJZSQVHLCKE"@[digits_value(d) % 23],
{
    reveal_strlit("TRWAGMYFPDXBNJZSQVHLCKE");
    assert(nif_letters() =~= "TRWAGMYFPDXBNJZSQVHLCKE"@);
    law_nif_letter_unique(d, c);
}

/// A CIF of an organisation of kind P, Q, R, S or W takes exactly one
/// control letter after its seven digits: the one that `"JABCDEFGHI"`
/// gives for its control digit.
pub proof fn law_cif_letter_unique(p: char, d: Seq<char>, c: char)
    requires
        p == 'P' || p == 'Q' || p == 'R' || p == 'S' || p == 'W',
        d.len() == 7,
        all_digits(d),
    ensures
        nif_valid(seq![p] + d + seq![c]) <==> c == cif_control_letter(seq![p] + d + seq![c]),
{
    let t = seq![p] + d + seq![c];
    let k = cif_control_digit(t);
    assert(0 <= k < 10);
    let l = cif_letters()[k];
    assert(t.subrange(1, 8) =~= d);
    assert(t[8] == c);
    assert('A' <= l <= 'J');
    if is_ws(c) {
        lemma_trim_trailing_ws_shorter(t);
    } else {
        lemma_trim_no_ws_ends(t);
        if c == l {
            assert(all_ascii(t)) by {
                assert forall|i: int| 0 <= i < t.len() implies crate::text::is_ascii_char(
                    #[trigger] t[i],
                ) by {
                    if 1 <= i < 8 {
                        assert(t[i] == d[i - 1]);
                        assert(is_digit(d[i - 1]));
                    }
                }
            }
        }
    }
}

/// Every control letter is an ASCII capital.
pub proof fn lemma_nif_letter_alpha(n: int)
    ensures
        is_alpha(nif_letter(n)),
{
    let k = n % 23;
    if k == 0 {
    } else if k == 1 {
    } else if k == 2 {
    } else if k == 3 {
    } else if k == 4 {
    } else if k == 5 {
    } else if k == 6 {
    } else if k == 7 {
    } else if k == 8 {
    } else if k == 9 {
    } else if k == 10 {
    } else if k == 11 {
    } else if k == 12 {
    } else if k == 13 {
    } else if k == 14 {
    } else if k == 15 {
    } else if k == 16 {
    } else if k == 17 {
    } else if k == 18 {
    } else if k == 19 {
    } else if k == 20 {
    } else if k == 21 {
    } else if k == 22 {
    }
}

/// A NIE is checked as the standard NIF whose first digit its letter
/// stands for: X0000000T as 00000000T, Y0000000Z as 10000000Z.
pub proof fn law_nie_is_nif_with_digit(s: Seq<char>)
    requires
        s.len() > 0,
        is_nie_prefix(s[0]),
    ensures
        nif_valid(s) == nif_valid(seq![nie_digit(s[0])] + s.drop_first()),
{
    let t = seq![nie_digit(s[0])] + s.drop_first();
    assert forall|i: int| 1 <= i < s.len() implies s[i] == t[i] by {}
    lemma_trim_same_tail(s, t);
    crate::text::lemma_trim_len(s);
    crate::text::lemma_trim_len(t);
    let u = trim(s);
    let v = trim(t);
    if u.len() == 9 {
        assert(u[0] == s[0] && v[0] == t[0]);
        assert forall|i: int| 1 <= i < 9 implies #[trigger] v[i] == u[i] by {
            assert(v[i] == t[i] && u[i] == s[i]);
        }
        assert(v =~= seq![nie_digit(u[0])] + u.drop_first());
        assert(all_ascii(u) == all_ascii(v)) by {
            if all_ascii(u) {
                assert forall|i: int| 0 <= i < v.len() implies crate::text::is_ascii_char(#[trigger] v[i]) by {
                    if i > 0 {
                        assert(v[i] == u[i]);
                    }
                }
            }
            if all_ascii(v) {
                assert forall|i: int| 0 <= i < u.len() implies crate::text::is_ascii_char(#[trigger] u[i]) by {
                    if i > 0 {
                        assert(v[i] == u[i]);
                    } else {
                        assert(is_nie_prefix(u[0]));
                    }
                }
            }
        }
        lemma_nif_letter_alpha(digits_value(v.subrange(0, 8)));
    }
}

/// Whether `validate_nif` would panic on `s` (see `nif_panics`).
pub fn nif_panics_chars(s: &[char]) -> (r: bool)
    ensures
        r == nif_panics(s@),
{
    let (a, b) = trim_bounds(s);
    let ghost t = trim(s@);
    proof {
        lemma_utf8_len_bounds(t);
    }
    if b - a > 9 {
        return false;
    }
    let n = utf8_len_in(s, a, b);
    if n != 9 || all_ascii_in(s, a, b) {
        return false;
    }
    let first = s[a];
    let last = s[b - 1];
    assert(t[0] == first && t.last() == last);
    if first == 'X' || first == 'Y' || first == 'Z' || first == 'K' || first == 'L' || first == 'M' {
        last > '\u{7f}'
    } else {
        'A' <= first && first <= 'W'
    }
}

} // verus!
