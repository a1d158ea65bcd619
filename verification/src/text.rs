//! Character-level building blocks shared by the parser, the checks and the
//! generator: character classes, whitespace trimming, decimal integers in both
//! directions, and UTF-8 byte lengths.
use vstd::prelude::*;
use vstd::string::*;

verus! {

// ── Character classes ────────────────────────────────────────────────────────

pub open spec fn is_digit(c: char) -> bool {
    '0' <= c <= '9'
}

pub open spec fn is_upper(c: char) -> bool {
    'A' <= c <= 'Z'
}

pub open spec fn is_lower(c: char) -> bool {
    'a' <= c <= 'z'
}

pub open spec fn is_alpha(c: char) -> bool {
    is_upper(c) || is_lower(c)
}

pub open spec fn is_alnum(c: char) -> bool {
    is_alpha(c) || is_digit(c)
}

pub open spec fn is_ascii_char(c: char) -> bool {
    c <= '\u{7f}'
}

/// Unicode `White_Space`, the class that `char::is_whitespace` tests.
pub open spec fn is_ws(c: char) -> bool {
    ||| '\u{9}' <= c <= '\u{d}'
    ||| c == ' '
    ||| c == '\u{85}'
    ||| c == '\u{a0}'
    ||| c == '\u{1680}'
    ||| '\u{2000}' <= c <= '\u{200a}'
    ||| c == '\u{2028}'
    ||| c == '\u{2029}'
    ||| c == '\u{202f}'
    ||| c == '\u{205f}'
    ||| c == '\u{3000}'
}

pub open spec fn all_digits(s: Seq<char>) -> bool {
    forall|i: int| 0 <= i < s.len() ==> is_digit(#[trigger] s[i])
}

pub open spec fn all_ascii(s: Seq<char>) -> bool {
    forall|i: int| 0 <= i < s.len() ==> is_ascii_char(#[trigger] s[i])
}

pub open spec fn all_alnum(s: Seq<char>) -> bool {
    forall|i: int| 0 <= i < s.len() ==> is_alnum(#[trigger] s[i])
}

pub open spec fn all_eq(s: Seq<char>, c: char) -> bool {
    forall|i: int| 0 <= i < s.len() ==> #[trigger] s[i] == c
}

/// Non-empty and made of ASCII digits only.
pub open spec fn numeric(s: Seq<char>) -> bool {
    s.len() > 0 && all_digits(s)
}

pub fn is_digit_exec(c: char) -> (r: bool)
    ensures
        r == is_digit(c),
{
    '0' <= c && c <= '9'
}

pub fn is_upper_exec(c: char) -> (r: bool)
    ensures
        r == is_upper(c),
{
    'A' <= c && c <= 'Z'
}

pub fn is_alnum_exec(c: char) -> (r: bool)
    ensures
        r == is_alnum(c),
{
    ('A' <= c && c <= 'Z') || ('a' <= c && c <= 'z') || ('0' <= c && c <= '9')
}

pub fn is_ascii_exec(c: char) -> (r: bool)
    ensures
        r == is_ascii_char(c),
{
    c <= '\u{7f}'
}

pub fn is_ws_exec(c: char) -> (r: bool)
    ensures
        r == is_ws(c),
{
    ('\u{9}' <= c && c <= '\u{d}') || c == ' ' || c == '\u{85}' || c == '\u{a0}' || c
        == '\u{1680}' || ('\u{2000}' <= c && c <= '\u{200a}') || c == '\u{2028}' || c
        == '\u{2029}' || c == '\u{202f}' || c == '\u{205f}' || c == '\u{3000}'
}

/// Whether every character of `s[from..to]` equals `c`.
pub fn all_eq_in(s: &[char], from: usize, to: usize, c: char) -> (r: bool)
    requires
        from <= to <= s@.len(),
    ensures
        r == all_eq(s@.subrange(from as int, to as int), c),
{
    let mut i = from;
    while i < to
        invariant
            from <= i <= to <= s@.len(),
            forall|k: int| from <= k < i ==> s@[k] == c,
        decreases to - i,
    {
        if s[i] != c {
            assert(s@.subrange(from as int, to as int)[i - from] == s@[i as int]);
            return false;
        }
        i += 1;
    }
    assert forall|k: int| 0 <= k < to - from implies #[trigger] s@.subrange(
        from as int,
        to as int,
    )[k] == c by {
        assert(s@.subrange(from as int, to as int)[k] == s@[from + k]);
    }
    true
}

/// Whether every character of `s[from..to]` is an ASCII digit.
pub fn all_digits_in(s: &[char], from: usize, to: usize) -> (r: bool)
    requires
        from <= to <= s@.len(),
    ensures
        r == all_digits(s@.subrange(from as int, to as int)),
{
    let mut i = from;
    while i < to
        invariant
            from <= i <= to <= s@.len(),
            forall|k: int| from <= k < i ==> is_digit(s@[k]),
        decreases to - i,
    {
        if !is_digit_exec(s[i]) {
            assert(s@.subrange(from as int, to as int)[i - from] == s@[i as int]);
            return false;
        }
        i += 1;
    }
    assert forall|k: int| 0 <= k < to - from implies is_digit(
        #[trigger] s@.subrange(from as int, to as int)[k],
    ) by {
        assert(s@.subrange(from as int, to as int)[k] == s@[from + k]);
    }
    true
}

/// Whether every character of `s[from..to]` is an ASCII letter or digit.
pub fn all_alnum_in(s: &[char], from: usize, to: usize) -> (r: bool)
    requires
        from <= to <= s@.len(),
    ensures
        r == all_alnum(s@.subrange(from as int, to as int)),
{
    let mut i = from;
    while i < to
        invariant
            from <= i <= to <= s@.len(),
            forall|k: int| from <= k < i ==> is_alnum(s@[k]),
        decreases to - i,
    {
        if !is_alnum_exec(s[i]) {
            assert(s@.subrange(from as int, to as int)[i - from] == s@[i as int]);
            return false;
        }
        i += 1;
    }
    assert forall|k: int| 0 <= k < to - from implies is_alnum(
        #[trigger] s@.subrange(from as int, to as int)[k],
    ) by {
        assert(s@.subrange(from as int, to as int)[k] == s@[from + k]);
    }
    true
}

/// Whether every character of `s[from..to]` is ASCII.
pub fn all_ascii_in(s: &[char], from: usize, to: usize) -> (r: bool)
    requires
        from <= to <= s@.len(),
    ensures
        r == all_ascii(s@.subrange(from as int, to as int)),
{
    let mut i = from;
    while i < to
        invariant
            from <= i <= to <= s@.len(),
            forall|k: int| from <= k < i ==> is_ascii_char(s@[k]),
        decreases to - i,
    {
        if !is_ascii_exec(s[i]) {
            assert(s@.subrange(from as int, to as int)[i - from] == s@[i as int]);
            return false;
        }
        i += 1;
    }
    assert forall|k: int| 0 <= k < to - from implies is_ascii_char(
        #[trigger] s@.subrange(from as int, to as int)[k],
    ) by {
        assert(s@.subrange(from as int, to as int)[k] == s@[from + k]);
    }
    true
}

/// Whether `s[from..to]` equals `p`.
pub fn eq_in(s: &[char], from: usize, to: usize, p: &[char]) -> (r: bool)
    requires
        from <= to <= s@.len(),
    ensures
        r == (s@.subrange(from as int, to as int) == p@),
{
    if to - from != p.len() {
        return false;
    }
    let mut i = from;
    while i < to
        invariant
            from <= i <= to <= s@.len(),
            to - from == p@.len(),
            forall|k: int| from <= k < i ==> s@[k] == p@[k - from],
        decreases to - i,
    {
        if s[i] != p[i - from] {
            assert(s@.subrange(from as int, to as int)[i - from] == s@[i as int]);
            return false;
        }
        i += 1;
    }
    assert(s@.subrange(from as int, to as int) =~= p@);
    true
}

// ── Strings from characters ──────────────────────────────────────────────────

/// The characters of `s`, in order.
pub fn chars_of(s: &str) -> (v: Vec<char>)
    ensures
        v@ == s@,
{
    let mut v: Vec<char> = Vec::new();
    for c in it: s.chars()
        invariant
            v@ == it.seq().take(it.index() as int),
            it.seq() == s@,
    {
        v.push(c);
    }
    v
}

/// `String::push`: appends one character.
#[verifier::external_body]
pub fn push_char(s: &mut String, c: char)
    ensures
        final(s)@ == old(s)@.push(c),
{
    s.push(c);
}

/// Appends the characters of `v` to `s`.
pub fn push_chars(s: &mut String, v: &[char])
    ensures
        final(s)@ == old(s)@ + v@,
{
    let ghost start = s@;
    let mut i: usize = 0;
    while i < v.len()
        invariant
            i <= v@.len(),
            s@ == start + v@.take(i as int),
        decreases v@.len() - i,
    {
        push_char(s, v[i]);
        assert(v@.take(i + 1) =~= v@.take(i as int).push(v@[i as int]));
        i += 1;
    }
    assert(v@.take(v@.len() as int) =~= v@);
}

/// A `String` holding the characters of `v`.
pub fn string_of(v: &[char]) -> (s: String)
    ensures
        s@ == v@,
{
    let mut s = String::new();
    push_chars(&mut s, v);
    assert(s@ =~= v@);
    s
}

/// A `String` holding the characters of `v[from..to]`.
pub fn string_of_range(v: &[char], from: usize, to: usize) -> (s: String)
    requires
        from <= to <= v@.len(),
    ensures
        s@ == v@.subrange(from as int, to as int),
{
    let mut s = String::new();
    let mut i = from;
    while i < to
        invariant
            from <= i <= to <= v@.len(),
            s@ == v@.subrange(from as int, i as int),
        decreases to - i,
    {
        push_char(&mut s, v[i]);
        assert(v@.subrange(from as int, i + 1) =~= v@.subrange(from as int, i as int).push(
            v@[i as int],
        ));
        i += 1;
    }
    s
}

// ── Trimming ─────────────────────────────────────────────────────────────────

/// Index of the first non-whitespace character at or after `i` (or `s.len()`).
pub open spec fn skip_ws(s: Seq<char>, i: int) -> int
    decreases s.len() - i,
{
    if 0 <= i < s.len() && is_ws(s[i]) {
        skip_ws(s, i + 1)
    } else {
        i
    }
}

/// End of `s[lo..j]` once trailing whitespace is dropped.
pub open spec fn back_ws(s: Seq<char>, lo: int, j: int) -> int
    decreases j - lo,
{
    if lo < j <= s.len() && is_ws(s[j - 1]) {
        back_ws(s, lo, j - 1)
    } else {
        j
    }
}

/// `str::trim`: `s` without leading and trailing whitespace.
pub open spec fn trim(s: Seq<char>) -> Seq<char> {
    let a = skip_ws(s, 0);
    s.subrange(a, back_ws(s, a, s.len() as int))
}

proof fn lemma_skip_ws_bounds(s: Seq<char>, i: int)
    requires
        0 <= i <= s.len(),
    ensures
        i <= skip_ws(s, i) <= s.len(),
    decreases s.len() - i,
{
    if i < s.len() && is_ws(s[i]) {
        lemma_skip_ws_bounds(s, i + 1);
    }
}

proof fn lemma_back_ws_bounds(s: Seq<char>, lo: int, j: int)
    requires
        0 <= lo <= j <= s.len(),
    ensures
        lo <= back_ws(s, lo, j) <= j,
    decreases j - lo,
{
    if lo < j && is_ws(s[j - 1]) {
        lemma_back_ws_bounds(s, lo, j - 1);
    }
}

/// The bounds `(a, b)` with `trim(s) == s[a..b]`.
pub fn trim_bounds(s: &[char]) -> (r: (usize, usize))
    ensures
        r.0 <= r.1 <= s@.len(),
        r.0 == skip_ws(s@, 0),
        r.1 == back_ws(s@, r.0 as int, s@.len() as int),
        trim(s@) == s@.subrange(r.0 as int, r.1 as int),
{
    let mut a: usize = 0;
    while a < s.len() && is_ws_exec(s[a])
        invariant
            a <= s@.len(),
            skip_ws(s@, 0) == skip_ws(s@, a as int),
        decreases s@.len() - a,
    {
        a += 1;
    }
    let mut b: usize = s.len();
    while b > a && is_ws_exec(s[b - 1])
        invariant
            a <= b <= s@.len(),
            skip_ws(s@, 0) == a,
            back_ws(s@, a as int, s@.len() as int) == back_ws(s@, a as int, b as int),
        decreases b,
    {
        b -= 1;
    }
    (a, b)
}

/// `str::trim` on a character buffer.
pub fn trim_chars(s: &[char]) -> (t: Vec<char>)
    ensures
        t@ == trim(s@),
{
    let (a, b) = trim_bounds(s);
    let mut t: Vec<char> = Vec::new();
    let mut i = a;
    while i < b
        invariant
            a <= i <= b <= s@.len(),
            t@ == s@.subrange(a as int, i as int),
        decreases b - i,
    {
        t.push(s[i]);
        assert(s@.subrange(a as int, i + 1) =~= s@.subrange(a as int, i as int).push(
            s@[i as int],
        ));
        i += 1;
    }
    t
}

/// Trimming never lengthens a string.
pub proof fn lemma_trim_len(s: Seq<char>)
    ensures
        trim(s).len() <= s.len(),
{
    lemma_skip_ws_bounds(s, 0);
    lemma_back_ws_bounds(s, skip_ws(s, 0), s.len() as int);
}

/// Trimming only removes whitespace: a string with no whitespace at either
/// end is left as it is.
pub proof fn lemma_trim_no_ws_ends(s: Seq<char>)
    requires
        s.len() > 0 ==> !is_ws(s[0]) && !is_ws(s[s.len() - 1]),
    ensures
        trim(s) == s,
{
    assert(skip_ws(s, 0) == 0);
    assert(s.subrange(0, s.len() as int) =~= s);
}

/// A string made only of non-whitespace characters is its own trim.
pub proof fn lemma_trim_no_ws(s: Seq<char>)
    requires
        forall|i: int| 0 <= i < s.len() ==> !is_ws(#[trigger] s[i]),
    ensures
        trim(s) == s,
{
    if s.len() > 0 {
        assert(!is_ws(s[0]));
        assert(!is_ws(s[s.len() - 1]));
    }
    lemma_trim_no_ws_ends(s);
}

proof fn lemma_skip_ws_stop(s: Seq<char>, i: int)
    requires
        0 <= i <= s.len(),
    ensures
        skip_ws(s, i) < s.len() ==> !is_ws(s[skip_ws(s, i)]),
    decreases s.len() - i,
{
    if i < s.len() && is_ws(s[i]) {
        lemma_skip_ws_stop(s, i + 1);
    }
}

proof fn lemma_back_ws_stop(s: Seq<char>, lo: int, j: int)
    requires
        0 <= lo <= j <= s.len(),
    ensures
        back_ws(s, lo, j) > lo ==> !is_ws(s[back_ws(s, lo, j) - 1]),
    decreases j - lo,
{
    if lo < j && is_ws(s[j - 1]) {
        lemma_back_ws_stop(s, lo, j - 1);
    }
}

/// Trimming a string that ends in whitespace shortens it.
pub proof fn lemma_trim_trailing_ws_shorter(s: Seq<char>)
    requires
        s.len() > 0,
        is_ws(s[s.len() - 1]),
    ensures
        trim(s).len() < s.len(),
{
    lemma_skip_ws_bounds(s, 0);
    let a = skip_ws(s, 0);
    if a < s.len() {
        lemma_back_ws_bounds(s, a, s.len() - 1);
        assert(back_ws(s, a, s.len() as int) == back_ws(s, a, s.len() - 1));
    }
}

/// Trimming twice is trimming once.
pub proof fn lemma_trim_idem(s: Seq<char>)
    ensures
        trim(trim(s)) == trim(s),
{
    let a = skip_ws(s, 0);
    lemma_skip_ws_bounds(s, 0);
    lemma_back_ws_bounds(s, a, s.len() as int);
    lemma_skip_ws_stop(s, 0);
    lemma_back_ws_stop(s, a, s.len() as int);
    let b = back_ws(s, a, s.len() as int);
    let t = trim(s);
    if t.len() > 0 {
        assert(t[0] == s[a]);
        assert(t[t.len() - 1] == s[b - 1]);
    }
    lemma_trim_no_ws_ends(t);
}

proof fn lemma_skip_ws_all_blank(t: Seq<char>, i: int)
    requires
        0 <= i <= t.len(),
        forall|k: int| i <= k < t.len() ==> is_ws(#[trigger] t[k]),
    ensures
        skip_ws(t, i) == t.len(),
    decreases t.len() - i,
{
    if i < t.len() {
        lemma_skip_ws_all_blank(t, i + 1);
    }
}

proof fn lemma_back_ws_blank_tail(t: Seq<char>, lo: int, a: int, j: int)
    requires
        0 <= lo <= a <= j <= t.len(),
        forall|k: int| a <= k < j ==> is_ws(#[trigger] t[k]),
    ensures
        back_ws(t, lo, j) == back_ws(t, lo, a),
    decreases j - a,
{
    if a < j {
        assert(is_ws(t[j - 1]));
        lemma_back_ws_blank_tail(t, lo, a, j - 1);
    }
}

proof fn lemma_back_ws_agree(s: Seq<char>, t: Seq<char>, j: int)
    requires
        s.len() == t.len(),
        0 <= j <= s.len(),
        s.len() > 0 ==> !is_ws(s[0]) && !is_ws(t[0]),
        forall|i: int| 1 <= i < s.len() ==> s[i] == t[i],
    ensures
        back_ws(s, 0, j) == back_ws(t, 0, j),
    decreases j,
{
    if j > 1 {
        assert(s[j - 1] == t[j - 1]);
        if is_ws(s[j - 1]) {
            lemma_back_ws_agree(s, t, j - 1);
        }
    }
}

/// Two strings that start with a non-whitespace character and agree after
/// it trim alike: to the same length, still agreeing after the first
/// character.
pub proof fn lemma_trim_same_tail(s: Seq<char>, t: Seq<char>)
    requires
        s.len() == t.len(),
        s.len() > 0,
        !is_ws(s[0]),
        !is_ws(t[0]),
        forall|i: int| 1 <= i < s.len() ==> s[i] == t[i],
    ensures
        trim(s).len() == trim(t).len(),
        trim(s).len() > 0,
        trim(s) == s.subrange(0, trim(s).len() as int),
        trim(t) == t.subrange(0, trim(t).len() as int),
{
    lemma_back_ws_agree(s, t, s.len() as int);
    lemma_back_ws_bounds(s, 0, s.len() as int);
    lemma_back_ws_stop(s, 0, s.len() as int);
    assert(back_ws(s, 0, s.len() as int) >= 1) by {
        if back_ws(s, 0, s.len() as int) == 0 {
            lemma_back_ws_zero(s, s.len() as int);
        }
    }
}

proof fn lemma_back_ws_zero(s: Seq<char>, j: int)
    requires
        0 < j <= s.len(),
        !is_ws(s[0]),
    ensures
        back_ws(s, 0, j) >= 1,
    decreases j,
{
    if j > 1 && is_ws(s[j - 1]) {
        lemma_back_ws_zero(s, j - 1);
    }
}

/// Trailing spaces after a string with no surrounding whitespace are
/// trimmed away.
pub proof fn lemma_trim_trailing_spaces(s: Seq<char>, m: nat)
    requires
        trim(s) == s,
    ensures
        trim(s + Seq::new(m, |_i: int| ' ')) == s,
{
    let sp = Seq::new(m, |_i: int| ' ');
    let t = s + sp;
    assert(is_ws(' '));
    if s.len() == 0 {
        lemma_skip_ws_all_blank(t, 0);
        assert(t.subrange(t.len() as int, t.len() as int) =~= s);
    } else {
        let a = skip_ws(s, 0);
        lemma_skip_ws_bounds(s, 0);
        lemma_back_ws_bounds(s, a, s.len() as int);
        assert(a == 0 && back_ws(s, a, s.len() as int) == s.len()) by {
            assert(s.subrange(a, back_ws(s, a, s.len() as int)).len() == s.len());
        }
        assert(!is_ws(s[0])) by {
            if is_ws(s[0]) {
                lemma_skip_ws_bounds(s, 1);
            }
        }
        assert(!is_ws(s[s.len() - 1])) by {
            if is_ws(s[s.len() - 1]) {
                lemma_back_ws_bounds(s, 0, s.len() - 1);
            }
        }
        assert(t[0] == s[0]);
        assert(skip_ws(t, 0) == 0);
        lemma_back_ws_blank_tail(t, 0, s.len() as int, t.len() as int);
        assert(t[s.len() - 1] == s[s.len() - 1]);
        assert(back_ws(t, 0, s.len() as int) == s.len());
        assert(t.subrange(0, s.len() as int) =~= s);
    }
}

// ── Decimal integers ─────────────────────────────────────────────────────────

pub open spec fn digit_value(c: char) -> int {
    c as int - '0' as int
}

/// Value of a string of decimal digits.
pub open spec fn digits_value(s: Seq<char>) -> int
    decreases s.len(),
{
    if s.len() == 0 {
        0
    } else {
        digits_value(s.drop_last()) * 10 + digit_value(s.last())
    }
}

pub open spec fn pow10(n: nat) -> int
    decreases n,
{
    if n == 0 {
        1
    } else {
        10 * pow10((n - 1) as nat)
    }
}

pub proof fn lemma_digits_value_bounds(s: Seq<char>)
    requires
        all_digits(s),
    ensures
        0 <= digits_value(s) < pow10(s.len()),
    decreases s.len(),
{
    if s.len() > 0 {
        let p = s.drop_last();
        assert(all_digits(p)) by {
            assert forall|i: int| 0 <= i < p.len() implies is_digit(#[trigger] p[i]) by {
                assert(p[i] == s[i]);
            }
        }
        lemma_digits_value_bounds(p);
        assert(is_digit(s[s.len() - 1]));
        let v = digits_value(p);
        let d = digit_value(s.last());
        let q = pow10(p.len());
        assert(0 <= d < 10);
        assert(0 <= v * 10 + d < 10 * q) by (nonlinear_arith)
            requires
                0 <= v < q,
                0 <= d < 10,
        ;
    }
}

/// Rust's `str::parse` for integer types, before the range check: an optional
/// `+` (or `-` when `signed`) and then at least one ASCII digit.
pub open spec fn parse_int(s: Seq<char>, signed: bool) -> Option<int> {
    if s.len() == 0 {
        None
    } else if s[0] == '+' || (signed && s[0] == '-') {
        let rest = s.drop_first();
        if rest.len() > 0 && all_digits(rest) {
            Some(
                if s[0] == '-' {
                    -digits_value(rest)
                } else {
                    digits_value(rest)
                },
            )
        } else {
            None
        }
    } else if all_digits(s) {
        Some(digits_value(s))
    } else {
        None
    }
}

/// `str::parse` into an integer type whose values are `lo..=hi`.
pub open spec fn parse_ranged(s: Seq<char>, signed: bool, lo: int, hi: int) -> Option<int> {
    match parse_int(s, signed) {
        Some(v) => if lo <= v <= hi {
            Some(v)
        } else {
            None
        },
        None => None,
    }
}

/// `s.parse::<i64>().unwrap_or(0)`.
pub open spec fn parse_i64_or0(s: Seq<char>) -> int {
    match parse_ranged(s, true, i64::MIN as int, i64::MAX as int) {
        Some(v) => v,
        None => 0,
    }
}

/// `s.parse::<u32>().unwrap_or(0)`.
pub open spec fn parse_u32_or0(s: Seq<char>) -> int {
    match parse_ranged(s, false, 0, u32::MAX as int) {
        Some(v) => v,
        None => 0,
    }
}

/// `s.parse::<u64>().unwrap_or(0)`.
pub open spec fn parse_u64_or0(s: Seq<char>) -> int {
    match parse_ranged(s, false, 0, u64::MAX as int) {
        Some(v) => v,
        None => 0,
    }
}

/// `s.parse::<usize>().unwrap_or(0)`.
pub open spec fn parse_usize_or0(s: Seq<char>) -> int {
    match parse_ranged(s, false, 0, usize::MAX as int) {
        Some(v) => v,
        None => 0,
    }
}

/// Value of the digit string `s[from..to]`.
pub fn digits_value_in(s: &[char], from: usize, to: usize) -> (v: u64)
    requires
        from <= to <= s@.len(),
        to - from <= 19,
        all_digits(s@.subrange(from as int, to as int)),
    ensures
        v == digits_value(s@.subrange(from as int, to as int)),
{
    let mut v: u64 = 0;
    let mut i = from;
    while i < to
        invariant
            from <= i <= to <= s@.len(),
            to - from <= 19,
            all_digits(s@.subrange(from as int, to as int)),
            v == digits_value(s@.subrange(from as int, i as int)),
        decreases to - i,
    {
        let ghost pre = s@.subrange(from as int, i as int);
        let ghost nxt = s@.subrange(from as int, i + 1);
        assert(nxt.drop_last() =~= pre);
        assert(nxt =~= s@.subrange(from as int, to as int).subrange(0, i + 1 - from));
        assert(all_digits(nxt)) by {
            assert forall|k: int| 0 <= k < nxt.len() implies is_digit(#[trigger] nxt[k]) by {
                assert(nxt[k] == s@.subrange(from as int, to as int)[k]);
            }
        }
        proof {
            lemma_digits_value_bounds(nxt);
            lemma_pow10_19(nxt.len());
        }
        assert(is_digit(s@[i as int])) by {
            assert(s@[i as int] == s@.subrange(from as int, to as int)[i - from]);
        }
        let d = (s[i] as u64) - ('0' as u64);
        v = v * 10 + d;
        i += 1;
    }
    v
}

proof fn lemma_pow10_19(n: nat)
    requires
        n <= 19,
    ensures
        pow10(n) <= 10_000_000_000_000_000_000,
    decreases n,
{
    if n > 0 {
        lemma_pow10_19((n - 1) as nat);
        lemma_pow10_monotone((n - 1) as nat, 18);
    }
    reveal_with_fuel(pow10, 20);
}

pub proof fn lemma_pow10_monotone(a: nat, b: nat)
    requires
        a <= b,
    ensures
        pow10(a) <= pow10(b),
    decreases b,
{
    if a < b {
        lemma_pow10_monotone(a, (b - 1) as nat);
        lemma_pow10_pos((b - 1) as nat);
    }
}

pub proof fn lemma_pow10_pos(n: nat)
    ensures
        pow10(n) >= 1,
    decreases n,
{
    if n > 0 {
        lemma_pow10_pos((n - 1) as nat);
    }
}

/// A longer digit string is worth at least as much as its prefix.
pub proof fn lemma_digits_value_prefix(s: Seq<char>, i: int)
    requires
        all_digits(s),
        0 <= i <= s.len(),
    ensures
        digits_value(s.take(i)) <= digits_value(s),
    decreases s.len(),
{
    if i < s.len() {
        let p = s.drop_last();
        assert(all_digits(p)) by {
            assert forall|k: int| 0 <= k < p.len() implies is_digit(#[trigger] p[k]) by {
                assert(p[k] == s[k]);
            }
        }
        assert(p.take(i) =~= s.take(i));
        lemma_digits_value_prefix(p, i);
        lemma_digits_value_bounds(p);
        assert(is_digit(s[s.len() - 1]));
    } else {
        assert(s.take(i) =~= s);
    }
}

/// `s[from..to].parse()` into an unsigned type whose largest value is `hi`.
pub fn parse_unsigned_in(s: &[char], from: usize, to: usize, hi: u64) -> (r: Option<u64>)
    requires
        from <= to <= s@.len(),
    ensures
        r matches Some(v) ==> parse_ranged(s@.subrange(from as int, to as int), false, 0, hi as int)
            == Some(v as int),
        r is None ==> parse_ranged(s@.subrange(from as int, to as int), false, 0, hi as int) is None,
{
    let ghost t = s@.subrange(from as int, to as int);
    if from == to {
        return None;
    }
    let start = if s[from] == '+' {
        from + 1
    } else {
        from
    };
    let ghost u = s@.subrange(start as int, to as int);
    assert(t[0] == s@[from as int]);
    if s[from] == '+' {
        assert(t.drop_first() =~= u);
    } else {
        assert(t =~= u);
    }
    if start == to || !all_digits_in(s, start, to) {
        return None;
    }
    assert(parse_int(t, false) == Some(digits_value(u)));
    let mut acc: u128 = 0;
    let mut i = start;
    while i < to
        invariant
            start <= i <= to <= s@.len(),
            parse_int(t, false) == Some(digits_value(u)),
            t == s@.subrange(from as int, to as int),
            all_digits(u),
            u == s@.subrange(start as int, to as int),
            acc == digits_value(u.take(i - start)),
            acc <= hi,
        decreases to - i,
    {
        let ghost nxt = u.take(i + 1 - start);
        assert(nxt.drop_last() =~= u.take(i - start));
        assert(nxt.last() == s@[i as int]);
        assert(is_digit(s@[i as int])) by {
            assert(u[i - start] == s@[i as int]);
        }
        let d = (s[i] as u128) - ('0' as u128);
        acc = acc * 10 + d;
        i += 1;
        assert(acc == digits_value(nxt));
        if acc > hi as u128 {
            proof {
                lemma_digits_value_prefix(u, i - start);
            }
            return None;
        }
    }
    assert(u.take(to - start) =~= u);
    Some(acc as u64)
}

proof fn lemma_parse_nonneg(t: Seq<char>)
    requires
        t.len() > 0,
        t[0] != '-',
        parse_int(t, false) is Some,
    ensures
        parse_int(t, false).unwrap() >= 0,
{
    if t[0] == '+' {
        lemma_digits_value_bounds(t.drop_first());
    } else {
        lemma_digits_value_bounds(t);
    }
}

/// `s[from..to].parse::<i64>()`.
pub fn parse_i64_in(s: &[char], from: usize, to: usize) -> (r: Option<i64>)
    requires
        from <= to <= s@.len(),
    ensures
        r matches Some(v) ==> parse_ranged(
            s@.subrange(from as int, to as int),
            true,
            i64::MIN as int,
            i64::MAX as int,
        ) == Some(v as int),
        r is None ==> parse_ranged(
            s@.subrange(from as int, to as int),
            true,
            i64::MIN as int,
            i64::MAX as int,
        ) is None,
{
    let ghost t = s@.subrange(from as int, to as int);
    if from == to {
        return None;
    }
    if s[from] == '-' {
        assert(t.drop_first() =~= s@.subrange(from + 1, to as int));
        assert(t[0] == '-');
        let m = parse_unsigned_in(s, from + 1, to, 9223372036854775808u64);
        match m {
            Some(v) => {
                if from + 1 == to {
                    return None;
                }
                if s[from + 1] == '+' {
                    assert(s@.subrange(from + 1, to as int)[0] == '+');
                    assert(!is_digit(t.drop_first()[0]));
                    return None;
                }
                assert(s@.subrange(from + 1, to as int)[0] != '+');
                assert(parse_int(t.drop_first(), false) == Some(v as int));
                assert(parse_int(t, true) == Some(-(v as int)));
                if v == 9223372036854775808u64 {
                    Some(i64::MIN)
                } else {
                    Some(-(v as i64))
                }
            },
            None => {
                proof {
                    let rest = t.drop_first();
                    if rest.len() > 0 && all_digits(rest) {
                        assert(rest[0] != '+');
                        assert(parse_int(rest, false) == Some(digits_value(rest)));
                        lemma_digits_value_bounds(rest);
                        assert(parse_int(t, true) == Some(-digits_value(rest)));
                        assert(digits_value(rest) > 9223372036854775808);
                        assert(parse_ranged(t, true, i64::MIN as int, i64::MAX as int) is None);
                    }
                }
                None
            },
        }
    } else {
        assert(t[0] == s@[from as int]);
        assert(parse_int(t, true) == parse_int(t, false));
        let m = parse_unsigned_in(s, from, to, 9223372036854775807u64);
        proof {
            if parse_int(t, false) is Some {
                lemma_parse_nonneg(t);
            }
        }
        match m {
            Some(v) => Some(v as i64),
            None => None,
        }
    }
}

/// `c.to_digit(10)`.
pub open spec fn to_digit(c: char) -> Option<int> {
    if is_digit(c) {
        Some(digit_value(c))
    } else {
        None
    }
}

pub open spec fn digit_char(d: int) -> char {
    (d + '0' as int) as char
}

/// Decimal representation of `n`, as `Display` writes integers.
pub open spec fn dec(n: nat) -> Seq<char>
    decreases n,
{
    if n < 10 {
        seq![digit_char(n as int)]
    } else {
        dec(n / 10).push(digit_char((n % 10) as int))
    }
}

/// Decimal representation of a signed integer: a `-` before the digits of a
/// negative value.
pub open spec fn dec_signed(v: int) -> Seq<char> {
    if v < 0 {
        seq!['-'] + dec((-v) as nat)
    } else {
        dec(v as nat)
    }
}

/// `s` left-padded with `'0'` to at least `w` characters (`{:0>w}`).
pub open spec fn zero_pad(s: Seq<char>, w: nat) -> Seq<char> {
    if s.len() >= w {
        s
    } else {
        Seq::new((w - s.len()) as nat, |_i: int| '0') + s
    }
}

/// `dec(n)` is a non-empty digit string worth `n`, with at most `k` digits
/// when `n < 10^k`.
pub proof fn lemma_dec(n: nat, k: nat)
    ensures
        all_digits(dec(n)),
        dec(n).len() >= 1,
        digits_value(dec(n)) == n,
        1 <= k && n < pow10(k) ==> dec(n).len() <= k,
    decreases n,
{
    if n >= 10 {
        lemma_dec(n / 10, (k - 1) as nat);
        let p = dec(n / 10);
        let s = dec(n);
        assert(s.drop_last() =~= p);
        assert(digit_value(s.last()) == n % 10);
        assert(digits_value(s) == digits_value(p) * 10 + n % 10);
        assert((n / 10) * 10 + n % 10 == n);
        assert forall|i: int| 0 <= i < s.len() implies is_digit(#[trigger] s[i]) by {
            if i < p.len() {
                assert(s[i] == p[i]);
            }
        }
        if 1 <= k && n < pow10(k) {
            assert(k >= 2) by {
                if k == 1 {
                    reveal_with_fuel(pow10, 2);
                }
            }
            assert(n / 10 < pow10((k - 1) as nat));
        }
    } else {
        let s = dec(n);
        assert(s.drop_last() =~= Seq::<char>::empty());
        assert(digits_value(s.drop_last()) == 0);
    }
}

/// Zeros in front of a digit string do not change its value.
pub proof fn lemma_digits_value_zeros(m: nat, s: Seq<char>)
    ensures
        digits_value(Seq::new(m, |_i: int| '0') + s) == digits_value(s),
    decreases s.len(), m,
{
    let z = Seq::new(m, |_i: int| '0');
    if s.len() == 0 {
        assert(z + s =~= z);
        if m > 0 {
            assert(z.drop_last() =~= Seq::new((m - 1) as nat, |_i: int| '0'));
            lemma_digits_value_zeros((m - 1) as nat, s);
            assert(Seq::new((m - 1) as nat, |_i: int| '0') + s =~= Seq::new(
                (m - 1) as nat,
                |_i: int| '0',
            ));
        }
    } else {
        assert((z + s).drop_last() =~= z + s.drop_last());
        lemma_digits_value_zeros(m, s.drop_last());
    }
}

/// `zero_pad(dec(n), w)` for `n < 10^w`: exactly `w` digits worth `n`.
pub proof fn lemma_zero_pad_dec(n: nat, w: nat)
    requires
        1 <= w,
        n < pow10(w),
    ensures
        zero_pad(dec(n), w).len() == w,
        all_digits(zero_pad(dec(n), w)),
        digits_value(zero_pad(dec(n), w)) == n,
{
    lemma_dec(n, w);
    let d = dec(n);
    if d.len() < w {
        let z = Seq::new((w - d.len()) as nat, |_i: int| '0');
        lemma_digits_value_zeros((w - d.len()) as nat, d);
        let s = z + d;
        assert forall|i: int| 0 <= i < s.len() implies is_digit(#[trigger] s[i]) by {
            if i >= z.len() {
                assert(s[i] == d[i - z.len()]);
            }
        }
    }
}

/// A digit string of at least one character parses as its value.
pub proof fn lemma_parse_digits(s: Seq<char>, signed: bool)
    requires
        s.len() >= 1,
        all_digits(s),
    ensures
        parse_int(s, signed) == Some(digits_value(s)),
        trim(s) == s,
{
    assert(is_digit(s[0]));
    assert forall|i: int| 0 <= i < s.len() implies !is_ws(#[trigger] s[i]) by {
        assert(is_digit(s[i]));
    }
    lemma_trim_no_ws(s);
}

/// The decimal digits of `n`.
pub fn dec_chars(n: u64) -> (v: Vec<char>)
    ensures
        v@ == dec(n as nat),
    decreases n,
{
    if n < 10 {
        let c = ((n as u8) + 48) as char;
        let mut v = Vec::new();
        v.push(c);
        assert(v@ =~= seq![digit_char(n as int)]);
        v
    } else {
        let mut v = dec_chars(n / 10);
        let c = (((n % 10) as u8) + 48) as char;
        v.push(c);
        v
    }
}

/// `n` in decimal, left-padded with zeros to at least `w` characters.
pub fn dec_padded(n: u64, w: usize) -> (v: Vec<char>)
    ensures
        v@ == zero_pad(dec(n as nat), w as nat),
{
    let d = dec_chars(n);
    if d.len() >= w {
        return d;
    }
    let mut v: Vec<char> = Vec::new();
    let k = w - d.len();
    let mut i: usize = 0;
    while i < k
        invariant
            i <= k,
            k == w - d@.len(),
            v@ == Seq::new(i as nat, |_j: int| '0'),
        decreases k - i,
    {
        v.push('0');
        assert(v@ =~= Seq::new((i + 1) as nat, |_j: int| '0'));
        i += 1;
    }
    let mut j: usize = 0;
    while j < d.len()
        invariant
            j <= d@.len(),
            k == w - d@.len(),
            v@ == Seq::new(k as nat, |_j: int| '0') + d@.take(j as int),
        decreases d@.len() - j,
    {
        v.push(d[j]);
        assert(d@.take(j + 1) =~= d@.take(j as int).push(d@[j as int]));
        assert(v@ =~= Seq::new(k as nat, |_j: int| '0') + d@.take(j + 1));
        j += 1;
    }
    assert(d@.take(d@.len() as int) =~= d@);
    v
}

/// The decimal digits of a signed value.
pub fn dec_signed_chars(v: i64) -> (r: Vec<char>)
    ensures
        r@ == dec_signed(v as int),
{
    if v < 0 {
        let m: u64 = if v == i64::MIN {
            9223372036854775808u64
        } else {
            (-v) as u64
        };
        let d = dec_chars(m);
        let mut r: Vec<char> = Vec::new();
        r.push('-');
        let mut j: usize = 0;
        while j < d.len()
            invariant
                j <= d@.len(),
                r@ == seq!['-'] + d@.take(j as int),
            decreases d@.len() - j,
        {
            r.push(d[j]);
            assert(d@.take(j + 1) =~= d@.take(j as int).push(d@[j as int]));
            assert(r@ =~= seq!['-'] + d@.take(j + 1));
            j += 1;
        }
        assert(d@.take(d@.len() as int) =~= d@);
        r
    } else {
        dec_chars(v as u64)
    }
}

// ── UTF-8 lengths ────────────────────────────────────────────────────────────

/// Bytes that the UTF-8 encoding of `c` takes.
pub open spec fn utf8_width(c: char) -> int {
    if c <= '\u{7f}' {
        1
    } else if c <= '\u{7ff}' {
        2
    } else if c <= '\u{ffff}' {
        3
    } else {
        4
    }
}

/// Bytes that the UTF-8 encoding of `s` takes (`str::len`).
pub open spec fn utf8_len(s: Seq<char>) -> int
    decreases s.len(),
{
    if s.len() == 0 {
        0
    } else {
        utf8_len(s.drop_last()) + utf8_width(s.last())
    }
}

pub proof fn lemma_utf8_len_bounds(s: Seq<char>)
    ensures
        s.len() <= utf8_len(s) <= 4 * s.len(),
        utf8_len(s) == s.len() <==> all_ascii(s),
    decreases s.len(),
{
    if s.len() > 0 {
        lemma_utf8_len_bounds(s.drop_last());
        if all_ascii(s) {
            assert(all_ascii(s.drop_last())) by {
                assert forall|i: int| 0 <= i < s.len() - 1 implies is_ascii_char(
                    #[trigger] s.drop_last()[i],
                ) by {
                    assert(s.drop_last()[i] == s[i]);
                }
            }
            assert(is_ascii_char(s[s.len() - 1]));
        }
        if all_ascii(s.drop_last()) && is_ascii_char(s.last()) {
            assert forall|i: int| 0 <= i < s.len() implies is_ascii_char(#[trigger] s[i]) by {
                if i < s.len() - 1 {
                    assert(s.drop_last()[i] == s[i]);
                }
            }
        }
    }
}

/// `str::len` of the characters `s[from..to]`.
pub fn utf8_len_in(s: &[char], from: usize, to: usize) -> (n: usize)
    requires
        from <= to <= s@.len(),
        to - from <= usize::MAX / 4,
    ensures
        n == utf8_len(s@.subrange(from as int, to as int)),
{
    let mut n: usize = 0;
    let mut i = from;
    while i < to
        invariant
            from <= i <= to <= s@.len(),
            to - from <= usize::MAX / 4,
            n == utf8_len(s@.subrange(from as int, i as int)),
            n <= 4 * (i - from),
        decreases to - i,
    {
        let ghost nxt = s@.subrange(from as int, i + 1);
        assert(nxt.drop_last() =~= s@.subrange(from as int, i as int));
        proof {
            lemma_utf8_len_bounds(nxt);
        }
        let c = s[i];
        assert(nxt.last() == c);
        let w: usize = if c <= '\u{7f}' {
            1
        } else if c <= '\u{7ff}' {
            2
        } else if c <= '\u{ffff}' {
            3
        } else {
            4
        };
        n = n + w;
        i += 1;
    }
    n
}

} // verus!
