//! Formatting of record values for display and for date inputs, and the
//! order of the records table.
use vstd::prelude::*;
use vstd::string::*;
use crate::generator::{digits_of, lemma_digits_of_append, lemma_digits_of_digits, zero_date};
use crate::report::Severity;
use crate::validation::{details_view, DetailSpec, T2Detail};
use crate::text::{
    all_digits, chars_of, is_digit, is_digit_exec, push_char, string_of, utf8_len, utf8_width,
};

verus! {

// ── Asset type badges ────────────────────────────────────────────────────────

/// Label and badge style of an asset type (CLAVE_TIPO_BIEN).
pub open spec fn clave_label_spec(c: char) -> (Seq<char>, Seq<char>) {
    if c == 'C' {
        ("C"@, "badge-info"@)
    } else if c == 'V' {
        ("V"@, "badge-secondary"@)
    } else if c == 'I' {
        ("I"@, "badge-accent"@)
    } else if c == 'S' {
        ("S"@, "badge-warning"@)
    } else if c == 'B' {
        ("B"@, "badge-success"@)
    } else {
        ("?"@, "badge-ghost"@)
    }
}

/// Label and badge style of an asset type (CLAVE_TIPO_BIEN).
pub fn clave_label(c: char) -> (r: (&'static str, &'static str))
    ensures
        (r.0@, r.1@) == clave_label_spec(c),
{
    match c {
        'C' => ("C", "badge-info"),
        'V' => ("V", "badge-secondary"),
        'I' => ("I", "badge-accent"),
        'S' => ("S", "badge-warning"),
        'B' => ("B", "badge-success"),
        _ => ("?", "badge-ghost"),
    }
}

/// The code shown for an origin (ORIGEN): itself when it is A, M or C, `?`
/// otherwise.
pub open spec fn origen_code_spec(c: char) -> Seq<char> {
    if c == 'A' {
        "A"@
    } else if c == 'M' {
        "M"@
    } else if c == 'C' {
        "C"@
    } else {
        "?"@
    }
}

/// The code shown for an origin (ORIGEN).
pub fn origen_code(c: char) -> (r: &'static str)
    ensures
        r@ == origen_code_spec(c),
{
    match c {
        'A' => "A",
        'M' => "M",
        'C' => "C",
        _ => "?",
    }
}

/// Row and badge styles of a finding of the given severity.
pub open spec fn severity_style_spec(s: Severity) -> (Seq<char>, Seq<char>) {
    match s {
        Severity::Fatal => ("bg-error/10"@, "badge badge-error badge-sm font-mono"@),
        Severity::Error => ("bg-warning/10"@, "badge badge-warning badge-sm font-mono"@),
        Severity::Warning => ("bg-info/10"@, "badge badge-info badge-sm font-mono"@),
    }
}

/// Row and badge styles of a finding of the given severity.
pub fn severity_style(s: Severity) -> (r: (&'static str, &'static str))
    ensures
        (r.0@, r.1@) == severity_style_spec(s),
{
    match s {
        Severity::Fatal => ("bg-error/10", "badge badge-error badge-sm font-mono"),
        Severity::Error => ("bg-warning/10", "badge badge-warning badge-sm font-mono"),
        Severity::Warning => ("bg-info/10", "badge badge-info badge-sm font-mono"),
    }
}

// ── Status ───────────────────────────────────────────────────────────────────

/// What the status badge of a validation says.
#[derive(Debug, Clone, Copy, PartialEq, Eq, Structural)]
pub enum Status {
    /// Valid, without warnings.
    ValidClean,
    /// Valid, with this many warnings.
    ValidWithWarnings(usize),
    /// Not valid, with this many errors.
    Invalid(usize),
}

/// What the status badge says for a validation result.
pub open spec fn status_spec(is_valid: bool, error_count: usize, warning_count: usize) -> Status {
    if !is_valid {
        Status::Invalid(error_count)
    } else if warning_count > 0 {
        Status::ValidWithWarnings(warning_count)
    } else {
        Status::ValidClean
    }
}

/// What the status badge says for a validation result.
pub fn status_badge(is_valid: bool, error_count: usize, warning_count: usize) -> (r: Status)
    ensures
        r == status_spec(is_valid, error_count, warning_count),
{
    if is_valid {
        if warning_count > 0 {
            Status::ValidWithWarnings(warning_count)
        } else {
            Status::ValidClean
        }
    } else {
        Status::Invalid(error_count)
    }
}

// ── Dates ────────────────────────────────────────────────────────────────────

/// `YYYY-MM-DD` from the characters of a `YYYYMMDD` date.
pub open spec fn dashed(s: Seq<char>, a: int, b: int) -> Seq<char> {
    s.subrange(0, a) + seq!['-'] + s.subrange(a, b) + seq!['-'] + s.subrange(b, s.len() as int)
}

/// The character index at which `s` has consumed `b` bytes of UTF-8, if
/// there is one (a character boundary).
pub open spec fn byte_boundary(s: Seq<char>, b: int) -> Option<int> {
    if exists|i: int| 0 <= i <= s.len() && #[trigger] utf8_len(s.take(i)) == b {
        Some(choose|i: int| 0 <= i <= s.len() && #[trigger] utf8_len(s.take(i)) == b)
    } else {
        None
    }
}

/// `format_fecha` slices the bytes of an eight-byte date at 4 and 6; it
/// panics when one of them falls inside a character.
pub open spec fn fecha_panics(s: Seq<char>) -> bool {
    &&& utf8_len(s) == 8
    &&& s != zero_date()
    &&& (byte_boundary(s, 4) is None || byte_boundary(s, 6) is None)
}

/// What `format_fecha` shows for `s`.
pub open spec fn fecha_text(s: Seq<char>) -> Seq<char> {
    if utf8_len(s) == 8 && s != zero_date() {
        dashed(s, byte_boundary(s, 4).unwrap(), byte_boundary(s, 6).unwrap())
    } else {
        "—"@
    }
}

proof fn lemma_utf8_len_take_step(s: Seq<char>, i: int)
    requires
        0 <= i < s.len(),
    ensures
        utf8_len(s.take(i + 1)) == utf8_len(s.take(i)) + utf8_width(s[i]),
        utf8_width(s[i]) >= 1,
{
    assert(s.take(i + 1).drop_last() =~= s.take(i));
}

proof fn lemma_utf8_len_take_mono(s: Seq<char>, i: int, j: int)
    requires
        0 <= i < j <= s.len(),
    ensures
        utf8_len(s.take(i)) < utf8_len(s.take(j)),
    decreases j - i,
{
    lemma_utf8_len_take_step(s, j - 1);
    if i < j - 1 {
        lemma_utf8_len_take_mono(s, i, j - 1);
    }
}

/// The character index at which `s` has consumed `b` bytes of UTF-8.
fn boundary_index(s: &[char], b: usize) -> (r: Option<usize>)
    requires
        b <= 8,
    ensures
        r == (match byte_boundary(s@, b as int) {
            Some(i) => Some(i as usize),
            None => None::<usize>,
        }),
        r matches Some(i) ==> i <= s@.len() && utf8_len(s@.take(i as int)) == b,
{
    let mut acc: usize = 0;
    let mut i: usize = 0;
    assert(s@.take(0) =~= Seq::<char>::empty());
    while i < s.len() && acc < b
        invariant
            i <= s@.len(),
            acc == utf8_len(s@.take(i as int)),
            b <= 8,
            acc <= b + 4,
            forall|j: int| 0 <= j < i ==> #[trigger] utf8_len(s@.take(j)) < b,
        decreases s@.len() - i,
    {
        proof {
            lemma_utf8_len_take_step(s@, i as int);
        }
        let c = s[i];
        let w: usize = if c <= '\u{7f}' {
            1
        } else if c <= '\u{7ff}' {
            2
        } else if c <= '\u{ffff}' {
            3
        } else {
            4
        };
        acc = acc + w;
        i = i + 1;
    }
    if acc == b {
        assert(exists|k: int| 0 <= k <= s@.len() && #[trigger] utf8_len(s@.take(k)) == b as int);
        let ghost k = choose|k: int| 0 <= k <= s@.len() && #[trigger] utf8_len(s@.take(k)) == b as int;
        proof {
            if k < i {
                assert(utf8_len(s@.take(k)) < b);
            } else if k > i {
                lemma_utf8_len_take_mono(s@, i as int, k);
            }
        }
        Some(i)
    } else {
        proof {
            assert forall|k: int| 0 <= k <= s@.len() implies #[trigger] utf8_len(s@.take(k)) != b as int by {
                if k < i {
                } else if k > i {
                    lemma_utf8_len_take_mono(s@, i as int, k);
                }
            }
        }
        None
    }
}

fn is_zero_date(s: &[char]) -> (r: bool)
    ensures
        r == (s@ == zero_date()),
{
    if s.len() != 8 {
        return false;
    }
    let mut i: usize = 0;
    while i < 8
        invariant
            s@.len() == 8,
            i <= 8,
            forall|k: int| 0 <= k < i ==> s@[k] == '0',
        decreases 8 - i,
    {
        if s[i] != '0' {
            assert(s@[i as int] != zero_date()[i as int]);
            return false;
        }
        i += 1;
    }
    assert(s@ =~= zero_date());
    true
}

fn push_range(r: &mut String, s: &[char], from: usize, to: usize)
    requires
        from <= to <= s@.len(),
    ensures
        final(r)@ == old(r)@ + s@.subrange(from as int, to as int),
{
    let ghost start = r@;
    let mut i = from;
    while i < to
        invariant
            from <= i <= to <= s@.len(),
            r@ == start + s@.subrange(from as int, i as int),
        decreases to - i,
    {
        push_char(r, s[i]);
        assert(s@.subrange(from as int, i + 1) =~= s@.subrange(from as int, i as int).push(
            s@[i as int],
        ));
        i += 1;
    }
}

fn dashed_string(s: &[char], a: usize, b: usize) -> (r: String)
    requires
        a <= b <= s@.len(),
    ensures
        r@ == dashed(s@, a as int, b as int),
{
    let mut r = String::new();
    push_range(&mut r, s, 0, a);
    push_char(&mut r, '-');
    push_range(&mut r, s, a, b);
    push_char(&mut r, '-');
    push_range(&mut r, s, b, s.len());
    assert(r@ =~= dashed(s@, a as int, b as int));
    r
}

/// `YYYYMMDD` → `YYYY-MM-DD` for display, or `"—"` for an empty date
/// (`"00000000"`) or one that is not eight bytes long.
pub fn format_fecha(s: &str) -> (r: String)
    requires
        !fecha_panics(s@),
    ensures
        r@ == fecha_text(s@),
{
    let cs = chars_of(s);
    let mut n: usize = 0;
    let mut i: usize = 0;
    assert(cs@.take(0) =~= Seq::<char>::empty());
    while i < cs.len() && n <= 8
        invariant
            cs@ == s@,
            i <= cs@.len(),
            n == utf8_len(cs@.take(i as int)),
            n <= 12,
        decreases cs@.len() - i,
    {
        proof {
            lemma_utf8_len_take_step(cs@, i as int);
        }
        let c = cs[i];
        let w: usize = if c <= '\u{7f}' {
            1
        } else if c <= '\u{7ff}' {
            2
        } else if c <= '\u{ffff}' {
            3
        } else {
            4
        };
        n = n + w;
        i = i + 1;
    }
    let eight = i == cs.len() && n == 8;
    proof {
        assert(cs@.take(cs@.len() as int) =~= cs@);
        if i < cs@.len() {
            lemma_utf8_len_take_mono(cs@, i as int, cs@.len() as int);
        }
    }
    if eight && !is_zero_date(cs.as_slice()) {
        let a = boundary_index(cs.as_slice(), 4);
        let b = boundary_index(cs.as_slice(), 6);
        match (a, b) {
            (Some(a), Some(b)) => {
                proof {
                    if a > b {
                        lemma_utf8_len_take_mono(cs@, b as int, a as int);
                    }
                }
                dashed_string(cs.as_slice(), a, b)
            },
            _ => {
                String::from_str("—")
            },
        }
    } else {
        String::from_str("—")
    }
}

/// What `date_to_html` gives for `d`.
pub open spec fn html_date(d: Seq<char>) -> Seq<char> {
    if d.len() == 8 && d != zero_date() && all_digits(d) {
        dashed(d, 4, 6)
    } else {
        Seq::empty()
    }
}

/// `YYYYMMDD` → `YYYY-MM-DD` (for a date input), empty when `d` is not a
/// set date of eight ASCII digits.
pub fn date_to_html(d: &str) -> (r: String)
    ensures
        r@ == html_date(d@),
{
    let cs = chars_of(d);
    if cs.len() != 8 || is_zero_date(cs.as_slice()) {
        return String::new();
    }
    let mut i: usize = 0;
    while i < 8
        invariant
            cs@ == d@,
            cs@.len() == 8,
            i <= 8,
            forall|k: int| 0 <= k < i ==> is_digit(#[trigger] cs@[k]),
        decreases 8 - i,
    {
        if !is_digit_exec(cs[i]) {
            return String::new();
        }
        i += 1;
    }
    dashed_string(cs.as_slice(), 4, 6)
}

/// What `html_to_date` gives for `d`.
pub open spec fn compact_date(d: Seq<char>) -> Seq<char> {
    if digits_of(d).len() == 8 {
        digits_of(d)
    } else {
        zero_date()
    }
}

/// `YYYY-MM-DD` → `YYYYMMDD`: the digits of `d` when there are eight of
/// them, else `"00000000"`.
pub fn html_to_date(d: &str) -> (r: String)
    ensures
        r@ == compact_date(d@),
{
    let cs = chars_of(d);
    let mut digits: Vec<char> = Vec::new();
    let mut i: usize = 0;
    while i < cs.len()
        invariant
            cs@ == d@,
            i <= cs@.len(),
            digits@ == digits_of(cs@.take(i as int)),
        decreases cs@.len() - i,
    {
        assert(cs@.take(i + 1).drop_last() =~= cs@.take(i as int));
        if is_digit_exec(cs[i]) {
            digits.push(cs[i]);
        }
        i += 1;
    }
    assert(cs@.take(cs@.len() as int) =~= cs@);
    if digits.len() == 8 {
        string_of(digits.as_slice())
    } else {
        proof {
            reveal_strlit("00000000");
        }
        let z = String::from_str("00000000");
        assert(z@ =~= zero_date());
        z
    }
}

/// A date of eight digits survives the round trip through a date input:
/// `html_to_date(&date_to_html(d)) == d`, the unset date `"00000000"`
/// included (it goes out as `""` and comes back as `"00000000"`).
pub proof fn law_html_date_round_trip(d: Seq<char>)
    requires
        d.len() == 8,
        all_digits(d),
    ensures
        compact_date(html_date(d)) == d,
{
    if d == zero_date() {
        assert(html_date(d) == Seq::<char>::empty());
        assert(digits_of(Seq::<char>::empty()) == Seq::<char>::empty());
    } else {
        let a = d.subrange(0, 4);
        let b = d.subrange(4, 6);
        let c = d.subrange(6, 8);
        let dash = seq!['-'];
        assert(digits_of(dash) == Seq::<char>::empty()) by {
            assert(dash.drop_last() =~= Seq::<char>::empty());
            assert(dash.last() == '-');
            assert(!is_digit('-'));
            assert(digits_of(Seq::<char>::empty()) == Seq::<char>::empty());
        }
        assert(all_digits(a) && all_digits(b) && all_digits(c)) by {
            assert forall|i: int| 0 <= i < 4 implies is_digit(#[trigger] a[i]) by {
                assert(a[i] == d[i]);
            }
            assert forall|i: int| 0 <= i < 2 implies is_digit(#[trigger] b[i]) by {
                assert(b[i] == d[i + 4]);
            }
            assert forall|i: int| 0 <= i < 2 implies is_digit(#[trigger] c[i]) by {
                assert(c[i] == d[i + 6]);
            }
        }
        lemma_digits_of_digits(a);
        lemma_digits_of_digits(b);
        lemma_digits_of_digits(c);
        lemma_digits_of_append(a, dash);
        lemma_digits_of_append(a + dash, b);
        lemma_digits_of_append(a + dash + b, dash);
        lemma_digits_of_append(a + dash + b + dash, c);
        assert(html_date(d) == a + dash + b + dash + c);
        assert(a + b + c =~= d);
        assert(digits_of(html_date(d)) =~= d);
    }
}

// ── Sorting the records table ────────────────────────────────────────────────

/// The columns the records table can be sorted by.
#[derive(Debug, Clone, Copy, PartialEq, Eq, Structural)]
pub enum SortCol {
    Line,
    Bien,
    Pais,
    Fecha,
    Origen,
    Val1,
    Val2,
}

/// The order of `String`s: lexicographic by character (UTF-8 byte order
/// is code point order).
pub open spec fn text_lt(a: Seq<char>, b: Seq<char>) -> bool
    decreases a.len(),
{
    if a.len() == 0 {
        b.len() > 0
    } else if b.len() == 0 {
        false
    } else if a[0] != b[0] {
        a[0] < b[0]
    } else {
        text_lt(a.drop_first(), b.drop_first())
    }
}

pub proof fn lemma_text_lt_asym(a: Seq<char>, b: Seq<char>)
    ensures
        text_lt(a, b) ==> !text_lt(b, a),
    decreases a.len(),
{
    if a.len() > 0 && b.len() > 0 && a[0] == b[0] {
        lemma_text_lt_asym(a.drop_first(), b.drop_first());
    }
}

pub proof fn lemma_text_lt_trans(a: Seq<char>, b: Seq<char>, c: Seq<char>)
    ensures
        text_lt(a, b) && text_lt(b, c) ==> text_lt(a, c),
    decreases a.len(),
{
    if a.len() > 0 && b.len() > 0 && c.len() > 0 {
        lemma_text_lt_trans(a.drop_first(), b.drop_first(), c.drop_first());
    }
}

pub proof fn lemma_text_lt_total(a: Seq<char>, b: Seq<char>)
    ensures
        a != b ==> text_lt(a, b) || text_lt(b, a),
    decreases a.len(),
{
    if a.len() > 0 && b.len() > 0 && a[0] == b[0] {
        lemma_text_lt_total(a.drop_first(), b.drop_first());
        if a.drop_first() == b.drop_first() {
            assert(a =~= seq![a[0]] + a.drop_first());
            assert(b =~= seq![b[0]] + b.drop_first());
        }
    } else if a.len() == 0 && b.len() == 0 {
        assert(a =~= b);
    }
}

/// Whether record `a` comes strictly before record `b` in ascending order
/// of `col`.
pub open spec fn key_lt(a: DetailSpec, b: DetailSpec, col: SortCol) -> bool {
    match col {
        SortCol::Line => a.line < b.line,
        SortCol::Bien => a.clave_bien < b.clave_bien || (a.clave_bien == b.clave_bien
            && a.subclave < b.subclave),
        SortCol::Pais => text_lt(a.codigo_pais, b.codigo_pais),
        SortCol::Fecha => text_lt(a.fecha_incorporacion, b.fecha_incorporacion),
        SortCol::Origen => a.origen < b.origen,
        SortCol::Val1 => a.valoracion1_cents < b.valoracion1_cents,
        SortCol::Val2 => a.valoracion2_cents < b.valoracion2_cents,
    }
}

/// Whether `a` comes strictly before `b` when sorting by `col`, ascending
/// when `asc` holds and descending otherwise.
pub open spec fn sorts_before(a: DetailSpec, b: DetailSpec, col: SortCol, asc: bool) -> bool {
    if asc {
        key_lt(a, b, col)
    } else {
        key_lt(b, a, col)
    }
}

/// `sorts_before` is a strict weak order.
proof fn lemma_sorts_before_order(a: DetailSpec, b: DetailSpec, c: DetailSpec, col: SortCol, asc: bool)
    ensures
        sorts_before(a, b, col, asc) ==> !sorts_before(b, a, col, asc),
        sorts_before(a, b, col, asc) && sorts_before(b, c, col, asc) ==> sorts_before(a, c, col, asc),
        sorts_before(a, b, col, asc) ==> sorts_before(a, c, col, asc) || sorts_before(c, b, col, asc),
{
    lemma_text_lt_asym(a.codigo_pais, b.codigo_pais);
    lemma_text_lt_asym(b.codigo_pais, a.codigo_pais);
    lemma_text_lt_asym(a.fecha_incorporacion, b.fecha_incorporacion);
    lemma_text_lt_asym(b.fecha_incorporacion, a.fecha_incorporacion);
    lemma_text_lt_trans(a.codigo_pais, b.codigo_pais, c.codigo_pais);
    lemma_text_lt_trans(c.codigo_pais, b.codigo_pais, a.codigo_pais);
    lemma_text_lt_trans(a.fecha_incorporacion, b.fecha_incorporacion, c.fecha_incorporacion);
    lemma_text_lt_trans(c.fecha_incorporacion, b.fecha_incorporacion, a.fecha_incorporacion);
    // connectedness: compare the third element with the first
    lemma_text_lt_total(a.codigo_pais, c.codigo_pais);
    lemma_text_lt_total(a.fecha_incorporacion, c.fecha_incorporacion);
    lemma_text_lt_trans(c.codigo_pais, a.codigo_pais, b.codigo_pais);
    lemma_text_lt_trans(b.codigo_pais, a.codigo_pais, c.codigo_pais);
    lemma_text_lt_trans(c.fecha_incorporacion, a.fecha_incorporacion, b.fecha_incorporacion);
    lemma_text_lt_trans(b.fecha_incorporacion, a.fecha_incorporacion, c.fecha_incorporacion);
    lemma_text_lt_trans(a.codigo_pais, c.codigo_pais, b.codigo_pais);
    lemma_text_lt_trans(b.codigo_pais, c.codigo_pais, a.codigo_pais);
    lemma_text_lt_trans(a.fecha_incorporacion, c.fecha_incorporacion, b.fecha_incorporacion);
    lemma_text_lt_trans(b.fecha_incorporacion, c.fecha_incorporacion, a.fecha_incorporacion);
}

/// `p` lists each of `0..n` exactly once.
pub open spec fn is_permutation(p: Seq<int>, n: int) -> bool {
    &&& p.len() == n
    &&& forall|i: int| 0 <= i < n ==> 0 <= #[trigger] p[i] < n
    &&& forall|i: int, j: int| 0 <= i < j < n ==> p[i] != p[j]
}

/// `out` holds the records of `input` through the permutation `p`, sorted
/// by `col`, with tied records in their original order.
pub open spec fn stable_sorted_by(
    input: Seq<DetailSpec>,
    out: Seq<DetailSpec>,
    p: Seq<int>,
    col: SortCol,
    asc: bool,
) -> bool {
    &&& is_permutation(p, input.len() as int)
    &&& out.len() == input.len()
    &&& forall|i: int| 0 <= i < out.len() ==> #[trigger] out[i] == input[p[i]]
    &&& forall|i: int, j: int|
        0 <= i < j < out.len() ==> !sorts_before(#[trigger] out[j], #[trigger] out[i], col, asc)
    &&& forall|i: int, j: int|
        0 <= i < j < out.len() && !sorts_before(out[i], out[j], col, asc) ==> #[trigger] p[i]
            < #[trigger] p[j]
}

/// `out` is `input` sorted by `col` (ascending when `asc`), records that
/// tie keeping their order: the result of a stable sort.
pub open spec fn stable_sorted(
    input: Seq<DetailSpec>,
    out: Seq<DetailSpec>,
    col: SortCol,
    asc: bool,
) -> bool {
    exists|p: Seq<int>| stable_sorted_by(input, out, p, col, asc)
}

/// `a < b` in the order of `String`s.
fn text_less(a: &str, b: &str) -> (r: bool)
    ensures
        r == text_lt(a@, b@),
{
    let x = chars_of(a);
    let y = chars_of(b);
    let mut i: usize = 0;
    assert(x@.skip(0) =~= x@);
    assert(y@.skip(0) =~= y@);
    while i < x.len() && i < y.len() && x[i] == y[i]
        invariant
            i <= x@.len(),
            i <= y@.len(),
            text_lt(x@, y@) == text_lt(x@.skip(i as int), y@.skip(i as int)),
        decreases x@.len() - i,
    {
        assert(x@.skip(i + 1) =~= x@.skip(i as int).drop_first());
        assert(y@.skip(i + 1) =~= y@.skip(i as int).drop_first());
        i += 1;
    }
    if i == x.len() {
        i < y.len()
    } else if i == y.len() {
        false
    } else {
        x[i] < y[i]
    }
}

fn key_less(a: &T2Detail, b: &T2Detail, col: SortCol) -> (r: bool)
    ensures
        r == key_lt(a@, b@, col),
{
    match col {
        SortCol::Line => a.line < b.line,
        SortCol::Bien => a.clave_bien < b.clave_bien || (a.clave_bien == b.clave_bien
            && a.subclave < b.subclave),
        SortCol::Pais => text_less(a.codigo_pais.as_str(), b.codigo_pais.as_str()),
        SortCol::Fecha => text_less(a.fecha_incorporacion.as_str(), b.fecha_incorporacion.as_str()),
        SortCol::Origen => a.origen < b.origen,
        SortCol::Val1 => a.valoracion1_cents < b.valoracion1_cents,
        SortCol::Val2 => a.valoracion2_cents < b.valoracion2_cents,
    }
}

fn comes_before(a: &T2Detail, b: &T2Detail, col: SortCol, asc: bool) -> (r: bool)
    ensures
        r == sorts_before(a@, b@, col, asc),
{
    if asc {
        key_less(a, b, col)
    } else {
        key_less(b, a, col)
    }
}

/// Sorts the records of the table by `col`, ascending when `asc` holds and
/// descending otherwise; records that tie keep their order.
pub fn sort_details(records: &mut Vec<T2Detail>, col: SortCol, asc: bool)
    ensures
        stable_sorted(details_view(old(records)@), details_view(final(records)@), col, asc),
{
    let mut rest: Vec<T2Detail> = Vec::new();
    core::mem::swap(records, &mut rest);
    let ghost input = details_view(rest@);
    let ghost all = rest@;
    let ghost mut p: Seq<int> = Seq::empty();
    let mut k: usize = 0;
    assert(all.len() == rest.len());
    while rest.len() > 0
        invariant
            all.len() <= usize::MAX,
            input == details_view(all),
            k + rest@.len() == all.len(),
            rest@ == all.skip(k as int),
            stable_sorted_by(input.take(k as int), details_view(records@), p, col, asc),
        decreases rest@.len(),
    {
        let x = rest.remove(0);
        assert(all.skip(k + 1) =~= all.skip(k as int).drop_first());
        assert(x@ == input[k as int]);
        let ghost out = details_view(records@);
        let mut j: usize = 0;
        while j < records.len() && !comes_before(&x, &records[j], col, asc)
            invariant
                j <= records@.len(),
                out == details_view(records@),
                forall|i: int| 0 <= i < j ==> !sorts_before(x@, #[trigger] out[i], col, asc),
            decreases records@.len() - j,
        {
            j += 1;
        }
        proof {
            assert(j < out.len() ==> sorts_before(x@, out[j as int], col, asc));
        }
        records.insert(j, x);
        proof {
            let ghost q = p.insert(j as int, k as int);
            let ghost out2 = details_view(records@);
            assert(out2 =~= out.insert(j as int, x@));
            let prev = input.take(k as int);
            let next = input.take(k + 1);
            assert forall|i: int| 0 <= i < k implies #[trigger] next[i] == prev[i] by {}
            assert(next[k as int] == x@);
            // the permutation
            assert forall|i: int| 0 <= i < k + 1 implies 0 <= #[trigger] q[i] < k + 1 by {
                if i < j {
                    assert(q[i] == p[i]);
                } else if i > j {
                    assert(q[i] == p[i - 1]);
                }
            }
            assert forall|a: int, b: int| 0 <= a < b < k + 1 implies q[a] != q[b] by {
                if a < j && b < j {
                    assert(q[a] == p[a] && q[b] == p[b]);
                } else if a < j && b == j {
                    assert(q[a] == p[a]);
                } else if a < j {
                    assert(q[a] == p[a] && q[b] == p[b - 1]);
                } else if a == j {
                    assert(q[b] == p[b - 1]);
                } else {
                    assert(q[a] == p[a - 1] && q[b] == p[b - 1]);
                }
            }
            assert forall|i: int| 0 <= i < out2.len() implies #[trigger] out2[i] == next[q[i]] by {
                if i < j {
                    assert(out2[i] == out[i] && q[i] == p[i]);
                } else if i > j {
                    assert(out2[i] == out[i - 1] && q[i] == p[i - 1]);
                }
            }
            // sorted
            assert forall|a: int, b: int| 0 <= a < b < out2.len() implies !sorts_before(
                #[trigger] out2[b],
                #[trigger] out2[a],
                col,
                asc,
            ) by {
                if a < j && b < j {
                    assert(out2[a] == out[a] && out2[b] == out[b]);
                } else if a < j && b == j {
                    assert(out2[a] == out[a]);
                } else if a < j {
                    assert(out2[a] == out[a] && out2[b] == out[b - 1]);
                } else if a == j {
                    assert(out2[b] == out[b - 1]);
                    lemma_sorts_before_order(out[b - 1], x@, out[j as int], col, asc);
                    if b - 1 > j {
                        assert(!sorts_before(out[b - 1], out[j as int], col, asc));
                    }
                } else {
                    assert(out2[a] == out[a - 1] && out2[b] == out[b - 1]);
                }
            }
            // stable
            assert forall|a: int, b: int|
                0 <= a < b < out2.len() && !sorts_before(out2[a], out2[b], col, asc) implies #[trigger] q[a]
                < #[trigger] q[b] by {
                if a < j && b < j {
                    assert(out2[a] == out[a] && out2[b] == out[b]);
                    assert(q[a] == p[a] && q[b] == p[b]);
                } else if a < j && b == j {
                    assert(q[a] == p[a]);
                } else if a < j {
                    assert(out2[a] == out[a] && out2[b] == out[b - 1]);
                    assert(q[a] == p[a] && q[b] == p[b - 1]);
                } else if a == j {
                    assert(out2[b] == out[b - 1]);
                    lemma_sorts_before_order(x@, out[j as int], out[b - 1], col, asc);
                    if b - 1 > j {
                        assert(!sorts_before(out[b - 1], out[j as int], col, asc));
                    }
                } else {
                    assert(out2[a] == out[a - 1] && out2[b] == out[b - 1]);
                    assert(q[a] == p[a - 1] && q[b] == p[b - 1]);
                }
            }
            assert(stable_sorted_by(next, out2, q, col, asc));
            p = q;
        }
        k += 1;
    }
    assert(input.take(input.len() as int) =~= input);
}

} // verus!
