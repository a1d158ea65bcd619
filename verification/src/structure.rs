//! The file as a whole: its lines, and the structural (fatal) checks
//! E002–E007 that decide whether the records can be read by position.
use vstd::prelude::*;
use crate::parser::{ejercicio_of, modelo_of, tipo_of};
use crate::report::{emit_if, fatal_spec, msg_char, msg_chars, push_finding, push_when, views, ErrorSpec, ValidationError};
use crate::text::{all_digits, all_digits_in, dec, dec_chars, digits_value, digits_value_in, eq_in, lemma_digits_value_bounds, pow10};

verus! {

// ── Lines ────────────────────────────────────────────────────────────────────

/// Whether `t` holds a CRLF pair.
pub open spec fn has_crlf(t: Seq<char>) -> bool {
    exists|i: int| 0 <= i < t.len() - 1 && #[trigger] t[i] == '\r' && t[i + 1] == '\n'
}

/// A separator (CRLF, or LF when `crlf` is false) starts at `i`.
pub open spec fn is_sep(t: Seq<char>, crlf: bool, i: int) -> bool {
    if crlf {
        0 <= i && i + 1 < t.len() && t[i] == '\r' && t[i + 1] == '\n'
    } else {
        0 <= i < t.len() && t[i] == '\n'
    }
}

pub open spec fn sep_len(crlf: bool) -> int {
    if crlf {
        2
    } else {
        1
    }
}

/// The non-empty pieces of `t`, from the piece that starts at `start` on,
/// scanning for separators from `i`.
pub open spec fn lines_from(t: Seq<char>, crlf: bool, start: int, i: int) -> Seq<Seq<char>>
    decreases t.len() - i,
{
    if i >= t.len() {
        if start < t.len() {
            seq![t.subrange(start, t.len() as int)]
        } else {
            Seq::empty()
        }
    } else if is_sep(t, crlf, i) {
        (if start < i {
            seq![t.subrange(start, i)]
        } else {
            Seq::empty()
        }) + lines_from(t, crlf, i + sep_len(crlf), i + sep_len(crlf))
    } else {
        lines_from(t, crlf, start, i + 1)
    }
}

/// The lines of a file: `t` split at CRLF when it holds one and at LF
/// otherwise, without the empty pieces.
pub open spec fn file_lines(t: Seq<char>) -> Seq<Seq<char>> {
    lines_from(t, has_crlf(t), 0, 0)
}

pub open spec fn lines_view(ls: Seq<Vec<char>>) -> Seq<Seq<char>> {
    ls.map_values(|l: Vec<char>| l@)
}

fn has_crlf_exec(t: &[char]) -> (r: bool)
    ensures
        r == has_crlf(t@),
{
    if t.len() < 2 {
        return false;
    }
    let mut i: usize = 0;
    while i < t.len() - 1
        invariant
            t@.len() >= 2,
            i <= t@.len(),
            forall|k: int| 0 <= k < i ==> !(#[trigger] t@[k] == '\r' && t@[k + 1] == '\n'),
        decreases t@.len() - i,
    {
        if t[i] == '\r' && t[i + 1] == '\n' {
            return true;
        }
        i += 1;
    }
    false
}

/// The lines of a file (see `file_lines`).
pub fn split_lines(t: &[char]) -> (ls: Vec<Vec<char>>)
    ensures
        lines_view(ls@) == file_lines(t@),
{
    let crlf = has_crlf_exec(t);
    let step: usize = if crlf {
        2
    } else {
        1
    };
    let mut out: Vec<Vec<char>> = Vec::new();
    let mut cur: Vec<char> = Vec::new();
    let mut start: usize = 0;
    let mut i: usize = 0;
    while i < t.len()
        invariant
            start <= i <= t@.len(),
            step == sep_len(crlf),
            cur@ == t@.subrange(start as int, i as int),
            lines_view(out@) + lines_from(t@, crlf, start as int, i as int) == file_lines(t@),
        decreases t@.len() - i,
    {
        let sep = if crlf {
            i + 1 < t.len() && t[i] == '\r' && t[i + 1] == '\n'
        } else {
            t[i] == '\n'
        };
        if sep {
            let ghost before = lines_view(out@);
            if start < i {
                out.push(cur);
                assert(lines_view(out@) =~= before + seq![t@.subrange(start as int, i as int)]);
            } else {
                assert(lines_view(out@) =~= before + Seq::<Seq<char>>::empty());
            }
            cur = Vec::new();
            i = i + step;
            start = i;
            assert(cur@ =~= t@.subrange(start as int, i as int));
        } else {
            cur.push(t[i]);
            assert(t@.subrange(start as int, i + 1) =~= t@.subrange(start as int, i as int).push(
                t@[i as int],
            ));
            i += 1;
        }
    }
    if start < t.len() {
        let ghost before = lines_view(out@);
        out.push(cur);
        assert(lines_view(out@) =~= before + seq![t@.subrange(start as int, t@.len() as int)]);
    } else {
        assert(lines_view(out@) =~= lines_view(out@) + Seq::<Seq<char>>::empty());
    }
    out
}

// ── Line endings ──────────────────────────────────────────────────────────────

/// The lines `ls`, each followed by `sep`.
pub open spec fn joined(ls: Seq<Seq<char>>, sep: Seq<char>) -> Seq<char>
    decreases ls.len(),
{
    if ls.len() == 0 {
        Seq::empty()
    } else {
        joined(ls.drop_last(), sep) + ls.last() + sep
    }
}

/// The lines of `ls` that are not empty, in order.
pub open spec fn non_empty(ls: Seq<Seq<char>>) -> Seq<Seq<char>>
    decreases ls.len(),
{
    if ls.len() == 0 {
        Seq::empty()
    } else if ls[0].len() == 0 {
        non_empty(ls.drop_first())
    } else {
        seq![ls[0]] + non_empty(ls.drop_first())
    }
}

pub open spec fn separator(crlf: bool) -> Seq<char> {
    if crlf {
        seq!['\r', '\n']
    } else {
        seq!['\n']
    }
}

/// Lines that read back as themselves whatever the line ending: no line
/// feed in any of them, and none ending in a carriage return.
pub open spec fn plain_lines(ls: Seq<Seq<char>>) -> bool {
    &&& forall|i: int, j: int| 0 <= i < ls.len() && 0 <= j < ls[i].len() ==> #[trigger] ls[i][j] != '\n'
    &&& forall|i: int| 0 <= i < ls.len() && (#[trigger] ls[i]).len() > 0 ==> ls[i][ls[i].len() - 1] != '\r'
}

proof fn lemma_joined_append(a: Seq<Seq<char>>, b: Seq<Seq<char>>, sep: Seq<char>)
    ensures
        joined(a + b, sep) == joined(a, sep) + joined(b, sep),
    decreases b.len(),
{
    if b.len() == 0 {
        assert(a + b =~= a);
        assert(joined(a, sep) + joined(b, sep) =~= joined(a, sep));
    } else {
        lemma_joined_append(a, b.drop_last(), sep);
        assert((a + b).drop_last() =~= a + b.drop_last());
        assert((a + b).last() == b.last());
        assert(joined(a + b, sep) =~= joined(a, sep) + joined(b, sep));
    }
}

/// Scanning inside a line finds no separator.
pub(crate) proof fn lemma_scan_line(t: Seq<char>, crlf: bool, s: int, i: int, j: int)
    requires
        0 <= s <= i <= j <= t.len(),
        forall|q: int| i <= q < j ==> !is_sep(t, crlf, q),
    ensures
        lines_from(t, crlf, s, i) == lines_from(t, crlf, s, j),
    decreases j - i,
{
    if i < j {
        assert(!is_sep(t, crlf, i));
        lemma_scan_line(t, crlf, s, i + 1, j);
    }
}

/// From the start of its `k`-th line on, the text of `ls` splits into the
/// remaining non-empty lines.
proof fn lemma_lines_from_joined(ls: Seq<Seq<char>>, crlf: bool, k: int)
    requires
        plain_lines(ls),
        0 <= k <= ls.len(),
    ensures
        lines_from(
            joined(ls, separator(crlf)),
            crlf,
            joined(ls.take(k), separator(crlf)).len() as int,
            joined(ls.take(k), separator(crlf)).len() as int,
        ) == non_empty(ls.skip(k)),
    decreases ls.len() - k,
{
    let sep = separator(crlf);
    let t = joined(ls, sep);
    let a = joined(ls.take(k), sep).len() as int;
    lemma_joined_append(ls.take(k), ls.skip(k), sep);
    assert(ls.take(k) + ls.skip(k) =~= ls);
    if k == ls.len() {
        assert(ls.skip(k) =~= Seq::<Seq<char>>::empty());
        assert(joined(ls.skip(k), sep) =~= Seq::<char>::empty());
        assert(a == t.len());
    } else {
        let l = ls[k];
        assert(forall|j: int| 0 <= j < l.len() ==> l[j] != '\n') by {
            assert forall|j: int| 0 <= j < l.len() implies l[j] != '\n' by {
                assert(ls[k][j] != '\n');
            }
        }
        lemma_lines_from_joined(ls, crlf, k + 1);
        // the text from `a` on: the line, its separator, then the rest
        lemma_joined_append(ls.take(k + 1), ls.skip(k + 1), sep);
        assert(ls.take(k + 1) + ls.skip(k + 1) =~= ls);
        assert(ls.take(k + 1).drop_last() =~= ls.take(k));
        assert(ls.take(k + 1).last() == l);
        let p = joined(ls.take(k), sep);
        let r = joined(ls.skip(k + 1), sep);
        assert(t =~= p + l + sep + r);
        let b = a + l.len();
        assert forall|q: int| a <= q < b implies !is_sep(t, crlf, q) by {
            assert(t[q] == l[q - a]);
            assert(l[q - a] != '\n');
            if crlf && q + 1 < b {
                assert(t[q + 1] == l[q + 1 - a]);
                assert(l[q + 1 - a] != '\n');
            } else if crlf {
                assert(t[q + 1] == sep[0]);
            }
        }
        lemma_scan_line(t, crlf, a, a, b);
        assert(t[b] == sep[0]);
        if crlf {
            assert(t[b + 1] == sep[1]);
        }
        assert(is_sep(t, crlf, b));
        assert(joined(ls.take(k + 1), sep).len() == b + sep_len(crlf));
        assert(ls.skip(k).drop_first() =~= ls.skip(k + 1));
        assert(ls.skip(k)[0] == l);
        if l.len() > 0 {
            assert(t.subrange(a, b) =~= l);
        }
    }
}

/// Text joined with LF holds no CRLF pair.
proof fn lemma_no_crlf_in_lf_text(ls: Seq<Seq<char>>)
    requires
        plain_lines(ls),
    ensures
        !has_crlf(joined(ls, separator(false))),
    decreases ls.len(),
{
    if ls.len() > 0 {
        let q = ls.drop_last();
        assert(plain_lines(q)) by {
            assert forall|i: int, j: int| 0 <= i < q.len() && 0 <= j < q[i].len() implies #[trigger] q[i][j] != '\n' by {
                assert(q[i] == ls[i]);
            }
            assert forall|i: int| 0 <= i < q.len() && (#[trigger] q[i]).len() > 0 implies q[i][q[i].len() - 1] != '\r' by {
                assert(q[i] == ls[i]);
            }
        }
        lemma_no_crlf_in_lf_text(q);
        let p = joined(q, separator(false));
        let l = ls.last();
        assert(ls[ls.len() - 1] == l);
        let t = joined(ls, separator(false));
        assert(t =~= p + l + seq!['\n']);
        assert forall|i: int| 0 <= i < t.len() - 1 implies !(#[trigger] t[i] == '\r' && t[i + 1]
            == '\n') by {
            if i + 1 < p.len() {
                assert(t[i] == p[i] && t[i + 1] == p[i + 1]);
            } else if i + 1 < p.len() + l.len() {
                assert(t[i + 1] == l[i + 1 - p.len()]);
            } else if l.len() > 0 {
                assert(t[i] == l[l.len() - 1]);
                assert(ls[ls.len() - 1][ls[ls.len() - 1].len() - 1] != '\r');
            } else {
                assert(t[i] == p[i]);
                assert(p.len() > 0 ==> p[p.len() - 1] == '\n') by {
                    if q.len() > 0 {
                        assert(p =~= joined(q.drop_last(), separator(false)) + q.last() + seq!['\n']);
                    }
                }
            }
        }
    }
}

/// Lines with no line feed, none ending in a carriage return, read back as
/// the same lines (the empty ones dropped) whether the file ends them with
/// CRLF or with LF alone: the validator and the importer see the same
/// records either way.
pub proof fn law_line_endings_read_alike(ls: Seq<Seq<char>>)
    requires
        plain_lines(ls),
    ensures
        file_lines(joined(ls, separator(true))) == non_empty(ls),
        file_lines(joined(ls, separator(false))) == non_empty(ls),
{
    assert(ls.take(0) =~= Seq::<Seq<char>>::empty());
    assert(ls.skip(0) =~= ls);
    lemma_lines_from_joined(ls, true, 0);
    lemma_lines_from_joined(ls, false, 0);
    lemma_no_crlf_in_lf_text(ls);
    let t = joined(ls, separator(true));
    if ls.len() > 0 {
        // the first separator is a CRLF pair
        lemma_joined_append(seq![ls[0]], ls.drop_first(), separator(true));
        assert(seq![ls[0]] + ls.drop_first() =~= ls);
        assert(seq![ls[0]].drop_last() =~= Seq::<Seq<char>>::empty());
        assert(joined(seq![ls[0]], separator(true)) =~= ls[0] + seq!['\r', '\n']);
        let i = ls[0].len() as int;
        assert(t[i] == '\r' && t[i + 1] == '\n');
        assert(has_crlf(t));
    }
}

// ── Structural checks ────────────────────────────────────────────────────────

/// `rule` applied to each of the first `k` lines (line numbers from 1).
pub open spec fn per_line(
    ls: Seq<Seq<char>>,
    k: int,
    rule: spec_fn(Seq<char>, int) -> Seq<ErrorSpec>,
) -> Seq<ErrorSpec>
    decreases k,
{
    if k <= 0 {
        Seq::empty()
    } else {
        per_line(ls, k - 1, rule) + rule(ls[k - 1], k)
    }
}

pub open spec fn e002_rule(l: Seq<char>, n: int) -> Seq<ErrorSpec> {
    emit_if(
        l.len() != 500,
        fatal_spec(
            "E002"@,
            n,
            "REGISTRO"@,
            "Longitud de línea incorrecta: "@ + dec(l.len()) + " (esperado 500)"@,
        ),
    )
}

pub open spec fn e005_rule(l: Seq<char>, n: int) -> Seq<ErrorSpec> {
    let t = tipo_of(l);
    emit_if(
        t != '1' && t != '2',
        fatal_spec(
            "E005"@,
            n,
            "TIPO_REGISTRO"@,
            "Tipo de registro desconocido: '"@ + seq![t] + "'"@,
        ),
    )
}

pub open spec fn modelo_720() -> Seq<char> {
    seq!['7', '2', '0']
}

pub open spec fn e006_rule(l: Seq<char>, n: int) -> Seq<ErrorSpec> {
    let m = modelo_of(l);
    emit_if(
        m != modelo_720(),
        fatal_spec("E006"@, n, "MODELO"@, "MODELO no es '720': '"@ + m + "'"@),
    )
}

pub open spec fn e007_rule(l: Seq<char>, n: int) -> Seq<ErrorSpec> {
    let e = ejercicio_of(l);
    if !all_digits(e) {
        seq![
            fatal_spec(
                "E007"@,
                n,
                "EJERCICIO"@,
                "EJERCICIO no numérico o longitud incorrecta: '"@ + e + "'"@,
            ),
        ]
    } else {
        let y = digits_value(e);
        emit_if(
            y < 1900 || y > 2100,
            fatal_spec("E007"@, n, "EJERCICIO"@, "EJERCICIO fuera de rango: "@ + dec(y as nat)),
        )
    }
}

/// Number of Tipo 1 records among the first `k` lines.
pub open spec fn count_tipo1(ls: Seq<Seq<char>>, k: int) -> int
    decreases k,
{
    if k <= 0 {
        0
    } else {
        count_tipo1(ls, k - 1) + if tipo_of(ls[k - 1]) == '1' {
            1int
        } else {
            0int
        }
    }
}

pub open spec fn e004(ls: Seq<Seq<char>>) -> Seq<ErrorSpec> {
    let c = count_tipo1(ls, ls.len() as int);
    emit_if(
        c > 1,
        fatal_spec(
            "E004"@,
            1,
            "TIPO_REGISTRO"@,
            "Más de un registro tipo 1 ("@ + dec(c as nat) + " encontrados)"@,
        ),
    )
}

/// The line-length errors.
pub open spec fn length_errors(ls: Seq<Seq<char>>) -> Seq<ErrorSpec> {
    per_line(ls, ls.len() as int, |l: Seq<char>, n: int| e002_rule(l, n))
}

/// The fatal errors on record types, MODELO and EJERCICIO of lines that all
/// have 500 characters, the first one being of type 1.
pub open spec fn record_errors(ls: Seq<Seq<char>>) -> Seq<ErrorSpec> {
    let n = ls.len() as int;
    e004(ls) + per_line(ls, n, |l: Seq<char>, k: int| e005_rule(l, k)) + per_line(
        ls,
        n,
        |l: Seq<char>, k: int| e006_rule(l, k),
    ) + per_line(ls, n, |l: Seq<char>, k: int| e007_rule(l, k))
}

pub fn length_check(ls: &Vec<Vec<char>>, errors: &mut Vec<ValidationError>)
    ensures
        views(final(errors)@) == views(old(errors)@) + length_errors(lines_view(ls@)),
{
    let ghost e0 = views(errors@);
    let ghost lv = lines_view(ls@);
    let mut i: usize = 0;
    while i < ls.len()
        invariant
            i <= ls@.len(),
            lv == lines_view(ls@),
            views(errors@) == e0 + per_line(lv, i as int, |l: Seq<char>, n: int| e002_rule(l, n)),
        decreases ls@.len() - i,
    {
        let len = ls[i].len();
        let d = dec_chars(len as u64);
        push_when(
            errors,
            len != 500,
            ValidationError::fatal(
                "E002",
                i + 1,
                "REGISTRO",
                msg_chars("Longitud de línea incorrecta: ", d.as_slice(), " (esperado 500)").as_str(),
            ),
        );
        assert(lv[i as int] == ls@[i as int]@);
        i += 1;
    }
}

/// The fatal checks E004–E007 on lines that all have 500 characters.
pub fn record_check(ls: &Vec<Vec<char>>, errors: &mut Vec<ValidationError>)
    requires
        forall|k: int| 0 <= k < ls@.len() ==> #[trigger] ls@[k]@.len() == 500,
    ensures
        views(final(errors)@) == views(old(errors)@) + record_errors(lines_view(ls@)),
{
    let ghost e0 = views(errors@);
    let ghost lv = lines_view(ls@);
    let n = ls.len();
    // E004: only one type 1 record
    let mut count: usize = 0;
    let mut i: usize = 0;
    while i < n
        invariant
            i <= n == ls@.len(),
            lv == lines_view(ls@),
            count == count_tipo1(lv, i as int),
            count <= i,
            forall|k: int| 0 <= k < ls@.len() ==> #[trigger] ls@[k]@.len() == 500,
        decreases n - i,
    {
        assert(lv[i as int] == ls@[i as int]@);
        assert(ls@[i as int]@.len() == 500);
        if ls[i][0] == '1' {
            count += 1;
        }
        i += 1;
    }
    let d = dec_chars(count as u64);
    push_when(
        errors,
        count > 1,
        ValidationError::fatal(
            "E004",
            1,
            "TIPO_REGISTRO",
            msg_chars("Más de un registro tipo 1 (", d.as_slice(), " encontrados)").as_str(),
        ),
    );
    let ghost e1 = views(errors@);
    // E005: unknown record types
    let mut i: usize = 0;
    while i < n
        invariant
            i <= n == ls@.len(),
            lv == lines_view(ls@),
            forall|k: int| 0 <= k < ls@.len() ==> #[trigger] ls@[k]@.len() == 500,
            views(errors@) == e1 + per_line(lv, i as int, |l: Seq<char>, k: int| e005_rule(l, k)),
        decreases n - i,
    {
        assert(lv[i as int] == ls@[i as int]@);
        assert(ls@[i as int]@.len() == 500);
        let t = ls[i][0];
        push_when(
            errors,
            t != '1' && t != '2',
            ValidationError::fatal(
                "E005",
                i + 1,
                "TIPO_REGISTRO",
                msg_char("Tipo de registro desconocido: '", t, "'").as_str(),
            ),
        );
        i += 1;
    }
    let ghost e2 = views(errors@);
    // E006: MODELO must be "720"
    let m720: Vec<char> = vec!['7', '2', '0'];
    assert(m720@ =~= modelo_720());
    let mut i: usize = 0;
    while i < n
        invariant
            i <= n == ls@.len(),
            lv == lines_view(ls@),
            m720@ == modelo_720(),
            forall|k: int| 0 <= k < ls@.len() ==> #[trigger] ls@[k]@.len() == 500,
            views(errors@) == e2 + per_line(lv, i as int, |l: Seq<char>, k: int| e006_rule(l, k)),
        decreases n - i,
    {
        assert(lv[i as int] == ls@[i as int]@);
        assert(ls@[i as int]@.len() == 500);
        let line = ls[i].as_slice();
        let ok = eq_in(line, 1, 4, m720.as_slice());
        let modelo = crate::parser::field_chars(line, 2, 4);
        push_when(
            errors,
            !ok,
            ValidationError::fatal(
                "E006",
                i + 1,
                "MODELO",
                msg_chars("MODELO no es '720': '", modelo.as_slice(), "'").as_str(),
            ),
        );
        i += 1;
    }
    let ghost e3 = views(errors@);
    // E007: EJERCICIO
    let mut i: usize = 0;
    while i < n
        invariant
            i <= n == ls@.len(),
            lv == lines_view(ls@),
            forall|k: int| 0 <= k < ls@.len() ==> #[trigger] ls@[k]@.len() == 500,
            views(errors@) == e3 + per_line(lv, i as int, |l: Seq<char>, k: int| e007_rule(l, k)),
        decreases n - i,
    {
        assert(lv[i as int] == ls@[i as int]@);
        assert(ls@[i as int]@.len() == 500);
        let line = ls[i].as_slice();
        let ghost e = ejercicio_of(line@);
        let ejercicio = crate::parser::field_chars(line, 5, 8);
        assert(ejercicio@ == e);
        if !all_digits_in(line, 4, 8) {
            push_finding(
                errors,
                ValidationError::fatal(
                    "E007",
                    i + 1,
                    "EJERCICIO",
                    msg_chars(
                        "EJERCICIO no numérico o longitud incorrecta: '",
                        ejercicio.as_slice(),
                        "'",
                    ).as_str(),
                ),
            );
        } else {
            proof {
                lemma_digits_value_bounds(e);
                reveal_with_fuel(pow10, 5);
            }
            let year = digits_value_in(line, 4, 8);
            let d = dec_chars(year);
            push_when(
                errors,
                year < 1900 || year > 2100,
                ValidationError::fatal(
                    "E007",
                    i + 1,
                    "EJERCICIO",
                    msg_chars("EJERCICIO fuera de rango: ", d.as_slice(), "").as_str(),
                ),
            );
            assert(("EJERCICIO fuera de rango: "@ + d@ + ""@) =~= "EJERCICIO fuera de rango: "@
                + d@) by {
                reveal_strlit("");
            }
        }
        i += 1;
    }
    assert(views(errors@) =~= e0 + record_errors(lv));
}

} // verus!
