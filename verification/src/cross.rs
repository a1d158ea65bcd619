//! Checks across records: the totals declared in Tipo 1 against the Tipo 2
//! records (E107–E109), and repeated ISIN/NIF pairs (W005).
use vstd::prelude::*;
use crate::parser::{char_at_chars, char_at_spec, field_chars, field_spec, Record};
use crate::report::{
    emit_if, error_spec, msg_chars2, push_finding, push_when, views, warning_spec,
    ErrorSpec, ValidationError,
};
use crate::text::{
    all_digits_in, chars_of, dec, dec_chars, dec_signed, dec_signed_chars, digits_value,
    digits_value_in, lemma_digits_value_bounds, lemma_pow10_monotone, lemma_trim_len, numeric,
    parse_i64_in, parse_i64_or0, parse_int, parse_unsigned_in, parse_usize_or0, pow10, trim,
    trim_bounds, trim_chars,
};

verus! {

// ── Amounts ──────────────────────────────────────────────────────────────────

/// `parse_signed_val`: the digits parsed as `i64` (0 when they do not parse),
/// negated when the sign is `"N"`.
pub open spec fn signed_val(sign: Seq<char>, digits: Seq<char>) -> int {
    let v = parse_i64_or0(trim(digits));
    if sign == seq!['N'] {
        -v
    } else {
        v
    }
}

/// A Tipo 2 valuation (sign at `sign_pos`, digits at `from..=to`) as it enters
/// the sum: its signed value when the trimmed digits are numeric, else 0.
pub open spec fn t2_amount(raw: Seq<char>, sign_pos: int, from: int, to: int) -> int {
    let t = trim(field_spec(raw, from, to));
    if numeric(t) {
        if field_spec(raw, sign_pos, sign_pos) == seq!['N'] {
            -digits_value(t)
        } else {
            digits_value(t)
        }
    } else {
        0
    }
}

/// Sum of the valuations of the first `k` Tipo 2 records.
pub open spec fn amount_sum(t2s: Seq<(Seq<char>, int)>, k: int, sign_pos: int, from: int, to: int) -> int
    decreases k,
{
    if k <= 0 {
        0
    } else {
        amount_sum(t2s, k - 1, sign_pos, from, to) + t2_amount(t2s[k - 1].0, sign_pos, from, to)
    }
}

pub open spec fn in_i64(v: int) -> bool {
    i64::MIN <= v <= i64::MAX
}

/// The records as (raw line, line number) pairs.
pub open spec fn recs_view(rs: Seq<&Record>) -> Seq<(Seq<char>, int)> {
    rs.map_values(|r: &Record| (r.raw@, r.line as int))
}

/// Every running total of the valuations stays within `i64`.
pub open spec fn sums_fit(t2s: Seq<(Seq<char>, int)>, sign_pos: int, from: int, to: int) -> bool {
    forall|k: int| 0 <= k <= t2s.len() ==> in_i64(#[trigger] amount_sum(t2s, k, sign_pos, from, to))
}

/// The cross checks add up VALORACION1 and VALORACION2 in `i64`; they
/// overflow when a running total leaves that range.
pub open spec fn cross_panics(t2s: Seq<(Seq<char>, int)>) -> bool {
    !sums_fit(t2s, 432, 433, 446) || !sums_fit(t2s, 447, 448, 461)
}

// ── Rules ────────────────────────────────────────────────────────────────────

/// TOTAL_REGISTROS_T2 as declared (`parse::<usize>` of the trimmed field, 0
/// when it does not parse).
pub open spec fn declared_t2(t1raw: Seq<char>) -> int {
    parse_usize_or0(trim(field_spec(t1raw, 136, 144)))
}

#[verifier::opaque]
pub open spec fn e107(t1raw: Seq<char>, t1line: int, n: int) -> Seq<ErrorSpec> {
    let d = declared_t2(t1raw);
    emit_if(
        d != n,
        error_spec(
            "E107"@,
            t1line,
            (136, 144),
            "TOTAL_REGISTROS_T2"@,
            "TOTAL_REGISTROS_T2 declarado ("@ + dec(d as nat) + ") != real ("@ + dec(n as nat)
                + ")"@,
        ),
    )
}

#[verifier::opaque]
pub open spec fn e108(t1raw: Seq<char>, t1line: int, t2s: Seq<(Seq<char>, int)>) -> Seq<ErrorSpec> {
    let declared = signed_val(field_spec(t1raw, 145, 145), field_spec(t1raw, 146, 162));
    let actual = amount_sum(t2s, t2s.len() as int, 432, 433, 446);
    emit_if(
        declared != actual,
        error_spec(
            "E108"@,
            t1line,
            (145, 162),
            "SUMA_VAL1"@,
            "SUMA_VAL1 declarada ("@ + dec_signed(declared) + ") != suma real ("@ + dec_signed(actual)
                + ")"@,
        ),
    )
}

#[verifier::opaque]
pub open spec fn e109(t1raw: Seq<char>, t1line: int, t2s: Seq<(Seq<char>, int)>) -> Seq<ErrorSpec> {
    let declared = signed_val(field_spec(t1raw, 163, 163), field_spec(t1raw, 164, 180));
    let actual = amount_sum(t2s, t2s.len() as int, 447, 448, 461);
    emit_if(
        declared != actual,
        error_spec(
            "E109"@,
            t1line,
            (163, 180),
            "SUMA_VAL2"@,
            "SUMA_VAL2 declarada ("@ + dec_signed(declared) + ") != suma real ("@ + dec_signed(actual)
                + ")"@,
        ),
    )
}

// ── Repeated ISIN ────────────────────────────────────────────────────────────

/// Records sharing an ISIN and a NIF_DECLARADO, with their line numbers in
/// file order.
pub struct IsinGroup {
    pub isin: Seq<char>,
    pub nif: Seq<char>,
    pub lines: Seq<int>,
}

/// A record identified by ISIN (CLAVE_IDENTIFICACION = '1') with a
/// non-blank IDENTIFICACION_VALORES.
pub open spec fn isin_entry(raw: Seq<char>) -> bool {
    char_at_spec(raw, 131) == '1' && trim(field_spec(raw, 132, 143)).len() > 0
}

/// Index of the group of `(isin, nif)` at or after `i`, or `g.len()`.
pub open spec fn find_group(g: Seq<IsinGroup>, isin: Seq<char>, nif: Seq<char>, i: int) -> int
    decreases g.len() - i,
{
    if i < 0 || i >= g.len() {
        g.len() as int
    } else if g[i].isin == isin && g[i].nif == nif {
        i
    } else {
        find_group(g, isin, nif, i + 1)
    }
}

/// `g` with `line` recorded under `(isin, nif)`: added to its group, or as a
/// new group at the end.
pub open spec fn add_to_group(g: Seq<IsinGroup>, isin: Seq<char>, nif: Seq<char>, line: int) -> Seq<
    IsinGroup,
> {
    let j = find_group(g, isin, nif, 0);
    if j < g.len() {
        g.update(j, IsinGroup { isin, nif, lines: g[j].lines.push(line) })
    } else {
        g.push(IsinGroup { isin, nif, lines: seq![line] })
    }
}

/// The groups formed by the first `k` Tipo 2 records, in order of first
/// appearance.
pub open spec fn isin_groups(t2s: Seq<(Seq<char>, int)>, k: int) -> Seq<IsinGroup>
    decreases k,
{
    if k <= 0 {
        Seq::empty()
    } else {
        let g = isin_groups(t2s, k - 1);
        let raw = t2s[k - 1].0;
        if isin_entry(raw) {
            add_to_group(
                g,
                trim(field_spec(raw, 132, 143)),
                trim(field_spec(raw, 18, 26)),
                t2s[k - 1].1,
            )
        } else {
            g
        }
    }
}

/// The items of a list written as `{:?}` writes a `Vec<usize>`, without the brackets.
pub open spec fn list_items(ls: Seq<int>) -> Seq<char>
    decreases ls.len(),
{
    if ls.len() == 0 {
        Seq::empty()
    } else if ls.len() == 1 {
        dec(ls[0] as nat)
    } else {
        list_items(ls.drop_last()) + seq![',', ' '] + dec(ls.last() as nat)
    }
}

pub open spec fn w005_message(g: IsinGroup) -> Seq<char> {
    "Múltiples registros con ISIN "@ + g.isin + " y NIF_DECLARADO "@ + g.nif + " (líneas ["@
        + list_items(g.lines) + "])"@
}

/// One W005 warning per line of a group of two or more records.
pub open spec fn group_warnings(g: IsinGroup) -> Seq<ErrorSpec> {
    if g.lines.len() > 1 {
        Seq::new(
            g.lines.len(),
            |i: int| warning_spec("W005"@, g.lines[i], "IDENTIFICACION_VALORES"@, w005_message(g)),
        )
    } else {
        Seq::empty()
    }
}

/// The W005 warnings of the groups `gs`, group after group.
pub open spec fn groups_warnings(gs: Seq<IsinGroup>) -> Seq<ErrorSpec>
    decreases gs.len(),
{
    if gs.len() == 0 {
        Seq::empty()
    } else {
        groups_warnings(gs.drop_last()) + group_warnings(gs.last())
    }
}

/// The errors of the cross checks, in the order they run.
pub open spec fn cross_errors(t1raw: Seq<char>, t1line: int, t2s: Seq<(Seq<char>, int)>) -> Seq<
    ErrorSpec,
> {
    e107(t1raw, t1line, t2s.len() as int) + e108(t1raw, t1line, t2s) + e109(t1raw, t1line, t2s)
}

/// The warnings of the cross checks.
pub open spec fn cross_warnings(t2s: Seq<(Seq<char>, int)>) -> Seq<ErrorSpec> {
    groups_warnings(isin_groups(t2s, t2s.len() as int))
}


// ── Checks ───────────────────────────────────────────────────────────────────

/// A parsed value of at most `n` characters is below `10^n` in magnitude.
pub(crate) proof fn lemma_parse_bound(t: Seq<char>, n: nat)
    requires
        t.len() <= n,
        parse_int(t, true) is Some,
    ensures
        -pow10(n) < parse_int(t, true).unwrap() < pow10(n),
{
    if t[0] == '+' || t[0] == '-' {
        lemma_digits_value_bounds(t.drop_first());
        lemma_pow10_monotone(t.drop_first().len(), n);
    } else {
        lemma_digits_value_bounds(t);
        lemma_pow10_monotone(t.len(), n);
    }
}

/// `parse_signed_val` on the T1 amount with sign at `sign_pos` and digits at
/// `from..=to` (at most 17 of them).
pub(crate) fn t1_amount(raw: &[char], sign_pos: usize, from: usize, to: usize) -> (v: i64)
    requires
        1 <= from <= to,
        to - from < 17,
    ensures
        v == signed_val(field_spec(raw@, sign_pos as int, sign_pos as int), field_spec(
            raw@,
            from as int,
            to as int,
        )),
{
    let digits = field_chars(raw, from, to);
    let (a, b) = trim_bounds(digits.as_slice());
    assert(digits@.subrange(a as int, b as int) == trim(digits@));
    let parsed = parse_i64_in(digits.as_slice(), a, b);
    let v: i64 = match parsed {
        Some(x) => x,
        None => 0,
    };
    proof {
        if parsed is Some {
            lemma_parse_bound(trim(digits@), 17);
            reveal_with_fuel(pow10, 18);
        }
    }
    let sign = field_chars(raw, sign_pos, sign_pos);
    let neg = sign.len() == 1 && sign[0] == 'N';
    assert(neg == (sign@ == seq!['N'])) by {
        if sign@.len() == 1 && sign@[0] == 'N' {
            assert(sign@ =~= seq!['N']);
        }
    }
    if neg {
        -v
    } else {
        v
    }
}

/// The valuation of one Tipo 2 record as it enters the sum.
pub(crate) fn t2_amount_exec(raw: &[char], sign_pos: usize, from: usize, to: usize) -> (v: i64)
    requires
        1 <= from <= to,
        to - from < 14,
    ensures
        v == t2_amount(raw@, sign_pos as int, from as int, to as int),
        -100_000_000_000_000 < v < 100_000_000_000_000,
{
    let digits = field_chars(raw, from, to);
    let t = trim_chars(digits.as_slice());
    proof {
        lemma_trim_len(digits@);
    }
    let d = all_digits_in(t.as_slice(), 0, t.len());
    assert(t@.subrange(0, t@.len() as int) =~= t@);
    if t.len() > 0 && d {
        proof {
            lemma_digits_value_bounds(t@);
            lemma_pow10_monotone(t@.len(), 14);
            reveal_with_fuel(pow10, 15);
        }
        let m = digits_value_in(t.as_slice(), 0, t.len()) as i64;
        let sign = field_chars(raw, sign_pos, sign_pos);
        let neg = sign.len() == 1 && sign[0] == 'N';
        assert(neg == (sign@ == seq!['N'])) by {
            if sign@.len() == 1 && sign@[0] == 'N' {
                assert(sign@ =~= seq!['N']);
            }
        }
        if neg {
            -m
        } else {
            m
        }
    } else {
        0
    }
}

/// Sum of the valuations of all the Tipo 2 records.
fn amount_total(t2_records: &[&Record], sign_pos: usize, from: usize, to: usize) -> (s: i64)
    requires
        1 <= from <= to,
        to - from < 14,
        sums_fit(recs_view(t2_records@), sign_pos as int, from as int, to as int),
    ensures
        s == amount_sum(recs_view(t2_records@), t2_records@.len() as int, sign_pos as int, from as int, to as int),
{
    let mut sum: i64 = 0;
    let mut i: usize = 0;
    while i < t2_records.len()
        invariant
            i <= t2_records@.len(),
            1 <= from <= to,
            to - from < 14,
            sums_fit(recs_view(t2_records@), sign_pos as int, from as int, to as int),
            sum == amount_sum(recs_view(t2_records@), i as int, sign_pos as int, from as int, to as int),
        decreases t2_records@.len() - i,
    {
        let raw = chars_of(t2_records[i].raw.as_str());
        let a = t2_amount_exec(raw.as_slice(), sign_pos, from, to);
        assert(in_i64(amount_sum(recs_view(t2_records@), i + 1, sign_pos as int, from as int, to as int)));
        sum = sum + a;
        i += 1;
    }
    sum
}

fn check_e107(t1raw: &[char], t1: &Record, n: usize, errors: &mut Vec<ValidationError>)
    requires
        t1raw@ == t1.raw@,
    ensures
        views(final(errors)@) == views(old(errors)@) + e107(t1.raw@, t1.line as int, n as int),
{
    reveal(e107);
    let f = field_chars(t1raw, 136, 144);
    let (a, b) = trim_bounds(f.as_slice());
    let declared: u64 = match parse_unsigned_in(f.as_slice(), a, b, usize::MAX as u64) {
        Some(v) => v,
        None => 0,
    };
    let d = dec_chars(declared);
    let r = dec_chars(n as u64);
    push_when(
        errors,
        declared != n as u64,
        ValidationError::error_pos(
            "E107",
            t1.line,
            (136, 144),
            "TOTAL_REGISTROS_T2",
            msg_chars2(
                "TOTAL_REGISTROS_T2 declarado (",
                d.as_slice(),
                ") != real (",
                r.as_slice(),
                ")",
            ).as_str(),
        ),
    );
}

fn check_e108_e109(
    t1raw: &[char],
    t1: &Record,
    t2_records: &[&Record],
    errors: &mut Vec<ValidationError>,
)
    requires
        t1raw@ == t1.raw@,
        !cross_panics(recs_view(t2_records@)),
    ensures
        views(final(errors)@) == views(old(errors)@) + e108(t1.raw@, t1.line as int, recs_view(t2_records@)) + e109(
            t1.raw@,
            t1.line as int,
            recs_view(t2_records@),
        ),
{
    reveal(e108);
    reveal(e109);
    let val1_t1 = t1_amount(t1raw, 145, 146, 162);
    let sum_val1 = amount_total(t2_records, 432, 433, 446);
    let m1 = msg_chars2(
        "SUMA_VAL1 declarada (",
        dec_signed_chars(val1_t1).as_slice(),
        ") != suma real (",
        dec_signed_chars(sum_val1).as_slice(),
        ")",
    );
    push_when(
        errors,
        val1_t1 != sum_val1,
        ValidationError::error_pos("E108", t1.line, (145, 162), "SUMA_VAL1", m1.as_str()),
    );
    let val2_t1 = t1_amount(t1raw, 163, 164, 180);
    let sum_val2 = amount_total(t2_records, 447, 448, 461);
    let m2 = msg_chars2(
        "SUMA_VAL2 declarada (",
        dec_signed_chars(val2_t1).as_slice(),
        ") != suma real (",
        dec_signed_chars(sum_val2).as_slice(),
        ")",
    );
    push_when(
        errors,
        val2_t1 != sum_val2,
        ValidationError::error_pos("E109", t1.line, (163, 180), "SUMA_VAL2", m2.as_str()),
    );
}

/// A group while it is being collected.
pub struct GroupBuf {
    pub isin: Vec<char>,
    pub nif: Vec<char>,
    pub lines: Vec<usize>,
}

pub open spec fn lines_view(ls: Seq<usize>) -> Seq<int> {
    ls.map_values(|l: usize| l as int)
}

pub open spec fn group_view(g: GroupBuf) -> IsinGroup {
    IsinGroup { isin: g.isin@, nif: g.nif@, lines: lines_view(g.lines@) }
}

pub open spec fn groups_view(gs: Seq<GroupBuf>) -> Seq<IsinGroup> {
    gs.map_values(|g: GroupBuf| group_view(g))
}

fn same_chars(a: &[char], b: &[char]) -> (r: bool)
    ensures
        r == (a@ == b@),
{
    let r = crate::text::eq_in(a, 0, a.len(), b);
    assert(a@.subrange(0, a@.len() as int) =~= a@);
    r
}

/// Records `line` under `(isin, nif)`.
fn add_line(groups: &mut Vec<GroupBuf>, isin: Vec<char>, nif: Vec<char>, line: usize)
    ensures
        groups_view(final(groups)@) == add_to_group(groups_view(old(groups)@), isin@, nif@, line as int),
{
    let ghost g = groups_view(groups@);
    let mut j: usize = 0;
    while j < groups.len()
        invariant
            j <= groups@.len(),
            g == groups_view(groups@),
            find_group(g, isin@, nif@, 0) == find_group(g, isin@, nif@, j as int),
        ensures
            j <= groups@.len(),
            find_group(g, isin@, nif@, 0) == find_group(g, isin@, nif@, j as int),
            j < groups@.len() ==> g[j as int].isin == isin@ && g[j as int].nif == nif@,
        decreases groups@.len() - j,
    {
        if same_chars(groups[j].isin.as_slice(), isin.as_slice()) && same_chars(
            groups[j].nif.as_slice(),
            nif.as_slice(),
        ) {
            break;
        }
        j += 1;
    }
    if j < groups.len() {
        assert(find_group(g, isin@, nif@, j as int) == j);
        let mut grp = groups.remove(j);
        grp.lines.push(line);
        assert(lines_view(grp.lines@) =~= g[j as int].lines.push(line as int));
        groups.insert(j, grp);
        assert(groups_view(groups@) =~= add_to_group(g, isin@, nif@, line as int));
    } else {
        let mut lines: Vec<usize> = Vec::new();
        lines.push(line);
        let ghost isin_v = isin@;
        let ghost nif_v = nif@;
        groups.push(GroupBuf { isin, nif, lines });
        assert(lines_view(seq![line]) =~= seq![line as int]);
        assert(groups_view(groups@) =~= add_to_group(g, isin_v, nif_v, line as int));
    }
}

/// The groups of ISIN records, in order of first appearance.
fn collect_groups(t2_records: &[&Record]) -> (gs: Vec<GroupBuf>)
    ensures
        groups_view(gs@) == isin_groups(recs_view(t2_records@), t2_records@.len() as int),
{
    let mut groups: Vec<GroupBuf> = Vec::new();
    let mut i: usize = 0;
    assert(groups_view(groups@) =~= isin_groups(recs_view(t2_records@), 0));
    while i < t2_records.len()
        invariant
            i <= t2_records@.len(),
            groups_view(groups@) == isin_groups(recs_view(t2_records@), i as int),
        decreases t2_records@.len() - i,
    {
        let raw = chars_of(t2_records[i].raw.as_str());
        let clave_id = char_at_chars(raw.as_slice(), 131);
        let isin = trim_chars(field_chars(raw.as_slice(), 132, 143).as_slice());
        if clave_id == '1' && isin.len() > 0 {
            let nif = trim_chars(field_chars(raw.as_slice(), 18, 26).as_slice());
            add_line(&mut groups, isin, nif, t2_records[i].line);
        }
        i += 1;
    }
    groups
}

/// The line numbers written as `{:?}` writes them, without the brackets.
fn list_chars(ls: &[usize]) -> (v: Vec<char>)
    ensures
        v@ == list_items(lines_view(ls@)),
{
    let mut v: Vec<char> = Vec::new();
    let mut i: usize = 0;
    while i < ls.len()
        invariant
            i <= ls@.len(),
            v@ == list_items(lines_view(ls@.take(i as int))),
        decreases ls@.len() - i,
    {
        let ghost pre = v@;
        assert(lines_view(ls@.take(i + 1)).drop_last() =~= lines_view(ls@.take(i as int)));
        if i > 0 {
            v.push(',');
            v.push(' ');
        }
        let d = dec_chars(ls[i] as u64);
        let mut k: usize = 0;
        let ghost mid = v@;
        while k < d.len()
            invariant
                k <= d@.len(),
                v@ == mid + d@.take(k as int),
            decreases d@.len() - k,
        {
            v.push(d[k]);
            assert(d@.take(k + 1) =~= d@.take(k as int).push(d@[k as int]));
            k += 1;
        }
        assert(d@.take(d@.len() as int) =~= d@);
        proof {
            if i == 0 {
                assert(v@ =~= list_items(lines_view(ls@.take(1))));
            } else {
                assert(v@ =~= list_items(lines_view(ls@.take(i + 1))));
            }
        }
        i += 1;
    }
    assert(ls@.take(ls@.len() as int) =~= ls@);
    v
}

/// Appends the W005 warnings of one group.
fn emit_group(g: &GroupBuf, warnings: &mut Vec<ValidationError>)
    ensures
        views(final(warnings)@) == views(old(warnings)@) + group_warnings(group_view(*g)),
{
    let ghost w0 = views(warnings@);
    let ghost gv = group_view(*g);
    if g.lines.len() > 1 {
        let items = list_chars(g.lines.as_slice());
        let mut msg = msg_chars2(
            "Múltiples registros con ISIN ",
            g.isin.as_slice(),
            " y NIF_DECLARADO ",
            g.nif.as_slice(),
            " (líneas [",
        );
        crate::text::push_chars(&mut msg, items.as_slice());
        msg.append("])");
        assert(msg@ == w005_message(gv));
        let mut i: usize = 0;
        while i < g.lines.len()
            invariant
                i <= g.lines@.len(),
                gv == group_view(*g),
                gv.lines.len() > 1,
                msg@ == w005_message(gv),
                views(warnings@) == w0 + group_warnings(gv).take(i as int),
            decreases g.lines@.len() - i,
        {
            push_finding(
                warnings,
                ValidationError::warning("W005", g.lines[i], "IDENTIFICACION_VALORES", msg.as_str()),
            );
            assert(group_warnings(gv).take(i + 1) =~= group_warnings(gv).take(i as int).push(
                group_warnings(gv)[i as int],
            ));
            i += 1;
        }
        assert(group_warnings(gv).take(g.lines@.len() as int) =~= group_warnings(gv));
    } else {
        assert(views(warnings@) =~= w0 + group_warnings(gv));
    }
}

/// Appends the cross-record errors and warnings.
pub fn validate_cross(
    t1: &Record,
    t2_records: &[&Record],
    errors: &mut Vec<ValidationError>,
    warnings: &mut Vec<ValidationError>,
)
    requires
        !cross_panics(recs_view(t2_records@)),
    ensures
        views(final(errors)@) == views(old(errors)@) + cross_errors(t1.raw@, t1.line as int, recs_view(t2_records@)),
        views(final(warnings)@) == views(old(warnings)@) + cross_warnings(recs_view(t2_records@)),
{
    let ghost e0 = views(errors@);
    let ghost w0 = views(warnings@);
    let t1v = chars_of(t1.raw.as_str());
    check_e107(t1v.as_slice(), t1, t2_records.len(), errors);
    check_e108_e109(t1v.as_slice(), t1, t2_records, errors);
    assert(views(errors@) =~= e0 + cross_errors(t1.raw@, t1.line as int, recs_view(t2_records@)));

    let groups = collect_groups(t2_records);
    let ghost gs = groups_view(groups@);
    let mut k: usize = 0;
    while k < groups.len()
        invariant
            k <= groups@.len(),
            gs == groups_view(groups@),
            gs == isin_groups(recs_view(t2_records@), t2_records@.len() as int),
            views(warnings@) == w0 + groups_warnings(gs.take(k as int)),
        decreases groups@.len() - k,
    {
        emit_group(&groups[k], warnings);
        assert(gs.take(k + 1).drop_last() =~= gs.take(k as int));
        assert(gs.take(k + 1).last() == group_view(groups@[k as int]));
        assert(views(warnings@) =~= w0 + groups_warnings(gs.take(k + 1)));
        k += 1;
    }
    assert(gs.take(groups@.len() as int) =~= gs);
}

/// Whether every running total of a valuation stays within `i64`.
pub fn sums_fit_exec(t2_records: &[&Record], sign_pos: usize, from: usize, to: usize) -> (r: bool)
    requires
        1 <= from <= to,
        to - from < 14,
    ensures
        r == sums_fit(recs_view(t2_records@), sign_pos as int, from as int, to as int),
{
    let ghost t2s = recs_view(t2_records@);
    let mut acc: i128 = 0;
    let mut i: usize = 0;
    assert(in_i64(amount_sum(t2s, 0, sign_pos as int, from as int, to as int)));
    while i < t2_records.len()
        invariant
            i <= t2_records@.len(),
            t2s == recs_view(t2_records@),
            1 <= from <= to,
            to - from < 14,
            acc == amount_sum(t2s, i as int, sign_pos as int, from as int, to as int),
            -100_000_000_000_000 * i <= acc <= 100_000_000_000_000 * i,
            forall|k: int| 0 <= k <= i ==> in_i64(
                #[trigger] amount_sum(t2s, k, sign_pos as int, from as int, to as int),
            ),
        decreases t2_records@.len() - i,
    {
        let raw = chars_of(t2_records[i].raw.as_str());
        let a = t2_amount_exec(raw.as_slice(), sign_pos, from, to);
        assert(t2s[i as int].0 == raw@);
        acc = acc + a as i128;
        i += 1;
        if acc < -9223372036854775808i128 || acc > 9223372036854775807i128 {
            assert(!in_i64(amount_sum(t2s, i as int, sign_pos as int, from as int, to as int)));
            return false;
        }
    }
    true
}

} // verus!
