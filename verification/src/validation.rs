//! Validation of a whole Modelo 720 file: the result types and the entry
//! points that run the structural, record and cross checks in turn.
use vstd::prelude::*;
use vstd::string::*;
use crate::cross::{
    cross_errors, cross_panics, cross_warnings, recs_view, signed_val, sums_fit_exec,
    validate_cross,
};
use crate::encoding::{
    decode_windows_1252, decoded_bytes, encodable, has_bom, lemma_encode_encodable, win1252_byte,
    win1252_encode, windows_1252_decode,
};
use crate::nif::nif_panics_chars;
use crate::parser::{
    char_at_chars, char_at_spec, ejercicio_of, field_chars, field_spec, parse_record, record_of,
    tipo_of, Record,
};
use crate::report::{fatal_spec, push_finding, views, ErrorSpec, ValidationError};
use crate::structure::{
    e002_rule, file_lines, joined, law_line_endings_read_alike, length_check, length_errors,
    lines_view, per_line, plain_lines, record_check, record_errors, separator, split_lines,
};
use crate::text::{
    chars_of, parse_unsigned_in, parse_usize_or0, string_of, string_of_range, trim, trim_bounds,
};
use crate::tipo1::{tipo1_errors, tipo1_panics, validate_tipo1};
use crate::tipo2::{isin_panics_chars, tipo2_errors, tipo2_panics, tipo2_warnings, validate_tipo2};

verus! {

// ── Result types ─────────────────────────────────────────────────────────────

/// Key fields extracted from a single Tipo-2 record, for display purposes.
/// Valuations are in cents, negative when the sign position holds `N`.
#[derive(Debug, Clone)]
pub struct T2Detail {
    pub line: usize,
    pub nif_declarado: String,
    pub nombre_declarado: String,
    /// C / V / I / S / B
    pub clave_bien: char,
    pub subclave: char,
    pub codigo_pais: String,
    pub fecha_incorporacion: String,
    /// A / M / C
    pub origen: char,
    pub valoracion1_cents: i64,
    pub valoracion2_cents: i64,
}

/// Totals and identification of a file that passed the structural checks.
/// Sums are in cents.
#[derive(Debug, Clone)]
pub struct FileSummary {
    pub ejercicio: String,
    pub nif_declarante: String,
    pub nombre_declarante: String,
    pub total_registros_t2_declarado: usize,
    pub total_registros_t2_real: usize,
    pub suma_val1_cents: i64,
    pub suma_val2_cents: i64,
    pub records: Vec<T2Detail>,
}

#[derive(Debug, Clone)]
pub struct ValidationResult {
    pub is_valid: bool,
    pub errors: Vec<ValidationError>,
    pub warnings: Vec<ValidationError>,
    pub summary: Option<FileSummary>,
}

pub struct DetailSpec {
    pub line: int,
    pub nif_declarado: Seq<char>,
    pub nombre_declarado: Seq<char>,
    pub clave_bien: char,
    pub subclave: char,
    pub codigo_pais: Seq<char>,
    pub fecha_incorporacion: Seq<char>,
    pub origen: char,
    pub valoracion1_cents: int,
    pub valoracion2_cents: int,
}

pub struct SummarySpec {
    pub ejercicio: Seq<char>,
    pub nif_declarante: Seq<char>,
    pub nombre_declarante: Seq<char>,
    pub total_registros_t2_declarado: int,
    pub total_registros_t2_real: int,
    pub suma_val1_cents: int,
    pub suma_val2_cents: int,
    pub records: Seq<DetailSpec>,
}

pub struct ResultSpec {
    pub is_valid: bool,
    pub errors: Seq<ErrorSpec>,
    pub warnings: Seq<ErrorSpec>,
    pub summary: Option<SummarySpec>,
}

impl View for T2Detail {
    type V = DetailSpec;

    open spec fn view(&self) -> DetailSpec {
        DetailSpec {
            line: self.line as int,
            nif_declarado: self.nif_declarado@,
            nombre_declarado: self.nombre_declarado@,
            clave_bien: self.clave_bien,
            subclave: self.subclave,
            codigo_pais: self.codigo_pais@,
            fecha_incorporacion: self.fecha_incorporacion@,
            origen: self.origen,
            valoracion1_cents: self.valoracion1_cents as int,
            valoracion2_cents: self.valoracion2_cents as int,
        }
    }
}

impl PartialEq for T2Detail {
    fn eq(&self, other: &Self) -> (r: bool) {
        self.line == other.line
            && self.nif_declarado == other.nif_declarado
            && self.nombre_declarado == other.nombre_declarado
            && self.clave_bien == other.clave_bien
            && self.subclave == other.subclave
            && self.codigo_pais == other.codigo_pais
            && self.fecha_incorporacion == other.fecha_incorporacion
            && self.origen == other.origen
            && self.valoracion1_cents == other.valoracion1_cents
            && self.valoracion2_cents == other.valoracion2_cents
    }
}

impl vstd::std_specs::cmp::PartialEqSpecImpl for T2Detail {
    open spec fn obeys_eq_spec() -> bool {
        true
    }

    open spec fn eq_spec(&self, other: &Self) -> bool {
        self@.line == other@.line
            && self@.nif_declarado == other@.nif_declarado
            && self@.nombre_declarado == other@.nombre_declarado
            && self@.clave_bien == other@.clave_bien
            && self@.subclave == other@.subclave
            && self@.codigo_pais == other@.codigo_pais
            && self@.fecha_incorporacion == other@.fecha_incorporacion
            && self@.origen == other@.origen
            && self@.valoracion1_cents == other@.valoracion1_cents
            && self@.valoracion2_cents == other@.valoracion2_cents
    }
}

pub open spec fn details_view(v: Seq<T2Detail>) -> Seq<DetailSpec> {
    v.map_values(|d: T2Detail| d@)
}

impl View for FileSummary {
    type V = SummarySpec;

    open spec fn view(&self) -> SummarySpec {
        SummarySpec {
            ejercicio: self.ejercicio@,
            nif_declarante: self.nif_declarante@,
            nombre_declarante: self.nombre_declarante@,
            total_registros_t2_declarado: self.total_registros_t2_declarado as int,
            total_registros_t2_real: self.total_registros_t2_real as int,
            suma_val1_cents: self.suma_val1_cents as int,
            suma_val2_cents: self.suma_val2_cents as int,
            records: details_view(self.records@),
        }
    }
}

impl View for ValidationResult {
    type V = ResultSpec;

    open spec fn view(&self) -> ResultSpec {
        ResultSpec {
            is_valid: self.is_valid,
            errors: views(self.errors@),
            warnings: views(self.warnings@),
            summary: match self.summary {
                Some(s) => Some(s@),
                None => None,
            },
        }
    }
}

pub open spec fn result_view(r: Option<ValidationResult>) -> Option<ResultSpec> {
    match r {
        Some(x) => Some(x@),
        None => None,
    }
}

// ── What a file validates to ─────────────────────────────────────────────────

/// The Tipo 2 records among the first `k` lines, with their line numbers.
pub open spec fn t2_entries(ls: Seq<Seq<char>>, k: int) -> Seq<(Seq<char>, int)>
    decreases k,
{
    if k <= 0 {
        Seq::empty()
    } else if tipo_of(ls[k - 1]) == '2' {
        t2_entries(ls, k - 1).push((ls[k - 1], k))
    } else {
        t2_entries(ls, k - 1)
    }
}

/// The errors of the Tipo 2 records, record after record.
pub open spec fn t2s_errors(t2s: Seq<(Seq<char>, int)>, t1: Seq<char>) -> Seq<ErrorSpec>
    decreases t2s.len(),
{
    if t2s.len() == 0 {
        Seq::empty()
    } else {
        let r = t2s.last();
        t2s_errors(t2s.drop_last(), t1) + tipo2_errors(
            r.0,
            ejercicio_of(r.0),
            r.1,
            t1,
            ejercicio_of(t1),
        )
    }
}

/// The warnings of the Tipo 2 records, record after record.
pub open spec fn t2s_warnings(t2s: Seq<(Seq<char>, int)>) -> Seq<ErrorSpec>
    decreases t2s.len(),
{
    if t2s.len() == 0 {
        Seq::empty()
    } else {
        let r = t2s.last();
        t2s_warnings(t2s.drop_last()) + tipo2_warnings(r.0, ejercicio_of(r.0), r.1)
    }
}

pub open spec fn detail_of(raw: Seq<char>, line: int) -> DetailSpec {
    DetailSpec {
        line,
        nif_declarado: trim(field_spec(raw, 18, 26)),
        nombre_declarado: trim(field_spec(raw, 36, 75)),
        clave_bien: char_at_spec(raw, 102),
        subclave: char_at_spec(raw, 103),
        codigo_pais: field_spec(raw, 129, 130),
        fecha_incorporacion: field_spec(raw, 415, 422),
        origen: char_at_spec(raw, 423),
        valoracion1_cents: signed_val(field_spec(raw, 432, 432), field_spec(raw, 433, 446)),
        valoracion2_cents: signed_val(field_spec(raw, 447, 447), field_spec(raw, 448, 461)),
    }
}

pub open spec fn summary_of(t1: Seq<char>, t2s: Seq<(Seq<char>, int)>) -> SummarySpec {
    SummarySpec {
        ejercicio: ejercicio_of(t1),
        nif_declarante: trim(field_spec(t1, 9, 17)),
        nombre_declarante: trim(field_spec(t1, 18, 57)),
        total_registros_t2_declarado: parse_usize_or0(trim(field_spec(t1, 136, 144))),
        total_registros_t2_real: t2s.len() as int,
        suma_val1_cents: signed_val(field_spec(t1, 145, 145), field_spec(t1, 146, 162)),
        suma_val2_cents: signed_val(field_spec(t1, 163, 163), field_spec(t1, 164, 180)),
        records: t2s.map_values(|e: (Seq<char>, int)| detail_of(e.0, e.1)),
    }
}

/// A result that stops at fatal errors: invalid, no warnings, no summary.
pub open spec fn stopped(errors: Seq<ErrorSpec>) -> ResultSpec {
    ResultSpec { is_valid: false, errors, warnings: Seq::empty(), summary: None }
}

/// The record and cross checks reach one of their panicking inputs.
#[verifier::opaque]
pub open spec fn checks_panic(ls: Seq<Seq<char>>) -> bool {
    let t2s = t2_entries(ls, ls.len() as int);
    ||| tipo1_panics(ls[0])
    ||| (exists|i: int| 0 <= i < t2s.len() && tipo2_panics(#[trigger] t2s[i].0))
    ||| cross_panics(t2s)
}

/// The result of the record and cross checks on structurally sound lines.
#[verifier::opaque]
pub open spec fn checked_result(ls: Seq<Seq<char>>) -> ResultSpec {
    let t1 = ls[0];
    let t2s = t2_entries(ls, ls.len() as int);
    let errors = tipo1_errors(t1, 1) + t2s_errors(t2s, t1) + cross_errors(t1, 1, t2s);
    ResultSpec {
        is_valid: errors.len() == 0,
        errors,
        warnings: t2s_warnings(t2s) + cross_warnings(t2s),
        summary: Some(summary_of(t1, t2s)),
    }
}

/// What validating decoded `text` yields (`None` where the checks would
/// panic): structural checks first, each stopping the validation with fatal
/// errors, then the Tipo 1, Tipo 2 and cross checks.
pub open spec fn validation_of(text: Seq<char>, had_errors: bool) -> Option<ResultSpec> {
    let ls = file_lines(text);
    if had_errors {
        Some(
            stopped(
                seq![fatal_spec("E001"@, 0, "FICHERO"@, "Codificación no es ISO-8859-1"@)],
            ),
        )
    } else if ls.len() == 0 {
        Some(
            stopped(
                seq![
                    fatal_spec(
                        "E003"@,
                        0,
                        "FICHERO"@,
                        "Fichero vacío: no se encontró registro tipo 1"@,
                    ),
                ],
            ),
        )
    } else if length_errors(ls).len() > 0 {
        Some(stopped(length_errors(ls)))
    } else if tipo_of(ls[0]) != '1' {
        Some(
            stopped(
                seq![
                    fatal_spec("E003"@, 1, "TIPO_REGISTRO"@, "Primer registro no es tipo 1"@),
                ],
            ),
        )
    } else if record_errors(ls).len() > 0 {
        Some(stopped(record_errors(ls)))
    } else if checks_panic(ls) {
        None
    } else {
        Some(checked_result(ls))
    }
}


/// Lines joined by a separator that has a windows-1252 byte for every
/// character are encodable when each line is.
proof fn lemma_joined_encodable(ls: Seq<Seq<char>>, sep: Seq<char>)
    requires
        encodable(sep),
        forall|i: int| 0 <= i < ls.len() ==> encodable(#[trigger] ls[i]),
    ensures
        encodable(joined(ls, sep)),
    decreases ls.len(),
{
    if ls.len() > 0 {
        let p = ls.drop_last();
        lemma_joined_encodable(p, sep);
        let a = joined(p, sep);
        let l = ls.last();
        let t = a + l + sep;
        assert(encodable(l));
        assert forall|i: int| 0 <= i < t.len() implies (#[trigger] win1252_byte(t[i])) is Some by {
            if i < a.len() {
                assert(t[i] == a[i]);
            } else if i < a.len() + l.len() {
                assert(t[i] == l[i - a.len()]);
            } else {
                assert(t[i] == sep[i - a.len() - l.len()]);
            }
        }
    }
}

/// A file validates alike whether its lines end with CRLF or with LF alone:
/// same validity, same errors and warnings with the same line numbers, same
/// summary. This holds of lines with no line feed and none ending in a
/// carriage return. When every character has a windows-1252 byte, the
/// bytes of either file decode back to its text, so `validate` (which
/// validates that text for bytes without a byte-order mark) agrees on the
/// two files as well.
pub proof fn law_line_endings_validate_alike(ls: Seq<Seq<char>>)
    requires
        plain_lines(ls),
    ensures
        validation_of(joined(ls, separator(true)), false) == validation_of(
            joined(ls, separator(false)),
            false,
        ),
        (forall|i: int| 0 <= i < ls.len() ==> encodable(#[trigger] ls[i])) ==> {
            &&& decoded_bytes(win1252_encode(joined(ls, separator(true)))) == joined(
                ls,
                separator(true),
            )
            &&& decoded_bytes(win1252_encode(joined(ls, separator(false)))) == joined(
                ls,
                separator(false),
            )
            &&& validation_of(decoded_bytes(win1252_encode(joined(ls, separator(true)))), false)
                == validation_of(decoded_bytes(win1252_encode(joined(ls, separator(false)))), false)
        },
{
    law_line_endings_read_alike(ls);
    if forall|i: int| 0 <= i < ls.len() ==> encodable(#[trigger] ls[i]) {
        assert(win1252_byte('\r') is Some && win1252_byte('\n') is Some);
        assert(encodable(separator(true)));
        assert(encodable(separator(false)));
        lemma_joined_encodable(ls, separator(true));
        lemma_joined_encodable(ls, separator(false));
        lemma_encode_encodable(joined(ls, separator(true)));
        lemma_encode_encodable(joined(ls, separator(false)));
    }
}

/// A validation result is valid exactly when it holds no error.
pub proof fn law_valid_iff_no_errors(text: Seq<char>, had_errors: bool)
    ensures
        validation_of(text, had_errors) matches Some(r) ==> (r.is_valid <==> r.errors.len() == 0),
{
    reveal(checked_result);
}

/// A validation that stops on an encoding or structural error reports that
/// the file is invalid, with at least one error, no warnings and no
/// summary; a validation that goes through the record checks always gives
/// a summary, and then every line has 500 characters and the first one is a
/// Tipo 1 record.
pub proof fn law_stopped_results(text: Seq<char>, had_errors: bool)
    ensures
        validation_of(text, had_errors) matches Some(r) ==> (r.summary is None ==> !r.is_valid
            && r.errors.len() > 0 && r.warnings.len() == 0),
        validation_of(text, had_errors) matches Some(r) ==> (r.summary is Some ==> !had_errors
            && file_lines(text).len() > 0 && tipo_of(file_lines(text)[0]) == '1' && forall|j: int|
            0 <= j < file_lines(text).len() ==> #[trigger] file_lines(text)[j].len() == 500),
{
    reveal(checked_result);
    let ls = file_lines(text);
    if !had_errors && ls.len() > 0 && length_errors(ls).len() == 0 {
        lemma_no_length_errors(ls, ls.len() as int);
    }
}

// ── Running the checks ───────────────────────────────────────────────────────

proof fn lemma_no_length_errors(ls: Seq<Seq<char>>, k: int)
    requires
        0 <= k <= ls.len(),
        per_line(ls, k, |l: Seq<char>, n: int| e002_rule(l, n)).len() == 0,
    ensures
        forall|j: int| 0 <= j < k ==> #[trigger] ls[j].len() == 500,
    decreases k,
{
    if k > 0 {
        lemma_no_length_errors(ls, k - 1);
    }
}

fn stop_with(errors: Vec<ValidationError>) -> (r: ValidationResult)
    ensures
        r@ == stopped(views(errors@)),
{
    let r = ValidationResult { is_valid: false, errors, warnings: Vec::new(), summary: None };
    assert(views(r.warnings@) =~= Seq::<ErrorSpec>::empty());
    r
}

fn stop_with_one(e: ValidationError) -> (r: ValidationResult)
    ensures
        r@ == stopped(seq![e@]),
{
    let mut errors: Vec<ValidationError> = Vec::new();
    push_finding(&mut errors, e);
    assert(views(errors@) =~= seq![e@]);
    stop_with(errors)
}

/// Parses every line into a record, numbering lines from 1.
fn parse_records(ls: &Vec<Vec<char>>) -> (rs: Vec<Record>)
    requires
        forall|k: int| 0 <= k < ls@.len() ==> #[trigger] ls@[k]@.len() == 500,
    ensures
        rs@.len() == ls@.len(),
        forall|k: int| 0 <= k < rs@.len() ==> record_of(#[trigger] rs@[k], ls@[k]@, k + 1),
{
    let mut rs: Vec<Record> = Vec::new();
    let mut i: usize = 0;
    while i < ls.len()
        invariant
            i <= ls@.len(),
            rs@.len() == i,
            forall|k: int| 0 <= k < ls@.len() ==> #[trigger] ls@[k]@.len() == 500,
            forall|k: int| 0 <= k < i ==> record_of(#[trigger] rs@[k], ls@[k]@, k + 1),
        decreases ls@.len() - i,
    {
        assert(ls@[i as int]@.len() == 500);
        let line = string_of(ls[i].as_slice());
        rs.push(parse_record(line.as_str(), i + 1));
        i += 1;
    }
    rs
}

/// The Tipo 2 records, in file order.
fn tipo2_records<'a>(rs: &'a Vec<Record>, ls: Ghost<Seq<Seq<char>>>) -> (t2: Vec<&'a Record>)
    requires
        rs@.len() == ls@.len(),
        forall|k: int| 0 <= k < rs@.len() ==> record_of(#[trigger] rs@[k], ls@[k], k + 1),
        forall|k: int| 0 <= k < ls@.len() ==> #[trigger] ls@[k].len() == 500,
    ensures
        recs_view(t2@) == t2_entries(ls@, ls@.len() as int),
        forall|j: int| 0 <= j < t2@.len() ==> (#[trigger] t2@[j]).ejercicio@ == ejercicio_of(t2@[j].raw@),
{
    let mut t2: Vec<&Record> = Vec::new();
    let mut i: usize = 0;
    while i < rs.len()
        invariant
            i <= rs@.len() == ls@.len(),
            forall|k: int| 0 <= k < rs@.len() ==> record_of(#[trigger] rs@[k], ls@[k], k + 1),
            forall|k: int| 0 <= k < ls@.len() ==> #[trigger] ls@[k].len() == 500,
            recs_view(t2@) == t2_entries(ls@, i as int),
            forall|j: int| 0 <= j < t2@.len() ==> (#[trigger] t2@[j]).ejercicio@ == ejercicio_of(
                t2@[j].raw@,
            ),
        decreases rs@.len() - i,
    {
        assert(record_of(rs@[i as int], ls@[i as int], i + 1));
        if rs[i].tipo == '2' {
            let ghost before = t2@;
            t2.push(&rs[i]);
            assert(recs_view(t2@) =~= recs_view(before).push((ls@[i as int], i + 1)));
        }
        i += 1;
    }
    t2
}

/// Whether the record or cross checks would panic.
fn checks_would_panic(t1: &Record, t2: &Vec<&Record>) -> (r: bool)
    ensures
        r == (tipo1_panics(t1.raw@) || (exists|i: int|
            0 <= i < t2@.len() && tipo2_panics(#[trigger] recs_view(t2@)[i].0)) || cross_panics(
            recs_view(t2@),
        )),
{
    let t1v = chars_of(t1.raw.as_str());
    if nif_panics_chars(field_chars(t1v.as_slice(), 9, 17).as_slice()) {
        return true;
    }
    let mut i: usize = 0;
    while i < t2.len()
        invariant
            i <= t2@.len(),
            forall|k: int| 0 <= k < i ==> !tipo2_panics(#[trigger] recs_view(t2@)[k].0),
        decreases t2@.len() - i,
    {
        let raw = chars_of(t2[i].raw.as_str());
        assert(recs_view(t2@)[i as int].0 == raw@);
        if nif_panics_chars(field_chars(raw.as_slice(), 18, 26).as_slice()) {
            return true;
        }
        if char_at_chars(raw.as_slice(), 131) == '1' && isin_panics_chars(
            field_chars(raw.as_slice(), 132, 143).as_slice(),
        ) {
            return true;
        }
        i += 1;
    }
    !sums_fit_exec(t2.as_slice(), 432, 433, 446) || !sums_fit_exec(t2.as_slice(), 447, 448, 461)
}

/// The summary value of a signed amount (`parse_signed_amount`, in cents).
fn signed_amount(raw: &[char], sign_pos: usize, from: usize, to: usize) -> (v: i64)
    requires
        1 <= from <= to,
        to - from < 17,
    ensures
        v == signed_val(field_spec(raw@, sign_pos as int, sign_pos as int), field_spec(
            raw@,
            from as int,
            to as int,
        )),
{
    crate::cross::t1_amount(raw, sign_pos, from, to)
}

fn detail(r: &Record) -> (d: T2Detail)
    ensures
        d@ == detail_of(r.raw@, r.line as int),
{
    let raw = chars_of(r.raw.as_str());
    let rw = raw.as_slice();
    let nif = field_chars(rw, 18, 26);
    let nombre = field_chars(rw, 36, 75);
    let (na, nb) = trim_bounds(nif.as_slice());
    let (ma, mb) = trim_bounds(nombre.as_slice());
    T2Detail {
        line: r.line,
        nif_declarado: string_of_range(nif.as_slice(), na, nb),
        nombre_declarado: string_of_range(nombre.as_slice(), ma, mb),
        clave_bien: char_at_chars(rw, 102),
        subclave: char_at_chars(rw, 103),
        codigo_pais: string_of(field_chars(rw, 129, 130).as_slice()),
        fecha_incorporacion: string_of(field_chars(rw, 415, 422).as_slice()),
        origen: char_at_chars(rw, 423),
        valoracion1_cents: signed_amount(rw, 432, 433, 446),
        valoracion2_cents: signed_amount(rw, 447, 448, 461),
    }
}

fn summary(t1: &Record, t2: &Vec<&Record>) -> (s: FileSummary)
    requires
        record_of(*t1, t1.raw@, 1),
    ensures
        s@ == summary_of(t1.raw@, recs_view(t2@)),
{
    let raw = chars_of(t1.raw.as_str());
    let rw = raw.as_slice();
    let nif = field_chars(rw, 9, 17);
    let nombre = field_chars(rw, 18, 57);
    let total = field_chars(rw, 136, 144);
    let (na, nb) = trim_bounds(nif.as_slice());
    let (ma, mb) = trim_bounds(nombre.as_slice());
    let (ta, tb) = trim_bounds(total.as_slice());
    let declared: u64 = match parse_unsigned_in(total.as_slice(), ta, tb, usize::MAX as u64) {
        Some(v) => v,
        None => 0,
    };
    let mut records: Vec<T2Detail> = Vec::new();
    let mut i: usize = 0;
    while i < t2.len()
        invariant
            i <= t2@.len(),
            details_view(records@) == recs_view(t2@).take(i as int).map_values(
                |e: (Seq<char>, int)| detail_of(e.0, e.1),
            ),
        decreases t2@.len() - i,
    {
        let d = detail(t2[i]);
        assert(recs_view(t2@)[i as int] == (t2@[i as int].raw@, t2@[i as int].line as int));
        let ghost before = records@;
        records.push(d);
        assert(details_view(records@) =~= details_view(before).push(d@));
        let ghost tv = recs_view(t2@);
        assert(tv.take(i + 1) =~= tv.take(i as int).push(tv[i as int]));
        assert(tv.take(i + 1).map_values(|e: (Seq<char>, int)| detail_of(e.0, e.1)) =~= tv.take(
            i as int,
        ).map_values(|e: (Seq<char>, int)| detail_of(e.0, e.1)).push(
            detail_of(tv[i as int].0, tv[i as int].1),
        ));
        assert(details_view(records@) =~= recs_view(t2@).take(i + 1).map_values(
            |e: (Seq<char>, int)| detail_of(e.0, e.1),
        ));
        i += 1;
    }
    assert(recs_view(t2@).take(t2@.len() as int) =~= recs_view(t2@));
    FileSummary {
        ejercicio: t1.ejercicio.clone(),
        nif_declarante: string_of_range(nif.as_slice(), na, nb),
        nombre_declarante: string_of_range(nombre.as_slice(), ma, mb),
        total_registros_t2_declarado: declared as usize,
        total_registros_t2_real: t2.len(),
        suma_val1_cents: signed_amount(rw, 145, 146, 162),
        suma_val2_cents: signed_amount(rw, 163, 164, 180),
        records,
    }
}

/// Runs the Tipo 1, Tipo 2 and cross checks.
fn record_checks(t1: &Record, t2: &Vec<&Record>) -> (r: (Vec<ValidationError>, Vec<ValidationError>))
    requires
        record_of(*t1, t1.raw@, 1),
        forall|j: int| 0 <= j < t2@.len() ==> (#[trigger] t2@[j]).ejercicio@ == ejercicio_of(t2@[j].raw@),
        !tipo1_panics(t1.raw@),
        forall|i: int| 0 <= i < t2@.len() ==> !tipo2_panics(#[trigger] recs_view(t2@)[i].0),
        !cross_panics(recs_view(t2@)),
    ensures
        views(r.0@) == tipo1_errors(t1.raw@, 1) + t2s_errors(recs_view(t2@), t1.raw@)
            + cross_errors(t1.raw@, 1, recs_view(t2@)),
        views(r.1@) == t2s_warnings(recs_view(t2@)) + cross_warnings(recs_view(t2@)),
{
    let ghost t2s = recs_view(t2@);
    let mut errors: Vec<ValidationError> = Vec::new();
    let mut warnings: Vec<ValidationError> = Vec::new();
    validate_tipo1(t1, &mut errors);
    assert(views(errors@) =~= tipo1_errors(t1.raw@, 1));
    let ghost e1 = views(errors@);
    assert(views(warnings@) =~= Seq::<ErrorSpec>::empty());
    let mut i: usize = 0;
    while i < t2.len()
        invariant
            i <= t2@.len(),
            t2s == recs_view(t2@),
            record_of(*t1, t1.raw@, 1),
            forall|j: int| 0 <= j < t2@.len() ==> (#[trigger] t2@[j]).ejercicio@ == ejercicio_of(
                t2@[j].raw@,
            ),
            forall|k: int| 0 <= k < t2@.len() ==> !tipo2_panics(#[trigger] recs_view(t2@)[k].0),
            views(errors@) == e1 + t2s_errors(t2s.take(i as int), t1.raw@),
            views(warnings@) == t2s_warnings(t2s.take(i as int)),
        decreases t2@.len() - i,
    {
        assert(t2s[i as int].0 == t2@[i as int].raw@);
        assert(!tipo2_panics(t2s[i as int].0));
        assert(t2@[i as int].ejercicio@ == ejercicio_of(t2@[i as int].raw@));
        validate_tipo2(t2[i], t1, &mut errors, &mut warnings);
        assert(t2s.take(i + 1).drop_last() =~= t2s.take(i as int));
        assert(t2s.take(i + 1).last() == t2s[i as int]);
        assert(views(errors@) =~= e1 + t2s_errors(t2s.take(i + 1), t1.raw@));
        assert(views(warnings@) =~= t2s_warnings(t2s.take(i + 1)));
        i += 1;
    }
    assert(t2s.take(t2@.len() as int) =~= t2s);
    let ghost e2 = views(errors@);
    let ghost w2 = views(warnings@);
    validate_cross(t1, t2.as_slice(), &mut errors, &mut warnings);
    assert(views(errors@) =~= e2 + cross_errors(t1.raw@, 1, t2s));
    (errors, warnings)
}

/// The record and cross checks on structurally sound lines.
fn check_records(ls: &Vec<Vec<char>>) -> (r: Option<ValidationResult>)
    requires
        ls@.len() > 0,
        forall|k: int| 0 <= k < ls@.len() ==> #[trigger] ls@[k]@.len() == 500,
        tipo_of(lines_view(ls@)[0]) == '1',
    ensures
        result_view(r) == (if checks_panic(lines_view(ls@)) {
            None
        } else {
            Some(checked_result(lines_view(ls@)))
        }),
{
    let ghost lv = lines_view(ls@);
    let records = parse_records(&ls);
    assert forall|k: int| 0 <= k < records@.len() implies record_of(
        #[trigger] records@[k],
        lv[k],
        k + 1,
    ) by {
        assert(lv[k] == ls@[k]@);
        assert(record_of(records@[k], ls@[k]@, k + 1));
    }
    assert forall|k: int| 0 <= k < lv.len() implies #[trigger] lv[k].len() == 500 by {
        assert(lv[k] == ls@[k]@);
        assert(ls@[k]@.len() == 500);
    }
    let t2 = tipo2_records(&records, Ghost(lv));
    let t1 = &records[0];
    assert(record_of(records@[0], lv[0], 1));
    let panics = checks_would_panic(t1, &t2);
    proof {
        reveal(checks_panic);
        assert(t1.raw@ == lv[0]);
    }
    if panics {
        return None;
    }
    let (errors, warnings) = record_checks(t1, &t2);
    let s = summary(t1, &t2);
    let is_valid = errors.len() == 0;
    proof {
        reveal(checked_result);
    }
    Some(ValidationResult { is_valid, errors, warnings, summary: Some(s) })
}

/// Validates decoded text (`had_errors`: the decoder replaced malformed
/// input). `None` exactly where the checks would panic (`validation_of`).
pub fn validate_decoded(text: &str, had_errors: bool) -> (r: Option<ValidationResult>)
    ensures
        result_view(r) == validation_of(text@, had_errors),
{
    if had_errors {
        return Some(
            stop_with_one(
                ValidationError::fatal("E001", 0, "FICHERO", "Codificación no es ISO-8859-1"),
            ),
        );
    }
    let t = chars_of(text);
    let ls = split_lines(t.as_slice());
    let ghost lv = lines_view(ls@);
    if ls.len() == 0 {
        return Some(
            stop_with_one(
                ValidationError::fatal(
                    "E003",
                    0,
                    "FICHERO",
                    "Fichero vacío: no se encontró registro tipo 1",
                ),
            ),
        );
    }
    let mut errors: Vec<ValidationError> = Vec::new();
    length_check(&ls, &mut errors);
    assert(views(errors@) =~= length_errors(lv));
    if errors.len() > 0 {
        return Some(stop_with(errors));
    }
    proof {
        lemma_no_length_errors(lv, lv.len() as int);
        assert forall|k: int| 0 <= k < ls@.len() implies #[trigger] ls@[k]@.len() == 500 by {
            assert(lv[k] == ls@[k]@);
        }
    }
    assert(lv[0] == ls@[0]@);
    if ls[0][0] != '1' {
        return Some(
            stop_with_one(
                ValidationError::fatal("E003", 1, "TIPO_REGISTRO", "Primer registro no es tipo 1"),
            ),
        );
    }
    record_check(&ls, &mut errors);
    assert(views(errors@) =~= record_errors(lv));
    if errors.len() > 0 {
        return Some(stop_with(errors));
    }
    check_records(&ls)
}

/// What validating `bytes` yields: decoded as windows-1252 (see
/// `decode_windows_1252`), then `validation_of`.
pub open spec fn validation_of_bytes(bytes: Seq<u8>) -> Option<ResultSpec> {
    validation_of(windows_1252_decode(bytes).0, windows_1252_decode(bytes).1)
}

/// Main entry point — validates raw bytes of a Modelo 720 BOE file.
pub fn validate(bytes: &[u8]) -> (r: ValidationResult)
    requires
        bytes@.len() <= usize::MAX / 4,
        validation_of_bytes(bytes@) is Some,
    ensures
        Some(r@) == validation_of_bytes(bytes@),
        !has_bom(bytes@) ==> Some(r@) == validation_of(decoded_bytes(bytes@), false),
{
    let (text, had_errors) = decode_windows_1252(bytes);
    match validate_decoded(text.as_str(), had_errors) {
        Some(r) => r,
        None => vstd::pervasive::unreached(),
    }
}

/// Validates raw bytes, or returns `None` where the checks would panic (a
/// NIF or ISIN field whose multi-byte characters fall where the checks slice
/// by byte, or valuation totals beyond `i64`).
pub fn try_validate(bytes: &[u8]) -> (r: Option<ValidationResult>)
    requires
        bytes@.len() <= usize::MAX / 4,
    ensures
        result_view(r) == validation_of_bytes(bytes@),
        !has_bom(bytes@) ==> result_view(r) == validation_of(decoded_bytes(bytes@), false),
{
    let (text, had_errors) = decode_windows_1252(bytes);
    if validate_decoded(text.as_str(), had_errors).is_none() {
        return None;
    }
    Some(validate(bytes))
}

} // verus!
