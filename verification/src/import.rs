//! Reading a Modelo 720 file back into editable records.
use vstd::prelude::*;
use vstd::string::*;
use crate::cross::lemma_parse_bound;
use crate::encoding::{decode_windows_1252, decoded_bytes, has_bom, windows_1252_decode};
use crate::generator::{field_views, Tipo1Fields, Tipo1View, Tipo2Fields, Tipo2View};
use crate::parser::{char_at_chars, char_at_spec, field_chars, field_spec};
use crate::structure::{file_lines, lines_view, split_lines};
use crate::text::{
    chars_of, dec, dec_chars, parse_i64_in, parse_i64_or0, parse_u32_or0, parse_u64_or0,
    parse_unsigned_in, pow10, push_chars, string_of, trim, trim_chars,
};

verus! {

// ── Records ──────────────────────────────────────────────────────────────────

/// The characters at positions `start..=end`, without surrounding blanks.
pub open spec fn tfield(raw: Seq<char>, start: int, end: int) -> Seq<char> {
    trim(field_spec(raw, start, end))
}

/// A valuation in cents: the trimmed digits parsed as `i64` (0 when they do
/// not parse), negated when the sign character is `'N'`.
pub open spec fn signed_cents(sign: char, digits: Seq<char>) -> int {
    let v = parse_i64_or0(trim(digits));
    if sign == 'N' {
        -v
    } else {
        v
    }
}

/// The Tipo 1 fields read from the record `raw`.
pub open spec fn t1_of(raw: Seq<char>) -> Tipo1View {
    Tipo1View {
        ejercicio: field_spec(raw, 5, 8),
        nif_declarante: tfield(raw, 9, 17),
        nombre_declarante: tfield(raw, 18, 57),
        nif_presentador: tfield(raw, 59, 67),
        nombre_presentador: tfield(raw, 68, 107),
        num_identificativo: tfield(raw, 108, 120),
        dec_complementaria: char_at_spec(raw, 121) == 'C',
        dec_sustitutiva: char_at_spec(raw, 122) == 'S',
        num_dec_anterior: tfield(raw, 123, 135),
    }
}

/// The Tipo 2 fields read from the record `raw`.
pub open spec fn t2_of(raw: Seq<char>) -> Tipo2View {
    Tipo2View {
        nif_declarado: tfield(raw, 18, 26),
        nif_representante: tfield(raw, 27, 35),
        nombre_declarado: tfield(raw, 36, 75),
        clave_condicion: char_at_spec(raw, 76),
        clave_tipo_bien: char_at_spec(raw, 102),
        subclave: char_at_spec(raw, 103),
        codigo_pais: field_spec(raw, 129, 130),
        clave_identificacion: char_at_spec(raw, 131),
        identificacion_valores: tfield(raw, 132, 143),
        clave_id_cuenta: char_at_spec(raw, 144),
        codigo_bic: tfield(raw, 145, 155),
        identificacion_cuenta: tfield(raw, 156, 189),
        identificacion_entidad: tfield(raw, 190, 230),
        nif_fiscal_pais: tfield(raw, 231, 250),
        domicilio: tfield(raw, 251, 290),
        localidad: tfield(raw, 343, 372),
        municipio: tfield(raw, 373, 402),
        codigo_postal: tfield(raw, 403, 412),
        pais_domicilio: tfield(raw, 413, 414),
        fecha_incorporacion: field_spec(raw, 415, 422),
        origen: char_at_spec(raw, 423),
        fecha_extincion: field_spec(raw, 424, 431),
        valoracion1_cents: signed_cents(char_at_spec(raw, 432), field_spec(raw, 433, 446)),
        valoracion2_cents: signed_cents(char_at_spec(raw, 447), field_spec(raw, 448, 461)),
        clave_represent_valores: char_at_spec(raw, 462),
        num_valores: parse_u64_or0(tfield(raw, 463, 474)) as nat,
        clave_tipo_inmueble: char_at_spec(raw, 475),
        porcentaje_participacion: parse_u32_or0(tfield(raw, 476, 480)) as nat,
    }
}

/// `fld(raw, start, end).trim()` as a `String`.
fn trimmed_field(raw: &[char], start: usize, end: usize) -> (s: String)
    requires
        1 <= start <= end + 1,
    ensures
        s@ == tfield(raw@, start as int, end as int),
{
    let f = field_chars(raw, start, end);
    let t = trim_chars(f.as_slice());
    string_of(t.as_slice())
}

fn raw_field(raw: &[char], start: usize, end: usize) -> (s: String)
    requires
        1 <= start <= end + 1,
    ensures
        s@ == field_spec(raw@, start as int, end as int),
{
    let f = field_chars(raw, start, end);
    string_of(f.as_slice())
}

/// A valuation with its sign at `sign_pos` and at most 14 digits at
/// `from..=to`, in cents.
fn cents_at(raw: &[char], sign_pos: usize, from: usize, to: usize) -> (v: i64)
    requires
        1 <= sign_pos,
        1 <= from <= to,
        to - from < 14,
    ensures
        v == signed_cents(char_at_spec(raw@, sign_pos as int), field_spec(raw@, from as int, to as int)),
{
    let f = field_chars(raw, from, to);
    let t = trim_chars(f.as_slice());
    let parsed = parse_i64_in(t.as_slice(), 0, t.len());
    assert(t@.subrange(0, t@.len() as int) =~= t@);
    let v: i64 = match parsed {
        Some(x) => x,
        None => 0,
    };
    proof {
        if parsed is Some {
            crate::text::lemma_trim_len(f@);
            lemma_parse_bound(t@, 14);
            reveal_with_fuel(pow10, 15);
        }
    }
    let sign = char_at_chars(raw, sign_pos);
    if sign == 'N' {
        -v
    } else {
        v
    }
}

fn parse_t1(raw: &[char]) -> (t1: Tipo1Fields)
    ensures
        t1@ == t1_of(raw@),
{
    Tipo1Fields {
        ejercicio: raw_field(raw, 5, 8),
        nif_declarante: trimmed_field(raw, 9, 17),
        nombre_declarante: trimmed_field(raw, 18, 57),
        nif_presentador: trimmed_field(raw, 59, 67),
        nombre_presentador: trimmed_field(raw, 68, 107),
        num_identificativo: trimmed_field(raw, 108, 120),
        dec_complementaria: char_at_chars(raw, 121) == 'C',
        dec_sustitutiva: char_at_chars(raw, 122) == 'S',
        num_dec_anterior: trimmed_field(raw, 123, 135),
    }
}

fn parse_t2(raw: &[char]) -> (r: Tipo2Fields)
    ensures
        r@ == t2_of(raw@),
{
    let units_text = trim_chars(field_chars(raw, 463, 474).as_slice());
    let units = parse_unsigned_in(units_text.as_slice(), 0, units_text.len(), u64::MAX);
    assert(units_text@.subrange(0, units_text@.len() as int) =~= units_text@);
    let num_valores: u64 = match units {
        Some(v) => v,
        None => 0,
    };
    let pct_text = trim_chars(field_chars(raw, 476, 480).as_slice());
    let pct = parse_unsigned_in(pct_text.as_slice(), 0, pct_text.len(), 4294967295u64);
    assert(pct_text@.subrange(0, pct_text@.len() as int) =~= pct_text@);
    let porcentaje: u32 = match pct {
        Some(v) => v as u32,
        None => 0,
    };
    Tipo2Fields {
        nif_declarado: trimmed_field(raw, 18, 26),
        nif_representante: trimmed_field(raw, 27, 35),
        nombre_declarado: trimmed_field(raw, 36, 75),
        clave_condicion: char_at_chars(raw, 76),
        clave_tipo_bien: char_at_chars(raw, 102),
        subclave: char_at_chars(raw, 103),
        codigo_pais: raw_field(raw, 129, 130),
        clave_identificacion: char_at_chars(raw, 131),
        identificacion_valores: trimmed_field(raw, 132, 143),
        clave_id_cuenta: char_at_chars(raw, 144),
        codigo_bic: trimmed_field(raw, 145, 155),
        identificacion_cuenta: trimmed_field(raw, 156, 189),
        identificacion_entidad: trimmed_field(raw, 190, 230),
        nif_fiscal_pais: trimmed_field(raw, 231, 250),
        domicilio: trimmed_field(raw, 251, 290),
        localidad: trimmed_field(raw, 343, 372),
        municipio: trimmed_field(raw, 373, 402),
        codigo_postal: trimmed_field(raw, 403, 412),
        pais_domicilio: trimmed_field(raw, 413, 414),
        fecha_incorporacion: raw_field(raw, 415, 422),
        origen: char_at_chars(raw, 423),
        fecha_extincion: raw_field(raw, 424, 431),
        valoracion1_cents: cents_at(raw, 432, 433, 446),
        valoracion2_cents: cents_at(raw, 447, 448, 461),
        clave_represent_valores: char_at_chars(raw, 462),
        num_valores,
        clave_tipo_inmueble: char_at_chars(raw, 475),
        porcentaje_participacion: porcentaje,
    }
}

// ── Files ────────────────────────────────────────────────────────────────────

/// Index of the first line from `i` on that does not have 500 characters.
pub open spec fn first_bad_length(ls: Seq<Seq<char>>, i: int) -> Option<int>
    decreases ls.len() - i,
{
    if i < 0 || i >= ls.len() {
        None
    } else if ls[i].len() != 500 {
        Some(i)
    } else {
        first_bad_length(ls, i + 1)
    }
}

/// The Tipo 2 records among lines `1..k`, in order.
pub open spec fn t2_records(ls: Seq<Seq<char>>, k: int) -> Seq<Tipo2View>
    decreases k,
{
    if k <= 1 {
        Seq::empty()
    } else if char_at_spec(ls[k - 1], 1) == '2' {
        t2_records(ls, k - 1).push(t2_of(ls[k - 1]))
    } else {
        t2_records(ls, k - 1)
    }
}

pub open spec fn msg_bad_encoding() -> Seq<char> {
    "Codificación inválida (se esperaba ISO-8859-1)"@
}

pub open spec fn msg_empty_file() -> Seq<char> {
    "Fichero vacío"@
}

pub open spec fn msg_bad_length(line: int, len: int) -> Seq<char> {
    "Línea "@ + dec(line as nat) + " tiene "@ + dec(len as nat) + " caracteres (se esperaban 500)"@
}

pub open spec fn msg_not_tipo1() -> Seq<char> {
    "El primer registro no es tipo 1"@
}

/// What `import_from_bytes` returns for decoded `text`, as plain values.
pub open spec fn imported(text: Seq<char>, had_errors: bool) -> Result<
    (Tipo1View, Seq<Tipo2View>),
    Seq<char>,
> {
    let ls = file_lines(text);
    if had_errors {
        Err(msg_bad_encoding())
    } else if ls.len() == 0 {
        Err(msg_empty_file())
    } else {
        match first_bad_length(ls, 0) {
            Some(i) => Err(msg_bad_length(i + 1, ls[i].len() as int)),
            None => if char_at_spec(ls[0], 1) != '1' {
                Err(msg_not_tipo1())
            } else {
                Ok((t1_of(ls[0]), t2_records(ls, ls.len() as int)))
            },
        }
    }
}

/// A result of `import_from_bytes`, as plain values.
pub open spec fn import_view(r: Result<(Tipo1Fields, Vec<Tipo2Fields>), String>) -> Result<
    (Tipo1View, Seq<Tipo2View>),
    Seq<char>,
> {
    match r {
        Ok((t1, t2s)) => Ok((t1@, field_views(t2s@))),
        Err(e) => Err(e@),
    }
}

fn bad_length_message(line: usize, len: usize) -> (m: String)
    ensures
        m@ == msg_bad_length(line as int, len as int),
{
    proof {
        reveal_strlit("Línea ");
        reveal_strlit(" tiene ");
        reveal_strlit(" caracteres (se esperaban 500)");
    }
    let mut m = String::from_str("Línea ");
    push_chars(&mut m, dec_chars(line as u64).as_slice());
    push_chars(&mut m, chars_of(" tiene ").as_slice());
    push_chars(&mut m, dec_chars(len as u64).as_slice());
    push_chars(&mut m, chars_of(" caracteres (se esperaban 500)").as_slice());
    m
}

/// Parse the decoded text of a `.720` file (and whether decoding met
/// malformed input) back into editable structs.
pub fn import_decoded(text: &str, had_errors: bool) -> (r: Result<
    (Tipo1Fields, Vec<Tipo2Fields>),
    String,
>)
    ensures
        import_view(r) == imported(text@, had_errors),
{
    if had_errors {
        return Err(String::from_str("Codificación inválida (se esperaba ISO-8859-1)"));
    }
    let cs = chars_of(text);
    let lines = split_lines(cs.as_slice());
    let ghost ls = lines_view(lines@);
    assert(ls == file_lines(text@));
    if lines.len() == 0 {
        return Err(String::from_str("Fichero vacío"));
    }
    let mut i: usize = 0;
    while i < lines.len()
        invariant
            i <= lines@.len(),
            ls == lines_view(lines@),
            ls == file_lines(text@),
            !had_errors,
            first_bad_length(ls, 0) == first_bad_length(ls, i as int),
        decreases lines@.len() - i,
    {
        assert(ls[i as int] == lines@[i as int]@);
        if lines[i].len() != 500 {
            assert(first_bad_length(ls, i as int) == Some(i as int));
            assert(ls.len() > 0);
            return Err(bad_length_message(i + 1, lines[i].len()));
        }
        i += 1;
    }
    assert(ls[0] == lines@[0]@);
    if char_at_chars(lines[0].as_slice(), 1) != '1' {
        return Err(String::from_str("El primer registro no es tipo 1"));
    }
    let t1 = parse_t1(lines[0].as_slice());
    let mut t2s: Vec<Tipo2Fields> = Vec::new();
    let mut k: usize = 1;
    while k < lines.len()
        invariant
            1 <= k <= lines@.len(),
            ls == lines_view(lines@),
            ls == file_lines(text@),
            !had_errors,
            field_views(t2s@) == t2_records(ls, k as int),
        decreases lines@.len() - k,
    {
        assert(ls[k as int] == lines@[k as int]@);
        if char_at_chars(lines[k].as_slice(), 1) == '2' {
            let r = parse_t2(lines[k].as_slice());
            let ghost before = field_views(t2s@);
            t2s.push(r);
            assert(field_views(t2s@) =~= before.push(r@));
        }
        k += 1;
    }
    Ok((t1, t2s))
}

/// Parse an existing `.720` file back into editable structs.
///
/// The bytes are decoded as windows-1252 by `encoding_rs`; the result is
/// `import_decoded` of that text. Bytes that do not start with a byte-order
/// mark decode one character per byte.
pub fn import_from_bytes(bytes: &[u8]) -> (r: Result<(Tipo1Fields, Vec<Tipo2Fields>), String>)
    requires
        bytes@.len() <= usize::MAX / 4,
    ensures
        import_view(r) == imported(windows_1252_decode(bytes@).0, windows_1252_decode(bytes@).1),
        !has_bom(bytes@) ==> import_view(r) == imported(decoded_bytes(bytes@), false),
{
    let (text, had_errors) = decode_windows_1252(bytes);
    import_decoded(text.as_str(), had_errors)
}

} // verus!
