//! Checks of a Tipo 2 (asset) record: errors E201–E233 and warnings W001–W004.
use vstd::prelude::*;
use crate::nif::{nif_panics, nif_valid, validate_nif_chars};
use crate::parser::{
    char_at_chars, char_at_spec, date_ok, date_ok_chars, field_chars, field_spec, is_zero_date,
    Record,
};
use crate::report::{
    emit_if, error_spec, has_code, lemma_has_code_add, lemma_has_code_none, msg_char, msg_char2,
    msg_chars, msg_chars2, push_when, views, warning_spec, ErrorSpec, ValidationError,
};
use crate::text::{
    all_alnum, all_alnum_in, all_digits, all_digits_in, all_eq, all_eq_in, chars_of, dec,
    dec_chars, dec_padded, digit_value, digits_value, digits_value_in, eq_in, is_digit,
    is_digit_exec, is_upper, is_upper_exec, lemma_digits_value_bounds, lemma_utf8_len_bounds,
    numeric, parse_u32_or0, parse_unsigned_in, pow10, to_digit, trim, trim_bounds, trim_chars,
    utf8_len, utf8_len_in, zero_pad,
};

verus! {

// ── Value sets ───────────────────────────────────────────────────────────────

/// CLAVE_TIPO_BIEN: C (account), V (securities), I (funds), S (insurance),
/// B (real estate).
pub open spec fn bien_ok(c: char) -> bool {
    c == 'C' || c == 'V' || c == 'I' || c == 'S' || c == 'B'
}

/// SUBCLAVE values allowed for each CLAVE_TIPO_BIEN.
pub open spec fn subclave_ok(bien: char, sub: char) -> bool {
    if bien == 'C' || bien == 'B' {
        '1' <= sub <= '5'
    } else if bien == 'V' {
        '1' <= sub <= '3'
    } else if bien == 'I' {
        sub == '0'
    } else if bien == 'S' {
        sub == '1' || sub == '2'
    } else {
        true
    }
}

/// Securities or funds.
pub open spec fn is_vi(c: char) -> bool {
    c == 'V' || c == 'I'
}

/// Two ASCII capital letters (the format of an ISO-3166 alpha-2 code).
pub open spec fn country_code_ok(s: Seq<char>) -> bool {
    s.len() == 2 && is_upper(s[0]) && is_upper(s[1])
}

/// Accept any two uppercase ASCII letters as a basic check of an ISO-3166
/// code.
pub fn is_valid_country_code(code: &[char]) -> (r: bool)
    ensures
        r == country_code_ok(code@),
{
    code.len() == 2 && is_upper_exec(code[0]) && is_upper_exec(code[1])
}

// ── ISIN ─────────────────────────────────────────────────────────────────────

/// Digits that an ISIN character stands for: a digit itself, a letter its
/// two-digit number (A = 10 … Z = 35).
pub open spec fn isin_char_digits(c: char) -> Seq<int> {
    if is_digit(c) {
        seq![digit_value(c)]
    } else {
        let v = c as int - 'A' as int + 10;
        seq![v / 10, v % 10]
    }
}

/// The digit string that the Luhn check runs on.
pub open spec fn isin_expand(t: Seq<char>) -> Seq<int>
    decreases t.len(),
{
    if t.len() == 0 {
        Seq::empty()
    } else {
        isin_expand(t.drop_last()) + isin_char_digits(t.last())
    }
}

pub open spec fn luhn_term(d: int, doubled: bool) -> int {
    if doubled {
        if 2 * d > 9 {
            2 * d - 9
        } else {
            2 * d
        }
    } else {
        d
    }
}

/// Luhn sum, counting positions from the right: every second digit, starting
/// with the one before the last, is doubled.
pub open spec fn luhn_sum(ds: Seq<int>, doubled: bool) -> int
    decreases ds.len(),
{
    if ds.len() == 0 {
        0
    } else {
        luhn_term(ds.last(), doubled) + luhn_sum(ds.drop_last(), !doubled)
    }
}

/// A valid ISIN once trimmed: two capital letters, nine capital letters or
/// digits, a check digit, and a Luhn sum that is a multiple of ten.
pub open spec fn isin_valid(s: Seq<char>) -> bool {
    let t = trim(s);
    &&& t.len() == 12
    &&& is_upper(t[0])
    &&& is_upper(t[1])
    &&& forall|k: int| 2 <= k < 11 ==> is_digit(#[trigger] t[k]) || is_upper(t[k])
    &&& is_digit(t[11])
    &&& luhn_sum(isin_expand(t), false) % 10 == 0
}

/// The inputs on which the ISIN check panics: twelve bytes, two leading
/// capitals, and fewer than eleven characters.
pub open spec fn isin_panics(s: Seq<char>) -> bool {
    let t = trim(s);
    &&& utf8_len(t) == 12
    &&& t.len() >= 2
    &&& is_upper(t[0])
    &&& is_upper(t[1])
    &&& t.len() < 11
}

fn isin_char_value(c: char) -> (v: u64)
    requires
        is_digit(c) || is_upper(c),
    ensures
        is_digit(c) ==> v < 10 && seq![v as int] == isin_char_digits(c),
        is_upper(c) ==> 10 <= v <= 35 && seq![(v / 10) as int, (v % 10) as int] == isin_char_digits(c),
{
    if is_digit_exec(c) {
        (c as u64) - ('0' as u64)
    } else {
        (c as u64) - ('A' as u64) + 10
    }
}

/// ISIN validation: two capital letters, nine capital letters or digits,
/// a check digit, and the Luhn check over the expanded digits.
fn validate_isin_chars(s: &[char]) -> (r: bool)
    requires
        !isin_panics(s@),
    ensures
        r == isin_valid(s@),
{
    let (a, b) = trim_bounds(s);
    let ghost t = trim(s@);
    if b - a != 12 {
        return false;
    }
    let mut t_v: Vec<char> = Vec::new();
    let mut i = a;
    while i < b
        invariant
            a <= i <= b <= s@.len(),
            t_v@ == s@.subrange(a as int, i as int),
        decreases b - i,
    {
        t_v.push(s[i]);
        assert(s@.subrange(a as int, i + 1) =~= s@.subrange(a as int, i as int).push(
            s@[i as int],
        ));
        i += 1;
    }
    assert(t_v@ == t);
    let tv = t_v.as_slice();
    if !is_upper_exec(tv[0]) || !is_upper_exec(tv[1]) {
        return false;
    }
    let mut k: usize = 2;
    while k < 11
        invariant
            2 <= k <= 11,
            tv@ == t,
            t == trim(s@),
            t.len() == 12,
            forall|j: int| 2 <= j < k ==> is_digit(#[trigger] t[j]) || is_upper(t[j]),
        decreases 11 - k,
    {
        if !is_digit_exec(tv[k]) && !is_upper_exec(tv[k]) {
            assert(!(is_digit(t[k as int]) || is_upper(t[k as int])));
            return false;
        }
        k += 1;
    }
    if !is_digit_exec(tv[11]) {
        return false;
    }
    // Expand letters into two digits each
    let mut ds: Vec<u64> = Vec::new();
    let ghost mut gds: Seq<int> = Seq::empty();
    let mut j: usize = 0;
    while j < 12
        invariant
            j <= 12,
            tv@ == t,
            t.len() == 12,
            forall|q: int| 0 <= q < 12 ==> is_digit(#[trigger] t[q]) || is_upper(t[q]),
            gds == isin_expand(t.take(j as int)),
            ds@.len() == gds.len(),
            gds.len() <= 2 * j,
            forall|q: int| 0 <= q < ds@.len() ==> #[trigger] ds@[q] as int == gds[q] && 0 <= gds[q]
                <= 9,
        decreases 12 - j,
    {
        let c = tv[j];
        assert(t.take(j + 1).drop_last() =~= t.take(j as int));
        assert(t.take(j + 1).last() == c);
        let v = isin_char_value(c);
        let ghost ds0 = ds@;
        let ghost g0 = gds;
        if v < 10 {
            ds.push(v);
            proof {
                gds = gds + seq![v as int];
                assert forall|q: int| 0 <= q < ds@.len() implies #[trigger] ds@[q] as int == gds[q]
                    && 0 <= gds[q] <= 9 by {
                    if q < ds0.len() {
                        assert(ds@[q] == ds0[q]);
                        assert(gds[q] == g0[q]);
                    }
                }
            }
        } else {
            ds.push(v / 10);
            ds.push(v % 10);
            proof {
                gds = gds + seq![(v / 10) as int, (v % 10) as int];
                assert forall|q: int| 0 <= q < ds@.len() implies #[trigger] ds@[q] as int == gds[q]
                    && 0 <= gds[q] <= 9 by {
                    if q < ds0.len() {
                        assert(ds@[q] == ds0[q]);
                        assert(gds[q] == g0[q]);
                    }
                }
            }
        }
        assert(gds == isin_expand(t.take(j + 1)));
        j += 1;
    }
    assert(t.take(12) =~= t);
    // Luhn sum from the right
    let n = ds.len();
    let mut sum: u64 = 0;
    let mut m: usize = n;
    assert(gds.take(n as int) =~= gds);
    while m > 0
        invariant
            m <= n == ds@.len() == gds.len(),
            n <= 24,
            gds == isin_expand(t),
            forall|q: int| 0 <= q < ds@.len() ==> #[trigger] ds@[q] as int == gds[q] && 0 <= gds[q]
                <= 9,
            luhn_sum(gds, false) == sum + luhn_sum(gds.take(m as int), (n - m) % 2 == 1),
            sum <= 9 * (n - m),
        decreases m,
    {
        let d = ds[m - 1];
        let doubled = (n - m) % 2 == 1;
        assert(gds.take(m as int).drop_last() =~= gds.take(m - 1));
        assert(gds.take(m as int).last() == d as int);
        let term = if doubled {
            if d * 2 > 9 {
                d * 2 - 9
            } else {
                d * 2
            }
        } else {
            d
        };
        sum = sum + term;
        m -= 1;
    }
    assert(gds.take(0) =~= Seq::<int>::empty());
    sum % 10 == 0
}

// ── Rules ────────────────────────────────────────────────────────────────────

#[verifier::opaque]
pub open spec fn e233(ej2: Seq<char>, ej1: Seq<char>, line: int) -> Seq<ErrorSpec> {
    emit_if(
        ej2 != ej1,
        error_spec(
            "E233"@,
            line,
            (5, 8),
            "EJERCICIO"@,
            "EJERCICIO en T2 ("@ + ej2 + ") != T1 ("@ + ej1 + ")"@,
        ),
    )
}

#[verifier::opaque]
pub open spec fn e201(raw: Seq<char>, t1raw: Seq<char>, line: int) -> Seq<ErrorSpec> {
    let n2 = field_spec(raw, 9, 17);
    let n1 = field_spec(t1raw, 9, 17);
    emit_if(
        n2 != n1,
        error_spec(
            "E201"@,
            line,
            (9, 17),
            "NIF_DECLARANTE"@,
            "NIF_DECLARANTE en T2 ("@ + trim(n2) + ") != T1 ("@ + trim(n1) + ")"@,
        ),
    )
}

#[verifier::opaque]
pub open spec fn e202(raw: Seq<char>, line: int) -> Seq<ErrorSpec> {
    let nif = field_spec(raw, 18, 26);
    emit_if(
        !nif_valid(nif),
        error_spec(
            "E202"@,
            line,
            (18, 26),
            "NIF_DECLARADO"@,
            "NIF_DECLARADO inválido: '"@ + trim(nif) + "'"@,
        ),
    )
}

#[verifier::opaque]
pub open spec fn e203(raw: Seq<char>, line: int) -> Seq<ErrorSpec> {
    emit_if(
        trim(field_spec(raw, 36, 75)).len() == 0,
        error_spec(
            "E203"@,
            line,
            (36, 75),
            "APELLIDOS_NOMBRE_DECLARADO"@,
            "APELLIDOS_NOMBRE_DECLARADO vacío"@,
        ),
    )
}

#[verifier::opaque]
pub open spec fn e204(raw: Seq<char>, line: int) -> Seq<ErrorSpec> {
    let c = char_at_spec(raw, 76);
    emit_if(
        !(to_digit(c) matches Some(d) && 1 <= d <= 8),
        error_spec(
            "E204"@,
            line,
            (76, 76),
            "CLAVE_CONDICION"@,
            "CLAVE_CONDICION fuera de rango: '"@ + seq![c] + "'"@,
        ),
    )
}

#[verifier::opaque]
pub open spec fn e205(raw: Seq<char>, line: int) -> Seq<ErrorSpec> {
    emit_if(
        char_at_spec(raw, 76) != '8' && !all_eq(field_spec(raw, 77, 101), ' '),
        error_spec(
            "E205"@,
            line,
            (77, 101),
            "TIPO_TITULARIDAD"@,
            "TIPO_TITULARIDAD no vacío cuando condición != 8"@,
        ),
    )
}

#[verifier::opaque]
pub open spec fn e206(raw: Seq<char>, line: int) -> Seq<ErrorSpec> {
    let c = char_at_spec(raw, 102);
    emit_if(
        !bien_ok(c),
        error_spec(
            "E206"@,
            line,
            (102, 102),
            "CLAVE_TIPO_BIEN"@,
            "CLAVE_TIPO_BIEN inválida: '"@ + seq![c] + "'"@,
        ),
    )
}

#[verifier::opaque]
pub open spec fn e207(raw: Seq<char>, line: int) -> Seq<ErrorSpec> {
    let b = char_at_spec(raw, 102);
    let s = char_at_spec(raw, 103);
    emit_if(
        bien_ok(b) && !subclave_ok(b, s),
        error_spec(
            "E207"@,
            line,
            (103, 103),
            "SUBCLAVE"@,
            "SUBCLAVE '"@ + seq![s] + "' inválida para CLAVE_TIPO_BIEN '"@ + seq![b] + "'"@,
        ),
    )
}

#[verifier::opaque]
pub open spec fn e208(raw: Seq<char>, line: int) -> Seq<ErrorSpec> {
    let s = char_at_spec(raw, 103);
    emit_if(
        char_at_spec(raw, 102) == 'I' && s != '0',
        error_spec(
            "E208"@,
            line,
            (103, 103),
            "SUBCLAVE"@,
            "SUBCLAVE debe ser '0' para CLAVE_TIPO_BIEN 'I', encontrado '"@ + seq![s] + "'"@,
        ),
    )
}

#[verifier::opaque]
pub open spec fn e209(raw: Seq<char>, line: int) -> Seq<ErrorSpec> {
    let cp = field_spec(raw, 129, 130);
    emit_if(
        !country_code_ok(cp),
        error_spec(
            "E209"@,
            line,
            (129, 130),
            "CODIGO_PAIS"@,
            "CODIGO_PAIS no es ISO-3166: '"@ + cp + "'"@,
        ),
    )
}

#[verifier::opaque]
pub open spec fn e210(raw: Seq<char>, line: int) -> Seq<ErrorSpec> {
    let c = char_at_spec(raw, 131);
    emit_if(
        !(c == '0' || c == '1' || c == '2'),
        error_spec(
            "E210"@,
            line,
            (131, 131),
            "CLAVE_IDENTIFICACION"@,
            "CLAVE_IDENTIFICACION inválida: '"@ + seq![c] + "'"@,
        ),
    )
}

#[verifier::opaque]
pub open spec fn e211(raw: Seq<char>, line: int) -> Seq<ErrorSpec> {
    let b = char_at_spec(raw, 102);
    let c = char_at_spec(raw, 131);
    emit_if(
        (b == 'C' || b == 'S' || b == 'B') && c != '0',
        error_spec(
            "E211"@,
            line,
            (131, 131),
            "CLAVE_IDENTIFICACION"@,
            "CLAVE_IDENTIFICACION debe ser '0' para bien '"@ + seq![b] + "', encontrado '"@
                + seq![c] + "'"@,
        ),
    )
}

#[verifier::opaque]
pub open spec fn e212(raw: Seq<char>, line: int) -> Seq<ErrorSpec> {
    let v = field_spec(raw, 132, 143);
    emit_if(
        char_at_spec(raw, 131) == '1' && !isin_valid(v),
        error_spec(
            "E212"@,
            line,
            (132, 143),
            "IDENTIFICACION_VALORES"@,
            "ISIN inválido: '"@ + trim(v) + "'"@,
        ),
    )
}

#[verifier::opaque]
pub open spec fn e213(raw: Seq<char>, line: int) -> Seq<ErrorSpec> {
    let v = field_spec(raw, 132, 143);
    emit_if(
        char_at_spec(raw, 131) == '2' && v.len() > 0 && v[0] == 'Z',
        error_spec(
            "E213"@,
            line,
            (132, 143),
            "IDENTIFICACION_VALORES"@,
            "IDENTIFICACION_VALORES empieza por 'Z' cuando CLAVE_IDENTIFICACION = 2"@,
        ),
    )
}

#[verifier::opaque]
pub open spec fn e214(raw: Seq<char>, line: int) -> Seq<ErrorSpec> {
    emit_if(
        !is_vi(char_at_spec(raw, 102)) && !all_eq(field_spec(raw, 132, 143), ' '),
        error_spec(
            "E214"@,
            line,
            (132, 143),
            "IDENTIFICACION_VALORES"@,
            "IDENTIFICACION_VALORES no en blanco para bien que no es V/I"@,
        ),
    )
}

#[verifier::opaque]
pub open spec fn e215(raw: Seq<char>, line: int) -> Seq<ErrorSpec> {
    let c = char_at_spec(raw, 144);
    emit_if(
        char_at_spec(raw, 102) == 'C' && !(c == 'I' || c == 'O'),
        error_spec(
            "E215"@,
            line,
            (144, 144),
            "CLAVE_ID_CUENTA"@,
            "CLAVE_ID_CUENTA inválida para bien C: '"@ + seq![c] + "'"@,
        ),
    )
}

#[verifier::opaque]
pub open spec fn e216(raw: Seq<char>, line: int) -> Seq<ErrorSpec> {
    emit_if(
        char_at_spec(raw, 102) != 'B' && trim(field_spec(raw, 190, 230)).len() == 0,
        error_spec(
            "E216"@,
            line,
            (190, 230),
            "IDENTIFICACION_ENTIDAD"@,
            "IDENTIFICACION_ENTIDAD vacía (obligatoria salvo para bien B)"@,
        ),
    )
}

/// E217 (not eight digits) or else E218 (not a valid date) on FECHA_INCORPORACION.
#[verifier::opaque]
pub open spec fn e217_e218(raw: Seq<char>, line: int) -> Seq<ErrorSpec> {
    let f = field_spec(raw, 415, 422);
    if !numeric(f) {
        seq![
            error_spec(
                "E217"@,
                line,
                (415, 422),
                "FECHA_INCORPORACION"@,
                "FECHA_INCORPORACION formato incorrecto: '"@ + f + "'"@,
            ),
        ]
    } else {
        emit_if(
            !date_ok(f),
            error_spec(
                "E218"@,
                line,
                (415, 422),
                "FECHA_INCORPORACION"@,
                "FECHA_INCORPORACION fecha inválida: '"@ + f + "'"@,
            ),
        )
    }
}

#[verifier::opaque]
pub open spec fn e219(raw: Seq<char>, line: int) -> Seq<ErrorSpec> {
    emit_if(
        char_at_spec(raw, 102) == 'C' && is_zero_date(field_spec(raw, 415, 422)),
        error_spec(
            "E219"@,
            line,
            (415, 422),
            "FECHA_INCORPORACION"@,
            "FECHA_INCORPORACION obligatoria para bien C pero es ceros"@,
        ),
    )
}

#[verifier::opaque]
pub open spec fn e220(raw: Seq<char>, line: int) -> Seq<ErrorSpec> {
    let o = char_at_spec(raw, 423);
    emit_if(
        !(o == 'A' || o == 'M' || o == 'C'),
        error_spec(
            "E220"@,
            line,
            (423, 423),
            "ORIGEN"@,
            "ORIGEN debe ser A/M/C, encontrado '"@ + seq![o] + "'"@,
        ),
    )
}

#[verifier::opaque]
pub open spec fn e221(raw: Seq<char>, line: int) -> Seq<ErrorSpec> {
    emit_if(
        char_at_spec(raw, 423) == 'C' && is_zero_date(field_spec(raw, 424, 431)),
        error_spec(
            "E221"@,
            line,
            (424, 431),
            "FECHA_EXTINCION"@,
            "FECHA_EXTINCION es ceros cuando ORIGEN=C"@,
        ),
    )
}

#[verifier::opaque]
pub open spec fn e222(raw: Seq<char>, line: int) -> Seq<ErrorSpec> {
    emit_if(
        char_at_spec(raw, 423) != 'C' && !is_zero_date(field_spec(raw, 424, 431)),
        error_spec(
            "E222"@,
            line,
            (424, 431),
            "FECHA_EXTINCION"@,
            "FECHA_EXTINCION no es ceros cuando ORIGEN!=C"@,
        ),
    )
}

#[verifier::opaque]
pub open spec fn e223(raw: Seq<char>, line: int) -> Seq<ErrorSpec> {
    let f = field_spec(raw, 424, 431);
    emit_if(
        !is_zero_date(f) && (!numeric(f) || !date_ok(f)),
        error_spec(
            "E223"@,
            line,
            (424, 431),
            "FECHA_EXTINCION"@,
            "FECHA_EXTINCION inválida: '"@ + f + "'"@,
        ),
    )
}

#[verifier::opaque]
pub open spec fn e224(raw: Seq<char>, line: int) -> Seq<ErrorSpec> {
    let v = field_spec(raw, 433, 446);
    emit_if(
        !numeric(trim(v)) && !all_eq(v, ' '),
        error_spec(
            "E224"@,
            line,
            (433, 446),
            "VALORACION1"@,
            "VALORACION1 no numérica: '"@ + trim(v) + "'"@,
        ),
    )
}

#[verifier::opaque]
pub open spec fn e226(raw: Seq<char>, line: int) -> Seq<ErrorSpec> {
    let c = char_at_spec(raw, 462);
    emit_if(
        is_vi(char_at_spec(raw, 102)) && !(c == 'A' || c == 'B'),
        error_spec(
            "E226"@,
            line,
            (462, 462),
            "CLAVE_REPRESENT_VALORES"@,
            "CLAVE_REPRESENT_VALORES inválida para V/I: '"@ + seq![c] + "'"@,
        ),
    )
}

#[verifier::opaque]
pub open spec fn e227(raw: Seq<char>, line: int) -> Seq<ErrorSpec> {
    emit_if(
        !is_vi(char_at_spec(raw, 102)) && char_at_spec(raw, 462) != ' ',
        error_spec(
            "E227"@,
            line,
            (462, 462),
            "CLAVE_REPRESENT_VALORES"@,
            "CLAVE_REPRESENT_VALORES no en blanco para bien que no es V/I"@,
        ),
    )
}

#[verifier::opaque]
pub open spec fn e228(raw: Seq<char>, line: int) -> Seq<ErrorSpec> {
    let n = field_spec(raw, 463, 474);
    emit_if(
        is_vi(char_at_spec(raw, 102)) && !numeric(n),
        error_spec(
            "E228"@,
            line,
            (463, 474),
            "NUM_VALORES"@,
            "NUM_VALORES no numérico para V/I: '"@ + trim(n) + "'"@,
        ),
    )
}

#[verifier::opaque]
pub open spec fn e229(raw: Seq<char>, line: int) -> Seq<ErrorSpec> {
    let n = field_spec(raw, 463, 474);
    emit_if(
        !is_vi(char_at_spec(raw, 102)) && !all_eq(n, '0') && !all_eq(n, ' '),
        error_spec(
            "E229"@,
            line,
            (463, 474),
            "NUM_VALORES"@,
            "NUM_VALORES no es ceros para bien que no es V/I"@,
        ),
    )
}

#[verifier::opaque]
pub open spec fn e230(raw: Seq<char>, line: int) -> Seq<ErrorSpec> {
    let c = char_at_spec(raw, 475);
    emit_if(
        char_at_spec(raw, 102) == 'B' && !(c == 'U' || c == 'R'),
        error_spec(
            "E230"@,
            line,
            (475, 475),
            "CLAVE_TIPO_INMUEBLE"@,
            "CLAVE_TIPO_INMUEBLE inválida para B: '"@ + seq![c] + "'"@,
        ),
    )
}

#[verifier::opaque]
pub open spec fn e231(raw: Seq<char>, line: int) -> Seq<ErrorSpec> {
    let p = field_spec(raw, 476, 480);
    emit_if(
        numeric(p) && digits_value(p) > 10000,
        error_spec(
            "E231"@,
            line,
            (476, 480),
            "PORCENTAJE_PARTICIPACION"@,
            "PORCENTAJE_PARTICIPACION fuera de rango: "@ + dec(digits_value(p) as nat)
                + " (max 100.00%)"@,
        ),
    )
}

#[verifier::opaque]
pub open spec fn e232(raw: Seq<char>, line: int) -> Seq<ErrorSpec> {
    emit_if(
        !all_eq(field_spec(raw, 481, 500), ' '),
        error_spec(
            "E232"@,
            line,
            (481, 500),
            "BLANCOS"@,
            "Posiciones 481-500 contienen caracteres no blancos"@,
        ),
    )
}

/// `v` cents written as euros with two decimals (`{:.2}` of `v / 100`).
pub open spec fn euros(v: nat) -> Seq<char> {
    dec(v / 100) + seq!['.'] + zero_pad(dec(v % 100), 2)
}

#[verifier::opaque]
pub open spec fn w001(raw: Seq<char>, ej: Seq<char>, line: int) -> Seq<ErrorSpec> {
    let f = field_spec(raw, 415, 422);
    emit_if(
        !is_zero_date(f) && numeric(f) && f.len() == 8 && digits_value(f.subrange(0, 4))
            > parse_u32_or0(ej),
        warning_spec(
            "W001"@,
            line,
            "FECHA_INCORPORACION"@,
            "FECHA_INCORPORACION ("@ + f + ") futura al ejercicio ("@ + ej + ")"@,
        ),
    )
}

#[verifier::opaque]
pub open spec fn w002(raw: Seq<char>, line: int) -> Seq<ErrorSpec> {
    let v = trim(field_spec(raw, 433, 446));
    emit_if(
        numeric(v) && digits_value(v) > 1_000_000_000,
        warning_spec(
            "W002"@,
            line,
            "VALORACION1"@,
            "VALORACION1 > 10.000.000€: "@ + euros(digits_value(v) as nat) + "€"@,
        ),
    )
}

#[verifier::opaque]
pub open spec fn w003(raw: Seq<char>, line: int) -> Seq<ErrorSpec> {
    let p = field_spec(raw, 476, 480);
    emit_if(
        numeric(p) && digits_value(p) == 0,
        warning_spec(
            "W003"@,
            line,
            "PORCENTAJE_PARTICIPACION"@,
            "PORCENTAJE_PARTICIPACION = 0"@,
        ),
    )
}

/// A BIC of 8 or 11 ASCII letters and digits.
pub open spec fn bic_ok(b: Seq<char>) -> bool {
    (b.len() == 8 || b.len() == 11) && all_alnum(b)
}

#[verifier::opaque]
pub open spec fn w004(raw: Seq<char>, line: int) -> Seq<ErrorSpec> {
    let b = field_spec(raw, 145, 155);
    emit_if(
        char_at_spec(raw, 102) == 'C' && !all_eq(b, ' ') && !bic_ok(trim(b)),
        warning_spec(
            "W004"@,
            line,
            "CODIGO_BIC"@,
            "CODIGO_BIC formato incorrecto: '"@ + trim(b) + "'"@,
        ),
    )
}

/// Errors on the identification and classification fields.
pub open spec fn tipo2_errors_ident(
    r: Seq<char>,
    ej: Seq<char>,
    l: int,
    t1raw: Seq<char>,
    t1ej: Seq<char>,
) -> Seq<ErrorSpec> {
    e233(ej, t1ej, l) + e201(r, t1raw, l) + e202(r, l) + e203(r, l)
        + e204(r, l) + e205(r, l) + e206(r, l) + e207(r, l) + e208(r, l)
}

/// Errors on the country, identification and account fields.
pub open spec fn tipo2_errors_entity(r: Seq<char>, l: int) -> Seq<ErrorSpec> {
    e209(r, l) + e210(r, l) + e211(r, l) + e212(r, l) + e213(r, l) + e214(r, l) + e215(r, l)
        + e216(r, l)
}

/// Errors on the dates, valuations and the remaining fields.
pub open spec fn tipo2_errors_values(r: Seq<char>, l: int) -> Seq<ErrorSpec> {
    e217_e218(r, l) + e219(r, l) + e220(r, l) + e221(r, l) + e222(r, l) + e223(r, l) + e224(r, l)
        + e226(r, l) + e227(r, l) + e228(r, l) + e229(r, l) + e230(r, l) + e231(r, l) + e232(r, l)
}

/// The errors of a Tipo 2 record checked against the Tipo 1 record `t1`, in
/// the order the checks run.
pub open spec fn tipo2_errors(
    raw: Seq<char>,
    ej: Seq<char>,
    line: int,
    t1raw: Seq<char>,
    t1ej: Seq<char>,
) -> Seq<ErrorSpec> {
    tipo2_errors_ident(raw, ej, line, t1raw, t1ej) + tipo2_errors_entity(raw, line)
        + tipo2_errors_values(raw, line)
}

/// An account (CLAVE_TIPO_BIEN `'C'`, position 102) must say how it is
/// identified: the Tipo 2 checks report E215 exactly when the record is an
/// account and the character at position 144 (CLAVE_ID_CUENTA) is neither
/// `'I'` (IBAN) nor `'O'` (other); a blank key is reported.
pub proof fn law_e215_iff_account_key_missing(
    raw: Seq<char>,
    ej: Seq<char>,
    line: int,
    t1raw: Seq<char>,
    t1ej: Seq<char>,
)
    requires
        raw.len() >= 144,
    ensures
        has_code(tipo2_errors(raw, ej, line, t1raw, t1ej), "E215"@) <==> (raw[101] == 'C' && !(
        raw[143] == 'I' || raw[143] == 'O')),
{
    let x = "E215"@;
    reveal_strlit("E201");
    reveal_strlit("E202");
    reveal_strlit("E203");
    reveal_strlit("E204");
    reveal_strlit("E205");
    reveal_strlit("E206");
    reveal_strlit("E207");
    reveal_strlit("E208");
    reveal_strlit("E209");
    reveal_strlit("E210");
    reveal_strlit("E211");
    reveal_strlit("E212");
    reveal_strlit("E213");
    reveal_strlit("E214");
    reveal_strlit("E215");
    reveal_strlit("E216");
    reveal_strlit("E217");
    reveal_strlit("E218");
    reveal_strlit("E219");
    reveal_strlit("E220");
    reveal_strlit("E221");
    reveal_strlit("E222");
    reveal_strlit("E223");
    reveal_strlit("E224");
    reveal_strlit("E226");
    reveal_strlit("E227");
    reveal_strlit("E228");
    reveal_strlit("E229");
    reveal_strlit("E230");
    reveal_strlit("E231");
    reveal_strlit("E232");
    reveal_strlit("E233");
    reveal(e233);
    reveal(e201);
    reveal(e202);
    reveal(e203);
    reveal(e204);
    reveal(e205);
    reveal(e206);
    reveal(e207);
    reveal(e208);
    reveal(e209);
    reveal(e210);
    reveal(e211);
    reveal(e212);
    reveal(e213);
    reveal(e214);
    reveal(e215);
    reveal(e216);
    reveal(e217_e218);
    reveal(e219);
    reveal(e220);
    reveal(e221);
    reveal(e222);
    reveal(e223);
    reveal(e224);
    reveal(e226);
    reveal(e227);
    reveal(e228);
    reveal(e229);
    reveal(e230);
    reveal(e231);
    reveal(e232);
    assert("E201"@[2] != x[2]);
    assert("E202"@[2] != x[2]);
    assert("E203"@[2] != x[2]);
    assert("E204"@[2] != x[2]);
    assert("E205"@[2] != x[2]);
    assert("E206"@[2] != x[2]);
    assert("E207"@[2] != x[2]);
    assert("E208"@[2] != x[2]);
    assert("E209"@[2] != x[2]);
    assert("E210"@[3] != x[3]);
    assert("E211"@[3] != x[3]);
    assert("E212"@[3] != x[3]);
    assert("E213"@[3] != x[3]);
    assert("E214"@[3] != x[3]);
    assert("E216"@[3] != x[3]);
    assert("E217"@[3] != x[3]);
    assert("E218"@[3] != x[3]);
    assert("E219"@[3] != x[3]);
    assert("E220"@[2] != x[2]);
    assert("E221"@[2] != x[2]);
    assert("E222"@[2] != x[2]);
    assert("E223"@[2] != x[2]);
    assert("E224"@[2] != x[2]);
    assert("E226"@[2] != x[2]);
    assert("E227"@[2] != x[2]);
    assert("E228"@[2] != x[2]);
    assert("E229"@[2] != x[2]);
    assert("E230"@[2] != x[2]);
    assert("E231"@[2] != x[2]);
    assert("E232"@[2] != x[2]);
    assert("E233"@[2] != x[2]);
    lemma_has_code_none(e233(ej, t1ej, line), x);
    lemma_has_code_none(e201(raw, t1raw, line), x);
    lemma_has_code_none(e202(raw, line), x);
    lemma_has_code_none(e203(raw, line), x);
    lemma_has_code_none(e204(raw, line), x);
    lemma_has_code_none(e205(raw, line), x);
    lemma_has_code_none(e206(raw, line), x);
    lemma_has_code_none(e207(raw, line), x);
    lemma_has_code_none(e208(raw, line), x);
    lemma_has_code_add(e233(ej, t1ej, line), e201(raw, t1raw, line), x);
    lemma_has_code_add(e233(ej, t1ej, line) + e201(raw, t1raw, line), e202(raw, line), x);
    lemma_has_code_add(e233(ej, t1ej, line) + e201(raw, t1raw, line) + e202(raw, line), e203(raw, line), x);
    lemma_has_code_add(e233(ej, t1ej, line) + e201(raw, t1raw, line) + e202(raw, line) + e203(raw, line), e204(raw, line), x);
    lemma_has_code_add(e233(ej, t1ej, line) + e201(raw, t1raw, line) + e202(raw, line) + e203(raw, line) + e204(raw, line), e205(raw, line), x);
    lemma_has_code_add(e233(ej, t1ej, line) + e201(raw, t1raw, line) + e202(raw, line) + e203(raw, line) + e204(raw, line) + e205(raw, line), e206(raw, line), x);
    lemma_has_code_add(e233(ej, t1ej, line) + e201(raw, t1raw, line) + e202(raw, line) + e203(raw, line) + e204(raw, line) + e205(raw, line) + e206(raw, line), e207(raw, line), x);
    lemma_has_code_add(e233(ej, t1ej, line) + e201(raw, t1raw, line) + e202(raw, line) + e203(raw, line) + e204(raw, line) + e205(raw, line) + e206(raw, line) + e207(raw, line), e208(raw, line), x);
    lemma_has_code_none(e209(raw, line), x);
    lemma_has_code_none(e210(raw, line), x);
    lemma_has_code_none(e211(raw, line), x);
    lemma_has_code_none(e212(raw, line), x);
    lemma_has_code_none(e213(raw, line), x);
    lemma_has_code_none(e214(raw, line), x);
    lemma_has_code_none(e216(raw, line), x);
    lemma_has_code_add(e209(raw, line), e210(raw, line), x);
    lemma_has_code_add(e209(raw, line) + e210(raw, line), e211(raw, line), x);
    lemma_has_code_add(e209(raw, line) + e210(raw, line) + e211(raw, line), e212(raw, line), x);
    lemma_has_code_add(e209(raw, line) + e210(raw, line) + e211(raw, line) + e212(raw, line), e213(raw, line), x);
    lemma_has_code_add(e209(raw, line) + e210(raw, line) + e211(raw, line) + e212(raw, line) + e213(raw, line), e214(raw, line), x);
    lemma_has_code_add(e209(raw, line) + e210(raw, line) + e211(raw, line) + e212(raw, line) + e213(raw, line) + e214(raw, line), e215(raw, line), x);
    lemma_has_code_add(e209(raw, line) + e210(raw, line) + e211(raw, line) + e212(raw, line) + e213(raw, line) + e214(raw, line) + e215(raw, line), e216(raw, line), x);
    lemma_has_code_none(e217_e218(raw, line), x);
    lemma_has_code_none(e219(raw, line), x);
    lemma_has_code_none(e220(raw, line), x);
    lemma_has_code_none(e221(raw, line), x);
    lemma_has_code_none(e222(raw, line), x);
    lemma_has_code_none(e223(raw, line), x);
    lemma_has_code_none(e224(raw, line), x);
    lemma_has_code_none(e226(raw, line), x);
    lemma_has_code_none(e227(raw, line), x);
    lemma_has_code_none(e228(raw, line), x);
    lemma_has_code_none(e229(raw, line), x);
    lemma_has_code_none(e230(raw, line), x);
    lemma_has_code_none(e231(raw, line), x);
    lemma_has_code_none(e232(raw, line), x);
    lemma_has_code_add(e217_e218(raw, line), e219(raw, line), x);
    lemma_has_code_add(e217_e218(raw, line) + e219(raw, line), e220(raw, line), x);
    lemma_has_code_add(e217_e218(raw, line) + e219(raw, line) + e220(raw, line), e221(raw, line), x);
    lemma_has_code_add(e217_e218(raw, line) + e219(raw, line) + e220(raw, line) + e221(raw, line), e222(raw, line), x);
    lemma_has_code_add(e217_e218(raw, line) + e219(raw, line) + e220(raw, line) + e221(raw, line) + e222(raw, line), e223(raw, line), x);
    lemma_has_code_add(e217_e218(raw, line) + e219(raw, line) + e220(raw, line) + e221(raw, line) + e222(raw, line) + e223(raw, line), e224(raw, line), x);
    lemma_has_code_add(e217_e218(raw, line) + e219(raw, line) + e220(raw, line) + e221(raw, line) + e222(raw, line) + e223(raw, line) + e224(raw, line), e226(raw, line), x);
    lemma_has_code_add(e217_e218(raw, line) + e219(raw, line) + e220(raw, line) + e221(raw, line) + e222(raw, line) + e223(raw, line) + e224(raw, line) + e226(raw, line), e227(raw, line), x);
    lemma_has_code_add(e217_e218(raw, line) + e219(raw, line) + e220(raw, line) + e221(raw, line) + e222(raw, line) + e223(raw, line) + e224(raw, line) + e226(raw, line) + e227(raw, line), e228(raw, line), x);
    lemma_has_code_add(e217_e218(raw, line) + e219(raw, line) + e220(raw, line) + e221(raw, line) + e222(raw, line) + e223(raw, line) + e224(raw, line) + e226(raw, line) + e227(raw, line) + e228(raw, line), e229(raw, line), x);
    lemma_has_code_add(e217_e218(raw, line) + e219(raw, line) + e220(raw, line) + e221(raw, line) + e222(raw, line) + e223(raw, line) + e224(raw, line) + e226(raw, line) + e227(raw, line) + e228(raw, line) + e229(raw, line), e230(raw, line), x);
    lemma_has_code_add(e217_e218(raw, line) + e219(raw, line) + e220(raw, line) + e221(raw, line) + e222(raw, line) + e223(raw, line) + e224(raw, line) + e226(raw, line) + e227(raw, line) + e228(raw, line) + e229(raw, line) + e230(raw, line), e231(raw, line), x);
    lemma_has_code_add(e217_e218(raw, line) + e219(raw, line) + e220(raw, line) + e221(raw, line) + e222(raw, line) + e223(raw, line) + e224(raw, line) + e226(raw, line) + e227(raw, line) + e228(raw, line) + e229(raw, line) + e230(raw, line) + e231(raw, line), e232(raw, line), x);
    if raw[101] == 'C' && !(raw[143] == 'I' || raw[143] == 'O') {
        assert(e215(raw, line)[0].code == x);
    } else {
        lemma_has_code_none(e215(raw, line), x);
    }
    let ti = tipo2_errors_ident(raw, ej, line, t1raw, t1ej);
    let te = tipo2_errors_entity(raw, line);
    let tv = tipo2_errors_values(raw, line);
    lemma_has_code_add(ti, te, x);
    lemma_has_code_add(ti + te, tv, x);
}

/// The warnings of a Tipo 2 record.
pub open spec fn tipo2_warnings(r: Seq<char>, ej: Seq<char>, l: int) -> Seq<ErrorSpec> {
    w001(r, ej, l) + w002(r, l) + w003(r, l) + w004(r, l)
}

/// The Tipo 2 checks reach `validate_nif` on NIF_DECLARADO and, for an ISIN
/// identification, the ISIN check.
pub open spec fn tipo2_panics(raw: Seq<char>) -> bool {
    ||| nif_panics(field_spec(raw, 18, 26))
    ||| (char_at_spec(raw, 131) == '1' && isin_panics(field_spec(raw, 132, 143)))
}


// ── Checks ───────────────────────────────────────────────────────────────────

fn chars_equal(a: &[char], b: &[char]) -> (r: bool)
    ensures
        r == (a@ == b@),
{
    let r = eq_in(a, 0, a.len(), b);
    assert(a@.subrange(0, a@.len() as int) =~= a@);
    r
}

fn check_e233(ej2: &[char], ej1: &[char], line: usize, errors: &mut Vec<ValidationError>)
    ensures
        views(final(errors)@) == views(old(errors)@) + e233(ej2@, ej1@, line as int),
{
    reveal(e233);
    push_when(
        errors,
        !chars_equal(ej2, ej1),
        ValidationError::error_pos(
            "E233",
            line,
            (5, 8),
            "EJERCICIO",
            msg_chars2("EJERCICIO en T2 (", ej2, ") != T1 (", ej1, ")").as_str(),
        ),
    );
}

fn check_e201(raw: &[char], t1raw: &[char], line: usize, errors: &mut Vec<ValidationError>)
    ensures
        views(final(errors)@) == views(old(errors)@) + e201(raw@, t1raw@, line as int),
{
    reveal(e201);
    let n2 = field_chars(raw, 9, 17);
    let n1 = field_chars(t1raw, 9, 17);
    let t2 = trim_chars(n2.as_slice());
    let t1 = trim_chars(n1.as_slice());
    push_when(
        errors,
        !chars_equal(n2.as_slice(), n1.as_slice()),
        ValidationError::error_pos(
            "E201",
            line,
            (9, 17),
            "NIF_DECLARANTE",
            msg_chars2(
                "NIF_DECLARANTE en T2 (",
                t2.as_slice(),
                ") != T1 (",
                t1.as_slice(),
                ")",
            ).as_str(),
        ),
    );
}

fn check_e202(raw: &[char], line: usize, errors: &mut Vec<ValidationError>)
    requires
        !nif_panics(field_spec(raw@, 18, 26)),
    ensures
        views(final(errors)@) == views(old(errors)@) + e202(raw@, line as int),
{
    reveal(e202);
    let nif = field_chars(raw, 18, 26);
    let ok = validate_nif_chars(nif.as_slice());
    let t = trim_chars(nif.as_slice());
    push_when(
        errors,
        !ok,
        ValidationError::error_pos(
            "E202",
            line,
            (18, 26),
            "NIF_DECLARADO",
            msg_chars("NIF_DECLARADO inválido: '", t.as_slice(), "'").as_str(),
        ),
    );
}

fn check_e203(raw: &[char], line: usize, errors: &mut Vec<ValidationError>)
    ensures
        views(final(errors)@) == views(old(errors)@) + e203(raw@, line as int),
{
    reveal(e203);
    let nombre = field_chars(raw, 36, 75);
    let t = trim_chars(nombre.as_slice());
    push_when(
        errors,
        t.len() == 0,
        ValidationError::error_pos(
            "E203",
            line,
            (36, 75),
            "APELLIDOS_NOMBRE_DECLARADO",
            "APELLIDOS_NOMBRE_DECLARADO vacío",
        ),
    );
}

fn check_e204_e205(raw: &[char], line: usize, errors: &mut Vec<ValidationError>)
    ensures
        views(final(errors)@) == views(old(errors)@) + e204(raw@, line as int) + e205(
            raw@,
            line as int,
        ),
{
    reveal(e204);
    reveal(e205);
    let c = char_at_chars(raw, 76);
    let in_range = '1' <= c && c <= '8';
    push_when(
        errors,
        !in_range,
        ValidationError::error_pos(
            "E204",
            line,
            (76, 76),
            "CLAVE_CONDICION",
            msg_char("CLAVE_CONDICION fuera de rango: '", c, "'").as_str(),
        ),
    );
    let tit = field_chars(raw, 77, 101);
    let blank = all_eq_in(tit.as_slice(), 0, tit.len(), ' ');
    assert(tit@.subrange(0, tit@.len() as int) =~= tit@);
    push_when(
        errors,
        c != '8' && !blank,
        ValidationError::error_pos(
            "E205",
            line,
            (77, 101),
            "TIPO_TITULARIDAD",
            "TIPO_TITULARIDAD no vacío cuando condición != 8",
        ),
    );
}

fn check_e206_e207_e208(raw: &[char], line: usize, errors: &mut Vec<ValidationError>)
    ensures
        views(final(errors)@) == views(old(errors)@) + e206(raw@, line as int) + e207(
            raw@,
            line as int,
        ) + e208(raw@, line as int),
{
    reveal(e206);
    reveal(e207);
    reveal(e208);
    let b = char_at_chars(raw, 102);
    let valid_bien = b == 'C' || b == 'V' || b == 'I' || b == 'S' || b == 'B';
    push_when(
        errors,
        !valid_bien,
        ValidationError::error_pos(
            "E206",
            line,
            (102, 102),
            "CLAVE_TIPO_BIEN",
            msg_char("CLAVE_TIPO_BIEN inválida: '", b, "'").as_str(),
        ),
    );
    let sub = char_at_chars(raw, 103);
    let valid_sub = if b == 'C' || b == 'B' {
        '1' <= sub && sub <= '5'
    } else if b == 'V' {
        '1' <= sub && sub <= '3'
    } else if b == 'I' {
        sub == '0'
    } else if b == 'S' {
        sub == '1' || sub == '2'
    } else {
        true
    };
    push_when(
        errors,
        valid_bien && !valid_sub,
        ValidationError::error_pos(
            "E207",
            line,
            (103, 103),
            "SUBCLAVE",
            msg_char2("SUBCLAVE '", sub, "' inválida para CLAVE_TIPO_BIEN '", b, "'").as_str(),
        ),
    );
    push_when(
        errors,
        b == 'I' && sub != '0',
        ValidationError::error_pos(
            "E208",
            line,
            (103, 103),
            "SUBCLAVE",
            msg_char("SUBCLAVE debe ser '0' para CLAVE_TIPO_BIEN 'I', encontrado '", sub, "'").as_str(),
        ),
    );
}

fn check_e209(raw: &[char], line: usize, errors: &mut Vec<ValidationError>)
    ensures
        views(final(errors)@) == views(old(errors)@) + e209(raw@, line as int),
{
    reveal(e209);
    let cp = field_chars(raw, 129, 130);
    let ok = is_valid_country_code(cp.as_slice());
    push_when(
        errors,
        !ok,
        ValidationError::error_pos(
            "E209",
            line,
            (129, 130),
            "CODIGO_PAIS",
            msg_chars("CODIGO_PAIS no es ISO-3166: '", cp.as_slice(), "'").as_str(),
        ),
    );
}

fn check_e210_e211(raw: &[char], line: usize, errors: &mut Vec<ValidationError>)
    ensures
        views(final(errors)@) == views(old(errors)@) + e210(raw@, line as int) + e211(
            raw@,
            line as int,
        ),
{
    reveal(e210);
    reveal(e211);
    let c = char_at_chars(raw, 131);
    push_when(
        errors,
        !(c == '0' || c == '1' || c == '2'),
        ValidationError::error_pos(
            "E210",
            line,
            (131, 131),
            "CLAVE_IDENTIFICACION",
            msg_char("CLAVE_IDENTIFICACION inválida: '", c, "'").as_str(),
        ),
    );
    let b = char_at_chars(raw, 102);
    push_when(
        errors,
        (b == 'C' || b == 'S' || b == 'B') && c != '0',
        ValidationError::error_pos(
            "E211",
            line,
            (131, 131),
            "CLAVE_IDENTIFICACION",
            msg_char2(
                "CLAVE_IDENTIFICACION debe ser '0' para bien '",
                b,
                "', encontrado '",
                c,
                "'",
            ).as_str(),
        ),
    );
}

fn check_e212_e213_e214(raw: &[char], line: usize, errors: &mut Vec<ValidationError>)
    requires
        char_at_spec(raw@, 131) == '1' ==> !isin_panics(field_spec(raw@, 132, 143)),
    ensures
        views(final(errors)@) == views(old(errors)@) + e212(raw@, line as int) + e213(
            raw@,
            line as int,
        ) + e214(raw@, line as int),
{
    reveal(e212);
    reveal(e213);
    reveal(e214);
    let c = char_at_chars(raw, 131);
    let v = field_chars(raw, 132, 143);
    let bad_isin = if c == '1' {
        !validate_isin_chars(v.as_slice())
    } else {
        false
    };
    let t = trim_chars(v.as_slice());
    push_when(
        errors,
        bad_isin,
        ValidationError::error_pos(
            "E212",
            line,
            (132, 143),
            "IDENTIFICACION_VALORES",
            msg_chars("ISIN inválido: '", t.as_slice(), "'").as_str(),
        ),
    );
    push_when(
        errors,
        c == '2' && v.len() > 0 && v[0] == 'Z',
        ValidationError::error_pos(
            "E213",
            line,
            (132, 143),
            "IDENTIFICACION_VALORES",
            "IDENTIFICACION_VALORES empieza por 'Z' cuando CLAVE_IDENTIFICACION = 2",
        ),
    );
    let b = char_at_chars(raw, 102);
    let blank = all_eq_in(v.as_slice(), 0, v.len(), ' ');
    assert(v@.subrange(0, v@.len() as int) =~= v@);
    push_when(
        errors,
        !(b == 'V' || b == 'I') && !blank,
        ValidationError::error_pos(
            "E214",
            line,
            (132, 143),
            "IDENTIFICACION_VALORES",
            "IDENTIFICACION_VALORES no en blanco para bien que no es V/I",
        ),
    );
}

fn check_e215_e216(raw: &[char], line: usize, errors: &mut Vec<ValidationError>)
    ensures
        views(final(errors)@) == views(old(errors)@) + e215(raw@, line as int) + e216(
            raw@,
            line as int,
        ),
{
    reveal(e215);
    reveal(e216);
    let b = char_at_chars(raw, 102);
    let c = char_at_chars(raw, 144);
    push_when(
        errors,
        b == 'C' && !(c == 'I' || c == 'O'),
        ValidationError::error_pos(
            "E215",
            line,
            (144, 144),
            "CLAVE_ID_CUENTA",
            msg_char("CLAVE_ID_CUENTA inválida para bien C: '", c, "'").as_str(),
        ),
    );
    let ent = field_chars(raw, 190, 230);
    let t = trim_chars(ent.as_slice());
    push_when(
        errors,
        b != 'B' && t.len() == 0,
        ValidationError::error_pos(
            "E216",
            line,
            (190, 230),
            "IDENTIFICACION_ENTIDAD",
            "IDENTIFICACION_ENTIDAD vacía (obligatoria salvo para bien B)",
        ),
    );
}

fn numeric_chars(s: &[char]) -> (r: bool)
    ensures
        r == numeric(s@),
{
    let d = all_digits_in(s, 0, s.len());
    assert(s@.subrange(0, s@.len() as int) =~= s@);
    s.len() > 0 && d
}

fn zero_date_chars(s: &[char]) -> (r: bool)
    ensures
        r == is_zero_date(s@),
{
    if s.len() != 8 {
        return false;
    }
    let z = all_eq_in(s, 0, 8, '0');
    assert(s@.subrange(0, 8) =~= s@);
    z
}

fn check_e217_to_e219(raw: &[char], line: usize, errors: &mut Vec<ValidationError>)
    ensures
        views(final(errors)@) == views(old(errors)@) + e217_e218(raw@, line as int) + e219(
            raw@,
            line as int,
        ),
{
    reveal(e217_e218);
    reveal(e219);
    let f = field_chars(raw, 415, 422);
    let num = numeric_chars(f.as_slice());
    push_when(
        errors,
        !num,
        ValidationError::error_pos(
            "E217",
            line,
            (415, 422),
            "FECHA_INCORPORACION",
            msg_chars("FECHA_INCORPORACION formato incorrecto: '", f.as_slice(), "'").as_str(),
        ),
    );
    let valid = date_ok_chars(f.as_slice());
    push_when(
        errors,
        num && !valid,
        ValidationError::error_pos(
            "E218",
            line,
            (415, 422),
            "FECHA_INCORPORACION",
            msg_chars("FECHA_INCORPORACION fecha inválida: '", f.as_slice(), "'").as_str(),
        ),
    );
    let b = char_at_chars(raw, 102);
    push_when(
        errors,
        b == 'C' && zero_date_chars(f.as_slice()),
        ValidationError::error_pos(
            "E219",
            line,
            (415, 422),
            "FECHA_INCORPORACION",
            "FECHA_INCORPORACION obligatoria para bien C pero es ceros",
        ),
    );
}

fn check_e220_to_e223(raw: &[char], line: usize, errors: &mut Vec<ValidationError>)
    ensures
        views(final(errors)@) == views(old(errors)@) + e220(raw@, line as int) + e221(
            raw@,
            line as int,
        ) + e222(raw@, line as int) + e223(raw@, line as int),
{
    reveal(e220);
    reveal(e221);
    reveal(e222);
    reveal(e223);
    let o = char_at_chars(raw, 423);
    push_when(
        errors,
        !(o == 'A' || o == 'M' || o == 'C'),
        ValidationError::error_pos(
            "E220",
            line,
            (423, 423),
            "ORIGEN",
            msg_char("ORIGEN debe ser A/M/C, encontrado '", o, "'").as_str(),
        ),
    );
    let f = field_chars(raw, 424, 431);
    let zero = zero_date_chars(f.as_slice());
    push_when(
        errors,
        o == 'C' && zero,
        ValidationError::error_pos(
            "E221",
            line,
            (424, 431),
            "FECHA_EXTINCION",
            "FECHA_EXTINCION es ceros cuando ORIGEN=C",
        ),
    );
    push_when(
        errors,
        o != 'C' && !zero,
        ValidationError::error_pos(
            "E222",
            line,
            (424, 431),
            "FECHA_EXTINCION",
            "FECHA_EXTINCION no es ceros cuando ORIGEN!=C",
        ),
    );
    let bad = !zero && (!numeric_chars(f.as_slice()) || !date_ok_chars(f.as_slice()));
    push_when(
        errors,
        bad,
        ValidationError::error_pos(
            "E223",
            line,
            (424, 431),
            "FECHA_EXTINCION",
            msg_chars("FECHA_EXTINCION inválida: '", f.as_slice(), "'").as_str(),
        ),
    );
}

fn check_e224(raw: &[char], line: usize, errors: &mut Vec<ValidationError>)
    ensures
        views(final(errors)@) == views(old(errors)@) + e224(raw@, line as int),
{
    reveal(e224);
    let v = field_chars(raw, 433, 446);
    let t = trim_chars(v.as_slice());
    let blank = all_eq_in(v.as_slice(), 0, v.len(), ' ');
    assert(v@.subrange(0, v@.len() as int) =~= v@);
    push_when(
        errors,
        !numeric_chars(t.as_slice()) && !blank,
        ValidationError::error_pos(
            "E224",
            line,
            (433, 446),
            "VALORACION1",
            msg_chars("VALORACION1 no numérica: '", t.as_slice(), "'").as_str(),
        ),
    );
}

fn check_e226_e227(raw: &[char], line: usize, errors: &mut Vec<ValidationError>)
    ensures
        views(final(errors)@) == views(old(errors)@) + e226(raw@, line as int) + e227(
            raw@,
            line as int,
        ),
{
    reveal(e226);
    reveal(e227);
    let b = char_at_chars(raw, 102);
    let c = char_at_chars(raw, 462);
    let vi = b == 'V' || b == 'I';
    push_when(
        errors,
        vi && !(c == 'A' || c == 'B'),
        ValidationError::error_pos(
            "E226",
            line,
            (462, 462),
            "CLAVE_REPRESENT_VALORES",
            msg_char("CLAVE_REPRESENT_VALORES inválida para V/I: '", c, "'").as_str(),
        ),
    );
    push_when(
        errors,
        !vi && c != ' ',
        ValidationError::error_pos(
            "E227",
            line,
            (462, 462),
            "CLAVE_REPRESENT_VALORES",
            "CLAVE_REPRESENT_VALORES no en blanco para bien que no es V/I",
        ),
    );
}

fn check_e228_e229(raw: &[char], line: usize, errors: &mut Vec<ValidationError>)
    ensures
        views(final(errors)@) == views(old(errors)@) + e228(raw@, line as int) + e229(
            raw@,
            line as int,
        ),
{
    reveal(e228);
    reveal(e229);
    let b = char_at_chars(raw, 102);
    let vi = b == 'V' || b == 'I';
    let n = field_chars(raw, 463, 474);
    let t = trim_chars(n.as_slice());
    push_when(
        errors,
        vi && !numeric_chars(n.as_slice()),
        ValidationError::error_pos(
            "E228",
            line,
            (463, 474),
            "NUM_VALORES",
            msg_chars("NUM_VALORES no numérico para V/I: '", t.as_slice(), "'").as_str(),
        ),
    );
    let zeros = all_eq_in(n.as_slice(), 0, n.len(), '0');
    let blank = all_eq_in(n.as_slice(), 0, n.len(), ' ');
    assert(n@.subrange(0, n@.len() as int) =~= n@);
    push_when(
        errors,
        !vi && !zeros && !blank,
        ValidationError::error_pos(
            "E229",
            line,
            (463, 474),
            "NUM_VALORES",
            "NUM_VALORES no es ceros para bien que no es V/I",
        ),
    );
}

/// Value of a numeric field of at most five digits (`parse::<u32>`).
fn small_value(s: &[char]) -> (v: u64)
    requires
        numeric(s@),
        s@.len() <= 5,
    ensures
        v == digits_value(s@),
        v < 100000,
{
    assert(s@.subrange(0, s@.len() as int) =~= s@);
    proof {
        lemma_digits_value_bounds(s@);
        lemma_pow10_le5(s@.len());
    }
    digits_value_in(s, 0, s.len())
}

proof fn lemma_pow10_le5(n: nat)
    requires
        n <= 5,
    ensures
        pow10(n) <= 100000,
{
    reveal_with_fuel(pow10, 6);
}

fn check_e230_to_e232(raw: &[char], line: usize, errors: &mut Vec<ValidationError>)
    ensures
        views(final(errors)@) == views(old(errors)@) + e230(raw@, line as int) + e231(
            raw@,
            line as int,
        ) + e232(raw@, line as int),
{
    reveal(e230);
    reveal(e231);
    reveal(e232);
    let b = char_at_chars(raw, 102);
    let c = char_at_chars(raw, 475);
    push_when(
        errors,
        b == 'B' && !(c == 'U' || c == 'R'),
        ValidationError::error_pos(
            "E230",
            line,
            (475, 475),
            "CLAVE_TIPO_INMUEBLE",
            msg_char("CLAVE_TIPO_INMUEBLE inválida para B: '", c, "'").as_str(),
        ),
    );
    let p = field_chars(raw, 476, 480);
    if numeric_chars(p.as_slice()) {
        let pct = small_value(p.as_slice());
        let d = dec_chars(pct);
        push_when(
            errors,
            pct > 10000,
            ValidationError::error_pos(
                "E231",
                line,
                (476, 480),
                "PORCENTAJE_PARTICIPACION",
                msg_chars(
                    "PORCENTAJE_PARTICIPACION fuera de rango: ",
                    d.as_slice(),
                    " (max 100.00%)",
                ).as_str(),
            ),
        );
    } else {
        assert(views(errors@) =~= views(old(errors)@) + e230(raw@, line as int) + e231(
            raw@,
            line as int,
        ));
    }
    let bl = field_chars(raw, 481, 500);
    let blank = all_eq_in(bl.as_slice(), 0, bl.len(), ' ');
    assert(bl@.subrange(0, bl@.len() as int) =~= bl@);
    push_when(
        errors,
        !blank,
        ValidationError::error_pos(
            "E232",
            line,
            (481, 500),
            "BLANCOS",
            "Posiciones 481-500 contienen caracteres no blancos",
        ),
    );
}

fn check_w001(raw: &[char], ej: &[char], line: usize, warnings: &mut Vec<ValidationError>)
    ensures
        views(final(warnings)@) == views(old(warnings)@) + w001(raw@, ej@, line as int),
{
    reveal(w001);
    let f = field_chars(raw, 415, 422);
    let zero = zero_date_chars(f.as_slice());
    if !zero && numeric_chars(f.as_slice()) && f.len() == 8 {
        proof {
            assert(all_digits(f@.subrange(0, 4)));
            lemma_digits_value_bounds(f@.subrange(0, 4));
            reveal_with_fuel(pow10, 5);
        }
        let fecha_year = digits_value_in(f.as_slice(), 0, 4);
        let ejercicio: u64 = match parse_unsigned_in(ej, 0, ej.len(), 4294967295u64) {
            Some(v) => v,
            None => 0,
        };
        assert(ej@.subrange(0, ej@.len() as int) =~= ej@);
        push_when(
            warnings,
            fecha_year > ejercicio,
            ValidationError::warning(
                "W001",
                line,
                "FECHA_INCORPORACION",
                msg_chars2(
                    "FECHA_INCORPORACION (",
                    f.as_slice(),
                    ") futura al ejercicio (",
                    ej,
                    ")",
                ).as_str(),
            ),
        );
    } else {
        assert(views(warnings@) =~= views(old(warnings)@) + w001(raw@, ej@, line as int));
    }
}

fn check_w002_w003(raw: &[char], line: usize, warnings: &mut Vec<ValidationError>)
    ensures
        views(final(warnings)@) == views(old(warnings)@) + w002(raw@, line as int) + w003(
            raw@,
            line as int,
        ),
{
    reveal(w002);
    reveal(w003);
    let ghost start = views(warnings@);
    let v = field_chars(raw, 433, 446);
    let t = trim_chars(v.as_slice());
    if numeric_chars(t.as_slice()) {
        proof {
            lemma_trim_len_le(v@);
            assert(t@.subrange(0, t@.len() as int) =~= t@);
            lemma_digits_value_bounds(t@);
        }
        let cents = digits_value_in(t.as_slice(), 0, t.len());
        if cents > 1_000_000_000 {
            let ip = dec_chars(cents / 100);
            let fp = dec_padded(cents % 100, 2);
            let mut amount: Vec<char> = Vec::new();
            let mut i: usize = 0;
            while i < ip.len()
                invariant
                    i <= ip@.len(),
                    amount@ == ip@.take(i as int),
                decreases ip@.len() - i,
            {
                amount.push(ip[i]);
                assert(ip@.take(i + 1) =~= ip@.take(i as int).push(ip@[i as int]));
                i += 1;
            }
            amount.push('.');
            let mut j: usize = 0;
            while j < fp.len()
                invariant
                    j <= fp@.len(),
                    amount@ == ip@ + seq!['.'] + fp@.take(j as int),
                decreases fp@.len() - j,
            {
                amount.push(fp[j]);
                assert(fp@.take(j + 1) =~= fp@.take(j as int).push(fp@[j as int]));
                j += 1;
            }
            assert(ip@.take(ip@.len() as int) =~= ip@);
            assert(fp@.take(fp@.len() as int) =~= fp@);
            assert(amount@ == euros(cents as nat));
            push_when(
                warnings,
                true,
                ValidationError::warning(
                    "W002",
                    line,
                    "VALORACION1",
                    msg_chars("VALORACION1 > 10.000.000€: ", amount.as_slice(), "€").as_str(),
                ),
            );
        } else {
            assert(views(warnings@) =~= start + w002(raw@, line as int));
        }
    } else {
        assert(views(warnings@) =~= start + w002(raw@, line as int));
    }
    let p = field_chars(raw, 476, 480);
    let zero_pct = if numeric_chars(p.as_slice()) {
        small_value(p.as_slice()) == 0
    } else {
        false
    };
    push_when(
        warnings,
        zero_pct,
        ValidationError::warning(
            "W003",
            line,
            "PORCENTAJE_PARTICIPACION",
            "PORCENTAJE_PARTICIPACION = 0",
        ),
    );
}

proof fn lemma_trim_len_le(s: Seq<char>)
    ensures
        trim(s).len() <= s.len(),
{
    crate::text::lemma_trim_len(s);
}

fn check_w004(raw: &[char], line: usize, warnings: &mut Vec<ValidationError>)
    ensures
        views(final(warnings)@) == views(old(warnings)@) + w004(raw@, line as int),
{
    reveal(w004);
    let b = char_at_chars(raw, 102);
    let bic = field_chars(raw, 145, 155);
    let blank = all_eq_in(bic.as_slice(), 0, bic.len(), ' ');
    assert(bic@.subrange(0, bic@.len() as int) =~= bic@);
    let t = trim_chars(bic.as_slice());
    let alnum = all_alnum_in(t.as_slice(), 0, t.len());
    assert(t@.subrange(0, t@.len() as int) =~= t@);
    let ok = (t.len() == 8 || t.len() == 11) && alnum;
    push_when(
        warnings,
        b == 'C' && !blank && !ok,
        ValidationError::warning(
            "W004",
            line,
            "CODIGO_BIC",
            msg_chars("CODIGO_BIC formato incorrecto: '", t.as_slice(), "'").as_str(),
        ),
    );
}

fn check_ident(record: &Record, t1: &Record, raw: &[char], errors: &mut Vec<ValidationError>)
    requires
        raw@ == record.raw@,
        !nif_panics(field_spec(raw@, 18, 26)),
    ensures
        views(final(errors)@) == views(old(errors)@) + tipo2_errors_ident(record.raw@, record.ejercicio@, record.line as int, t1.raw@, t1.ejercicio@),
{
    let ghost s0 = views(errors@);
    let t1v = chars_of(t1.raw.as_str());
    let ej2 = chars_of(record.ejercicio.as_str());
    let ej1 = chars_of(t1.ejercicio.as_str());
    let line = record.line;
    check_e233(ej2.as_slice(), ej1.as_slice(), line, errors);
    check_e201(raw, t1v.as_slice(), line, errors);
    check_e202(raw, line, errors);
    check_e203(raw, line, errors);
    check_e204_e205(raw, line, errors);
    check_e206_e207_e208(raw, line, errors);
    assert(views(errors@) =~= s0 + tipo2_errors_ident(record.raw@, record.ejercicio@, record.line as int, t1.raw@, t1.ejercicio@));
}

fn check_entity(record: &Record, raw: &[char], errors: &mut Vec<ValidationError>)
    requires
        raw@ == record.raw@,
        char_at_spec(raw@, 131) == '1' ==> !isin_panics(field_spec(raw@, 132, 143)),
    ensures
        views(final(errors)@) == views(old(errors)@) + tipo2_errors_entity(record.raw@, record.line as int),
{
    let ghost s0 = views(errors@);
    let line = record.line;
    check_e209(raw, line, errors);
    check_e210_e211(raw, line, errors);
    check_e212_e213_e214(raw, line, errors);
    check_e215_e216(raw, line, errors);
    assert(views(errors@) =~= s0 + tipo2_errors_entity(record.raw@, record.line as int));
}

fn check_values(record: &Record, raw: &[char], errors: &mut Vec<ValidationError>)
    requires
        raw@ == record.raw@,
    ensures
        views(final(errors)@) == views(old(errors)@) + tipo2_errors_values(record.raw@, record.line as int),
{
    let ghost s0 = views(errors@);
    let line = record.line;
    check_e217_to_e219(raw, line, errors);
    check_e220_to_e223(raw, line, errors);
    check_e224(raw, line, errors);
    check_e226_e227(raw, line, errors);
    check_e228_e229(raw, line, errors);
    check_e230_to_e232(raw, line, errors);
    assert(views(errors@) =~= s0 + tipo2_errors_values(record.raw@, record.line as int));
}

/// Appends the errors and warnings of a Tipo 2 record, checked against the
/// Tipo 1 record `t1`, in the order the checks run.
pub fn validate_tipo2(
    record: &Record,
    t1: &Record,
    errors: &mut Vec<ValidationError>,
    warnings: &mut Vec<ValidationError>,
)
    requires
        !tipo2_panics(record.raw@),
    ensures
        views(final(errors)@) == views(old(errors)@) + tipo2_errors(record.raw@, record.ejercicio@, record.line as int, t1.raw@, t1.ejercicio@),
        views(final(warnings)@) == views(old(warnings)@) + tipo2_warnings(record.raw@, record.ejercicio@, record.line as int),
{
    let rawv = chars_of(record.raw.as_str());
    let raw = rawv.as_slice();
    let ej2 = chars_of(record.ejercicio.as_str());
    let line = record.line;
    let ghost s0 = views(errors@);
    let ghost w0 = views(warnings@);
    check_ident(record, t1, raw, errors);
    check_entity(record, raw, errors);
    check_values(record, raw, errors);
    assert(views(errors@) =~= s0 + tipo2_errors(record.raw@, record.ejercicio@, record.line as int, t1.raw@, t1.ejercicio@));
    check_w001(raw, ej2.as_slice(), line, warnings);
    check_w002_w003(raw, line, warnings);
    check_w004(raw, line, warnings);
    assert(views(warnings@) =~= w0 + tipo2_warnings(record.raw@, record.ejercicio@, record.line as int));
}

/// Whether the ISIN check would panic on `s` (see `isin_panics`).
pub fn isin_panics_chars(s: &[char]) -> (r: bool)
    ensures
        r == isin_panics(s@),
{
    let (a, b) = trim_bounds(s);
    let ghost t = trim(s@);
    proof {
        lemma_utf8_len_bounds(t);
    }
    if b - a > 12 || b - a < 2 {
        return false;
    }
    let n = utf8_len_in(s, a, b);
    assert(t[0] == s@[a as int] && t[1] == s@[a + 1]);
    n == 12 && is_upper_exec(s[a]) && is_upper_exec(s[a + 1]) && b - a < 11
}

} // verus!
