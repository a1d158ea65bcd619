//! What the importer and the validator read in a generated file.
use vstd::prelude::*;
use crate::cross::{
    amount_sum, cross_errors, cross_panics, declared_t2, e107, e108, e109, signed_val, t2_amount,
};
use crate::encoding::{decoded_bytes, encodable, has_bom, lemma_encode_encodable, win1252_byte};
use crate::generator::{
    amount_digits, blank, digits_of, identifier, file_lines_of, file_text, fits_i64, generated, head,
    lemma_digits_of_all_digits, lemma_digits_of_digits, lemma_file_lines_len, lemma_padded_exact, lemma_padded_idem,
    lemma_t1_line_len, lemma_t2_line_len, normalized_date, padded, presenter_name, presenter_nif,
    sign_char, sum_val1, sum_val2, sums_fit, t1_line, t2_line, zero_filled, Tipo1View, Tipo2View,
};
use crate::import::{first_bad_length, imported, signed_cents, t1_of, t2_of, t2_records};
use crate::parser::{char_at_spec, ejercicio_of, field_spec, modelo_of, tipo_of};
use crate::report::ErrorSpec;
use crate::structure::{
    count_tipo1, e002_rule, e004, e005_rule, e006_rule, e007_rule, file_lines, has_crlf, is_sep,
    lemma_scan_line, length_errors, lines_from, modelo_720, per_line, record_errors,
};
use crate::tipo2::{e201, e233};
use crate::text::{
    all_digits, dec, is_digit, lemma_parse_digits, lemma_trim_trailing_spaces, lemma_zero_pad_dec,
    lemma_pow10_monotone, parse_int, pow10, trim, zero_pad,
};
use crate::tipo1::tipo1_errors;
use crate::validation::{checked_result, t2_entries, t2s_errors, validation_of};

verus! {

// ── Lines of a file ──────────────────────────────────────────────────────────

/// Every line has 500 characters.
pub open spec fn all_records(ls: Seq<Seq<char>>) -> bool {
    forall|i: int| 0 <= i < ls.len() ==> (#[trigger] ls[i]).len() == 500
}

/// No line holds a line feed.
pub open spec fn no_line_feed(ls: Seq<Seq<char>>) -> bool {
    forall|i: int, j: int| 0 <= i < ls.len() && 0 <= j < ls[i].len() ==> #[trigger] ls[i][j] != '\n'
}

/// The character at position `p` of the text of 500-character lines `ls`.
pub open spec fn text_char(ls: Seq<Seq<char>>, p: int) -> char {
    let k = p / 502;
    let j = p % 502;
    if j < 500 {
        ls[k][j]
    } else if j == 500 {
        '\r'
    } else {
        '\n'
    }
}

proof fn lemma_file_text_at(ls: Seq<Seq<char>>)
    requires
        all_records(ls),
    ensures
        file_text(ls).len() == 502 * ls.len(),
        forall|p: int| 0 <= p < file_text(ls).len() ==> #[trigger] file_text(ls)[p] == text_char(ls, p),
    decreases ls.len(),
{
    if ls.len() > 0 {
        let q = ls.drop_last();
        assert(all_records(q)) by {
            assert forall|i: int| 0 <= i < q.len() implies (#[trigger] q[i]).len() == 500 by {
                assert(q[i] == ls[i]);
            }
        }
        lemma_file_text_at(q);
        let n = ls.len();
        let t = file_text(ls);
        assert(ls.last() == ls[n - 1]);
        assert(ls[n - 1].len() == 500);
        assert forall|p: int| 0 <= p < t.len() implies #[trigger] t[p] == text_char(ls, p) by {
            if p < 502 * (n - 1) {
                assert(t[p] == file_text(q)[p]);
                assert(p / 502 < n - 1) by (nonlinear_arith)
                    requires
                        0 <= p < 502 * (n - 1),
                ;
                assert(q[p / 502] == ls[p / 502]);
            } else {
                assert(p / 502 == n - 1 && p % 502 == p - 502 * (n - 1)) by (nonlinear_arith)
                    requires
                        502 * (n - 1) <= p < 502 * n,
                ;
            }
        }
    }
}

/// From the start of its `k`-th line on, the text of `ls` splits into the
/// remaining lines.
proof fn lemma_lines_from_line(ls: Seq<Seq<char>>, k: int)
    requires
        all_records(ls),
        no_line_feed(ls),
        0 <= k <= ls.len(),
    ensures
        lines_from(file_text(ls), true, 502 * k, 502 * k) == ls.subrange(k, ls.len() as int),
    decreases ls.len() - k,
{
    lemma_file_text_at(ls);
    let t = file_text(ls);
    let n = ls.len();
    if k == n {
        assert(ls.subrange(k, n as int) =~= Seq::<Seq<char>>::empty());
    } else {
        let a = 502 * k;
        lemma_lines_from_line(ls, k + 1);
        assert forall|q: int| a <= q < a + 500 implies !is_sep(t, true, q) by {
            assert(q / 502 == k && q % 502 == q - a) by (nonlinear_arith)
                requires
                    a == 502 * k,
                    a <= q < a + 500,
            ;
            assert(t[q + 1] == text_char(ls, q + 1));
            if q + 1 < a + 500 {
                assert((q + 1) / 502 == k && (q + 1) % 502 == q + 1 - a) by (nonlinear_arith)
                    requires
                        a == 502 * k,
                        a <= q + 1 < a + 500,
                ;
                assert(ls[k][q + 1 - a] != '\n');
            } else {
                assert((q + 1) / 502 == k && (q + 1) % 502 == 500) by (nonlinear_arith)
                    requires
                        a == 502 * k,
                        q + 1 == a + 500,
                ;
            }
        }
        lemma_scan_line(t, true, a, a, a + 500);
        assert((a + 500) / 502 == k && (a + 500) % 502 == 500) by (nonlinear_arith)
            requires
                a == 502 * k,
        ;
        assert((a + 501) / 502 == k && (a + 501) % 502 == 501) by (nonlinear_arith)
            requires
                a == 502 * k,
        ;
        assert(t[a + 500] == '\r' && t[a + 501] == '\n');
        assert(is_sep(t, true, a + 500));
        assert(a + 502 == 502 * (k + 1));
        assert(t.subrange(a, a + 500) =~= ls[k]) by {
            assert forall|j: int| 0 <= j < 500 implies t.subrange(a, a + 500)[j] == ls[k][j] by {
                assert((a + j) / 502 == k && (a + j) % 502 == j) by (nonlinear_arith)
                    requires
                        a == 502 * k,
                        0 <= j < 500,
                ;
                assert(t[a + j] == text_char(ls, a + j));
            }
        }
        assert(ls.subrange(k, n as int) =~= seq![ls[k]] + ls.subrange(k + 1, n as int));
    }
}

/// The text of non-empty lines of 500 characters, none of which holds a
/// line feed, splits back into those lines.
pub proof fn lemma_file_lines_of_text(ls: Seq<Seq<char>>)
    requires
        ls.len() > 0,
        all_records(ls),
        no_line_feed(ls),
    ensures
        file_lines(file_text(ls)) == ls,
{
    lemma_file_text_at(ls);
    let t = file_text(ls);
    assert(500int / 502 == 0 && 500int % 502 == 500 && 501int / 502 == 0 && 501int % 502 == 501);
    assert(t[500] == '\r');
    assert(t[501] == '\n');
    assert(has_crlf(t));
    lemma_lines_from_line(ls, 0);
    assert(ls.subrange(0, ls.len() as int) =~= ls);
}

// ── Records ──────────────────────────────────────────────────────────────────

/// The Tipo 1 fields that reading back the record written for `t1` gives:
/// each text cut or padded to its width and trimmed, the presenter filled in
/// from the declarant when blank, the identifying number set to
/// `7200000000001` when blank, the previous declaration's number reduced to
/// its last 13 digits.
pub open spec fn reread_t1(t1: Tipo1View) -> Tipo1View {
    let nif = padded(t1.nif_declarante, 9);
    Tipo1View {
        ejercicio: padded(t1.ejercicio, 4),
        nif_declarante: trim(nif),
        nombre_declarante: trim(padded(t1.nombre_declarante, 40)),
        nif_presentador: trim(padded(presenter_nif(t1, nif), 9)),
        nombre_presentador: trim(padded(presenter_name(t1), 40)),
        num_identificativo: trim(padded(identifier(t1), 13)),
        dec_complementaria: t1.dec_complementaria,
        dec_sustitutiva: t1.dec_sustitutiva,
        num_dec_anterior: zero_filled(t1.num_dec_anterior, 13),
    }
}

/// The Tipo 2 fields that reading back the record written for `r` gives:
/// texts cut or padded to their width (and trimmed, but for the country
/// code), dates normalized, everything else as it was.
pub open spec fn reread_t2(r: Tipo2View) -> Tipo2View {
    Tipo2View {
        nif_declarado: trim(padded(r.nif_declarado, 9)),
        nif_representante: trim(padded(r.nif_representante, 9)),
        nombre_declarado: trim(padded(r.nombre_declarado, 40)),
        clave_condicion: r.clave_condicion,
        clave_tipo_bien: r.clave_tipo_bien,
        subclave: r.subclave,
        codigo_pais: padded(r.codigo_pais, 2),
        clave_identificacion: r.clave_identificacion,
        identificacion_valores: trim(padded(r.identificacion_valores, 12)),
        clave_id_cuenta: r.clave_id_cuenta,
        codigo_bic: trim(padded(r.codigo_bic, 11)),
        identificacion_cuenta: trim(padded(r.identificacion_cuenta, 34)),
        identificacion_entidad: trim(padded(r.identificacion_entidad, 41)),
        nif_fiscal_pais: trim(padded(r.nif_fiscal_pais, 20)),
        domicilio: trim(padded(r.domicilio, 40)),
        localidad: trim(padded(r.localidad, 30)),
        municipio: trim(padded(r.municipio, 30)),
        codigo_postal: trim(padded(r.codigo_postal, 10)),
        pais_domicilio: trim(padded(r.pais_domicilio, 2)),
        fecha_incorporacion: normalized_date(r.fecha_incorporacion),
        origen: r.origen,
        fecha_extincion: normalized_date(r.fecha_extincion),
        valoracion1_cents: r.valoracion1_cents,
        valoracion2_cents: r.valoracion2_cents,
        clave_represent_valores: r.clave_represent_valores,
        num_valores: r.num_valores,
        clave_tipo_inmueble: r.clave_tipo_inmueble,
        porcentaje_participacion: r.porcentaje_participacion,
    }
}

/// The numbers of `r` fit their fields: valuations of at most 14 digits,
/// at most 12 digits of units and 5 of percentage.
pub open spec fn fits_fields(r: Tipo2View) -> bool {
    &&& -100_000_000_000_000 < r.valoracion1_cents < 100_000_000_000_000
    &&& -100_000_000_000_000 < r.valoracion2_cents < 100_000_000_000_000
    &&& r.num_valores < 1_000_000_000_000
    &&& r.porcentaje_participacion < 100_000
}

pub proof fn lemma_zero_filled_digits(s: Seq<char>, len: nat)
    requires
        len >= 1,
    ensures
        all_digits(zero_filled(s, len)),
        zero_filled(s, len).len() == len,
        trim(zero_filled(s, len)) == zero_filled(s, len),
{
    lemma_digits_of_all_digits(s);
    let d = digits_of(s);
    let t = d.skip(if d.len() > len { d.len() - len } else { 0 });
    let z = zero_filled(s, len);
    assert forall|i: int| 0 <= i < z.len() implies is_digit(#[trigger] z[i]) by {
        if t.len() < len && i >= len - t.len() {
            assert(z[i] == t[i - (len - t.len())]);
        }
    }
    lemma_parse_digits(z, false);
}

/// A number written in `w` digits reads back as itself.
proof fn lemma_number_field(n: nat, w: nat)
    requires
        1 <= w,
        n < pow10(w),
    ensures
        trim(padded(zero_pad(dec(n), w), w)) == zero_pad(dec(n), w),
        parse_int(zero_pad(dec(n), w), true) == Some(n as int),
        parse_int(zero_pad(dec(n), w), false) == Some(n as int),
{
    lemma_zero_pad_dec(n, w);
    lemma_padded_exact(zero_pad(dec(n), w), w);
    lemma_parse_digits(zero_pad(dec(n), w), true);
    lemma_parse_digits(zero_pad(dec(n), w), false);
}

/// A valuation written as sign and 14 digits reads back as itself.
proof fn lemma_amount_field(v: int)
    requires
        -100_000_000_000_000 < v < 100_000_000_000_000,
    ensures
        signed_cents(sign_char(v), padded(amount_digits(v, 14), 14)) == v,
{
    let a: nat = (if v < 0 { -v } else { v }) as nat;
    reveal_with_fuel(pow10, 15);
    lemma_number_field(a, 14);
    assert(amount_digits(v, 14) == zero_pad(dec(a), 14));
}

/// What `import` reads from the Tipo 1 record written for `t1`.
pub proof fn lemma_t1_reread(t1: Tipo1View, total: nat, sum1: int, sum2: int)
    ensures
        char_at_spec(t1_line(t1, padded(t1.ejercicio, 4), padded(t1.nif_declarante, 9), total, sum1, sum2), 1) == '1',
        t1_of(t1_line(t1, padded(t1.ejercicio, 4), padded(t1.nif_declarante, 9), total, sum1, sum2))
            == reread_t1(t1),
{
    let ej = padded(t1.ejercicio, 4);
    let nif = padded(t1.nif_declarante, 9);
    let l = t1_line(t1, ej, nif, total, sum1, sum2);
    lemma_t1_line_len(t1, ej, nif, total, sum1, sum2);
    lemma_padded_idem(t1.ejercicio, 4);
    lemma_padded_idem(t1.nif_declarante, 9);
    lemma_zero_filled_digits(t1.num_dec_anterior, 13);
    reveal(t1_line);
    reveal_strlit("720");
    assert(l.subrange(4, 8) =~= padded(ej, 4));
    assert(l.subrange(8, 17) =~= padded(nif, 9));
    assert(l.subrange(17, 57) =~= padded(t1.nombre_declarante, 40));
    assert(l.subrange(58, 67) =~= padded(presenter_nif(t1, nif), 9));
    assert(l.subrange(67, 107) =~= padded(presenter_name(t1), 40));
    assert(l.subrange(107, 120) =~= padded(identifier(t1), 13));
    assert(l.subrange(122, 135) =~= zero_filled(t1.num_dec_anterior, 13));
    assert(t1_of(l) =~= reread_t1(t1));
}

#[verifier::rlimit(40)]
proof fn lemma_t2_identity_fields(ej: Seq<char>, nif: Seq<char>, r: Tipo2View)
    ensures
        t2_line(ej, nif, r).subrange(17, 26) == padded(r.nif_declarado, 9),
        t2_line(ej, nif, r).subrange(26, 35) == padded(r.nif_representante, 9),
        t2_line(ej, nif, r).subrange(35, 75) == padded(r.nombre_declarado, 40),
        t2_line(ej, nif, r).subrange(128, 130) == padded(r.codigo_pais, 2),
        t2_line(ej, nif, r).subrange(131, 143) == padded(r.identificacion_valores, 12),
{
    let l = t2_line(ej, nif, r);
    reveal(t2_line);
    reveal_strlit("720");
    assert(l.subrange(17, 26) =~= padded(r.nif_declarado, 9));
    assert(l.subrange(26, 35) =~= padded(r.nif_representante, 9));
    assert(l.subrange(35, 75) =~= padded(r.nombre_declarado, 40));
    assert(l.subrange(128, 130) =~= padded(r.codigo_pais, 2));
    assert(l.subrange(131, 143) =~= padded(r.identificacion_valores, 12));
}

#[verifier::rlimit(40)]
proof fn lemma_t2_account_fields(ej: Seq<char>, nif: Seq<char>, r: Tipo2View)
    ensures
        t2_line(ej, nif, r).subrange(144, 155) == padded(r.codigo_bic, 11),
        t2_line(ej, nif, r).subrange(155, 189) == padded(r.identificacion_cuenta, 34),
        t2_line(ej, nif, r).subrange(189, 230) == padded(r.identificacion_entidad, 41),
        t2_line(ej, nif, r).subrange(230, 250) == padded(r.nif_fiscal_pais, 20),
        t2_line(ej, nif, r).subrange(250, 290) == padded(r.domicilio, 40),
{
    let l = t2_line(ej, nif, r);
    reveal(t2_line);
    reveal_strlit("720");
    assert(l.subrange(144, 155) =~= padded(r.codigo_bic, 11));
    assert(l.subrange(155, 189) =~= padded(r.identificacion_cuenta, 34));
    assert(l.subrange(189, 230) =~= padded(r.identificacion_entidad, 41));
    assert(l.subrange(230, 250) =~= padded(r.nif_fiscal_pais, 20));
    assert(l.subrange(250, 290) =~= padded(r.domicilio, 40));
}

#[verifier::rlimit(40)]
proof fn lemma_t2_address_fields(ej: Seq<char>, nif: Seq<char>, r: Tipo2View)
    ensures
        t2_line(ej, nif, r).subrange(342, 372) == padded(r.localidad, 30),
        t2_line(ej, nif, r).subrange(372, 402) == padded(r.municipio, 30),
        t2_line(ej, nif, r).subrange(402, 412) == padded(r.codigo_postal, 10),
        t2_line(ej, nif, r).subrange(412, 414) == padded(r.pais_domicilio, 2),
        t2_line(ej, nif, r).subrange(414, 422) == normalized_date(r.fecha_incorporacion),
        t2_line(ej, nif, r).subrange(423, 431) == normalized_date(r.fecha_extincion),
{
    let l = t2_line(ej, nif, r);
    reveal(t2_line);
    reveal_strlit("720");
    assert(l.subrange(342, 372) =~= padded(r.localidad, 30));
    assert(l.subrange(372, 402) =~= padded(r.municipio, 30));
    assert(l.subrange(402, 412) =~= padded(r.codigo_postal, 10));
    assert(l.subrange(412, 414) =~= padded(r.pais_domicilio, 2));
    assert(l.subrange(414, 422) =~= normalized_date(r.fecha_incorporacion));
    assert(l.subrange(423, 431) =~= normalized_date(r.fecha_extincion));
}

#[verifier::rlimit(40)]
proof fn lemma_t2_amounts_fields(ej: Seq<char>, nif: Seq<char>, r: Tipo2View)
    ensures
        t2_line(ej, nif, r).subrange(432, 446) == padded(amount_digits(r.valoracion1_cents, 14), 14),
        t2_line(ej, nif, r).subrange(447, 461) == padded(amount_digits(r.valoracion2_cents, 14), 14),
        t2_line(ej, nif, r).subrange(462, 474) == padded(zero_pad(dec(r.num_valores), 12), 12),
        t2_line(ej, nif, r).subrange(475, 480) == padded(zero_pad(dec(r.porcentaje_participacion), 5), 5),
{
    let l = t2_line(ej, nif, r);
    reveal(t2_line);
    reveal_strlit("720");
    assert(l.subrange(432, 446) =~= padded(amount_digits(r.valoracion1_cents, 14), 14));
    assert(l.subrange(447, 461) =~= padded(amount_digits(r.valoracion2_cents, 14), 14));
    assert(l.subrange(462, 474) =~= padded(zero_pad(dec(r.num_valores), 12), 12));
    assert(l.subrange(475, 480) =~= padded(zero_pad(dec(r.porcentaje_participacion), 5), 5));
}

/// What `import` reads from the Tipo 2 record written for `r`.
pub proof fn lemma_t2_reread(ej: Seq<char>, nif: Seq<char>, r: Tipo2View)
    requires
        fits_fields(r),
    ensures
        char_at_spec(t2_line(ej, nif, r), 1) == '2',
        t2_of(t2_line(ej, nif, r)) == reread_t2(r),
{
    let l = t2_line(ej, nif, r);
    lemma_t2_line_len(ej, nif, r);
    reveal_with_fuel(pow10, 15);
    lemma_amount_field(r.valoracion1_cents);
    lemma_amount_field(r.valoracion2_cents);
    lemma_number_field(r.num_valores, 12);
    lemma_number_field(r.porcentaje_participacion, 5);
    lemma_t2_identity_fields(ej, nif, r);
    lemma_t2_account_fields(ej, nif, r);
    lemma_t2_address_fields(ej, nif, r);
    lemma_t2_amounts_fields(ej, nif, r);
    lemma_t2_keys_1(ej, nif, r);
    lemma_t2_keys_2(ej, nif, r);
    lemma_t2_origin(ej, nif, r);
    lemma_t2_keys_3(ej, nif, r);
    lemma_t2_keys_4(ej, nif, r);
    assert(t2_of(l) =~= reread_t2(r));
}

/// The single-character fields of a Tipo 2 record.
#[verifier::rlimit(40)]
proof fn lemma_t2_keys_1(ej: Seq<char>, nif: Seq<char>, r: Tipo2View)
    ensures
        t2_line(ej, nif, r)[0] == '2',
        t2_line(ej, nif, r)[75] == r.clave_condicion,
        t2_line(ej, nif, r)[101] == r.clave_tipo_bien,
        t2_line(ej, nif, r)[102] == r.subclave,
{
    let l = t2_line(ej, nif, r);
    reveal(t2_line);
    reveal_strlit("720");
    assert(l.subrange(0, 1) =~= seq!['2']);
    assert(l.subrange(75, 76) =~= seq![r.clave_condicion]);
    assert(l.subrange(101, 102) =~= seq![r.clave_tipo_bien]);
    assert(l.subrange(102, 103) =~= seq![r.subclave]);
}

#[verifier::rlimit(40)]
proof fn lemma_t2_keys_2(ej: Seq<char>, nif: Seq<char>, r: Tipo2View)
    ensures
        t2_line(ej, nif, r)[130] == r.clave_identificacion,
        t2_line(ej, nif, r)[143] == r.clave_id_cuenta,
{
    let l = t2_line(ej, nif, r);
    reveal(t2_line);
    reveal_strlit("720");
    assert(l.subrange(130, 131) =~= seq![r.clave_identificacion]);
    assert(l.subrange(143, 144) =~= seq![r.clave_id_cuenta]);
}

#[verifier::rlimit(40)]
proof fn lemma_t2_origin(ej: Seq<char>, nif: Seq<char>, r: Tipo2View)
    ensures
        t2_line(ej, nif, r)[422] == r.origen,
{
    let l = t2_line(ej, nif, r);
    reveal(t2_line);
    reveal_strlit("720");
    assert(l.subrange(422, 423) =~= seq![r.origen]);
}

#[verifier::rlimit(40)]
proof fn lemma_t2_keys_3(ej: Seq<char>, nif: Seq<char>, r: Tipo2View)
    ensures
        t2_line(ej, nif, r)[431] == sign_char(r.valoracion1_cents),
        t2_line(ej, nif, r)[446] == sign_char(r.valoracion2_cents),
{
    let l = t2_line(ej, nif, r);
    reveal(t2_line);
    reveal_strlit("720");
    assert(l.subrange(431, 432) =~= seq![sign_char(r.valoracion1_cents)]);
    assert(l.subrange(446, 447) =~= seq![sign_char(r.valoracion2_cents)]);
}

#[verifier::rlimit(40)]
proof fn lemma_t2_keys_4(ej: Seq<char>, nif: Seq<char>, r: Tipo2View)
    ensures
        t2_line(ej, nif, r)[461] == r.clave_represent_valores,
        t2_line(ej, nif, r)[474] == r.clave_tipo_inmueble,
{
    let l = t2_line(ej, nif, r);
    reveal(t2_line);
    reveal_strlit("720");
    assert(l.subrange(461, 462) =~= seq![r.clave_represent_valores]);
    assert(l.subrange(474, 475) =~= seq![r.clave_tipo_inmueble]);
}

// ── Files ────────────────────────────────────────────────────────────────────

/// Lines that can be written and read back: windows-1252 characters only,
/// and no line feed.
pub open spec fn writable(ls: Seq<Seq<char>>) -> bool {
    &&& no_line_feed(ls)
    &&& forall|i: int| 0 <= i < ls.len() ==> encodable(#[trigger] ls[i])
}

proof fn lemma_text_encodable(ls: Seq<Seq<char>>)
    requires
        all_records(ls),
        writable(ls),
    ensures
        encodable(file_text(ls)),
{
    lemma_file_text_at(ls);
    let t = file_text(ls);
    assert forall|p: int| 0 <= p < t.len() implies (#[trigger] win1252_byte(t[p])) is Some by {
        assert(t[p] == text_char(ls, p));
        let k = p / 502;
        let j = p % 502;
        assert(0 <= k < ls.len()) by (nonlinear_arith)
            requires
                0 <= p < 502 * ls.len(),
                k == p / 502,
        ;
        if j < 500 {
            assert(encodable(ls[k]));
            assert(ls[k].len() == 500);
            assert(win1252_byte(ls[k][j]) is Some);
        }
    }
}

proof fn lemma_no_bad_length(ls: Seq<Seq<char>>, i: int)
    requires
        all_records(ls),
        0 <= i,
    ensures
        first_bad_length(ls, i) is None,
    decreases ls.len() - i,
{
    if i < ls.len() {
        assert(ls[i].len() == 500);
        lemma_no_bad_length(ls, i + 1);
    }
}

proof fn lemma_t2_records_generated(t1: Tipo1View, rs: Seq<Tipo2View>, k: int)
    requires
        forall|i: int| 0 <= i < rs.len() ==> fits_fields(#[trigger] rs[i]),
        1 <= k <= rs.len() + 1,
    ensures
        t2_records(file_lines_of(t1, rs), k) == rs.take(k - 1).map_values(
            |r: Tipo2View| reread_t2(r),
        ),
    decreases k,
{
    let ls = file_lines_of(t1, rs);
    if k == 1 {
        assert(rs.take(0).map_values(|r: Tipo2View| reread_t2(r)) =~= Seq::<Tipo2View>::empty());
    } else {
        lemma_t2_records_generated(t1, rs, k - 1);
        let ej = padded(t1.ejercicio, 4);
        let nif = padded(t1.nif_declarante, 9);
        assert(ls[k - 1] == t2_line(ej, nif, rs[k - 2]));
        assert(fits_fields(rs[k - 2]));
        lemma_t2_reread(ej, nif, rs[k - 2]);
        assert(rs.take(k - 1).map_values(|r: Tipo2View| reread_t2(r)) =~= rs.take(k - 2).map_values(
            |r: Tipo2View| reread_t2(r),
        ).push(reread_t2(rs[k - 2])));
    }
}

/// Reading back a generated file gives the records that were written, each
/// field cut or padded to its width and trimmed (`reread_t1`,
/// `reread_t2`), provided the records hold only windows-1252 characters and
/// no line feed and the numbers fit their fields. The bytes start with the
/// record type, never with a byte-order mark, so `import_from_bytes`
/// decodes them one character per byte.
pub proof fn law_import_reads_back_generated(t1: Tipo1View, rs: Seq<Tipo2View>)
    requires
        writable(file_lines_of(t1, rs)),
        forall|i: int| 0 <= i < rs.len() ==> fits_fields(#[trigger] rs[i]),
    ensures
        !has_bom(generated(t1, rs)),
        imported(decoded_bytes(generated(t1, rs)), false) == Ok::<
            (Tipo1View, Seq<Tipo2View>),
            Seq<char>,
        >((reread_t1(t1), rs.map_values(|r: Tipo2View| reread_t2(r)))),
{
    let ls = file_lines_of(t1, rs);
    lemma_file_lines_len(t1, rs);
    assert(all_records(ls));
    lemma_text_encodable(ls);
    let t = file_text(ls);
    lemma_encode_encodable(t);
    lemma_file_text_at(ls);
    lemma_t1_reread(t1, rs.len(), sum_val1(rs), sum_val2(rs));
    assert(0int / 502 == 0 && 0int % 502 == 0);
    assert(t[0] == '1');
    assert(win1252_byte('1') == Some(0x31u8));
    lemma_file_lines_of_text(ls);
    lemma_no_bad_length(ls, 0);
    lemma_t2_records_generated(t1, rs, rs.len() + 1int);
    assert(rs.take(rs.len() as int) =~= rs);
}

// ── Fields already in their written form ─────────────────────────────────────

/// A text that reads back unchanged from a field of width `w`: it fits and
/// has no surrounding whitespace.
pub open spec fn fits_text(s: Seq<char>, w: nat) -> bool {
    s.len() <= w && trim(s) == s
}

/// Tipo 1 fields in the form in which they are written and read back.
pub open spec fn canonical_t1(t1: Tipo1View) -> bool {
    &&& t1.ejercicio.len() == 4
    &&& fits_text(t1.nif_declarante, 9)
    &&& fits_text(t1.nombre_declarante, 40)
    &&& fits_text(t1.nif_presentador, 9)
    &&& !blank(t1.nif_presentador)
    &&& fits_text(t1.nombre_presentador, 40)
    &&& !blank(t1.nombre_presentador)
    &&& fits_text(t1.num_identificativo, 13)
    &&& !blank(t1.num_identificativo)
    &&& t1.num_dec_anterior.len() == 13
    &&& all_digits(t1.num_dec_anterior)
}

/// Tipo 2 fields in the form in which they are written and read back.
pub open spec fn canonical_t2(r: Tipo2View) -> bool {
    &&& fits_text(r.nif_declarado, 9)
    &&& fits_text(r.nif_representante, 9)
    &&& fits_text(r.nombre_declarado, 40)
    &&& r.codigo_pais.len() == 2
    &&& fits_text(r.identificacion_valores, 12)
    &&& fits_text(r.codigo_bic, 11)
    &&& fits_text(r.identificacion_cuenta, 34)
    &&& fits_text(r.identificacion_entidad, 41)
    &&& fits_text(r.nif_fiscal_pais, 20)
    &&& fits_text(r.domicilio, 40)
    &&& fits_text(r.localidad, 30)
    &&& fits_text(r.municipio, 30)
    &&& fits_text(r.codigo_postal, 10)
    &&& fits_text(r.pais_domicilio, 2)
    &&& normalized_date(r.fecha_incorporacion) == r.fecha_incorporacion
    &&& normalized_date(r.fecha_extincion) == r.fecha_extincion
    &&& fits_fields(r)
}

proof fn lemma_fits_text(s: Seq<char>, w: nat)
    requires
        fits_text(s, w),
    ensures
        trim(padded(s, w)) == s,
{
    assert(head(s, w) == s);
    lemma_trim_trailing_spaces(s, (w - s.len()) as nat);
}

proof fn lemma_canonical_t1(t1: Tipo1View)
    requires
        canonical_t1(t1),
    ensures
        reread_t1(t1) == t1,
{
    lemma_padded_exact(t1.ejercicio, 4);
    lemma_fits_text(t1.nif_declarante, 9);
    lemma_fits_text(t1.nombre_declarante, 40);
    lemma_fits_text(t1.nif_presentador, 9);
    lemma_fits_text(t1.nombre_presentador, 40);
    lemma_fits_text(t1.num_identificativo, 13);
    lemma_digits_of_digits(t1.num_dec_anterior);
    assert(t1.num_dec_anterior.skip(0) =~= t1.num_dec_anterior);
    assert(reread_t1(t1) =~= t1);
}

proof fn lemma_canonical_t2(r: Tipo2View)
    requires
        canonical_t2(r),
    ensures
        reread_t2(r) == r,
{
    lemma_fits_text(r.nif_declarado, 9);
    lemma_fits_text(r.nif_representante, 9);
    lemma_fits_text(r.nombre_declarado, 40);
    lemma_padded_exact(r.codigo_pais, 2);
    lemma_fits_text(r.identificacion_valores, 12);
    lemma_fits_text(r.codigo_bic, 11);
    lemma_fits_text(r.identificacion_cuenta, 34);
    lemma_fits_text(r.identificacion_entidad, 41);
    lemma_fits_text(r.nif_fiscal_pais, 20);
    lemma_fits_text(r.domicilio, 40);
    lemma_fits_text(r.localidad, 30);
    lemma_fits_text(r.municipio, 30);
    lemma_fits_text(r.codigo_postal, 10);
    lemma_fits_text(r.pais_domicilio, 2);
    assert(reread_t2(r) =~= r);
}

/// A file generated from fields already in their written form (texts that
/// fit their width without surrounding whitespace, presenter and
/// identifying number given,
/// normalized dates, numbers that fit) reads back as exactly those fields,
/// provided the records hold only windows-1252 characters and no line feed.
pub proof fn law_canonical_fields_read_back_unchanged(t1: Tipo1View, rs: Seq<Tipo2View>)
    requires
        canonical_t1(t1),
        forall|i: int| 0 <= i < rs.len() ==> canonical_t2(#[trigger] rs[i]),
        writable(file_lines_of(t1, rs)),
    ensures
        imported(decoded_bytes(generated(t1, rs)), false) == Ok::<
            (Tipo1View, Seq<Tipo2View>),
            Seq<char>,
        >((t1, rs)),
{
    assert forall|i: int| 0 <= i < rs.len() implies fits_fields(#[trigger] rs[i]) by {
        assert(canonical_t2(rs[i]));
    }
    law_import_reads_back_generated(t1, rs);
    lemma_canonical_t1(t1);
    assert forall|i: int| 0 <= i < rs.len() implies #[trigger] reread_t2(rs[i]) == rs[i] by {
        lemma_canonical_t2(rs[i]);
    }
    assert(rs.map_values(|r: Tipo2View| reread_t2(r)) =~= rs);
}

// ── Totals ───────────────────────────────────────────────────────────────────

proof fn lemma_t1_total_fields(t1: Tipo1View, ej: Seq<char>, nif: Seq<char>, total: nat, sum1: int, sum2: int)
    ensures
        t1_line(t1, ej, nif, total, sum1, sum2).subrange(135, 144) == padded(zero_pad(dec(total), 9), 9),
        t1_line(t1, ej, nif, total, sum1, sum2).subrange(144, 145) == seq![sign_char(sum1)],
        t1_line(t1, ej, nif, total, sum1, sum2).subrange(145, 162) == padded(amount_digits(sum1, 17), 17),
        t1_line(t1, ej, nif, total, sum1, sum2).subrange(162, 163) == seq![sign_char(sum2)],
        t1_line(t1, ej, nif, total, sum1, sum2).subrange(163, 180) == padded(amount_digits(sum2, 17), 17),
{
    let l = t1_line(t1, ej, nif, total, sum1, sum2);
    reveal(t1_line);
    reveal_strlit("720");
    assert(l.subrange(135, 144) =~= padded(zero_pad(dec(total), 9), 9));
    assert(l.subrange(144, 145) =~= seq![sign_char(sum1)]);
    assert(l.subrange(145, 162) =~= padded(amount_digits(sum1, 17), 17));
    assert(l.subrange(162, 163) =~= seq![sign_char(sum2)]);
    assert(l.subrange(163, 180) =~= padded(amount_digits(sum2, 17), 17));
}

/// A sum written as sign and 17 digits reads back as itself.
proof fn lemma_sum_field(v: int)
    requires
        -100_000_000_000_000_000 < v < 100_000_000_000_000_000,
    ensures
        signed_val(seq![sign_char(v)], padded(amount_digits(v, 17), 17)) == v,
{
    let a: nat = (if v < 0 { -v } else { v }) as nat;
    reveal_with_fuel(pow10, 18);
    lemma_number_field(a, 17);
    assert(amount_digits(v, 17) == zero_pad(dec(a), 17));
    assert(seq![' '] != seq!['N']) by {
        assert(seq![' '][0] != seq!['N'][0]);
    }
}

/// The validator reads back exactly the amount the generator wrote: for a
/// width of 1 to 18 digits and an amount whose absolute value has at most
/// that many digits, `parse_signed_val` of the sign and digits that
/// `encode_amount` gives is the amount itself.
pub proof fn law_amount_reads_back(cents: int, w: nat)
    requires
        1 <= w <= 18,
        -pow10(w) < cents < pow10(w),
    ensures
        signed_val(seq![sign_char(cents)], amount_digits(cents, w)) == cents,
{
    let a: nat = (if cents < 0 { -cents } else { cents }) as nat;
    lemma_number_field(a, w);
    lemma_zero_pad_dec(a, w);
    lemma_padded_exact(zero_pad(dec(a), w), w);
    assert(amount_digits(cents, w) == zero_pad(dec(a), w));
    assert(seq![' '] != seq!['N']) by {
        assert(seq![' '][0] != seq!['N'][0]);
    }
    lemma_pow10_monotone(w, 18);
    reveal_with_fuel(pow10, 19);
}

/// The validator reads the valuation of a generated Tipo 2 record as the
/// value that was written.
proof fn lemma_t2_amounts(ej: Seq<char>, nif: Seq<char>, r: Tipo2View)
    requires
        fits_fields(r),
    ensures
        t2_amount(t2_line(ej, nif, r), 432, 433, 446) == r.valoracion1_cents,
        t2_amount(t2_line(ej, nif, r), 447, 448, 461) == r.valoracion2_cents,
{
    let l = t2_line(ej, nif, r);
    lemma_t2_line_len(ej, nif, r);
    lemma_t2_amounts_fields(ej, nif, r);
    lemma_t2_keys_3(ej, nif, r);
    reveal_with_fuel(pow10, 15);
    let a1: nat = (if r.valoracion1_cents < 0 { -r.valoracion1_cents } else { r.valoracion1_cents }) as nat;
    let a2: nat = (if r.valoracion2_cents < 0 { -r.valoracion2_cents } else { r.valoracion2_cents }) as nat;
    lemma_zero_pad_dec(a1, 14);
    lemma_zero_pad_dec(a2, 14);
    lemma_number_field(a1, 14);
    lemma_number_field(a2, 14);
    assert(amount_digits(r.valoracion1_cents, 14) == zero_pad(dec(a1), 14));
    assert(amount_digits(r.valoracion2_cents, 14) == zero_pad(dec(a2), 14));
    assert(l.subrange(431, 432) =~= seq![sign_char(r.valoracion1_cents)]);
    assert(l.subrange(446, 447) =~= seq![sign_char(r.valoracion2_cents)]);
    assert(seq![' '] != seq!['N']) by {
        assert(seq![' '][0] != seq!['N'][0]);
    }
}

proof fn lemma_amount_sums(t1: Tipo1View, rs: Seq<Tipo2View>, t2s: Seq<(Seq<char>, int)>, k: int)
    requires
        forall|i: int| 0 <= i < rs.len() ==> fits_fields(#[trigger] rs[i]),
        t2s.len() == rs.len(),
        forall|i: int| 0 <= i < t2s.len() ==> (#[trigger] t2s[i]).0 == file_lines_of(t1, rs)[i + 1],
        0 <= k <= rs.len(),
    ensures
        amount_sum(t2s, k, 432, 433, 446) == sum_val1(rs.take(k)),
        amount_sum(t2s, k, 447, 448, 461) == sum_val2(rs.take(k)),
    decreases k,
{
    if k > 0 {
        lemma_amount_sums(t1, rs, t2s, k - 1);
        let ej = padded(t1.ejercicio, 4);
        let nif = padded(t1.nif_declarante, 9);
        assert(t2s[k - 1].0 == t2_line(ej, nif, rs[k - 1]));
        assert(fits_fields(rs[k - 1]));
        lemma_t2_amounts(ej, nif, rs[k - 1]);
        assert(rs.take(k).drop_last() =~= rs.take(k - 1));
    } else {
        assert(rs.take(0) =~= Seq::<Tipo2View>::empty());
    }
}

/// The totals that a generated Tipo 1 record declares are the ones the
/// validator recomputes from the Tipo 2 records after it: the cross checks
/// E107–E109 report nothing, and the validator's running sums stay within
/// `i64` whenever the generator's do. This holds while the count has at
/// most 9 digits, each sum at most 17 and each valuation at most 14.
pub proof fn law_generated_totals_agree(
    t1: Tipo1View,
    rs: Seq<Tipo2View>,
    t1line: int,
    t2s: Seq<(Seq<char>, int)>,
)
    requires
        forall|i: int| 0 <= i < rs.len() ==> fits_fields(#[trigger] rs[i]),
        rs.len() < 1_000_000_000,
        -100_000_000_000_000_000 < sum_val1(rs) < 100_000_000_000_000_000,
        -100_000_000_000_000_000 < sum_val2(rs) < 100_000_000_000_000_000,
        t2s.len() == rs.len(),
        forall|i: int| 0 <= i < t2s.len() ==> (#[trigger] t2s[i]).0 == file_lines_of(t1, rs)[i + 1],
    ensures
        cross_errors(file_lines_of(t1, rs)[0], t1line, t2s) == Seq::<ErrorSpec>::empty(),
        sums_fit(rs) ==> !cross_panics(t2s),
{
    let ej = padded(t1.ejercicio, 4);
    let nif = padded(t1.nif_declarante, 9);
    let l = file_lines_of(t1, rs)[0];
    assert(l == t1_line(t1, ej, nif, rs.len(), sum_val1(rs), sum_val2(rs)));
    lemma_t1_line_len(t1, ej, nif, rs.len(), sum_val1(rs), sum_val2(rs));
    lemma_t1_total_fields(t1, ej, nif, rs.len(), sum_val1(rs), sum_val2(rs));
    reveal_with_fuel(pow10, 18);
    lemma_number_field(rs.len(), 9);
    assert(declared_t2(l) == rs.len());
    lemma_sum_field(sum_val1(rs));
    lemma_sum_field(sum_val2(rs));
    lemma_amount_sums(t1, rs, t2s, rs.len() as int);
    assert(rs.take(rs.len() as int) =~= rs);
    reveal(e107);
    reveal(e108);
    reveal(e109);
    if sums_fit(rs) {
        assert forall|k: int| 0 <= k <= t2s.len() implies crate::cross::in_i64(
            #[trigger] amount_sum(t2s, k, 432, 433, 446),
        ) by {
            lemma_amount_sums(t1, rs, t2s, k);
            assert(fits_i64(sum_val1(rs.take(k))));
        }
        assert forall|k: int| 0 <= k <= t2s.len() implies crate::cross::in_i64(
            #[trigger] amount_sum(t2s, k, 447, 448, 461),
        ) by {
            lemma_amount_sums(t1, rs, t2s, k);
            assert(fits_i64(sum_val2(rs.take(k))));
        }
    }
}

// ── What the validator reports on a generated file ───────────────────────────

proof fn lemma_t2_entries_generated(t1: Tipo1View, rs: Seq<Tipo2View>, k: int)
    requires
        1 <= k <= rs.len() + 1,
    ensures
        t2_entries(file_lines_of(t1, rs), k).len() == k - 1,
        forall|i: int|
            0 <= i < k - 1 ==> #[trigger] t2_entries(file_lines_of(t1, rs), k)[i] == (
                file_lines_of(t1, rs)[i + 1],
                i + 2,
            ),
    decreases k,
{
    let ls = file_lines_of(t1, rs);
    let ej = padded(t1.ejercicio, 4);
    let nif = padded(t1.nif_declarante, 9);
    if k == 1 {
        lemma_t1_line_len(t1, ej, nif, rs.len(), sum_val1(rs), sum_val2(rs));
        lemma_t1_reread(t1, rs.len(), sum_val1(rs), sum_val2(rs));
        assert(tipo_of(ls[0]) == '1');
        assert(t2_entries(ls, 0).len() == 0);
    } else {
        lemma_t2_entries_generated(t1, rs, k - 1);
        assert(ls[k - 1] == t2_line(ej, nif, rs[k - 2]));
        lemma_t2_keys_1(ej, nif, rs[k - 2]);
        assert(tipo_of(ls[k - 1]) == '2');
    }
}

/// A valuation written as sign and 14 digits is read by the validator's
/// summary as itself.
proof fn lemma_detail_amount(v: int)
    requires
        -100_000_000_000_000 < v < 100_000_000_000_000,
    ensures
        signed_val(seq![sign_char(v)], padded(amount_digits(v, 14), 14)) == v,
{
    let a: nat = (if v < 0 { -v } else { v }) as nat;
    reveal_with_fuel(pow10, 15);
    lemma_number_field(a, 14);
    assert(amount_digits(v, 14) == zero_pad(dec(a), 14));
    assert(seq![' '] != seq!['N']) by {
        assert(seq![' '][0] != seq!['N'][0]);
    }
}

/// The validator reads the valuations of a generated Tipo 2 record as the
/// values that were written.
proof fn lemma_t2_detail_amounts(ej: Seq<char>, nif: Seq<char>, r: Tipo2View)
    requires
        fits_fields(r),
    ensures
        signed_val(field_spec(t2_line(ej, nif, r), 432, 432), field_spec(t2_line(ej, nif, r), 433, 446))
            == r.valoracion1_cents,
        signed_val(field_spec(t2_line(ej, nif, r), 447, 447), field_spec(t2_line(ej, nif, r), 448, 461))
            == r.valoracion2_cents,
{
    let l = t2_line(ej, nif, r);
    lemma_t2_line_len(ej, nif, r);
    lemma_t2_amounts_fields(ej, nif, r);
    lemma_t2_keys_3(ej, nif, r);
    assert(l.subrange(431, 432) =~= seq![sign_char(r.valoracion1_cents)]);
    assert(l.subrange(446, 447) =~= seq![sign_char(r.valoracion2_cents)]);
    lemma_detail_amount(r.valoracion1_cents);
    lemma_detail_amount(r.valoracion2_cents);
}

/// When the validator goes through the record checks of a generated file,
/// its summary declares as many Tipo 2 records as there are, with the sums
/// of their valuations, shows each record's valuations as written, and
/// the cross checks add no error to those of the Tipo 1 and Tipo 2 checks.
/// This holds under the conditions of `law_import_reads_back_generated` and
/// `law_generated_totals_agree`.
pub proof fn law_validator_accepts_generated_totals(t1: Tipo1View, rs: Seq<Tipo2View>)
    requires
        writable(file_lines_of(t1, rs)),
        forall|i: int| 0 <= i < rs.len() ==> fits_fields(#[trigger] rs[i]),
        rs.len() < 1_000_000_000,
        -100_000_000_000_000_000 < sum_val1(rs) < 100_000_000_000_000_000,
        -100_000_000_000_000_000 < sum_val2(rs) < 100_000_000_000_000_000,
    ensures
        validation_of(decoded_bytes(generated(t1, rs)), false) matches Some(r) ==> (
        r.summary matches Some(s) ==> {
            &&& s.total_registros_t2_declarado == rs.len()
            &&& s.total_registros_t2_real == rs.len()
            &&& s.suma_val1_cents == sum_val1(rs)
            &&& s.suma_val2_cents == sum_val2(rs)
            &&& s.records.len() == rs.len()
            &&& forall|i: int|
                0 <= i < rs.len() ==> #[trigger] s.records[i].valoracion1_cents
                    == rs[i].valoracion1_cents && s.records[i].valoracion2_cents
                    == rs[i].valoracion2_cents
            &&& r.errors == tipo1_errors(file_lines_of(t1, rs)[0], 1) + t2s_errors(
                t2_entries(file_lines_of(t1, rs), rs.len() + 1int),
                file_lines_of(t1, rs)[0],
            )
        }),
{
    let ls = file_lines_of(t1, rs);
    let n = rs.len();
    let ej = padded(t1.ejercicio, 4);
    let nif = padded(t1.nif_declarante, 9);
    lemma_file_lines_len(t1, rs);
    lemma_text_encodable(ls);
    lemma_encode_encodable(file_text(ls));
    lemma_file_lines_of_text(ls);
    assert(decoded_bytes(generated(t1, rs)) == file_text(ls));
    let t2s = t2_entries(ls, n + 1int);
    lemma_t2_entries_generated(t1, rs, n + 1int);
    law_generated_totals_agree(t1, rs, 1, t2s);
    reveal(checked_result);
    let l = ls[0];
    assert(l == t1_line(t1, ej, nif, n, sum_val1(rs), sum_val2(rs)));
    lemma_t1_line_len(t1, ej, nif, n, sum_val1(rs), sum_val2(rs));
    lemma_t1_total_fields(t1, ej, nif, n, sum_val1(rs), sum_val2(rs));
    reveal_with_fuel(pow10, 18);
    lemma_number_field(n, 9);
    lemma_sum_field(sum_val1(rs));
    lemma_sum_field(sum_val2(rs));
    assert(l.subrange(144, 145) == seq![sign_char(sum_val1(rs))]);
    assert forall|i: int| 0 <= i < n implies {
        &&& crate::validation::detail_of(t2s[i].0, t2s[i].1).valoracion1_cents == rs[i].valoracion1_cents
        &&& crate::validation::detail_of(t2s[i].0, t2s[i].1).valoracion2_cents == rs[i].valoracion2_cents
    } by {
        assert(t2s[i] == (ls[i + 1], i + 2));
        assert(ls[i + 1] == t2_line(ej, nif, rs[i]));
        lemma_t2_detail_amounts(ej, nif, rs[i]);
    }
    assert(tipo1_errors(l, 1) + t2s_errors(t2s, l) + Seq::<ErrorSpec>::empty() =~= tipo1_errors(l, 1)
        + t2s_errors(t2s, l));
}

// ── Structure of a generated file ────────────────────────────────────────────

proof fn lemma_t1_head(t1: Tipo1View, ej: Seq<char>, nif: Seq<char>, total: nat, sum1: int, sum2: int)
    ensures
        t1_line(t1, ej, nif, total, sum1, sum2).subrange(1, 4) == "720"@,
        t1_line(t1, ej, nif, total, sum1, sum2).subrange(4, 8) == padded(ej, 4),
        t1_line(t1, ej, nif, total, sum1, sum2).subrange(8, 17) == padded(nif, 9),
{
    let l = t1_line(t1, ej, nif, total, sum1, sum2);
    reveal(t1_line);
    reveal_strlit("720");
    assert(l.subrange(1, 4) =~= "720"@);
    assert(l.subrange(4, 8) =~= padded(ej, 4));
    assert(l.subrange(8, 17) =~= padded(nif, 9));
}

#[verifier::rlimit(40)]
proof fn lemma_t2_head(ej: Seq<char>, nif: Seq<char>, r: Tipo2View)
    ensures
        t2_line(ej, nif, r).subrange(1, 4) == "720"@,
        t2_line(ej, nif, r).subrange(4, 8) == padded(ej, 4),
        t2_line(ej, nif, r).subrange(8, 17) == padded(nif, 9),
{
    let l = t2_line(ej, nif, r);
    reveal(t2_line);
    reveal_strlit("720");
    assert(l.subrange(1, 4) =~= "720"@);
    assert(l.subrange(4, 8) =~= padded(ej, 4));
    assert(l.subrange(8, 17) =~= padded(nif, 9));
}

/// A rule that reports nothing on each of the first `k` lines reports
/// nothing on them together.
proof fn lemma_per_line_silent(
    ls: Seq<Seq<char>>,
    k: int,
    rule: spec_fn(Seq<char>, int) -> Seq<ErrorSpec>,
)
    requires
        0 <= k <= ls.len(),
        forall|j: int| #![trigger ls[j]] 0 <= j < k ==> rule(ls[j], j + 1).len() == 0,
    ensures
        per_line(ls, k, rule) == Seq::<ErrorSpec>::empty(),
    decreases k,
{
    if k > 0 {
        lemma_per_line_silent(ls, k - 1, rule);
        assert(rule(ls[k - 1], k).len() == 0);
        assert(per_line(ls, k, rule) =~= Seq::<ErrorSpec>::empty());
    }
}

proof fn lemma_one_tipo1(ls: Seq<Seq<char>>, k: int)
    requires
        1 <= k <= ls.len(),
        tipo_of(ls[0]) == '1',
        forall|j: int| #![trigger ls[j]] 1 <= j < ls.len() ==> tipo_of(ls[j]) == '2',
    ensures
        count_tipo1(ls, k) == 1,
    decreases k,
{
    if k > 1 {
        lemma_one_tipo1(ls, k - 1);
        assert(tipo_of(ls[k - 1]) == '2');
    } else {
        assert(count_tipo1(ls, 0) == 0);
    }
}

/// A four-digit year from 1900 to 2100, as EJERCICIO must be.
pub open spec fn year_ok(ej: Seq<char>) -> bool {
    &&& all_digits(padded(ej, 4))
    &&& 1900 <= crate::text::digits_value(padded(ej, 4)) <= 2100
}

/// A generated file has the structure the validator asks for: its lines
/// are the records that were written, 500 characters each, the Tipo 1
/// record first and only there, every record of model 720, so E002–E006
/// report nothing; each Tipo 2 record carries the declarant's NIF and the
/// year of the Tipo 1 record, so E201 and E233 report nothing. When the year
/// is four digits from 1900 to 2100, E007 reports nothing either and the
/// validation never stops on a structural error: whenever it completes it
/// gives a summary. This holds of records that hold only windows-1252
/// characters and no line feed.
pub proof fn law_generated_file_is_well_formed(t1: Tipo1View, rs: Seq<Tipo2View>)
    requires
        writable(file_lines_of(t1, rs)),
    ensures
        !has_bom(generated(t1, rs)),
        file_lines(decoded_bytes(generated(t1, rs))) == file_lines_of(t1, rs),
        length_errors(file_lines_of(t1, rs)) == Seq::<ErrorSpec>::empty(),
        tipo_of(file_lines_of(t1, rs)[0]) == '1',
        e004(file_lines_of(t1, rs)) == Seq::<ErrorSpec>::empty(),
        per_line(
            file_lines_of(t1, rs),
            rs.len() + 1int,
            |l: Seq<char>, n: int| e005_rule(l, n),
        ) == Seq::<ErrorSpec>::empty(),
        per_line(
            file_lines_of(t1, rs),
            rs.len() + 1int,
            |l: Seq<char>, n: int| e006_rule(l, n),
        ) == Seq::<ErrorSpec>::empty(),
        forall|i: int|
            #![trigger rs[i]]
            0 <= i < rs.len() ==> e201(file_lines_of(t1, rs)[i + 1], file_lines_of(t1, rs)[0], i + 2)
                == Seq::<ErrorSpec>::empty() && e233(
                ejercicio_of(file_lines_of(t1, rs)[i + 1]),
                ejercicio_of(file_lines_of(t1, rs)[0]),
                i + 2,
            ) == Seq::<ErrorSpec>::empty(),
        year_ok(t1.ejercicio) ==> record_errors(file_lines_of(t1, rs)) == Seq::<ErrorSpec>::empty(),
        year_ok(t1.ejercicio) ==> (validation_of(decoded_bytes(generated(t1, rs)), false) matches Some(
            r,
        ) ==> r.summary is Some),
{
    let ls = file_lines_of(t1, rs);
    let n: int = rs.len() + 1int;
    let ej = padded(t1.ejercicio, 4);
    let nif = padded(t1.nif_declarante, 9);
    lemma_file_lines_len(t1, rs);
    lemma_text_encodable(ls);
    lemma_encode_encodable(file_text(ls));
    lemma_file_text_at(ls);
    lemma_file_lines_of_text(ls);
    lemma_t1_reread(t1, rs.len(), sum_val1(rs), sum_val2(rs));
    lemma_t1_line_len(t1, ej, nif, rs.len(), sum_val1(rs), sum_val2(rs));
    assert(0int / 502 == 0 && 0int % 502 == 0);
    assert(file_text(ls)[0] == '1');
    assert(win1252_byte('1') == Some(0x31u8));
    assert(ls[0] == t1_line(t1, ej, nif, rs.len(), sum_val1(rs), sum_val2(rs)));
    lemma_t1_head(t1, ej, nif, rs.len(), sum_val1(rs), sum_val2(rs));
    lemma_padded_idem(t1.ejercicio, 4);
    lemma_padded_idem(t1.nif_declarante, 9);
    reveal_strlit("720");
    assert(modelo_720() =~= "720"@);
    // every line after the first is a Tipo 2 record with the same head
    assert forall|j: int| #![trigger ls[j]] 1 <= j < ls.len() implies {
        &&& tipo_of(ls[j]) == '2'
        &&& modelo_of(ls[j]) == modelo_720()
        &&& ejercicio_of(ls[j]) == ej
        &&& ls[j].subrange(8, 17) == nif
        &&& ls[j].len() == 500
    } by {
        assert(ls[j] == t2_line(ej, nif, rs[j - 1]));
        lemma_t2_keys_1(ej, nif, rs[j - 1]);
        lemma_t2_head(ej, nif, rs[j - 1]);
        lemma_t2_line_len(ej, nif, rs[j - 1]);
    }
    assert(tipo_of(ls[0]) == '1');
    assert(modelo_of(ls[0]) == modelo_720());
    assert(ejercicio_of(ls[0]) == ej);
    assert forall|j: int| #![trigger ls[j]] 0 <= j < n implies e002_rule(ls[j], j + 1).len() == 0 by {
        assert(ls[j].len() == 500);
    }
    lemma_per_line_silent(ls, n, |l: Seq<char>, m: int| e002_rule(l, m));
    assert forall|j: int| #![trigger ls[j]] 0 <= j < n implies e005_rule(ls[j], j + 1).len() == 0 by {
        if j > 0 {
            assert(tipo_of(ls[j]) == '2');
        }
    }
    lemma_per_line_silent(ls, n, |l: Seq<char>, m: int| e005_rule(l, m));
    assert forall|j: int| #![trigger ls[j]] 0 <= j < n implies e006_rule(ls[j], j + 1).len() == 0 by {
        if j > 0 {
            assert(modelo_of(ls[j]) == modelo_720());
        }
    }
    lemma_per_line_silent(ls, n, |l: Seq<char>, m: int| e006_rule(l, m));
    lemma_one_tipo1(ls, n);
    reveal(e201);
    reveal(e233);
    assert(ls[0].subrange(8, 17) == nif);
    assert(field_spec(ls[0], 9, 17) == nif);
    assert forall|i: int| #![trigger rs[i]] 0 <= i < rs.len() implies e201(ls[i + 1], ls[0], i + 2)
        == Seq::<ErrorSpec>::empty() && e233(ejercicio_of(ls[i + 1]), ejercicio_of(ls[0]), i + 2)
        == Seq::<ErrorSpec>::empty() by {
        assert(ls[i + 1].subrange(8, 17) == nif);
        assert(field_spec(ls[i + 1], 9, 17) == nif);
        assert(ejercicio_of(ls[i + 1]) == ej);
    }
    if year_ok(t1.ejercicio) {
        assert forall|j: int| #![trigger ls[j]] 0 <= j < n implies e007_rule(ls[j], j + 1).len() == 0 by {
            assert(ejercicio_of(ls[j]) == ej);
        }
        lemma_per_line_silent(ls, n, |l: Seq<char>, m: int| e007_rule(l, m));
        assert(record_errors(ls) =~= Seq::<ErrorSpec>::empty());
        reveal(checked_result);
    }
}

} // verus!
