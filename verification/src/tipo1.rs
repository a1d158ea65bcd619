//! Checks of the Tipo 1 (declarant) record: E101–E106 and E110.
use vstd::prelude::*;
use crate::nif::{nif_panics, nif_valid, validate_nif_chars};
use crate::parser::{char_at_chars, char_at_spec, field_chars, field_spec, Record};
use crate::report::{
    emit_if, error_spec, has_code, lemma_has_code_add, lemma_has_code_none, msg_char, msg_chars,
    push_when, views, ErrorSpec, ValidationError,
};
use crate::text::{all_eq, all_eq_in, chars_of, trim, trim_chars};

verus! {

/// `"720"`, the prefix of every NUM_IDENTIFICATIVO.
pub open spec fn prefix_720() -> Seq<char> {
    seq!['7', '2', '0']
}

#[verifier::opaque]
pub open spec fn e101(raw: Seq<char>, line: int) -> Seq<ErrorSpec> {
    let c = char_at_spec(raw, 58);
    emit_if(
        c != 'T',
        error_spec(
            "E101"@,
            line,
            (58, 58),
            "TIPO_SOPORTE"@,
            "TIPO_SOPORTE debe ser 'T', encontrado '"@ + seq![c] + "'"@,
        ),
    )
}

#[verifier::opaque]
pub open spec fn e102(raw: Seq<char>, line: int) -> Seq<ErrorSpec> {
    let nif = field_spec(raw, 9, 17);
    emit_if(
        !nif_valid(nif),
        error_spec(
            "E102"@,
            line,
            (9, 17),
            "NIF_DECLARANTE"@,
            "NIF_DECLARANTE inválido: '"@ + trim(nif) + "'"@,
        ),
    )
}

#[verifier::opaque]
pub open spec fn e103(raw: Seq<char>, line: int) -> Seq<ErrorSpec> {
    emit_if(
        trim(field_spec(raw, 18, 57)).len() == 0,
        error_spec("E103"@, line, (18, 57), "APELLIDOS_NOMBRE"@, "APELLIDOS_NOMBRE vacío"@),
    )
}

#[verifier::opaque]
pub open spec fn e104(raw: Seq<char>, line: int) -> Seq<ErrorSpec> {
    let num = field_spec(raw, 108, 120);
    emit_if(
        !(num.len() >= 3 && num.subrange(0, 3) == prefix_720()),
        error_spec(
            "E104"@,
            line,
            (108, 120),
            "NUM_IDENTIFICATIVO"@,
            "NUM_IDENTIFICATIVO no empieza por '720': '"@ + trim(num) + "'"@,
        ),
    )
}

#[verifier::opaque]
pub open spec fn e105(raw: Seq<char>, line: int) -> Seq<ErrorSpec> {
    emit_if(
        char_at_spec(raw, 121) == 'C' && char_at_spec(raw, 122) == 'S',
        error_spec(
            "E105"@,
            line,
            (121, 122),
            "DEC_COMPLEMENTARIA/DEC_SUSTITUTIVA"@,
            "DEC_COMPLEMENTARIA y DEC_SUSTITUTIVA ambas informadas"@,
        ),
    )
}

#[verifier::opaque]
pub open spec fn e106(raw: Seq<char>, line: int) -> Seq<ErrorSpec> {
    emit_if(
        char_at_spec(raw, 122) == 'S' && all_eq(field_spec(raw, 123, 135), '0'),
        error_spec(
            "E106"@,
            line,
            (123, 135),
            "NUM_DEC_ANTERIOR"@,
            "DEC_SUSTITUTIVA='S' pero NUM_DEC_ANTERIOR es ceros"@,
        ),
    )
}

#[verifier::opaque]
pub open spec fn e110(raw: Seq<char>, line: int) -> Seq<ErrorSpec> {
    emit_if(
        !all_eq(field_spec(raw, 181, 500), ' '),
        error_spec(
            "E110"@,
            line,
            (181, 500),
            "BLANCOS"@,
            "Posiciones 181-500 contienen caracteres no blancos"@,
        ),
    )
}

/// The errors of a Tipo 1 record, in the order the checks run.
pub open spec fn tipo1_errors(raw: Seq<char>, line: int) -> Seq<ErrorSpec> {
    e101(raw, line) + e102(raw, line) + e103(raw, line) + e104(raw, line) + e105(raw, line)
        + e106(raw, line) + e110(raw, line)
}

/// The Tipo 1 record must be on a telematic medium: its checks report E101
/// exactly when the character at position 58 (TIPO_SOPORTE) is not `'T'`.
pub proof fn law_e101_iff_medium_not_t(raw: Seq<char>, line: int)
    requires
        raw.len() >= 58,
    ensures
        has_code(tipo1_errors(raw, line), "E101"@) <==> raw[57] != 'T',
{
    let x = "E101"@;
    reveal_strlit("E101");
    reveal_strlit("E102");
    reveal_strlit("E103");
    reveal_strlit("E104");
    reveal_strlit("E105");
    reveal_strlit("E106");
    reveal_strlit("E110");
    reveal(e101);
    reveal(e102);
    reveal(e103);
    reveal(e104);
    reveal(e105);
    reveal(e106);
    reveal(e110);
    assert("E102"@[3] != x[3] && "E103"@[3] != x[3] && "E104"@[3] != x[3]);
    assert("E105"@[3] != x[3] && "E106"@[3] != x[3] && "E110"@[2] != x[2]);
    lemma_has_code_none(e102(raw, line), x);
    lemma_has_code_none(e103(raw, line), x);
    lemma_has_code_none(e104(raw, line), x);
    lemma_has_code_none(e105(raw, line), x);
    lemma_has_code_none(e106(raw, line), x);
    lemma_has_code_none(e110(raw, line), x);
    if raw[57] != 'T' {
        assert(e101(raw, line)[0].code == x);
    } else {
        lemma_has_code_none(e101(raw, line), x);
    }
    let a = e101(raw, line) + e102(raw, line);
    let b = a + e103(raw, line);
    let c = b + e104(raw, line);
    let d = c + e105(raw, line);
    let e = d + e106(raw, line);
    lemma_has_code_add(e101(raw, line), e102(raw, line), x);
    lemma_has_code_add(a, e103(raw, line), x);
    lemma_has_code_add(b, e104(raw, line), x);
    lemma_has_code_add(c, e105(raw, line), x);
    lemma_has_code_add(d, e106(raw, line), x);
    lemma_has_code_add(e, e110(raw, line), x);
}

/// The Tipo 1 checks reach `validate_nif` on NIF_DECLARANTE.
pub open spec fn tipo1_panics(raw: Seq<char>) -> bool {
    nif_panics(field_spec(raw, 9, 17))
}

/// Appends the errors of one rule.
fn check_e101(raw: &[char], line: usize, errors: &mut Vec<ValidationError>)
    ensures
        views(final(errors)@) == views(old(errors)@) + e101(raw@, line as int),
{
    reveal(e101);
    let tipo_soporte = char_at_chars(raw, 58);
    push_when(
        errors,
        tipo_soporte != 'T',
        ValidationError::error_pos(
            "E101",
            line,
            (58, 58),
            "TIPO_SOPORTE",
            msg_char("TIPO_SOPORTE debe ser 'T', encontrado '", tipo_soporte, "'").as_str(),
        ),
    );
}

fn check_e102(raw: &[char], line: usize, errors: &mut Vec<ValidationError>)
    requires
        !nif_panics(field_spec(raw@, 9, 17)),
    ensures
        views(final(errors)@) == views(old(errors)@) + e102(raw@, line as int),
{
    reveal(e102);
    let nif_declarante = field_chars(raw, 9, 17);
    let nif_ok = validate_nif_chars(nif_declarante.as_slice());
    let nif_trim = trim_chars(nif_declarante.as_slice());
    push_when(
        errors,
        !nif_ok,
        ValidationError::error_pos(
            "E102",
            line,
            (9, 17),
            "NIF_DECLARANTE",
            msg_chars("NIF_DECLARANTE inválido: '", nif_trim.as_slice(), "'").as_str(),
        ),
    );
}

fn check_e103(raw: &[char], line: usize, errors: &mut Vec<ValidationError>)
    ensures
        views(final(errors)@) == views(old(errors)@) + e103(raw@, line as int),
{
    reveal(e103);
    let nombre = field_chars(raw, 18, 57);
    let nombre_trim = trim_chars(nombre.as_slice());
    push_when(
        errors,
        nombre_trim.len() == 0,
        ValidationError::error_pos(
            "E103",
            line,
            (18, 57),
            "APELLIDOS_NOMBRE",
            "APELLIDOS_NOMBRE vacío",
        ),
    );
}

fn check_e104(raw: &[char], line: usize, errors: &mut Vec<ValidationError>)
    ensures
        views(final(errors)@) == views(old(errors)@) + e104(raw@, line as int),
{
    reveal(e104);
    let num_ident = field_chars(raw, 108, 120);
    let starts_720 = num_ident.len() >= 3 && num_ident[0] == '7' && num_ident[1] == '2'
        && num_ident[2] == '0';
    proof {
        if num_ident@.len() >= 3 {
            if starts_720 {
                assert(num_ident@.subrange(0, 3) =~= prefix_720());
            } else {
                assert(num_ident@.subrange(0, 3) != prefix_720()) by {
                    assert(num_ident@.subrange(0, 3)[0] == num_ident@[0]);
                    assert(num_ident@.subrange(0, 3)[1] == num_ident@[1]);
                    assert(num_ident@.subrange(0, 3)[2] == num_ident@[2]);
                }
            }
        }
    }
    let num_trim = trim_chars(num_ident.as_slice());
    push_when(
        errors,
        !starts_720,
        ValidationError::error_pos(
            "E104",
            line,
            (108, 120),
            "NUM_IDENTIFICATIVO",
            msg_chars("NUM_IDENTIFICATIVO no empieza por '720': '", num_trim.as_slice(), "'").as_str(),
        ),
    );
}

fn check_e105_e106(raw: &[char], line: usize, errors: &mut Vec<ValidationError>)
    ensures
        views(final(errors)@) == views(old(errors)@) + e105(raw@, line as int) + e106(
            raw@,
            line as int,
        ),
{
    reveal(e105);
    reveal(e106);
    let ghost start = views(errors@);
    let dec_comp = char_at_chars(raw, 121);
    let dec_sust = char_at_chars(raw, 122);
    push_when(
        errors,
        dec_comp == 'C' && dec_sust == 'S',
        ValidationError::error_pos(
            "E105",
            line,
            (121, 122),
            "DEC_COMPLEMENTARIA/DEC_SUSTITUTIVA",
            "DEC_COMPLEMENTARIA y DEC_SUSTITUTIVA ambas informadas",
        ),
    );
    let num_dec_anterior = field_chars(raw, 123, 135);
    let zeros = all_eq_in(num_dec_anterior.as_slice(), 0, num_dec_anterior.len(), '0');
    assert(num_dec_anterior@.subrange(0, num_dec_anterior@.len() as int) =~= num_dec_anterior@);
    push_when(
        errors,
        dec_sust == 'S' && zeros,
        ValidationError::error_pos(
            "E106",
            line,
            (123, 135),
            "NUM_DEC_ANTERIOR",
            "DEC_SUSTITUTIVA='S' pero NUM_DEC_ANTERIOR es ceros",
        ),
    );
}

fn check_e110(raw: &[char], line: usize, errors: &mut Vec<ValidationError>)
    ensures
        views(final(errors)@) == views(old(errors)@) + e110(raw@, line as int),
{
    reveal(e110);
    let blancos = field_chars(raw, 181, 500);
    let blank = all_eq_in(blancos.as_slice(), 0, blancos.len(), ' ');
    assert(blancos@.subrange(0, blancos@.len() as int) =~= blancos@);
    push_when(
        errors,
        !blank,
        ValidationError::error_pos(
            "E110",
            line,
            (181, 500),
            "BLANCOS",
            "Posiciones 181-500 contienen caracteres no blancos",
        ),
    );
}

/// Appends the errors of the Tipo 1 record, in the order the checks run.
pub fn validate_tipo1(record: &Record, errors: &mut Vec<ValidationError>)
    requires
        !tipo1_panics(record.raw@),
    ensures
        views(final(errors)@) == views(old(errors)@) + tipo1_errors(
            record.raw@,
            record.line as int,
        ),
{
    let rawv = chars_of(record.raw.as_str());
    let raw = rawv.as_slice();
    let line = record.line;
    let ghost r = record.raw@;
    let ghost l = line as int;
    let ghost s0 = views(errors@);
    check_e101(raw, line, errors);
    check_e102(raw, line, errors);
    check_e103(raw, line, errors);
    check_e104(raw, line, errors);
    check_e105_e106(raw, line, errors);
    check_e110(raw, line, errors);
    assert(views(errors@) =~= s0 + tipo1_errors(r, l));
}

} // verus!
