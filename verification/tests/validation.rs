use validator720::{validate, ValidationResult};

/// Build a valid Type 1 record (500 chars).
fn make_t1(
    nif: &str,
    nombre: &str,
    total_t2: usize,
    sum_val1: i64,
    sum_val2: i64,
) -> String {
    make_t1_full(nif, nombre, total_t2, sum_val1, sum_val2, ' ', ' ', "0000000000000")
}

fn make_t1_full(
    nif: &str,
    nombre: &str,
    total_t2: usize,
    sum_val1: i64,
    sum_val2: i64,
    dec_comp: char,
    dec_sust: char,
    num_dec_anterior: &str,
) -> String {
    let mut rec = String::with_capacity(500);
    rec.push('1');
    rec.push_str("720");
    rec.push_str("2024");
    rec.push_str(&format!("{:<9}", nif));
    rec.push_str(&format!("{:<40}", nombre));
    rec.push('T');
    rec.push_str("912345678");
    rec.push_str(&format!("{:<40}", "CONTACTO"));
    rec.push_str("7200000000001");
    rec.push(dec_comp);
    rec.push(dec_sust);
    rec.push_str(&format!("{:<13}", num_dec_anterior));
    rec.push_str(&format!("{:09}", total_t2));
    if sum_val1 < 0 { rec.push('N'); } else { rec.push(' '); }
    rec.push_str(&format!("{:017}", sum_val1.unsigned_abs()));
    if sum_val2 < 0 { rec.push('N'); } else { rec.push(' '); }
    rec.push_str(&format!("{:017}", sum_val2.unsigned_abs()));
    rec.push_str(&" ".repeat(320));
    assert_eq!(rec.chars().count(), 500, "T1 record must be 500 chars");
    rec
}

/// Build a valid Type 2 record (500 chars) for a C (cuenta) bien.
fn make_t2_cuenta(
    nif_declarante: &str,
    nif_declarado: &str,
    nombre: &str,
    val1: i64,
    val2: i64,
) -> String {
    make_t2_full(
        nif_declarante, nif_declarado, nombre, val1, val2,
        '1', 'C', '1', "CH", '0', "            ", 'I',
        "20240101", 'A', "00000000", ' ', "000000000000", ' ', "10000",
    )
}

#[allow(clippy::too_many_arguments)]
fn make_t2_full(
    nif_declarante: &str,
    nif_declarado: &str,
    nombre: &str,
    val1: i64,
    val2: i64,
    clave_cond: char,
    clave_bien: char,
    subclave: char,
    codigo_pais: &str,
    clave_id: char,
    id_valores: &str,
    clave_id_cuenta: char,
    fecha_inc: &str,
    origen: char,
    fecha_ext: &str,
    clave_repr: char,
    num_valores: &str,
    clave_inmueble: char,
    porcentaje: &str,
) -> String {
    let mut rec = String::with_capacity(500);
    // pos 1
    rec.push('2');
    // pos 2-4
    rec.push_str("720");
    // pos 5-8
    rec.push_str("2024");
    // pos 9-17
    rec.push_str(&format!("{:<9}", nif_declarante));
    // pos 18-26
    rec.push_str(&format!("{:<9}", nif_declarado));
    // pos 27-35: nif rep legal (blank)
    rec.push_str("         ");
    // pos 36-75: nombre (40 chars)
    rec.push_str(&format!("{:<40}", nombre));
    // pos 76: clave condicion
    rec.push(clave_cond);
    // pos 77-101: tipo titularidad (25 blanks)
    rec.push_str(&" ".repeat(25));
    // pos 102: clave tipo bien
    rec.push(clave_bien);
    // pos 103: subclave
    rec.push(subclave);
    // pos 104-128: tipo derecho real (25 blanks)
    rec.push_str(&" ".repeat(25));
    // pos 129-130: codigo pais
    rec.push_str(&format!("{:<2}", codigo_pais));
    // pos 131: clave identificacion
    rec.push(clave_id);
    // pos 132-143: identificacion valores (12 chars)
    rec.push_str(&format!("{:<12}", id_valores));
    // pos 144: clave id cuenta
    rec.push(clave_id_cuenta);
    // pos 145-155: codigo BIC (11 chars)
    rec.push_str("UBSWCHZH80X");
    // pos 156-189: codigo cuenta (34 chars)
    rec.push_str(&format!("{:<34}", "CH9300762011623852957"));
    // pos 190-230: identificacion entidad (41 chars)
    rec.push_str(&format!("{:<41}", "UBS SWITZERLAND AG"));
    // pos 231-250: NIF pais residencia (20 chars)
    rec.push_str(&format!("{:<20}", "CHE101995734"));
    // pos 251-302: nombre via (52 chars)
    rec.push_str(&format!("{:<52}", "BAHNHOFSTRASSE 45"));
    // pos 303-342: complemento (40 chars)
    rec.push_str(&" ".repeat(40));
    // pos 343-372: poblacion (30 chars)
    rec.push_str(&format!("{:<30}", "ZURICH"));
    // pos 373-402: provincia (30 chars)
    rec.push_str(&format!("{:<30}", "ZURICH"));
    // pos 403-412: cod postal (10 chars)
    rec.push_str(&format!("{:<10}", "8001"));
    // pos 413-414: codigo pais domicilio
    rec.push_str("CH");
    // pos 415-422: fecha incorporacion
    rec.push_str(fecha_inc);
    // pos 423: origen
    rec.push(origen);
    // pos 424-431: fecha extincion
    rec.push_str(fecha_ext);
    // pos 432: signo val1
    if val1 < 0 { rec.push('N'); } else { rec.push(' '); }
    // pos 433-446: valoracion1 (14 digits)
    rec.push_str(&format!("{:014}", val1.unsigned_abs()));
    // pos 447: signo val2
    if val2 < 0 { rec.push('N'); } else { rec.push(' '); }
    // pos 448-461: valoracion2 (14 digits)
    rec.push_str(&format!("{:014}", val2.unsigned_abs()));
    // pos 462: clave represent valores
    rec.push(clave_repr);
    // pos 463-474: num valores (12 chars)
    rec.push_str(&format!("{:<12}", num_valores));
    // pos 475: clave tipo inmueble
    rec.push(clave_inmueble);
    // pos 476-480: porcentaje participacion
    rec.push_str(&format!("{:>5}", porcentaje));
    // pos 481-500: blancos (20)
    rec.push_str(&" ".repeat(20));
    assert_eq!(rec.chars().count(), 500, "T2 record must be 500 chars, got {}", rec.chars().count());
    rec
}

fn build_file(records: &[String]) -> Vec<u8> {
    let text = records.join("\r\n") + "\r\n";
    let (bytes, _, _) = encoding_rs::WINDOWS_1252.encode(&text);
    bytes.to_vec()
}

/// Replace the ASCII character at byte index `idx`.
fn set_char(s: &mut String, idx: usize, c: char) {
    let mut buf = [0u8; 4];
    s.replace_range(idx..idx + 1, c.encode_utf8(&mut buf));
}

fn euros(cents: i64) -> f64 {
    cents as f64 / 100.0
}

fn has_error(result: &ValidationResult, code: &str) -> bool {
    result.errors.iter().any(|e| e.code == code)
}

fn has_warning(result: &ValidationResult, code: &str) -> bool {
    result.warnings.iter().any(|e| e.code == code)
}

// ─── Structural (Fatal) ──────────────────────────────────────────────

#[test]
fn test_valid_single_record() {
    let val1: i64 = 4144627;
    let val2: i64 = 0;
    let t1 = make_t1("12345678Z", "GARCIA LOPEZ JUAN", 1, val1, val2);
    let t2 = make_t2_cuenta("12345678Z", "12345678Z", "GARCIA LOPEZ JUAN", val1, val2);
    let bytes = build_file(&[t1, t2]);
    let result = validate(&bytes);
    assert!(result.is_valid, "Expected valid, errors: {:?}", result.errors);
    let summary = result.summary.unwrap();
    assert_eq!(summary.ejercicio, "2024");
    assert_eq!(summary.nif_declarante, "12345678Z");
    assert_eq!(summary.total_registros_t2_real, 1);
}

#[test]
fn test_empty_file() {
    let result = validate(b"");
    assert!(!result.is_valid);
    assert!(has_error(&result, "E003"));
}

#[test]
fn test_wrong_line_length() {
    let bytes = b"1720202412345678Z\r\n";
    let result = validate(bytes);
    assert!(!result.is_valid);
    assert!(has_error(&result, "E002"));
}

#[test]
fn test_first_record_not_type1() {
    let t2 = make_t2_cuenta("12345678Z", "12345678Z", "NOMBRE", 0, 0);
    let bytes = build_file(&[t2]);
    let result = validate(&bytes);
    assert!(!result.is_valid);
    assert!(has_error(&result, "E003"));
}

#[test]
fn test_multiple_type1_records() {
    let t1a = make_t1("12345678Z", "NOMBRE A", 0, 0, 0);
    let t1b = make_t1("12345678Z", "NOMBRE B", 0, 0, 0);
    let bytes = build_file(&[t1a, t1b]);
    let result = validate(&bytes);
    assert!(!result.is_valid);
    assert!(has_error(&result, "E004"));
}

#[test]
fn test_unknown_record_type() {
    // Valid T1 followed by a record with type '3'
    let t1 = make_t1("12345678Z", "NOMBRE", 0, 0, 0);
    let mut bad = make_t2_cuenta("12345678Z", "12345678Z", "NOMBRE", 0, 0);
    set_char(&mut bad, 0, '3');
    let bytes = build_file(&[t1, bad]);
    let result = validate(&bytes);
    assert!(!result.is_valid);
    assert!(has_error(&result, "E005"));
}

#[test]
fn test_modelo_not_720() {
    let mut t1 = make_t1("12345678Z", "GARCIA LOPEZ JUAN", 0, 0, 0);
    set_char(&mut t1, 1, '3');
    set_char(&mut t1, 2, '0');
    set_char(&mut t1, 3, '3');
    let file_bytes = build_file(&[t1]);
    let result = validate(&file_bytes);
    assert!(!result.is_valid);
    assert!(has_error(&result, "E006"));
}

#[test]
fn test_ejercicio_non_numeric() {
    let mut t1 = make_t1("12345678Z", "NOMBRE", 0, 0, 0);
    set_char(&mut t1, 4, 'A');
    let bytes = build_file(&[t1]);
    let result = validate(&bytes);
    assert!(!result.is_valid);
    assert!(has_error(&result, "E007"));
}

// ─── Tipo 1 (E101-E110) ─────────────────────────────────────────────

#[test]
fn test_e101_tipo_soporte() {
    let mut t1 = make_t1("12345678Z", "NOMBRE", 0, 0, 0);
    // pos 58 (index 57) must be 'T'
    set_char(&mut t1, 57, 'X');
    let bytes = build_file(&[t1]);
    let result = validate(&bytes);
    assert!(has_error(&result, "E101"));
}

#[test]
fn test_invalid_nif_declarante() {
    let t1 = make_t1("12345678A", "GARCIA LOPEZ JUAN", 0, 0, 0);
    let bytes = build_file(&[t1]);
    let result = validate(&bytes);
    assert!(!result.is_valid);
    assert!(has_error(&result, "E102"));
}

#[test]
fn test_e103_empty_nombre() {
    let t1 = make_t1("12345678Z", "", 0, 0, 0);
    let bytes = build_file(&[t1]);
    let result = validate(&bytes);
    assert!(has_error(&result, "E103"));
}

#[test]
fn test_e104_num_identificativo() {
    let mut t1 = make_t1("12345678Z", "NOMBRE", 0, 0, 0);
    // pos 108-110 (index 107-109), change from "720" to "999"
    set_char(&mut t1, 107, '9');
    set_char(&mut t1, 108, '9');
    set_char(&mut t1, 109, '9');
    let bytes = build_file(&[t1]);
    let result = validate(&bytes);
    assert!(has_error(&result, "E104"));
}

#[test]
fn test_e105_both_complementaria_and_sustitutiva() {
    let t1 = make_t1_full(
        "12345678Z", "NOMBRE", 0, 0, 0,
        'C', 'S', "7200000000002",
    );
    let bytes = build_file(&[t1]);
    let result = validate(&bytes);
    assert!(has_error(&result, "E105"));
}

#[test]
fn test_e106_sustitutiva_without_anterior() {
    let t1 = make_t1_full(
        "12345678Z", "NOMBRE", 0, 0, 0,
        ' ', 'S', "0000000000000",
    );
    let bytes = build_file(&[t1]);
    let result = validate(&bytes);
    assert!(has_error(&result, "E106"));
}

#[test]
fn test_e110_blancos_not_blank() {
    let mut t1 = make_t1("12345678Z", "NOMBRE", 0, 0, 0);
    // Put non-blank at pos 181 (index 180)
    set_char(&mut t1, 180, 'X');
    let bytes = build_file(&[t1]);
    let result = validate(&bytes);
    assert!(has_error(&result, "E110"));
}

// ─── Cross-validations (E107-E109) ──────────────────────────────────

#[test]
fn test_total_t2_mismatch() {
    let val1: i64 = 4144627;
    let t1 = make_t1("12345678Z", "GARCIA LOPEZ JUAN", 2, val1, 0);
    let t2 = make_t2_cuenta("12345678Z", "12345678Z", "GARCIA LOPEZ JUAN", val1, 0);
    let bytes = build_file(&[t1, t2]);
    let result = validate(&bytes);
    assert!(!result.is_valid);
    assert!(has_error(&result, "E107"));
}

#[test]
fn test_val1_sum_mismatch() {
    let t1 = make_t1("12345678Z", "GARCIA LOPEZ JUAN", 1, 100, 0);
    let t2 = make_t2_cuenta("12345678Z", "12345678Z", "GARCIA LOPEZ JUAN", 200, 0);
    let bytes = build_file(&[t1, t2]);
    let result = validate(&bytes);
    assert!(!result.is_valid);
    assert!(has_error(&result, "E108"));
}

#[test]
fn test_val2_sum_mismatch() {
    let t1 = make_t1("12345678Z", "NOMBRE", 1, 100, 50);
    let t2 = make_t2_cuenta("12345678Z", "12345678Z", "NOMBRE", 100, 999);
    let bytes = build_file(&[t1, t2]);
    let result = validate(&bytes);
    assert!(has_error(&result, "E109"));
}

#[test]
fn test_multiple_t2_records() {
    let val1_a: i64 = 1000000;
    let val1_b: i64 = 2000000;
    let total_val1 = val1_a + val1_b;
    let t1 = make_t1("12345678Z", "GARCIA LOPEZ JUAN", 2, total_val1, 0);
    let t2a = make_t2_cuenta("12345678Z", "12345678Z", "GARCIA LOPEZ JUAN", val1_a, 0);
    let t2b = make_t2_cuenta("12345678Z", "00000000T", "PEREZ MARTINEZ ANA", val1_b, 0);
    let bytes = build_file(&[t1, t2a, t2b]);
    let result = validate(&bytes);
    assert!(result.is_valid, "Expected valid, errors: {:?}", result.errors);
    assert_eq!(result.summary.unwrap().total_registros_t2_real, 2);
}

// ─── Tipo 2 (E201-E233) ─────────────────────────────────────────────

#[test]
fn test_e201_nif_declarante_mismatch() {
    let t1 = make_t1("12345678Z", "NOMBRE", 1, 100, 0);
    let t2 = make_t2_cuenta("00000000T", "12345678Z", "NOMBRE", 100, 0);
    let bytes = build_file(&[t1, t2]);
    let result = validate(&bytes);
    assert!(has_error(&result, "E201"));
}

#[test]
fn test_e202_invalid_nif_declarado() {
    let t1 = make_t1("12345678Z", "NOMBRE", 1, 100, 0);
    let t2 = make_t2_cuenta("12345678Z", "XXXXXXXXX", "NOMBRE", 100, 0);
    let bytes = build_file(&[t1, t2]);
    let result = validate(&bytes);
    assert!(has_error(&result, "E202"));
}

#[test]
fn test_e203_empty_nombre_declarado() {
    let t1 = make_t1("12345678Z", "NOMBRE", 1, 100, 0);
    let t2 = make_t2_cuenta("12345678Z", "12345678Z", "", 100, 0);
    let bytes = build_file(&[t1, t2]);
    let result = validate(&bytes);
    assert!(has_error(&result, "E203"));
}

#[test]
fn test_e204_clave_condicion_out_of_range() {
    let t1 = make_t1("12345678Z", "NOMBRE", 1, 100, 0);
    let t2 = make_t2_full(
        "12345678Z", "12345678Z", "NOMBRE", 100, 0,
        '0', 'C', '1', "CH", '0', "            ", 'I',
        "20240101", 'A', "00000000", ' ', "000000000000", ' ', "10000",
    );
    let bytes = build_file(&[t1, t2]);
    let result = validate(&bytes);
    assert!(has_error(&result, "E204"));
}

#[test]
fn test_e206_invalid_clave_tipo_bien() {
    let t1 = make_t1("12345678Z", "NOMBRE", 1, 100, 0);
    let t2 = make_t2_full(
        "12345678Z", "12345678Z", "NOMBRE", 100, 0,
        '1', 'X', '1', "CH", '0', "            ", ' ',
        "20240101", 'A', "00000000", ' ', "000000000000", ' ', "10000",
    );
    let bytes = build_file(&[t1, t2]);
    let result = validate(&bytes);
    assert!(has_error(&result, "E206"));
}

#[test]
fn test_e207_invalid_subclave() {
    let t1 = make_t1("12345678Z", "NOMBRE", 1, 100, 0);
    // C with subclave 9 (invalid, must be 1-5)
    let t2 = make_t2_full(
        "12345678Z", "12345678Z", "NOMBRE", 100, 0,
        '1', 'C', '9', "CH", '0', "            ", 'I',
        "20240101", 'A', "00000000", ' ', "000000000000", ' ', "10000",
    );
    let bytes = build_file(&[t1, t2]);
    let result = validate(&bytes);
    assert!(has_error(&result, "E207"));
}

#[test]
fn test_e208_subclave_not_zero_for_i() {
    let t1 = make_t1("12345678Z", "NOMBRE", 1, 100, 0);
    let t2 = make_t2_full(
        "12345678Z", "12345678Z", "NOMBRE", 100, 0,
        '1', 'I', '1', "CH", '0', "            ", ' ',
        "20240101", 'A', "00000000", 'A', "000100000000", ' ', "10000",
    );
    let bytes = build_file(&[t1, t2]);
    let result = validate(&bytes);
    assert!(has_error(&result, "E208"));
}

#[test]
fn test_e220_origen_invalid() {
    let t1 = make_t1("12345678Z", "NOMBRE", 1, 100, 0);
    let t2 = make_t2_full(
        "12345678Z", "12345678Z", "NOMBRE", 100, 0,
        '1', 'C', '1', "CH", '0', "            ", 'I',
        "20240101", 'X', "00000000", ' ', "000000000000", ' ', "10000",
    );
    let bytes = build_file(&[t1, t2]);
    let result = validate(&bytes);
    assert!(has_error(&result, "E220"));
}

#[test]
fn test_e221_fecha_extincion_zeros_when_origen_c() {
    let t1 = make_t1("12345678Z", "NOMBRE", 1, 100, 0);
    let t2 = make_t2_full(
        "12345678Z", "12345678Z", "NOMBRE", 100, 0,
        '1', 'C', '1', "CH", '0', "            ", 'I',
        "20240101", 'C', "00000000", ' ', "000000000000", ' ', "10000",
    );
    let bytes = build_file(&[t1, t2]);
    let result = validate(&bytes);
    assert!(has_error(&result, "E221"));
}

#[test]
fn test_e222_fecha_extincion_not_zeros_when_origen_a() {
    let t1 = make_t1("12345678Z", "NOMBRE", 1, 100, 0);
    let t2 = make_t2_full(
        "12345678Z", "12345678Z", "NOMBRE", 100, 0,
        '1', 'C', '1', "CH", '0', "            ", 'I',
        "20240101", 'A', "20241231", ' ', "000000000000", ' ', "10000",
    );
    let bytes = build_file(&[t1, t2]);
    let result = validate(&bytes);
    assert!(has_error(&result, "E222"));
}

#[test]
fn test_e233_ejercicio_mismatch() {
    let t1 = make_t1("12345678Z", "NOMBRE", 1, 100, 0);
    let mut t2 = make_t2_cuenta("12345678Z", "12345678Z", "NOMBRE", 100, 0);
    // Change ejercicio to 2025 at pos 5-8 (index 4-7)
    set_char(&mut t2, 4, '2');
    set_char(&mut t2, 5, '0');
    set_char(&mut t2, 6, '2');
    set_char(&mut t2, 7, '5');
    let bytes = build_file(&[t1, t2]);
    let result = validate(&bytes);
    assert!(has_error(&result, "E233"));
}

#[test]
fn test_e232_blancos_not_blank() {
    let mut t2 = make_t2_cuenta("12345678Z", "12345678Z", "NOMBRE", 100, 0);
    // pos 481 (index 480)
    set_char(&mut t2, 480, 'X');
    let t1 = make_t1("12345678Z", "NOMBRE", 1, 100, 0);
    let bytes = build_file(&[t1, t2]);
    let result = validate(&bytes);
    assert!(has_error(&result, "E232"));
}

// ─── Warnings (W001-W005) ───────────────────────────────────────────

#[test]
fn test_w001_future_fecha_incorporacion() {
    let t1 = make_t1("12345678Z", "NOMBRE", 1, 100, 0);
    let t2 = make_t2_full(
        "12345678Z", "12345678Z", "NOMBRE", 100, 0,
        '1', 'C', '1', "CH", '0', "            ", 'I',
        "20250601", 'A', "00000000", ' ', "000000000000", ' ', "10000",
    );
    let bytes = build_file(&[t1, t2]);
    let result = validate(&bytes);
    assert!(has_warning(&result, "W001"));
}

#[test]
fn test_w003_zero_porcentaje() {
    let t1 = make_t1("12345678Z", "NOMBRE", 1, 100, 0);
    let t2 = make_t2_full(
        "12345678Z", "12345678Z", "NOMBRE", 100, 0,
        '1', 'C', '1', "CH", '0', "            ", 'I',
        "20240101", 'A', "00000000", ' ', "000000000000", ' ', "00000",
    );
    let bytes = build_file(&[t1, t2]);
    let result = validate(&bytes);
    assert!(has_warning(&result, "W003"));
}

// ─── Edge cases ─────────────────────────────────────────────────────

#[test]
fn test_zero_t2_records() {
    let t1 = make_t1("12345678Z", "NOMBRE", 0, 0, 0);
    let bytes = build_file(&[t1]);
    let result = validate(&bytes);
    assert!(result.is_valid, "T1-only file with 0 T2 should be valid, errors: {:?}", result.errors);
    let s = result.summary.unwrap();
    assert_eq!(s.total_registros_t2_real, 0);
    assert_eq!(s.total_registros_t2_declarado, 0);
}

#[test]
fn test_negative_values() {
    let t1 = make_t1("12345678Z", "NOMBRE", 1, -500, -300);
    let t2 = make_t2_cuenta("12345678Z", "12345678Z", "NOMBRE", -500, -300);
    let bytes = build_file(&[t1, t2]);
    let result = validate(&bytes);
    assert!(result.is_valid, "Negative values should be valid, errors: {:?}", result.errors);
    let s = result.summary.unwrap();
    assert!((euros(s.suma_val1_cents) - (-5.0)).abs() < 0.01);
    assert!((euros(s.suma_val2_cents) - (-3.0)).abs() < 0.01);
}

#[test]
fn test_lf_line_endings() {
    // File with LF instead of CRLF should still work
    let t1 = make_t1("12345678Z", "NOMBRE", 0, 0, 0);
    let text = format!("{}\n", t1);
    let (bytes, _, _) = encoding_rs::WINDOWS_1252.encode(&text);
    let result = validate(&bytes.to_vec());
    assert!(result.is_valid, "LF-only line endings should work, errors: {:?}", result.errors);
}

// ─── Further cases ──────────────────────────────────────────────────

fn isin_record(nif_declarado: &str) -> String {
    make_t2_full(
        "12345678Z", nif_declarado, "NOMBRE", 100, 0,
        '1', 'V', '1', "US", '1', "US0378331005", ' ',
        "20240101", 'A', "00000000", 'A', "000000000010", ' ', "10000",
    )
}

#[test]
fn e001_on_undecodable_bytes() {
    // A UTF-8 byte-order mark followed by a byte that is not UTF-8.
    let result = validate(&[0xEF, 0xBB, 0xBF, 0xFF]);
    assert!(!result.is_valid);
    assert!(has_error(&result, "E001"));
    assert_eq!(result.errors.len(), 1);
    assert!(result.warnings.is_empty());
    assert!(result.summary.is_none());
}

#[test]
fn e002_reports_the_length() {
    let result = validate(b"1720202412345678Z\r\n");
    let e = &result.errors[0];
    assert_eq!(e.code, "E002");
    assert_eq!(e.line, 1);
    assert_eq!(e.message, "Longitud de línea incorrecta: 17 (esperado 500)");
    assert!(result.summary.is_none());
    assert!(result.warnings.is_empty());
}

#[test]
fn e003_first_record_message() {
    let t2 = make_t2_cuenta("12345678Z", "12345678Z", "NOMBRE", 0, 0);
    let result = validate(&build_file(&[t2]));
    let e = &result.errors[0];
    assert_eq!(e.code, "E003");
    assert_eq!(e.line, 1);
    assert_eq!(e.message, "Primer registro no es tipo 1");
}

#[test]
fn w002_large_valuation() {
    let t1 = make_t1("12345678Z", "NOMBRE", 1, 1_500_000_000, 0);
    let t2 = make_t2_cuenta("12345678Z", "12345678Z", "NOMBRE", 1_500_000_000, 0);
    let result = validate(&build_file(&[t1, t2]));
    assert!(has_warning(&result, "W002"));
    let w = result.warnings.iter().find(|w| w.code == "W002").unwrap();
    assert_eq!(w.message, "VALORACION1 > 10.000.000€: 15000000.00€");
    assert!(result.is_valid, "errors: {:?}", result.errors);
}

#[test]
fn w004_malformed_bic() {
    let t1 = make_t1("12345678Z", "NOMBRE", 1, 100, 0);
    let mut t2 = make_t2_cuenta("12345678Z", "12345678Z", "NOMBRE", 100, 0);
    set_char(&mut t2, 144, '-');
    let result = validate(&build_file(&[t1, t2]));
    assert!(has_warning(&result, "W004"));
}

#[test]
fn w005_repeated_isin_for_the_same_holder() {
    let t1 = make_t1("12345678Z", "NOMBRE", 2, 200, 0);
    let result = validate(&build_file(&[t1, isin_record("12345678Z"), isin_record("12345678Z")]));
    let lines: Vec<usize> = result
        .warnings
        .iter()
        .filter(|w| w.code == "W005")
        .map(|w| w.line)
        .collect();
    assert_eq!(lines, vec![2, 3]);
}

#[test]
fn w005_not_for_different_holders() {
    let t1 = make_t1("12345678Z", "NOMBRE", 2, 200, 0);
    let result = validate(&build_file(&[t1, isin_record("12345678Z"), isin_record("00000000T")]));
    assert!(!has_warning(&result, "W005"));
}

#[test]
fn valid_exactly_when_no_errors() {
    let files = vec![
        build_file(&[make_t1("12345678Z", "NOMBRE", 0, 0, 0)]),
        build_file(&[make_t1("12345678A", "NOMBRE", 0, 0, 0)]),
        build_file(&[
            make_t1("12345678Z", "NOMBRE", 1, 100, 0),
            make_t2_cuenta("12345678Z", "12345678Z", "NOMBRE", 200, 0),
        ]),
        b"".to_vec(),
        b"1720\n".to_vec(),
    ];
    for f in files {
        let r = validate(&f);
        assert_eq!(r.is_valid, r.errors.is_empty());
    }
}

#[test]
fn summary_lists_the_records() {
    let t1 = make_t1("12345678Z", "GARCIA LOPEZ JUAN", 1, -500, 300);
    let t2 = make_t2_cuenta("12345678Z", "12345678Z", "GARCIA LOPEZ JUAN", -500, 300);
    let result = validate(&build_file(&[t1, t2]));
    let s = result.summary.unwrap();
    assert_eq!(s.nombre_declarante, "GARCIA LOPEZ JUAN");
    assert_eq!(s.suma_val1_cents, -500);
    assert_eq!(s.suma_val2_cents, 300);
    assert_eq!(s.records.len(), 1);
    let d = &s.records[0];
    assert_eq!(d.line, 2);
    assert_eq!(d.nif_declarado, "12345678Z");
    assert_eq!(d.clave_bien, 'C');
    assert_eq!(d.subclave, '1');
    assert_eq!(d.codigo_pais, "CH");
    assert_eq!(d.fecha_incorporacion, "20240101");
    assert_eq!(d.origen, 'A');
    assert_eq!(d.valoracion1_cents, -500);
    assert_eq!(d.valoracion2_cents, 300);
}

#[test]
fn try_validate_and_validate_decoded_agree() {
    let t1 = make_t1("12345678Z", "NOMBRE", 0, 0, 0);
    let bytes = build_file(&[t1.clone()]);
    let r = validator720::try_validate(&bytes).unwrap();
    assert!(r.is_valid);
    let text = format!("{}\r\n", t1);
    let d = validator720::validate_decoded(&text, false).unwrap();
    assert!(d.is_valid);
    let bad = validator720::validate_decoded(&text, true).unwrap();
    assert!(has_error(&bad, "E001"));
}

#[test]
fn blank_lines_and_lf_endings_read_alike() {
    let t1 = make_t1("12345678Z", "NOMBRE", 1, 100, 0);
    let t2 = make_t2_cuenta("12345678Z", "12345678Z", "NOMBRE", 100, 0);
    let crlf = validate(&build_file(&[t1.clone(), t2.clone()]));
    let text = format!("{}\n\n{}\n", t1, t2);
    let (bytes, _, _) = encoding_rs::WINDOWS_1252.encode(&text);
    let lf = validate(&bytes.to_vec());
    assert_eq!(crlf.is_valid, lf.is_valid);
    assert_eq!(crlf.errors.len(), lf.errors.len());
    assert_eq!(
        crlf.summary.unwrap().total_registros_t2_real,
        lf.summary.unwrap().total_registros_t2_real
    );
}

fn findings(v: &[validator720::ValidationError]) -> Vec<(String, usize, Option<(usize, usize)>, String)> {
    v.iter().map(|e| (e.code.clone(), e.line, e.position, e.message.clone())).collect()
}

#[test]
fn crlf_and_lf_files_validate_alike() {
    // A T1 whose totals disagree with its records, and a T2 with a bad NIF:
    // errors and warnings must come out the same whatever the line ending.
    let t1 = make_t1("12345678Z", "NOMBRE", 3, 500, 0);
    let t2a = make_t2_cuenta("12345678Z", "12345678Z", "BANCO", 100, 0);
    let t2b = make_t2_cuenta("12345678Z", "12345678A", "BANCO", -50, 0);
    let lines = [t1, t2a, t2b];
    let crlf = format!("{}\r\n", lines.join("\r\n"));
    let lf = format!("{}\n", lines.join("\n"));
    let (crlf_bytes, _, _) = encoding_rs::WINDOWS_1252.encode(&crlf);
    let (lf_bytes, _, _) = encoding_rs::WINDOWS_1252.encode(&lf);
    let a = validate(&crlf_bytes.to_vec());
    let b = validate(&lf_bytes.to_vec());
    assert!(!a.is_valid);
    assert_eq!(a.is_valid, b.is_valid);
    assert_eq!(findings(&a.errors), findings(&b.errors));
    assert_eq!(findings(&a.warnings), findings(&b.warnings));
    let (sa, sb) = (a.summary.unwrap(), b.summary.unwrap());
    assert_eq!(sa.total_registros_t2_real, 2);
    assert_eq!(sa.total_registros_t2_real, sb.total_registros_t2_real);
    assert_eq!(sa.suma_val1_cents, sb.suma_val1_cents);
    assert_eq!(sa.suma_val2_cents, sb.suma_val2_cents);
}
