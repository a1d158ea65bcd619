use validator720::generator::{encode_amount, norm_date, pad_left_zeros, pad_right, wstr};
use validator720::import::{import_decoded, import_from_bytes};
use validator720::{generate_file, validate, Tipo1Fields, Tipo2Fields};

fn valid_t1() -> Tipo1Fields {
    Tipo1Fields {
        ejercicio: "2024".to_string(),
        nif_declarante: "12345678Z".to_string(),
        nombre_declarante: "JUAN GARCIA LOPEZ".to_string(),
        num_identificativo: "7200000000001".to_string(),
        ..Default::default()
    }
}

fn valid_t2() -> Tipo2Fields {
    Tipo2Fields {
        nif_declarado: "12345678Z".to_string(),
        nombre_declarado: "BANCO SUIZO SA".to_string(),
        clave_condicion: '1',
        clave_tipo_bien: 'C',
        subclave: '1',
        codigo_pais: "CH".to_string(),
        clave_identificacion: '0',
        clave_id_cuenta: 'I',
        codigo_bic: "UBSWCHZH80A".to_string(),
        identificacion_cuenta: "CH9300762011623852957".to_string(),
        identificacion_entidad: "UBS SWITZERLAND AG".to_string(),
        fecha_incorporacion: "20240101".to_string(),
        origen: 'A',
        fecha_extincion: "00000000".to_string(),
        valoracion1_cents: 4144627,
        porcentaje_participacion: 10000,
        pais_domicilio: "CH".to_string(),
        ..Default::default()
    }
}

#[test]
fn record_length_is_500() {
    let t1 = valid_t1();
    let t2 = valid_t2();
    let bytes = generate_file(&t1, &[t2]);
    let text = String::from_utf8_lossy(&bytes);
    let lines: Vec<&str> = text
        .split("\r\n")
        .filter(|l| !l.is_empty())
        .collect();
    assert_eq!(lines.len(), 2, "should have 1 T1 + 1 T2 line");
    for (i, line) in lines.iter().enumerate() {
        assert_eq!(
            line.chars().count(),
            500,
            "line {} should be 500 chars, got {}",
            i + 1,
            line.chars().count()
        );
    }
}

#[test]
fn totals_are_computed() {
    let t1 = valid_t1();
    let t2a = Tipo2Fields { valoracion1_cents: 10000, ..valid_t2() };
    let t2b = Tipo2Fields { valoracion1_cents: 20050, nif_declarado: "87654321X".to_string(), ..valid_t2() };
    let bytes = generate_file(&t1, &[t2a, t2b]);
    let text = String::from_utf8_lossy(&bytes);
    let t1_line: Vec<char> = text.lines().next().unwrap().chars().collect();
    // TOTAL_REGISTROS_T2 at pos 136–144
    let count: String = t1_line[135..144].iter().collect();
    assert_eq!(count, "000000002");
    // SUMA_VAL1 at pos 146–162 (30_050 cents = 300.50 €)
    let suma: String = t1_line[145..162].iter().collect();
    assert_eq!(suma, "00000000000030050");
}

#[test]
fn roundtrip_import() {
    let t1 = valid_t1();
    let t2 = valid_t2();
    let bytes = generate_file(&t1, &[t2.clone()]);
    let (t1_back, t2s_back) = import_from_bytes(&bytes).unwrap();
    assert_eq!(t1_back.nif_declarante, t1.nif_declarante);
    assert_eq!(t1_back.nombre_declarante, t1.nombre_declarante);
    assert_eq!(t2s_back.len(), 1);
    let r = &t2s_back[0];
    assert_eq!(r.nif_declarado, t2.nif_declarado);
    assert_eq!(r.clave_tipo_bien, t2.clave_tipo_bien);
    assert!(((r.valoracion1_cents - t2.valoracion1_cents) as f64 / 100.0).abs() < 0.01);
}

#[test]
fn encode_amount_negative() {
    let (sign, digits) = encode_amount(-15050, 14);
    assert_eq!(sign, 'N');
    assert_eq!(digits, "00000000015050");
}

#[test]
fn pad_left_zeros_works() {
    assert_eq!(pad_left_zeros("42", 5), "00042");
    assert_eq!(pad_left_zeros("", 5), "00000");
    assert_eq!(pad_left_zeros("123456", 4), "3456"); // truncate from left
}

// ─── Further cases ──────────────────────────────────────────────────

#[test]
fn pad_right_cuts_and_fills() {
    assert_eq!(pad_right("AB", 4), "AB  ");
    assert_eq!(pad_right("ABCDEF", 4), "ABCD");
    assert_eq!(pad_right("ÑÁ", 3), "ÑÁ ");
    assert_eq!(pad_right("", 2), "  ");
}

#[test]
fn pad_left_zeros_drops_non_digits() {
    assert_eq!(pad_left_zeros("72-00 01", 8), "00720001");
    assert_eq!(pad_left_zeros("abc", 3), "000");
}

#[test]
fn norm_date_keeps_only_eight_digits() {
    assert_eq!(norm_date("20240101"), "20240101");
    assert_eq!(norm_date("2024-01-01"), "00000000");
    assert_eq!(norm_date("2024010"), "00000000");
    assert_eq!(norm_date("2024O101"), "00000000");
}

#[test]
fn encode_amount_positive_and_wide() {
    assert_eq!(encode_amount(0, 5), (' ', "00000".to_string()));
    assert_eq!(encode_amount(123456, 3), (' ', "123456".to_string()));
    assert_eq!(encode_amount(i64::MIN, 3), ('N', "9223372036854775808".to_string()));
}

#[test]
fn wstr_writes_up_to_the_width() {
    let mut buf = vec![' '; 6];
    wstr(&mut buf, 2, "ABCDEF", 3);
    assert_eq!(buf, vec![' ', 'A', 'B', 'C', ' ', ' ']);
    wstr(&mut buf, 5, "Z", 2);
    assert_eq!(buf, vec![' ', 'A', 'B', 'C', 'Z', ' ']);
}

#[test]
fn presenter_defaults_to_declarant() {
    let bytes = generate_file(&valid_t1(), &[]);
    let text = String::from_utf8_lossy(&bytes);
    let line: Vec<char> = text.lines().next().unwrap().chars().collect();
    let nif_pres: String = line[58..67].iter().collect();
    assert_eq!(nif_pres, "12345678Z");
    let nom_pres: String = line[67..107].iter().collect();
    assert_eq!(nom_pres.trim_end(), "JUAN GARCIA LOPEZ");
    assert_eq!(line[57], 'T');
    assert_eq!(line[0], '1');
}

#[test]
fn negative_amounts_are_signed() {
    let t2 = Tipo2Fields { valoracion1_cents: -15050, valoracion2_cents: 7, ..valid_t2() };
    let bytes = generate_file(&valid_t1(), &[t2]);
    let text = String::from_utf8_lossy(&bytes);
    let lines: Vec<&str> = text.lines().collect();
    let t2_line: Vec<char> = lines[1].chars().collect();
    assert_eq!(t2_line[431], 'N');
    let v1: String = t2_line[432..446].iter().collect();
    assert_eq!(v1, "00000000015050");
    assert_eq!(t2_line[446], ' ');
    let v2: String = t2_line[447..461].iter().collect();
    assert_eq!(v2, "00000000000007");
    let t1_line: Vec<char> = lines[0].chars().collect();
    assert_eq!(t1_line[144], 'N');
    assert_eq!(t1_line[162], ' ');
}

#[test]
fn file_ends_with_crlf_and_is_windows_1252() {
    let t1 = Tipo1Fields { nombre_declarante: "MUÑOZ".to_string(), ..valid_t1() };
    let bytes = generate_file(&t1, &[]);
    assert_eq!(bytes.len(), 502);
    assert_eq!(&bytes[500..], b"\r\n");
    assert_eq!(bytes[19], 0xD1); // 'Ñ' in windows-1252
}

#[test]
fn generated_file_validates() {
    let t2a = valid_t2();
    let t2b = Tipo2Fields { valoracion1_cents: -300, valoracion2_cents: 1200, ..valid_t2() };
    let bytes = generate_file(&valid_t1(), &[t2a, t2b]);
    let result = validate(&bytes);
    assert!(result.is_valid, "errors: {:?}", result.errors);
    let s = result.summary.unwrap();
    assert_eq!(s.total_registros_t2_declarado, 2);
    assert_eq!(s.total_registros_t2_real, 2);
    assert_eq!(s.suma_val1_cents, 4144627 - 300);
    assert_eq!(s.suma_val2_cents, 1200);
}

#[test]
fn import_reads_back_every_field() {
    let t1 = Tipo1Fields {
        nif_presentador: "00000000T".to_string(),
        nombre_presentador: "  ASESORIA  ".to_string(),
        dec_sustitutiva: true,
        num_dec_anterior: "720-0000000009".to_string(),
        ..valid_t1()
    };
    let t2 = Tipo2Fields {
        clave_tipo_bien: 'V',
        clave_identificacion: '1',
        identificacion_valores: "US0378331005".to_string(),
        clave_represent_valores: 'A',
        num_valores: 123,
        valoracion2_cents: -99,
        localidad: "ZÜRICH".to_string(),
        fecha_extincion: "bad".to_string(),
        ..valid_t2()
    };
    let bytes = generate_file(&t1, &[t2.clone()]);
    let (a, rs) = import_from_bytes(&bytes).unwrap();
    assert_eq!(a.ejercicio, "2024");
    assert_eq!(a.nif_presentador, "00000000T");
    assert_eq!(a.nombre_presentador, "ASESORIA");
    assert!(!a.dec_complementaria);
    assert!(a.dec_sustitutiva);
    assert_eq!(a.num_dec_anterior, "7200000000009");
    assert_eq!(rs.len(), 1);
    let r = &rs[0];
    assert_eq!(r.clave_tipo_bien, 'V');
    assert_eq!(r.identificacion_valores, "US0378331005");
    assert_eq!(r.clave_represent_valores, 'A');
    assert_eq!(r.num_valores, 123);
    assert_eq!(r.valoracion1_cents, 4144627);
    assert_eq!(r.valoracion2_cents, -99);
    assert_eq!(r.localidad, "ZÜRICH");
    assert_eq!(r.codigo_pais, "CH");
    assert_eq!(r.fecha_incorporacion, "20240101");
    assert_eq!(r.fecha_extincion, "00000000");
    assert_eq!(r.porcentaje_participacion, 10000);
    assert_eq!(r.codigo_bic, "UBSWCHZH80A");
}

#[test]
fn import_errors() {
    assert_eq!(import_from_bytes(b"").unwrap_err(), "Fichero vacío");
    assert_eq!(import_from_bytes(b"\r\n\r\n").unwrap_err(), "Fichero vacío");
    assert_eq!(
        import_from_bytes(b"1720\r\n").unwrap_err(),
        "Línea 1 tiene 4 caracteres (se esperaban 500)"
    );
    let t2_only = generate_file(&valid_t1(), &[valid_t2()]);
    let second_line = &t2_only[502..];
    assert_eq!(import_from_bytes(second_line).unwrap_err(), "El primer registro no es tipo 1");
    assert_eq!(
        import_from_bytes(&[0xEF, 0xBB, 0xBF, 0xFF]).unwrap_err(),
        "Codificación inválida (se esperaba ISO-8859-1)"
    );
    assert_eq!(
        import_decoded("x", true).unwrap_err(),
        "Codificación inválida (se esperaba ISO-8859-1)"
    );
}

#[test]
fn import_skips_records_of_other_types() {
    let bytes = generate_file(&valid_t1(), &[valid_t2()]);
    let mut text = String::from_utf8_lossy(&bytes).into_owned();
    let extra = format!("3{}\r\n", &text[503..1002]);
    text.push_str(&extra);
    let (_, rs) = import_decoded(&text, false).unwrap();
    assert_eq!(rs.len(), 1);
    let lf_text = text.replace("\r\n", "\n");
    let (_, rs) = import_decoded(&lf_text, false).unwrap();
    assert_eq!(rs.len(), 1);
}

#[test]
fn defaults() {
    let t1 = Tipo1Fields::default();
    assert_eq!(t1.ejercicio, "2024");
    assert_eq!(t1.num_identificativo, "7200000000001");
    assert_eq!(t1.num_dec_anterior, "0000000000000");
    let t2 = Tipo2Fields::default();
    assert_eq!(t2.clave_tipo_bien, 'C');
    assert_eq!(t2.fecha_incorporacion, "00000000");
    assert_eq!(t2.origen, 'A');
    assert_eq!(t2.clave_id_cuenta, 'I');
}

#[test]
fn records_compare_by_fields() {
    assert!(valid_t1() == valid_t1());
    assert!(valid_t1() != Tipo1Fields { dec_complementaria: true, ..valid_t1() });
    assert!(valid_t2() == valid_t2().clone());
    assert!(valid_t2() != Tipo2Fields { valoracion2_cents: 1, ..valid_t2() });
    let bytes = generate_file(&valid_t1(), &[valid_t2()]);
    let (t1, rs) = import_from_bytes(&bytes).unwrap();
    // a blank presenter is written, and read back, as the declarant
    let presented = Tipo1Fields {
        nif_presentador: "12345678Z".to_string(),
        nombre_presentador: "JUAN GARCIA LOPEZ".to_string(),
        ..valid_t1()
    };
    assert!(t1 == presented);
    assert!(rs == vec![valid_t2()]);
}

#[test]
fn blank_identifier_is_filled_in() {
    let t1 = Tipo1Fields { num_identificativo: "   ".to_string(), ..valid_t1() };
    let bytes = generate_file(&t1, &[valid_t2()]);
    let text = String::from_utf8_lossy(&bytes);
    let line: Vec<char> = text.lines().next().unwrap().chars().collect();
    let id: String = line[107..120].iter().collect();
    assert_eq!(id, "7200000000001");
    let result = validate(&bytes);
    assert!(!result.errors.iter().any(|e| e.code == "E104"));
    assert!(result.is_valid, "errors: {:?}", result.errors);
    let (back, _) = import_from_bytes(&bytes).unwrap();
    assert_eq!(back.num_identificativo, "7200000000001");
    let given = Tipo1Fields { num_identificativo: "7200000000042".to_string(), ..valid_t1() };
    let (back, _) = import_from_bytes(&generate_file(&given, &[])).unwrap();
    assert_eq!(back.num_identificativo, "7200000000042");
}

#[test]
fn generated_file_has_no_structural_errors() {
    // Blank identifier, a negative amount and a second record: none of the
    // structure, head or totals checks may fire.
    let t1 = Tipo1Fields { num_identificativo: "   ".to_string(), ..valid_t1() };
    let t2a = valid_t2();
    let t2b = Tipo2Fields { valoracion1_cents: -99_999, valoracion2_cents: 5, ..valid_t2() };
    let bytes = generate_file(&t1, &[t2a, t2b]);
    assert_eq!(bytes.len(), 3 * 502);
    let result = validate(&bytes);
    for code in ["E002", "E003", "E004", "E005", "E006", "E104", "E107", "E108", "E109", "E201", "E233"] {
        assert!(
            result.errors.iter().all(|e| e.code != code),
            "{} in {:?}",
            code,
            result.errors
        );
    }
    let s = result.summary.expect("a generated file always gets a summary");
    assert_eq!(s.total_registros_t2_real, 2);
    assert_eq!(s.suma_val1_cents, 4144627 - 99_999);
}

#[test]
fn encoded_amounts_read_back() {
    for (cents, w) in [(-12345i64, 14usize), (0, 1), (9, 1), (-9, 1), (999_999_999_999_999_999, 18), (42, 17)] {
        let (sign, digits) = encode_amount(cents, w);
        assert_eq!(digits.chars().count(), w);
        let v: i64 = digits.trim().parse().unwrap_or(0);
        let back = if sign.to_string() == "N" { -v } else { v };
        assert_eq!(back, cents);
    }
}
