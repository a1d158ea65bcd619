use validator720::parser::{char_at, field, is_blank, is_empty_date, is_numeric, is_zeros, parse_record, validate_date};

#[test]
fn test_field_extraction() {
    let raw = "1720202412345678XNOMBRE".to_string() + &" ".repeat(477);
    assert_eq!(field(&raw, 1, 1), "1");
    assert_eq!(field(&raw, 2, 4), "720");
    assert_eq!(field(&raw, 5, 8), "2024");
}

#[test]
fn test_validate_date() {
    assert!(validate_date("00000000"));
    assert!(validate_date("20240229")); // 2024 is leap
    assert!(!validate_date("20230229")); // 2023 is not
    assert!(validate_date("20231231"));
    assert!(!validate_date("20231301"));
    assert!(!validate_date("20231200"));
}

#[test]
fn test_is_numeric() {
    assert!(is_numeric("12345"));
    assert!(!is_numeric("123a5"));
    assert!(!is_numeric(""));
}

#[test]
fn field_outside_the_record_is_empty() {
    let raw = "12345";
    assert_eq!(field(raw, 4, 9), "");
    assert_eq!(field(raw, 0, 2), "");
    assert_eq!(field(raw, 4, 5), "45");
}

#[test]
fn char_at_past_the_end_is_a_space() {
    assert_eq!(char_at("abc", 3), 'c');
    assert_eq!(char_at("abc", 4), ' ');
}

#[test]
fn blanks_zeros_and_empty_dates() {
    assert!(is_blank("   "));
    assert!(is_blank(""));
    assert!(!is_blank(" x "));
    assert!(is_zeros("0000"));
    assert!(!is_zeros("0010"));
    assert!(is_empty_date("00000000"));
    assert!(!is_empty_date("20240101"));
}

#[test]
fn dates_by_century_rules() {
    assert!(validate_date("20000229")); // divisible by 400
    assert!(!validate_date("19000229")); // divisible by 100 only
    assert!(validate_date("20240430"));
    assert!(!validate_date("20240431"));
    assert!(!validate_date("2024013"));
    assert!(!validate_date("2024O101"));
}

#[test]
fn parse_record_reads_type_model_and_year() {
    let raw = "2720202412345678Z".to_string() + &" ".repeat(483);
    let r = parse_record(&raw, 7);
    assert_eq!(r.line, 7);
    assert_eq!(r.tipo, '2');
    assert_eq!(r.modelo, "720");
    assert_eq!(r.ejercicio, "2024");
    assert_eq!(r.raw, raw);
}
