use validator720::nif::validate_nif;

#[test]
fn test_valid_nif() {
    assert!(validate_nif("12345678Z"));
    assert!(validate_nif("00000000T"));
}

#[test]
fn test_invalid_nif() {
    assert!(!validate_nif("12345678A"));
    assert!(!validate_nif("1234567"));
}

#[test]
fn test_nie() {
    // X0000000T -> 00000000T
    assert!(validate_nif("X0000000T"));
    // Y0000000Z -> 10000000Z (10000000 % 23 = 14 -> 'Z')
    assert!(validate_nif("Y0000000Z"));
}

#[test]
fn test_cif() {
    // A58818501
    assert!(validate_nif("A58818501"));
}

#[test]
fn test_trimmed() {
    assert!(validate_nif(" 12345678Z"));
}

#[test]
fn nif_surrounding_blanks_do_not_matter() {
    for s in ["12345678Z", "12345678A", "X0000000T", "A58818501", "K1234567L"] {
        let padded = format!("  {}\t ", s);
        assert_eq!(validate_nif(s), validate_nif(&padded));
    }
}

#[test]
fn nie_z_prefix() {
    // Z0000000M -> 20000000M (20000000 % 23 = 5 -> 'M')
    assert!(validate_nif("Z0000000M"));
    assert!(!validate_nif("Z0000000T"));
}

#[test]
fn nif_wrong_lengths_and_prefixes() {
    assert!(!validate_nif(""));
    assert!(!validate_nif("123456789Z"));
    assert!(!validate_nif("W1234567Z"));
    assert!(!validate_nif("A5881850X"));
}

#[test]
fn nie_reads_as_nif_with_leading_digit() {
    for rest in ["0000000T", "0000000Z", "1234567L", "123456", "0000000T  "] {
        for (letter, digit) in [('X', '0'), ('Y', '1'), ('Z', '2')] {
            let nie = format!("{}{}", letter, rest);
            let nif = format!("{}{}", digit, rest);
            assert_eq!(validate_nif(&nie), validate_nif(&nif), "{} / {}", nie, nif);
        }
    }
}

#[test]
fn cif_letter_control() {
    // The AEAT's own CIF: control digit 8, letter "JABCDEFGHI"[8] = 'H'.
    assert!(validate_nif("Q2826000H"));
    assert!(!validate_nif("Q2826000I"));
    // control digit 0 takes the letter J
    assert!(validate_nif("P0000000J"));
    assert!(!validate_nif("P0000000A"));
}

#[test]
fn eight_digits_take_one_letter() {
    for c in 'A'..='Z' {
        let nif = format!("12345678{}", c);
        assert_eq!(validate_nif(&nif), c == 'Z', "{}", nif);
    }
    assert!(!validate_nif("12345678 "));
}

#[test]
fn organisation_cif_takes_one_letter() {
    for c in 'A'..='Z' {
        let cif = format!("Q2826000{}", c);
        assert_eq!(validate_nif(&cif), c == 'H', "{}", cif);
    }
    assert!(!validate_nif("Q28260008"));
}
