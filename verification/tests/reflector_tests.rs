use enigma_shark::reflectors;
use enigma_shark::{ConfigurationError, Reflector};

#[test]
fn test_encrypt_ukw_b() {
    let reflector = reflectors::ukw_b();
    assert_eq!(reflector.encrypt('A'), Some('Y'));
    assert_eq!(reflector.encrypt('B'), Some('R'));
    for c in "ABCDEFGHIJKLMNOPQRSTUVWXYZ".chars() {
        assert_ne!(reflector.encrypt(c), Some(c));
    }
}

#[test]
fn test_encrypt_ukw_c() {
    let reflector = reflectors::ukw_c();
    assert_eq!(reflector.encrypt('A'), Some('F'));
    assert_eq!(reflector.encrypt('B'), Some('V'));
    for c in "ABCDEFGHIJKLMNOPQRSTUVWXYZ".chars() {
        assert_ne!(reflector.encrypt(c), Some(c));
    }
}

#[test]
fn test_reflector_from_name() {
    let reflector_b = reflectors::from_name("ukw_b").unwrap();
    assert_eq!(reflector_b.model(), "UKW-B");
    assert_eq!(reflector_b.encrypt('A'), Some('Y'));

    let reflector_c = reflectors::from_name("ukw_c").unwrap();
    assert_eq!(reflector_c.model(), "UKW-C");
    assert_eq!(reflector_c.encrypt('A'), Some('F'));
}

#[test]
fn unknown_reflector_name_is_an_error() {
    assert_eq!(
        reflectors::from_name("unknown").err(),
        Some(ConfigurationError::UnknownReflector)
    );
    assert_eq!(
        reflectors::from_name("UKW-B").err(),
        Some(ConfigurationError::UnknownReflector)
    );
    assert_eq!(
        reflectors::from_name("").err(),
        Some(ConfigurationError::UnknownReflector)
    );
}

#[test]
fn reflecting_twice_returns_to_the_symbol() {
    for reflector in [reflectors::ukw_b(), reflectors::ukw_c()].iter() {
        for c in "ABCDEFGHIJKLMNOPQRSTUVWXYZ".chars() {
            let once = reflector.encrypt(c).unwrap();
            assert_ne!(once, c);
            assert!(once.is_ascii_uppercase());
            assert_eq!(reflector.encrypt(once), Some(c));
        }
    }
}

#[test]
fn reflectors_carry_their_tables() {
    let b: String = "ABCDEFGHIJKLMNOPQRSTUVWXYZ"
        .chars()
        .map(|c| reflectors::ukw_b().encrypt(c).unwrap())
        .collect();
    assert_eq!(b, "YRUHQSLDPXNGOKMIEBFZCWVJAT");
    let c: String = "ABCDEFGHIJKLMNOPQRSTUVWXYZ"
        .chars()
        .map(|c| reflectors::ukw_c().encrypt(c).unwrap())
        .collect();
    assert_eq!(c, "FVPJIAOYEDRZXWGCTKUQSBNMHL");
}

#[test]
fn reflector_rejects_characters_outside_the_alphabet() {
    let reflector = reflectors::ukw_b();
    for c in ['a', '!', '9', ' ', '[', '@', 'ß'] {
        assert_eq!(reflector.encrypt(c), None);
    }
}

#[test]
fn explicit_wiring_builds_a_reflector() {
    let reflector = Reflector::new("BADCFEHGJILKNMPORQTSVUXWZY", "swap");
    assert_eq!(reflector.model(), "swap");
    assert_eq!(reflector.encrypt('A'), Some('B'));
    assert_eq!(reflector.encrypt('B'), Some('A'));
    assert_eq!(reflector.encrypt('Z'), Some('Y'));
}

#[test]
fn reflector_wirings_are_told_from_other_tables() {
    assert!(Reflector::is_valid_wiring("YRUHQSLDPXNGOKMIEBFZCWVJAT"));
    assert!(Reflector::is_valid_wiring("FVPJIAOYEDRZXWGCTKUQSBNMHL"));
    assert!(Reflector::is_valid_wiring("BADCFEHGJILKNMPORQTSVUXWZY"));
    for table in [
        "",
        "YRUHQSLDPXNGOKMIEBFZCWVJA",
        "EKMFLGDQVZNTOWYHXUSPAIBRCJ",
        "ABCDEFGHIJKLMNOPQRSTUVWXYZ",
        "BADCFEHGJILKNMPORQTSVUXWYZ",
        "BCADFEHGJILKNMPORQTSVUXWZY",
        "yruhqsldpxngokmiebfzcwvjat",
        "YRUHQSLDPXNGOKMIEBFZCWVJA7",
    ] {
        assert!(!Reflector::is_valid_wiring(table));
    }
}
