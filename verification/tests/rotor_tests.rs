use enigma_shark::alphabet::{position_of, symbol_of};
use enigma_shark::rotors;
use enigma_shark::{ConfigurationError, Rotor};

const ALPHABET: &str = "ABCDEFGHIJKLMNOPQRSTUVWXYZ";

#[test]
fn test_position_of() {
    assert_eq!(Rotor::position_of('A'), Some(0));
    assert_eq!(Rotor::position_of('Z'), Some(25));
    assert_eq!(Rotor::position_of('M'), Some(12));
    assert_eq!(Rotor::position_of('!'), None);
}

#[test]
fn test_offset_position() {
    let rotor = rotors::type_i('A', 'A');
    assert_eq!(rotor.offset_position(0), 0);
    assert_eq!(rotor.offset_position(25), 25);
}

#[test]
fn test_turn() {
    let mut rotor = rotors::type_i('A', 'A');
    assert_eq!(rotor.turn(), false);
    assert_eq!(rotor.position(), 'B');
}

#[test]
fn test_turn_with_notch() {
    let mut rotor = rotors::type_i('B', 'A');
    assert_eq!(rotor.turn(), false);
    assert_eq!(rotor.position(), 'C');

    let mut before_notch = rotors::type_i('Q', 'A');
    assert_eq!(before_notch.turn(), true);
    assert_eq!(before_notch.position(), 'R');
}

#[test]
fn test_pass_through_forward() {
    let rotor = rotors::type_i('A', 'A');
    assert_eq!(rotor.pass_through_forward('A'), Some('E'));
    assert_eq!(rotor.pass_through_forward('B'), Some('K'));
}

#[test]
fn test_pass_through_reverse() {
    let rotor = rotors::type_i('A', 'A');
    assert_eq!(rotor.pass_through_reverse('E'), Some('A'));
    assert_eq!(rotor.pass_through_reverse('K'), Some('B'));
}

#[test]
fn test_rotor_types() {
    let rotor = rotors::type_ii('A', 'A');
    assert_eq!(rotor.pass_through_forward('A'), Some('A'));
    assert_eq!(rotor.pass_through_forward('B'), Some('J'));
}

#[test]
fn alphabet_lookup_goes_both_ways() {
    for (i, c) in ALPHABET.chars().enumerate() {
        assert_eq!(position_of(c), Some(i));
        assert_eq!(symbol_of(i), c);
    }
    assert_eq!(position_of('a'), None);
    assert_eq!(position_of('@'), None);
    assert_eq!(position_of('['), None);
    assert_eq!(position_of('9'), None);
    assert_eq!(position_of('É'), None);
}

#[test]
fn offset_position_adds_rotation_and_ring() {
    let rotor = rotors::type_i('C', 'D');
    assert_eq!(rotor.offset_position(0), 5);
    assert_eq!(rotor.offset_position(25), 4);
    assert_eq!(rotor.offset_position(26), 5);
    assert_eq!(rotor.offset_position(usize::MAX), (usize::MAX % 26 + 5) % 26);
}

#[test]
fn substitution_follows_rotation_and_ring() {
    let rotor = rotors::type_i('C', 'D');
    assert_eq!(rotor.pass_through_forward('A'), Some('G'));
    assert_eq!(rotor.pass_through_reverse('A'), Some('P'));
    assert_eq!(rotor.pass_through_forward('Z'), Some('L'));
    assert_eq!(rotor.pass_through_reverse('Z'), Some('E'));

    let last = rotors::type_v('Z', 'Z');
    assert_eq!(last.pass_through_forward('A'), Some('C'));
    assert_eq!(last.pass_through_reverse('A'), Some('S'));
}

#[test]
fn substitution_rejects_characters_outside_the_alphabet() {
    let rotor = rotors::type_iii('K', 'B');
    for c in ['a', 'z', '1', ' ', '[', '@', 'Ä'] {
        assert_eq!(rotor.pass_through_forward(c), None);
        assert_eq!(rotor.pass_through_reverse(c), None);
    }
}

#[test]
fn known_vector_of_rotor_one() {
    let rotor = rotors::type_i('A', 'A');
    assert_eq!(rotor.pass_through_forward('A'), Some('E'));
    assert_eq!(rotor.pass_through_forward('B'), Some('K'));
    assert_eq!(rotor.pass_through_reverse('E'), Some('A'));
}

#[test]
fn reverse_undoes_forward_in_every_state() {
    for p in ALPHABET.chars() {
        for r in ALPHABET.chars() {
            let all = [
                rotors::type_i(p, r),
                rotors::type_ii(p, r),
                rotors::type_iii(p, r),
                rotors::type_iv(p, r),
                rotors::type_v(p, r),
            ];
            for rotor in all.iter() {
                for c in ALPHABET.chars() {
                    let out = rotor.pass_through_forward(c).unwrap();
                    assert!(out.is_ascii_uppercase());
                    assert_eq!(rotor.pass_through_reverse(out), Some(c));
                    let back = rotor.pass_through_reverse(c).unwrap();
                    assert!(back.is_ascii_uppercase());
                    assert_eq!(rotor.pass_through_forward(back), Some(c));
                }
            }
        }
    }
}

#[test]
fn turning_wraps_from_z_to_a() {
    let mut rotor = rotors::type_i('Z', 'A');
    assert_eq!(rotor.turn(), false);
    assert_eq!(rotor.position(), 'A');

    let mut fifth = rotors::type_v('Z', 'A');
    assert_eq!(fifth.turn(), true);
    assert_eq!(fifth.position(), 'A');
}

#[test]
fn turning_reports_the_notch_only_on_arrival() {
    let mut rotor = rotors::type_ii('A', 'A');
    let mut reports = Vec::new();
    for _ in 0..52 {
        let hit = rotor.turn();
        assert_eq!(hit, rotor.position() == 'F');
        reports.push(hit);
    }
    assert_eq!(reports.iter().filter(|hit| **hit).count(), 2);
    assert_eq!(rotor.position(), 'A');
    assert_eq!(rotor.ring(), 'A');
    assert_eq!(rotor.notch(), 'F');
}

#[test]
fn turning_leaves_wiring_and_ring_alone() {
    let mut rotor = rotors::type_iv('D', 'G');
    rotor.turn();
    let fresh = rotors::type_iv('E', 'G');
    for c in ALPHABET.chars() {
        assert_eq!(rotor.pass_through_forward(c), fresh.pass_through_forward(c));
        assert_eq!(rotor.pass_through_reverse(c), fresh.pass_through_reverse(c));
    }
    assert_eq!(rotor.ring(), 'G');
    assert_eq!(rotor.notch(), 'K');
    assert_eq!(rotor.model(), "type IV");
}

#[test]
fn presets_carry_their_tables() {
    let expected = [
        ("type I", "EKMFLGDQVZNTOWYHXUSPAIBRCJ", 'R'),
        ("type II", "AJDKSIRUXBLHWTMCQGZNPYFVOE", 'F'),
        ("type III", "BDFHJLCPRTXVZNYEIWGAKMUSQO", 'W'),
        ("type IV", "ESOVPZJAYQUIRHXLNFTGKDCMWB", 'K'),
        ("type V", "VZBRGITYUPSDNHLXAWMJQOFECK", 'A'),
    ];
    let built = [
        rotors::type_i('A', 'A'),
        rotors::type_ii('A', 'A'),
        rotors::type_iii('A', 'A'),
        rotors::type_iv('A', 'A'),
        rotors::type_v('A', 'A'),
    ];
    for (rotor, (model, wiring, notch)) in built.iter().zip(expected.iter()) {
        assert_eq!(rotor.model(), *model);
        assert_eq!(rotor.notch(), *notch);
        let out: String = ALPHABET
            .chars()
            .map(|c| rotor.pass_through_forward(c).unwrap())
            .collect();
        assert_eq!(out, *wiring);
    }
}

#[test]
fn explicit_wiring_builds_a_rotor() {
    let rotor = Rotor::new("BCDEFGHIJKLMNOPQRSTUVWXYZA", 'A', 'C', "shift", 'B');
    assert_eq!(rotor.model(), "shift");
    assert_eq!(rotor.position(), 'A');
    assert_eq!(rotor.ring(), 'B');
    assert_eq!(rotor.notch(), 'C');
    assert_eq!(rotor.pass_through_forward('A'), Some('C'));
    assert_eq!(rotor.pass_through_reverse('C'), Some('A'));
}

#[test]
fn rotors_are_found_by_either_name() {
    let names = [
        ("type_i", "i", "type I"),
        ("type_ii", "ii", "type II"),
        ("type_iii", "iii", "type III"),
        ("type_iv", "iv", "type IV"),
        ("type_v", "v", "type V"),
    ];
    for (long, short, model) in names.iter() {
        let a = rotors::from_name(long, 'M', 'C').unwrap();
        let b = rotors::from_name(short, 'M', 'C').unwrap();
        assert_eq!(a.model(), *model);
        assert_eq!(b.model(), *model);
        assert_eq!(a.position(), 'M');
        assert_eq!(b.ring(), 'C');
        assert_eq!(a.pass_through_forward('Q'), b.pass_through_forward('Q'));
    }
}

#[test]
fn unknown_rotor_name_is_an_error() {
    assert_eq!(
        rotors::from_name("invalid_type", 'A', 'A').err(),
        Some(ConfigurationError::UnknownRotor)
    );
    assert_eq!(
        rotors::from_name("TYPE_I", 'A', 'A').err(),
        Some(ConfigurationError::UnknownRotor)
    );
    assert_eq!(
        rotors::from_name("", 'a', 'A').err(),
        Some(ConfigurationError::UnknownRotor)
    );
}

#[test]
fn rotor_setting_outside_the_alphabet_is_an_error() {
    assert_eq!(
        rotors::from_name("type_i", 'a', 'A').err(),
        Some(ConfigurationError::InvalidRotorSetting)
    );
    assert_eq!(
        rotors::from_name("v", 'A', '1').err(),
        Some(ConfigurationError::InvalidRotorSetting)
    );
}

#[test]
fn wirings_are_told_from_other_tables() {
    for wiring in [
        "EKMFLGDQVZNTOWYHXUSPAIBRCJ",
        "AJDKSIRUXBLHWTMCQGZNPYFVOE",
        "BDFHJLCPRTXVZNYEIWGAKMUSQO",
        "ESOVPZJAYQUIRHXLNFTGKDCMWB",
        "VZBRGITYUPSDNHLXAWMJQOFECK",
        "ABCDEFGHIJKLMNOPQRSTUVWXYZ",
    ] {
        assert!(Rotor::is_valid_wiring(wiring));
    }
    for table in [
        "",
        "EKMFLGDQVZNTOWYHXUSPAIBRC",
        "EKMFLGDQVZNTOWYHXUSPAIBRCJA",
        "EKMFLGDQVZNTOWYHXUSPAIBRCE",
        "EEMFLGDQVZNTOWYHXUSPAIBRCJ",
        "ekmflgdqvzntowyhxuspaibrcj",
        "EKMFLGDQVZNTOWYHXUSPAIBRC1",
        "ÉKMFLGDQVZNTOWYHXUSPAIBRCJ",
    ] {
        assert!(!Rotor::is_valid_wiring(table));
    }
}
