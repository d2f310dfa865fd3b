use enigma_shark::plugboards;
use enigma_shark::{ConfigurationError, Plugboard};

#[test]
fn test_pass_through_with_known_mapping() {
    let plugboard = Plugboard::new(vec![('A', 'K'), ('Z', 'C')]).unwrap();
    assert_eq!(plugboard.pass_through('A'), 'K');
    assert_eq!(plugboard.pass_through('K'), 'A');
    assert_eq!(plugboard.pass_through('Z'), 'C');
}

#[test]
fn test_pass_through_with_unknown_character() {
    let plugboard = Plugboard::new(vec![('A', 'K'), ('Z', 'C')]).unwrap();
    assert_eq!(plugboard.pass_through('M'), 'M');
}

#[test]
fn test_random_mapping_generation() {
    let plugboard = plugboards::generate_random_mappings().unwrap();
    assert!(plugboard.pairs().len() <= 13);
    assert!(plugboard.pairs().len() >= 1);
}

#[test]
fn test_invalid_mappings() {
    // Duplicate mappings
    let plugboard = Plugboard::new(vec![('A', 'K'), ('A', 'L')]);
    assert!(plugboard.is_err());

    // Out of range characters
    let plugboard = Plugboard::new(vec![('A', '1')]);
    assert!(plugboard.is_err());

    // Characters not in A-Z range
    let plugboard = Plugboard::new(vec![('A', 'a')]);
    assert!(plugboard.is_err());
}

#[test]
fn plugboard_validation_scenario() {
    assert_eq!(
        Plugboard::new(vec![('A', 'K'), ('A', 'L')]).err(),
        Some(ConfigurationError::InvalidPlugboard)
    );
    assert_eq!(
        Plugboard::new(vec![('A', '1')]).err(),
        Some(ConfigurationError::InvalidPlugboard)
    );
    let plugboard = Plugboard::new(vec![('A', 'K'), ('Z', 'C')]).unwrap();
    assert_eq!(plugboard.pass_through('A'), 'K');
    assert_eq!(plugboard.pass_through('M'), 'M');
}

#[test]
fn a_symbol_in_two_pairs_is_rejected_wherever_it_stands() {
    assert!(Plugboard::new(vec![('A', 'K'), ('L', 'A')]).is_err());
    assert!(Plugboard::new(vec![('A', 'K'), ('K', 'L')]).is_err());
    assert!(Plugboard::new(vec![('A', 'K'), ('L', 'K')]).is_err());
    assert!(Plugboard::new(vec![('A', 'K'), ('B', 'C'), ('D', 'E'), ('F', 'B')]).is_err());
    assert!(Plugboard::new(vec![('A', 'K'), ('K', 'A')]).is_err());
    assert!(Plugboard::new(vec![('A', 'K'), ('A', 'K')]).is_err());
    assert!(Plugboard::new(vec![('[', 'K')]).is_err());
    assert!(Plugboard::new(vec![('@', 'K')]).is_err());
    assert!(Plugboard::new(vec![('B', 'C'), ('é', 'K')]).is_err());
}

#[test]
fn validity_is_decided_without_building() {
    assert!(Plugboard::is_valid_mapping(&[]));
    assert!(Plugboard::is_valid_mapping(&[('A', 'K'), ('Z', 'C')]));
    assert!(Plugboard::is_valid_mapping(&[('Q', 'Q')]));
    assert!(!Plugboard::is_valid_mapping(&[('Q', 'Q'), ('Q', 'R')]));
    assert!(!Plugboard::is_valid_mapping(&[('A', 'K'), ('A', 'L')]));
    assert!(!Plugboard::is_valid_mapping(&[('A', 'a')]));
}

#[test]
fn empty_plugboard_changes_nothing() {
    let plugboard = Plugboard::new(vec![]).unwrap();
    assert_eq!(plugboard.pairs().len(), 0);
    for c in "ABCDEFGHIJKLMNOPQRSTUVWXYZ".chars() {
        assert_eq!(plugboard.pass_through(c), c);
    }
    assert_eq!(plugboard.pass_through('9'), '9');
}

#[test]
fn full_plugboard_swaps_every_symbol() {
    let pairs: Vec<(char, char)> = "ABCDEFGHIJKLM".chars().zip("NOPQRSTUVWXYZ".chars()).collect();
    let plugboard = Plugboard::new(pairs.clone()).unwrap();
    assert_eq!(plugboard.pairs(), &pairs);
    for c in "ABCDEFGHIJKLMNOPQRSTUVWXYZ".chars() {
        let once = plugboard.pass_through(c);
        assert_ne!(once, c);
        assert_eq!(plugboard.pass_through(once), c);
    }
    assert_eq!(plugboard.pass_through('A'), 'N');
    assert_eq!(plugboard.pass_through('Z'), 'M');
}

#[test]
fn characters_outside_the_alphabet_pass_unchanged() {
    let plugboard = Plugboard::new(vec![('A', 'K')]).unwrap();
    for c in ['a', 'k', '1', ' ', 'Ω'] {
        assert_eq!(plugboard.pass_through(c), c);
    }
}

#[test]
fn pairs_are_taken_from_neighbours() {
    let chars: Vec<char> = "QWERTZ".chars().collect();
    assert_eq!(plugboards::mappings_from(&chars, 0), vec![]);
    assert_eq!(plugboards::mappings_from(&chars, 2), vec![('Q', 'W'), ('E', 'R')]);
    assert_eq!(
        plugboards::mappings_from(&chars, 3),
        vec![('Q', 'W'), ('E', 'R'), ('T', 'Z')]
    );
    assert_eq!(
        plugboards::mappings_from(&chars, 10),
        vec![('Q', 'W'), ('E', 'R'), ('T', 'Z')]
    );
    let odd: Vec<char> = "QWERT".chars().collect();
    assert_eq!(plugboards::mappings_from(&odd, 5), vec![('Q', 'W'), ('E', 'R')]);
    assert_eq!(plugboards::mappings_from(&Vec::new(), 4), vec![]);
}

#[test]
fn the_alphabet_is_listed_in_order() {
    let chars: String = plugboards::alphabet_chars().into_iter().collect();
    assert_eq!(chars, "ABCDEFGHIJKLMNOPQRSTUVWXYZ");
}

#[test]
fn random_plugboards_are_valid() {
    for _ in 0..200 {
        let plugboard = plugboards::generate_random_mappings().unwrap();
        let pairs = plugboard.pairs();
        assert!(pairs.len() >= 1 && pairs.len() <= 13);
        assert!(Plugboard::is_valid_mapping(pairs));
        let mut seen = Vec::new();
        for (a, b) in pairs.iter() {
            assert!(a.is_ascii_uppercase() && b.is_ascii_uppercase());
            assert_ne!(a, b);
            assert!(!seen.contains(a) && !seen.contains(b));
            seen.push(*a);
            seen.push(*b);
        }
    }
}

#[test]
fn random_plugboards_are_shuffled() {
    let mut moved = false;
    for _ in 0..50 {
        let plugboard = plugboards::generate_random_mappings().unwrap();
        let plain = plugboards::mappings_from(&plugboards::alphabet_chars(), plugboard.pairs().len());
        if plugboard.pairs() != &plain {
            moved = true;
        }
    }
    assert!(moved);
}

#[test]
fn random_plugboards_vary_in_size() {
    let mut sizes = Vec::new();
    for _ in 0..300 {
        let size = plugboards::generate_random_mappings().unwrap().pairs().len();
        if !sizes.contains(&size) {
            sizes.push(size);
        }
    }
    assert!(sizes.len() > 1);
}

#[test]
fn more_than_13_pairs_are_rejected() {
    let self_pairs: Vec<(char, char)> = "ABCDEFGHIJKLMNOPQRSTUVWXYZ".chars().map(|c| (c, c)).collect();
    assert_eq!(
        Plugboard::new(self_pairs[..14].to_vec()).err(),
        Some(ConfigurationError::InvalidPlugboard)
    );
    assert_eq!(
        Plugboard::new(self_pairs.clone()).err(),
        Some(ConfigurationError::InvalidPlugboard)
    );
    assert!(!Plugboard::is_valid_mapping(&self_pairs[..14]));
    assert!(!Plugboard::is_valid_mapping(&self_pairs));

    let mut mixed: Vec<(char, char)> = "ABCDEFGHIJKL".chars().zip("NOPQRSTUVWXY".chars()).collect();
    mixed.push(('M', 'M'));
    assert_eq!(mixed.len(), 13);
    assert!(Plugboard::is_valid_mapping(&mixed));
    mixed.push(('Z', 'Z'));
    assert_eq!(mixed.len(), 14);
    assert!(!Plugboard::is_valid_mapping(&mixed));
    assert!(Plugboard::new(mixed).is_err());
}

#[test]
fn exactly_13_pairs_are_accepted() {
    let self_pairs: Vec<(char, char)> = "ABCDEFGHIJKLM".chars().map(|c| (c, c)).collect();
    assert!(Plugboard::is_valid_mapping(&self_pairs));
    let plugboard = Plugboard::new(self_pairs).unwrap();
    assert_eq!(plugboard.pairs().len(), 13);
    assert_eq!(plugboard.pass_through('A'), 'A');
    assert_eq!(plugboard.pass_through('Z'), 'Z');
}

#[test]
fn the_generator_can_be_passed_in() {
    let mut rng = rand::thread_rng();
    for _ in 0..20 {
        let plugboard = plugboards::generate_random_mappings_with(&mut rng).unwrap();
        let pairs = plugboard.pairs();
        assert!(pairs.len() >= 1 && pairs.len() <= 13);
        assert!(Plugboard::is_valid_mapping(pairs));
        assert!(pairs.iter().all(|(a, b)| a != b));
    }
}
