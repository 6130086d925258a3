use daachorse::DoubleArrayAhoCorasick;
use prefix_dictionary::automaton::{is_sound, leading_matches, search};
use prefix_dictionary::counts::check_counts;
use prefix_dictionary::double_array_serde::deserialize;

fn automaton(pairs: &[(&str, u32)]) -> DoubleArrayAhoCorasick<u32> {
    DoubleArrayAhoCorasick::with_values(pairs.to_vec()).unwrap()
}

#[test]
fn search_reports_all_occurrences_in_order() {
    let da = automaton(&[("ab", 1), ("b", 2), ("abab", 3), ("ba", 4)]);
    assert_eq!(
        search(&da, "abab"),
        vec![(0, 2, 1), (1, 2, 2), (1, 3, 4), (0, 4, 3), (2, 4, 1), (3, 4, 2)]
    );
}

#[test]
fn search_reports_the_values_of_one_pattern_in_their_order() {
    let da = automaton(&[("b", 9), ("ab", 5), ("ab", 4), ("b", 8), ("ab", 6)]);
    assert_eq!(
        search(&da, "ab"),
        vec![(0, 2, 5), (0, 2, 4), (0, 2, 6), (1, 2, 9), (1, 2, 8)]
    );
}

#[test]
fn search_works_on_bytes() {
    let da = automaton(&[("京", 1)]);
    assert_eq!(search(&da, "東京"), vec![(3, 6, 1)]);
    assert_eq!(search(&da, ""), vec![]);
}

#[test]
fn leading_matches_start_at_zero() {
    let da = automaton(&[("a", 1), ("aa", 2)]);
    let matches = search(&da, "aaa");
    assert_eq!(matches.len(), 5);
    assert_eq!(leading_matches(&matches), vec![(1, 1), (2, 2)]);
    assert_eq!(leading_matches(&vec![(1, 2, 3)]), vec![]);
}

#[test]
fn built_automaton_is_sound() {
    assert!(is_sound(&automaton(&[("ab", 1), ("b", 2), ("ab", 3), ("東京", 4)])));
}

#[test]
fn empty_pattern_occurs_at_every_end() {
    let da = automaton(&[("", 1), ("a", 2)]);
    assert!(is_sound(&da));
    let matches = search(&da, "ab");
    assert_eq!(matches, vec![(0, 0, 1), (0, 1, 2), (1, 1, 1), (2, 2, 1)]);
    assert_eq!(leading_matches(&matches), vec![(0, 1), (1, 2)]);
}

/// All occurrences of the patterns of an automaton, found one by one.
fn occurrences(da: &DoubleArrayAhoCorasick<u32>, text: &[u8]) -> Vec<(usize, usize, u32)> {
    let pairs: Vec<(Vec<u8>, u32)> = da.iter().collect();
    let mut found: Vec<(usize, usize, u32)> = Vec::new();
    for end in 0..=text.len() {
        for start in 0..=end {
            for (pattern, value) in &pairs {
                if pattern == &text[start..end] {
                    found.push((start, end, *value));
                }
            }
        }
    }
    found
}

#[test]
fn changed_automaton_that_is_sound_can_be_searched() {
    let bytes = automaton(&[("ab", 1), ("b", 2), ("ab", 7)]).serialize();
    let mut refused: usize = 0;
    let mut unsound: usize = 0;
    let mut sound: usize = 0;
    for at in 0..bytes.len() {
        let mut changed = bytes.clone();
        changed[at] ^= 1;
        match DoubleArrayAhoCorasick::<u32>::deserialize(&changed) {
            Ok((da, _)) => {
                if is_sound(&da) {
                    sound += 1;
                    assert_eq!(search(&da, "babcab"), occurrences(&da, b"babcab"));
                } else {
                    unsound += 1;
                }
            }
            Err(_) => refused += 1,
        }
    }
    assert!(refused > 0);
    assert!(unsound > 0);
    assert!(sound > 0);
}

#[test]
fn counts_of_a_serialized_automaton_fit() {
    let bytes = automaton(&[("ab", 1), ("b", 2)]).serialize();
    assert!(check_counts(&bytes));
    for len in 0..bytes.len() {
        assert!(check_counts(&bytes[..len]));
    }
}

#[test]
fn count_beyond_the_address_space_does_not_fit() {
    let wide = usize::BITS == 64;
    assert_eq!(check_counts(&[0xff; 4]), wide);
    assert_eq!(check_counts(&[0, 0, 0, 0, 0xff, 0xff, 0xff, 0xff]), wide);
    let wrapping: [u8; 12] = [0x56, 0x55, 0x55, 0x15, 0, 0, 0, 0, 0, 0, 0, 0];
    assert_eq!(check_counts(&wrapping), wide);
    for bytes in [&[0xff; 4][..], &wrapping[..]] {
        let err = match deserialize(bytes) {
            Ok(_) => panic!("decoded"),
            Err(err) => err,
        };
        assert_eq!(err.message, "InvalidAutomatonError: invalid serialized automaton");
    }
}
