use daachorse::{DoubleArrayAhoCorasick, DoubleArrayAhoCorasickBuilder, MatchKind};
use prefix_dictionary::{Data, LinderaErrorKind, LookupError, PrefixDictionary, WordEntry};

static EMBEDDED: [u8; 10] = [9, 0, 0, 0, 1, 0, 2, 0, 3, 0];

fn stored(ids: &[u32]) -> Vec<u8> {
    let mut bytes: Vec<u8> = Vec::new();
    for id in ids {
        bytes.extend_from_slice(&id.to_le_bytes());
        bytes.extend_from_slice(&(-7i16).to_le_bytes());
        bytes.extend_from_slice(&1u16.to_le_bytes());
        bytes.extend_from_slice(&2u16.to_le_bytes());
    }
    bytes
}

fn automaton(pairs: &[(&str, u32)]) -> Vec<u8> {
    let da: DoubleArrayAhoCorasick<u32> =
        DoubleArrayAhoCorasick::with_values(pairs.to_vec()).unwrap();
    da.serialize()
}

fn system(pairs: &[(&str, u32)], vals: Vec<u8>) -> PrefixDictionary {
    let no_words: Vec<u8> = Vec::new();
    PrefixDictionary::load(automaton(pairs), vals, no_words.clone(), no_words, true).unwrap()
}

/// Two entries for "a", one each for "ab", "東" and "東京", and one for "b" that is that of "ab".
fn sample() -> PrefixDictionary {
    system(
        &[
            ("a", 2),
            ("ab", (2 << 8) | 1),
            ("東", (3 << 8) | 1),
            ("東京", (4 << 8) | 1),
            ("b", (2 << 8) | 1),
        ],
        stored(&[10, 11, 12, 13, 14]),
    )
}

fn found(entries: &[(usize, WordEntry)]) -> Vec<(usize, u32)> {
    entries.iter().map(|(end, e)| (*end, e.word_id.id)).collect()
}

fn ids(entries: &[WordEntry]) -> Vec<u32> {
    entries.iter().map(|e| e.word_id.id).collect()
}

fn common(dict: &PrefixDictionary, text: &str) -> Vec<(usize, u32)> {
    let chars: Vec<char> = text.chars().collect();
    dict.common_prefix_iterator(&chars)
        .iter()
        .map(|m| (m.end_char, m.word_idx.word_id))
        .collect()
}

#[test]
fn prefix_finds_each_surface_the_text_starts_with() {
    let dict = sample();
    assert_eq!(found(&dict.prefix("abc").collect()), vec![(1, 10), (1, 11), (2, 12)]);
    assert_eq!(found(&dict.prefix("ab").collect()), vec![(1, 10), (1, 11), (2, 12)]);
    assert_eq!(found(&dict.prefix("aab").collect()), vec![(1, 10), (1, 11)]);
    assert_eq!(found(&dict.prefix("cab").collect()), vec![]);
    assert_eq!(found(&dict.prefix("").collect()), vec![]);
}

#[test]
fn prefix_ends_are_byte_offsets() {
    assert_eq!(found(&sample().prefix("東京都").collect()), vec![(3, 13), (6, 14)]);
}

#[test]
fn prefix_gives_whole_entries() {
    let dict = sample();
    let (end, entry) = dict.prefix("b").collect()[0];
    assert_eq!(end, 1);
    assert!(entry.word_id.is_system);
    assert_eq!((entry.word_cost, entry.left_id, entry.right_id), (-7, 1, 2));
}

#[test]
fn find_surface_finds_the_whole_text_only() {
    let dict = sample();
    assert_eq!(ids(&dict.find_surface("a")), vec![10, 11]);
    assert_eq!(ids(&dict.find_surface("ab")), vec![12]);
    assert_eq!(ids(&dict.find_surface("abc")), Vec::<u32>::new());
    assert_eq!(ids(&dict.find_surface("bab")), Vec::<u32>::new());
    assert_eq!(ids(&dict.find_surface_iter("東京").collect()), vec![14]);
}

#[test]
fn surface_entries_are_those_of_the_whole_prefix() {
    let dict = sample();
    for surface in ["a", "ab", "b", "東", "東京", "東京都", ""] {
        let whole: Vec<u32> = dict
            .prefix(surface)
            .collect()
            .iter()
            .filter(|(end, _)| *end == surface.len())
            .map(|(_, e)| e.word_id.id)
            .collect();
        assert_eq!(ids(&dict.find_surface(surface)), whole, "{}", surface);
    }
}

#[test]
fn prefix_search_joins_the_surfaces_of_all_prefixes() {
    let dict = sample();
    let text = "abab";
    let mut joined: Vec<(usize, u32)> = Vec::new();
    for end in 0..=text.len() {
        for entry in dict.find_surface(&text[..end]) {
            joined.push((end, entry.word_id.id));
        }
    }
    assert_eq!(found(&dict.prefix(text).collect()), joined);
}

#[test]
fn one_surface_can_have_several_values() {
    let dict = system(
        &[("x", (2 << 8) | 1), ("xy", 1), ("x", 1), ("x", (1 << 8) | 1)],
        stored(&[20, 21, 22]),
    );
    assert_eq!(ids(&dict.find_surface("x")), vec![22, 20, 21]);
    assert_eq!(found(&dict.prefix("xyz").collect()), vec![(1, 22), (1, 20), (1, 21), (2, 20)]);
}

#[test]
fn count_of_zero_stands_for_no_entries() {
    let dict = system(&[("a", 0), ("ab", 1 << 8)], stored(&[1]));
    assert_eq!(found(&dict.prefix("ab").collect()), vec![]);
}

#[test]
fn system_surface_can_have_255_entries() {
    let many: Vec<u32> = (0..255).collect();
    let dict = system(&[("a", 255)], stored(&many));
    assert_eq!(ids(&dict.find_surface("a")), many);
}

#[test]
fn surface_entries_are_read_when_their_turn_comes() {
    let dict = system(&[("a", 2)], stored(&[40]));
    assert_eq!(dict.find_surface_iter("a").next().map(|e| e.word_id.id), Some(40));
    let mut entries = dict.find_surface_iter("a");
    assert_eq!(entries.try_next().unwrap().map(|e| e.word_id.id), Some(40));
    assert_eq!(entries.try_next(), Err(LookupError::OutOfRange));
    assert_eq!(entries.try_next(), Err(LookupError::OutOfRange));
    assert_eq!(dict.find_surface_iter("a").try_collect(), Err(LookupError::OutOfRange));
    assert_eq!(dict.find_surface_iter("b").next(), None);
}

#[test]
fn prefix_entries_are_read_when_their_turn_comes() {
    let dict = system(&[("a", 1), ("ab", (1 << 8) | 1), ("abc", 1)], stored(&[40]));
    let mut entries = dict.prefix("abc");
    assert_eq!(entries.next().map(|(end, e)| (end, e.word_id.id)), Some((1, 40)));
    assert_eq!(entries.try_next(), Err(LookupError::OutOfRange));
    assert_eq!(dict.prefix("abc").try_collect(), Err(LookupError::OutOfRange));
    let mut entries = dict.prefix("a");
    assert!(entries.next().is_some());
    assert_eq!(entries.next(), None);
    assert_eq!(entries.next(), None);
}

#[test]
fn empty_run_behind_the_entries_cannot_be_read() {
    let dict = system(&[("a", 1 << 8), ("ab", 2 << 8)], stored(&[40]));
    assert_eq!(found(&dict.prefix("a").collect()), vec![]);
    assert_eq!(dict.prefix("ab").try_next(), Err(LookupError::OutOfRange));
}

#[test]
fn longer_text_appends_longer_matches() {
    let dict = sample();
    let shorter = dict.prefix("a").collect();
    let longer = dict.prefix("abc").collect();
    assert_eq!(longer[..shorter.len()], shorter[..]);
    assert!(longer[shorter.len()..].iter().all(|(end, _)| *end > 1));
    assert_eq!(common(&dict, "東"), vec![(3, 13)]);
    assert_eq!(common(&dict, "東京"), vec![(3, 13), (6, 14)]);
}

#[test]
fn user_dictionary_packs_counts_in_five_bits() {
    let no_words: Vec<u8> = Vec::new();
    let dict = PrefixDictionary::load(
        automaton(&[("a", (1 << 5) | 2)]),
        stored(&[30, 31, 32]),
        no_words.clone(),
        no_words,
        false,
    )
    .unwrap();
    assert_eq!(dict.decode_val((1 << 5) | 2), (1, 2));
    let entries = dict.find_surface("a");
    assert_eq!(ids(&entries), vec![31, 32]);
    assert!(!entries[0].word_id.is_system);
}

#[test]
fn common_prefix_search_reports_words_and_ends() {
    let dict = sample();
    assert_eq!(common(&dict, "abc"), vec![(1, 10), (1, 11), (2, 12)]);
    assert_eq!(common(&dict, "東京"), vec![(3, 13), (6, 14)]);
    assert_eq!(common(&dict, ""), vec![]);
    assert_eq!(common(&dict, "abc"), found(&dict.prefix("abc").collect()));
}

#[test]
fn common_prefix_search_leaves_out_entries_that_are_not_stored() {
    let mut vals = stored(&[10, 11, 12]);
    vals.truncate(29);
    let dict = system(&[("a", 3), ("ab", (3 << 8) | 1), ("abc", (1 << 8) | 1)], vals);
    assert_eq!(common(&dict, "abcd"), vec![(1, 10), (1, 11), (3, 11)]);
}

#[test]
fn common_prefix_search_without_entries_finds_nothing() {
    let dict = system(&[("a", 1)], Vec::new());
    assert_eq!(common(&dict, "a"), vec![]);
    assert!(matches!(dict.try_common_prefix_iterator(&['a']), Ok(m) if m.is_empty()));
}

#[test]
fn match_can_be_copied() {
    let first = sample().common_prefix_iterator(&['b'])[0].clone();
    assert_eq!((first.word_idx.word_id, first.end_char), (12, 1));
}

#[test]
fn checked_lookups_agree_with_the_unchecked_ones() {
    let dict = sample();
    assert!(dict.has_sound_automaton());
    assert_eq!(dict.try_prefix("abc").unwrap(), dict.prefix("abc").collect());
    assert_eq!(dict.try_find_surface("ab").unwrap(), dict.find_surface("ab"));
    assert_eq!(dict.try_common_prefix_iterator(&['a', 'b']).unwrap().len(), 3);
}

#[test]
fn checked_lookups_refuse_entries_that_are_not_stored() {
    let dict = system(&[("a", 2), ("ab", 1)], stored(&[1]));
    assert_eq!(dict.try_prefix("ab"), Err(LookupError::OutOfRange));
    assert_eq!(dict.try_find_surface("a"), Err(LookupError::OutOfRange));
    assert_eq!(ids(&dict.try_find_surface("ab").unwrap()), vec![1]);
}

#[test]
fn checked_lookups_refuse_an_automaton_of_another_match_kind() {
    let da: DoubleArrayAhoCorasick<u32> = DoubleArrayAhoCorasickBuilder::new()
        .match_kind(MatchKind::LeftmostLongest)
        .build_with_values(vec![("a", 1u32)])
        .unwrap();
    let no_words: Vec<u8> = Vec::new();
    let dict =
        PrefixDictionary::load(da.serialize(), stored(&[1]), no_words.clone(), no_words, true)
            .unwrap();
    assert!(!dict.has_sound_automaton());
    assert_eq!(dict.try_prefix("a"), Err(LookupError::Unsound));
    assert_eq!(dict.try_find_surface("a"), Err(LookupError::Unsound));
    assert!(matches!(
        dict.try_common_prefix_iterator(&['a']),
        Err(LookupError::Unsound)
    ));
}

#[test]
fn load_refuses_bytes_that_are_no_automaton() {
    let none: Vec<u8> = Vec::new();
    let mut cut = automaton(&[("a", 1)]);
    cut.truncate(100);
    for bytes in [none.clone(), vec![1u8, 2, 3], cut] {
        match PrefixDictionary::load(bytes, none.clone(), none.clone(), none.clone(), true) {
            Ok(_) => panic!("loaded"),
            Err(err) => {
                assert_eq!(err.kind, LinderaErrorKind::Deserialize);
                assert_eq!(err.message, "InvalidAutomatonError: invalid serialized automaton");
            }
        }
    }
}

/// Bytes that must not be asked for.
struct Untouched;

impl From<Untouched> for Data {
    fn from(_: Untouched) -> Data {
        panic!("converted")
    }
}

#[test]
fn load_leaves_the_other_data_alone_where_the_automaton_does_not_decode() {
    let bytes: Vec<u8> = vec![1, 2, 3];
    match PrefixDictionary::load(bytes, Untouched, Untouched, Untouched, true) {
        Ok(_) => panic!("loaded"),
        Err(err) => assert_eq!(err.kind, LinderaErrorKind::Deserialize),
    }
}

#[test]
fn load_ignores_the_bytes_behind_the_automaton() {
    let mut bytes = automaton(&[("a", 1)]);
    bytes.extend_from_slice(&[1, 2, 3]);
    let no_words: Vec<u8> = Vec::new();
    let dict =
        PrefixDictionary::load(bytes, stored(&[5]), no_words.clone(), no_words, true).unwrap();
    assert_eq!(ids(&dict.find_surface("a")), vec![5]);
}

#[test]
fn load_takes_owned_and_embedded_bytes() {
    let no_words: Vec<u8> = Vec::new();
    let embedded: &'static [u8] = &EMBEDDED;
    let dict = PrefixDictionary::load(
        Data::from(automaton(&[("a", 1)])),
        embedded,
        no_words,
        Data::from(embedded),
        true,
    )
    .unwrap();
    assert!(matches!(dict.vals_data, Data::Static(_)));
    assert_eq!(dict.vals_data.len(), 10);
    assert!(dict.words_idx_data.is_empty());
    assert_eq!(dict.words_data.as_slice(), embedded);
    assert_eq!(ids(&dict.find_surface("a")), vec![9]);
}

#[test]
fn loading_from_blocks_is_loading() {
    let dict = PrefixDictionary::from_data(
        Data::from(automaton(&[("a", 1)])),
        Data::from(stored(&[5])),
        Data::from(vec![0u8, 0, 0, 0]),
        Data::from(vec![2u8, 0, 0, 0, b'J', b'X']),
        true,
    )
    .unwrap();
    assert_eq!(ids(&dict.find_surface("a")), vec![5]);
    assert_eq!(dict.space_penalty_table, vec![6000]);
    let bad = Data::from(vec![7u8; 5]);
    let none = Data::from(Vec::new());
    assert!(PrefixDictionary::from_data(bad, none.clone(), none.clone(), none, true).is_err());
}

#[test]
fn clone_finds_the_same() {
    let dict = sample();
    let copy = dict.clone();
    assert_eq!(copy.prefix("abc").collect(), dict.prefix("abc").collect());
    assert_eq!(copy.vals_data.as_slice(), dict.vals_data.as_slice());
    assert_eq!(copy.da.serialize(), dict.da.serialize());
    assert_eq!(copy.is_system, dict.is_system);
}
