use daachorse::{DoubleArrayAhoCorasick, DoubleArrayAhoCorasickBuilder, MatchKind};
use prefix_dictionary::automaton::search;
use prefix_dictionary::double_array_serde::{deserialize, serialize};
use prefix_dictionary::{
    ArchivedPrefixDictionary, DoubleArrayArchiver, LinderaErrorKind, LookupError, PrefixDictionary,
    WordEntry,
};

fn stored(ids: &[u32]) -> Vec<u8> {
    let mut bytes: Vec<u8> = Vec::new();
    for id in ids {
        bytes.extend_from_slice(&id.to_le_bytes());
        bytes.extend_from_slice(&[5, 0, 1, 0, 2, 0]);
    }
    bytes
}

fn automaton(pairs: &[(&str, u32)]) -> DoubleArrayAhoCorasick<u32> {
    DoubleArrayAhoCorasick::with_values(pairs.to_vec()).unwrap()
}

fn found(entries: &[(usize, WordEntry)]) -> Vec<(usize, u32)> {
    entries.iter().map(|(end, e)| (*end, e.word_id.id)).collect()
}

fn ids(entries: &[WordEntry]) -> Vec<u32> {
    entries.iter().map(|e| e.word_id.id).collect()
}

#[test]
fn serialized_automaton_decodes_to_the_same() {
    let da = automaton(&[("ab", 1), ("a", 2), ("ab", 3)]);
    let bytes = serialize(&da);
    assert_eq!(bytes, da.serialize());
    let decoded = deserialize(&bytes).unwrap();
    let mut before: Vec<(Vec<u8>, u32)> = da.iter().collect();
    let mut after: Vec<(Vec<u8>, u32)> = decoded.iter().collect();
    before.sort();
    after.sort();
    assert_eq!(before, after);
    assert_eq!(
        after,
        vec![(b"a".to_vec(), 2), (b"ab".to_vec(), 1), (b"ab".to_vec(), 3)]
    );
}

#[test]
fn archiver_keeps_the_automaton() {
    let da = automaton(&[("ab", 1), ("b", 7)]);
    let bytes = DoubleArrayArchiver::serialize_with(&da);
    assert_eq!(bytes, serialize(&da));
    let decoded = DoubleArrayArchiver::deserialize_with(&bytes).unwrap();
    assert_eq!(serialize(&decoded), bytes);
    assert_eq!(search(&decoded, "xab"), search(&da, "xab"));
    assert_eq!(serialize(&deserialize(&bytes).unwrap()), bytes);
}

#[test]
fn archiver_refuses_bytes_that_are_no_automaton() {
    for bytes in [Vec::new(), vec![0u8; 7]] {
        let err = match DoubleArrayArchiver::deserialize_with(&bytes) {
            Ok(_) => panic!("decoded"),
            Err(err) => err,
        };
        assert_eq!(err.kind, LinderaErrorKind::Deserialize);
        assert_eq!(err.message, "InvalidAutomatonError: invalid serialized automaton");
    }
}

#[test]
fn archive_finds_what_the_dictionary_finds() {
    let da = automaton(&[("a", 2), ("ab", (2 << 8) | 1), ("東", (1 << 8) | 2)]);
    let bytes = serialize(&da);
    let vals = stored(&[10, 11, 12]);
    let no_words: Vec<u8> = Vec::new();
    let dict = PrefixDictionary::load(bytes.clone(), vals.clone(), no_words.clone(), no_words, true)
        .unwrap();
    let archive = ArchivedPrefixDictionary { da: &bytes, vals_data: &vals, is_system: true };
    assert_eq!(archive.decode_val(0x0203), dict.decode_val(0x0203));
    for text in ["abc", "ab", "a", "b", "", "東京"] {
        assert_eq!(archive.prefix(text).unwrap().collect(), dict.prefix(text).collect(), "{}", text);
        assert_eq!(archive.try_prefix(text).unwrap(), dict.prefix(text).collect(), "{}", text);
        assert_eq!(archive.find_surface(text).unwrap(), dict.find_surface(text), "{}", text);
        assert_eq!(archive.try_find_surface(text).unwrap(), dict.find_surface(text), "{}", text);
    }
    assert_eq!(found(&archive.prefix("abc").unwrap().collect()), vec![(1, 10), (1, 11), (2, 12)]);
    assert_eq!(ids(&archive.find_surface("東").unwrap()), vec![11, 12]);
}

#[test]
fn archive_of_a_user_dictionary_packs_counts_in_five_bits() {
    let bytes = serialize(&automaton(&[("a", (1 << 5) | 1)]));
    let vals = stored(&[10, 11]);
    let archive = ArchivedPrefixDictionary { da: &bytes, vals_data: &vals, is_system: false };
    assert_eq!(archive.decode_val(33), (1, 1));
    let entries = archive.find_surface("a").unwrap();
    assert_eq!(ids(&entries), vec![11]);
    assert!(!entries[0].word_id.is_system);
}

#[test]
fn archive_skips_values_that_start_behind_the_entries() {
    let bytes = serialize(&automaton(&[("a", (1 << 8) | 3), ("ab", 1), ("abc", 9 << 8)]));
    let vals = stored(&[10]);
    let archive = ArchivedPrefixDictionary { da: &bytes, vals_data: &vals, is_system: true };
    assert_eq!(found(&archive.prefix("abc").unwrap().collect()), vec![(2, 10)]);
    assert!(archive.find_surface("a").unwrap().is_empty());
    assert_eq!(found(&archive.try_prefix("abc").unwrap()), vec![(2, 10)]);
}

#[test]
fn archive_reads_the_entries_of_a_surface_when_their_turn_comes() {
    let bytes = serialize(&automaton(&[("a", 1), ("ab", 2)]));
    let vals = stored(&[10]);
    let archive = ArchivedPrefixDictionary { da: &bytes, vals_data: &vals, is_system: true };
    let mut entries = archive.prefix("abc").unwrap();
    assert_eq!(entries.next().map(|(end, e)| (end, e.word_id.id)), Some((1, 10)));
    assert_eq!(entries.try_next(), Err(LookupError::OutOfRange));
    assert!(archive.prefix("x").unwrap().next().is_none());
}

#[test]
fn archived_surface_entries_are_those_of_the_whole_prefix() {
    let bytes = serialize(&automaton(&[("a", 1), ("ab", (1 << 8) | 1), ("b", 9 << 8)]));
    let vals = stored(&[10, 11]);
    let archive = ArchivedPrefixDictionary { da: &bytes, vals_data: &vals, is_system: true };
    for surface in ["a", "ab", "b", "abc", ""] {
        let mut whole = archive.prefix(surface).unwrap().collect();
        whole.retain(|(end, _)| *end == surface.len());
        let whole: Vec<u32> = whole.iter().map(|(_, e)| e.word_id.id).collect();
        assert_eq!(ids(&archive.find_surface(surface).unwrap()), whole, "{}", surface);
    }
}

#[test]
fn archive_check_tells_what_is_wrong() {
    let bytes = serialize(&automaton(&[("a", 1)]));
    let good = ArchivedPrefixDictionary { da: &bytes, vals_data: &[], is_system: true };
    assert_eq!(good.check_automaton(), Ok(()));
    let bad = ArchivedPrefixDictionary { da: &bytes[..9], vals_data: &[], is_system: true };
    assert_eq!(bad.check_automaton(), Err(LookupError::Undecodable));
}

#[test]
fn archive_lookup_fails_where_the_automaton_does_not_decode() {
    let archive = ArchivedPrefixDictionary { da: &[1, 2, 3], vals_data: &[], is_system: true };
    let err = archive.prefix("a").unwrap_err();
    assert_eq!(err.kind, LinderaErrorKind::Deserialize);
    assert_eq!(err.message, "InvalidAutomatonError: invalid serialized automaton");
    let err = archive.find_surface("a").unwrap_err();
    assert_eq!(err.kind, LinderaErrorKind::Deserialize);
    assert_eq!(archive.try_prefix("a"), Err(LookupError::Undecodable));
    assert_eq!(archive.try_find_surface("a"), Err(LookupError::Undecodable));
}

#[test]
fn archive_lookup_refuses_entries_that_are_cut_off() {
    let bytes = serialize(&automaton(&[("a", 2), ("b", 1)]));
    let vals = stored(&[10]);
    let archive = ArchivedPrefixDictionary { da: &bytes, vals_data: &vals, is_system: true };
    assert_eq!(archive.try_prefix("a"), Err(LookupError::OutOfRange));
    assert_eq!(archive.try_find_surface("a"), Err(LookupError::OutOfRange));
    assert_eq!(ids(&archive.try_find_surface("b").unwrap()), vec![10]);
}

#[test]
fn archive_lookup_refuses_an_automaton_of_another_match_kind() {
    let da: DoubleArrayAhoCorasick<u32> = DoubleArrayAhoCorasickBuilder::new()
        .match_kind(MatchKind::LeftmostFirst)
        .build_with_values(vec![("a", 1u32)])
        .unwrap();
    let bytes = serialize(&da);
    let archive = ArchivedPrefixDictionary { da: &bytes, vals_data: &[], is_system: true };
    assert_eq!(archive.try_prefix("a"), Err(LookupError::Unsound));
    assert_eq!(archive.try_find_surface("a"), Err(LookupError::Unsound));
}
