use daachorse::DoubleArrayAhoCorasick;
use prefix_dictionary::{Data, PrefixDictionary};

/// The index and the word data for the details of each word.
fn words(details: &[&[u8]]) -> (Vec<u8>, Vec<u8>) {
    let mut idx: Vec<u8> = Vec::new();
    let mut data: Vec<u8> = Vec::new();
    for detail in details {
        idx.extend_from_slice(&(data.len() as u32).to_le_bytes());
        data.extend_from_slice(&(detail.len() as u32).to_le_bytes());
        data.extend_from_slice(detail);
    }
    (idx, data)
}

fn load(idx: Vec<u8>, data: Vec<u8>) -> PrefixDictionary {
    let da: DoubleArrayAhoCorasick<u32> =
        DoubleArrayAhoCorasick::with_values(vec![("a", 0u32)]).unwrap();
    let no_entries: Vec<u8> = Vec::new();
    PrefixDictionary::load(da.serialize(), no_entries, idx, data, true).unwrap()
}

#[test]
fn first_detail_ends_at_the_first_zero_byte() {
    let (idx, data) = words(&[b"JKS\0*\0T", b"NNG", b"", b"\0EC"]);
    let dict = load(idx, data);
    assert_eq!(dict.get_first_detail(0), Some("JKS"));
    assert_eq!(dict.get_first_detail(1), Some("NNG"));
    assert_eq!(dict.get_first_detail(2), Some(""));
    assert_eq!(dict.get_first_detail(3), Some(""));
}

#[test]
fn first_detail_is_read_as_utf8() {
    let (idx, data) = words(&["名詞\0一般".as_bytes(), &[b'J', 0xff], &[b'J', b'X', 0, 0xff]]);
    let dict = load(idx, data);
    assert_eq!(dict.get_first_detail(0), Some("名詞"));
    assert_eq!(dict.get_first_detail(1), None);
    assert_eq!(dict.get_first_detail(2), Some("JX"));
}

#[test]
fn unknown_word_has_no_detail() {
    let (mut idx, data) = words(&[b"JC", b"EC"]);
    idx.truncate(7);
    let dict = load(idx, data);
    assert_eq!(dict.get_first_detail(0), Some("JC"));
    assert_eq!(dict.get_first_detail(1), None);
    assert_eq!(dict.get_first_detail(2), None);
    assert_eq!(dict.get_first_detail(u32::MAX), None);
    assert_eq!(dict.space_penalty_table, vec![6000]);
}

#[test]
fn malformed_word_data_has_no_detail() {
    let mut idx: Vec<u8> = Vec::new();
    for start in [0u32, 3, 6, 7, u32::MAX] {
        idx.extend_from_slice(&start.to_le_bytes());
    }
    // At 0 two bytes of details; at 3 and 7 a length that runs over the end or is cut off.
    let data: Vec<u8> = vec![2, 0, 0, 0, b'J', b'C', 0, 0, 0, 0];
    let dict = load(idx, data);
    assert_eq!(dict.get_first_detail(0), Some("JC"));
    assert_eq!(dict.get_first_detail(1), None);
    assert_eq!(dict.get_first_detail(2), Some(""));
    assert_eq!(dict.get_first_detail(3), None);
    assert_eq!(dict.get_first_detail(4), None);
    assert_eq!(dict.space_penalty_table, vec![6000, 0, 0, 0, 0]);
}

#[test]
fn load_computes_the_penalty_of_each_word() {
    let (idx, data) = words(&[b"JC\0x", b"EC", b"VCP+EC", b"NNG", &[0xff], b"XSN"]);
    let dict = load(idx, data);
    assert_eq!(dict.space_penalty_table, vec![6000, 3000, 3000, 0, 0, 3000]);
    assert_eq!(dict.get_space_penalty(0), 6000);
    assert_eq!(dict.get_space_penalty(1), 3000);
    assert_eq!(dict.get_space_penalty(3), 0);
    assert_eq!(dict.get_space_penalty(6), 0);
    assert_eq!(dict.get_space_penalty(u32::MAX), 0);
}

#[test]
fn other_languages_have_no_penalties() {
    let (idx, data) = words(&["名詞\0一般".as_bytes(), "助詞\0格助詞".as_bytes()]);
    let dict = load(idx, data);
    assert_eq!(dict.space_penalty_table, vec![0, 0]);
}

#[test]
fn table_is_built_anew_from_the_details() {
    let (idx, data) = words(&[b"JC", b"NNG"]);
    let mut dict = load(idx, data);
    dict.space_penalty_table = vec![1, 2, 3];
    assert_eq!(dict.get_space_penalty(1), 2);
    dict.build_space_penalty_table();
    assert_eq!(dict.space_penalty_table, vec![6000, 0]);
    assert_eq!(dict.get_first_detail(1), Some("NNG"));
}

#[test]
fn dictionary_from_storage_has_no_penalties_until_they_are_computed() {
    let (idx, data) = words(&[b"JC", b"EC"]);
    let da: DoubleArrayAhoCorasick<u32> =
        DoubleArrayAhoCorasick::with_values(vec![("a", 0u32)]).unwrap();
    let no_entries = Data::from(Vec::new());
    let mut dict =
        PrefixDictionary::from_parts(da, no_entries, Data::from(idx), Data::from(data), true);
    assert!(dict.space_penalty_table.is_empty());
    for word_id in [0, 1, 2, u32::MAX] {
        assert_eq!(dict.get_space_penalty(word_id), 0);
    }
    dict.build_space_penalty_table();
    assert_eq!(dict.get_space_penalty(0), 6000);
    assert_eq!(dict.get_space_penalty(1), 3000);
}
