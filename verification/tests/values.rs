use prefix_dictionary::values::{decode_val, read_entry, read_stored, reading_count};
use prefix_dictionary::{WordEntry, WordId};

fn stored(count: u32) -> Vec<u8> {
    let mut bytes: Vec<u8> = Vec::new();
    for k in 0..count {
        bytes.extend_from_slice(&(100 + k).to_le_bytes());
        bytes.extend_from_slice(&(-(k as i16)).to_le_bytes());
        bytes.extend_from_slice(&(k as u16).to_le_bytes());
        bytes.extend_from_slice(&((k + 1) as u16).to_le_bytes());
    }
    bytes
}

fn ids(entries: &[WordEntry]) -> Vec<u32> {
    entries.iter().map(|e| e.word_id.id).collect()
}

#[test]
fn entry_is_read_lowest_byte_first() {
    let bytes: [u8; 10] = [0x04, 0x03, 0x02, 0x01, 0xfe, 0xff, 0x34, 0x12, 0xff, 0xff];
    let entry = WordEntry::deserialize(&bytes, true);
    assert_eq!(
        entry,
        WordEntry {
            word_id: WordId { id: 0x0102_0304, is_system: true },
            word_cost: -2,
            left_id: 0x1234,
            right_id: 0xffff,
        }
    );
}

#[test]
fn entry_ignores_the_bytes_behind_it() {
    let mut bytes = stored(2);
    let entry = WordEntry::deserialize(&bytes, false);
    assert_eq!(entry.word_id, WordId { id: 100, is_system: false });
    bytes.drain(0..10);
    let entry = WordEntry::deserialize(&bytes, false);
    assert_eq!((entry.word_id.id, entry.word_cost), (101, -1));
    assert_eq!((entry.left_id, entry.right_id), (1, 2));
}

#[test]
fn entry_cost_spans_the_signed_range() {
    let mut bytes = stored(1);
    bytes[4] = 0x00;
    bytes[5] = 0x80;
    assert_eq!(WordEntry::deserialize(&bytes, true).word_cost, i16::MIN);
    bytes[4] = 0xff;
    bytes[5] = 0x7f;
    assert_eq!(WordEntry::deserialize(&bytes, true).word_cost, i16::MAX);
}

#[test]
fn system_values_keep_the_count_in_eight_bits() {
    assert_eq!(decode_val(true, 0), (0, 0));
    assert_eq!(decode_val(true, 0x0102), (1, 2));
    assert_eq!(decode_val(true, (7 << 8) | 255), (7, 255));
    assert_eq!(decode_val(true, u32::MAX), (0x00ff_ffff, 255));
}

#[test]
fn user_values_keep_the_count_in_five_bits() {
    assert_eq!(decode_val(false, 0x0102), (8, 2));
    assert_eq!(decode_val(false, (7 << 5) | 31), (7, 31));
    assert_eq!(decode_val(false, u32::MAX), (0x07ff_ffff, 31));
}

#[test]
fn split_value_packs_to_itself() {
    for val in [0u32, 1, 31, 32, 255, 256, 0x0102_0304, u32::MAX] {
        let (offset, count) = decode_val(true, val);
        assert_eq!((offset << 8) | count, val);
        let (offset, count) = decode_val(false, val);
        assert_eq!((offset << 5) | count, val);
    }
}

/// The ids that reading the entries of a value one after another gives.
fn reads(vals: &[u8], is_system: bool, archived: bool, val: u32) -> Vec<Option<u32>> {
    (0..reading_count(vals, is_system, archived, val))
        .map(|i| read_entry(vals, is_system, archived, val, i).map(|e| e.word_id.id))
        .collect()
}

#[test]
fn value_stands_for_a_run_of_entries() {
    let vals = stored(4);
    for archived in [false, true] {
        assert_eq!(reads(&vals, true, archived, (1 << 8) | 2), vec![Some(101), Some(102)]);
        assert_eq!(reads(&vals, false, archived, (3 << 5) | 1), vec![Some(103)]);
        assert_eq!(reads(&vals, true, archived, 4 << 8), vec![]);
    }
}

#[test]
fn entries_are_read_up_to_one_that_is_not_stored() {
    let vals = stored(4);
    assert_eq!(reads(&vals, true, false, (3 << 8) | 2), vec![Some(103), None]);
    assert_eq!(reads(&vals[..39], true, false, (3 << 8) | 1), vec![None]);
    assert_eq!(reads(&vals, true, false, 5 << 8), vec![None]);
    assert_eq!(reads(&vals, true, false, (5 << 8) | 3), vec![None]);
}

#[test]
fn archived_entries_are_read_all_at_once() {
    let vals = stored(4);
    assert_eq!(reads(&vals, true, true, (3 << 8) | 2), vec![None]);
    assert_eq!(reads(&vals, true, true, (4 << 8) | 2), vec![]);
    assert_eq!(reads(&vals, true, true, u32::MAX), vec![]);
}

#[test]
fn stored_entries_of_a_value_are_cut_at_the_end() {
    let vals = stored(4);
    assert_eq!(ids(&read_stored(&vals, true, (2 << 8) | 9)), vec![102, 103]);
    assert_eq!(ids(&read_stored(&vals[..39], true, (2 << 8) | 9)), vec![102]);
    assert!(read_stored(&vals, true, (4 << 8) | 1).is_empty());
    assert!(read_stored(&[], true, 1).is_empty());
}
