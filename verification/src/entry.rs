//! The word entries that a dictionary stores for a surface.

use crate::bytes::{le_i16, le_u16, le_u32, read_i16, read_u16, read_u32};
use vstd::prelude::*;
use vstd::slice::slice_subrange;

verus! {

/// Identifies a word of the system dictionary or of a user dictionary.
#[derive(Clone, Copy, Debug, PartialEq, Eq, Structural)]
pub struct WordId {
    pub id: u32,
    pub is_system: bool,
}

/// One reading of a surface: its word, its cost, and its left and right context ids.
#[derive(Clone, Copy, Debug, PartialEq, Eq, Structural)]
pub struct WordEntry {
    pub word_id: WordId,
    pub word_cost: i16,
    pub left_id: u16,
    pub right_id: u16,
}

/// The entry that the first `WordEntry::SERIALIZED_LEN` bytes hold: the word's id, its cost, the
/// left context id and the right context id, without gaps.
pub open spec fn decoded_entry(bytes: Seq<u8>, is_system: bool) -> WordEntry {
    WordEntry {
        word_id: WordId { id: le_u32(bytes.subrange(0, 4)), is_system },
        word_cost: le_i16(bytes.subrange(4, 6)),
        left_id: le_u16(bytes.subrange(6, 8)),
        right_id: le_u16(bytes.subrange(8, 10)),
    }
}

impl WordEntry {
    /// The number of bytes that an entry takes.
    pub const SERIALIZED_LEN: usize = 10;

    /// Decodes the entry that `data` starts with.
    pub fn deserialize(data: &[u8], is_system: bool) -> (entry: WordEntry)
        requires
            data@.len() >= WordEntry::SERIALIZED_LEN,
        ensures
            entry == decoded_entry(data@, is_system),
    {
        WordEntry {
            word_id: WordId { id: read_u32(slice_subrange(data, 0, 4)), is_system },
            word_cost: read_i16(slice_subrange(data, 4, 6)),
            left_id: read_u16(slice_subrange(data, 6, 8)),
            right_id: read_u16(slice_subrange(data, 8, 10)),
        }
    }
}

} // verus!
