//! The stored details of words, and the space penalties that follow from them.

use crate::bytes::{le_u32, read_u32};
use crate::penalty::{compute_korean_space_penalty, korean_space_penalty};
use crate::text::utf8_str;
use crate::until::{lemma_until_is_prefix, until};
use vstd::prelude::*;
use vstd::slice::slice_subrange;
use vstd::utf8::{decode_utf8, valid_utf8};

verus! {

/// The bytes of a word's first detail: the index holds, at four bytes a word, where in the word
/// data the word's details start; there stand their length in four bytes, and the details, each
/// but the last followed by a zero byte. `None` if one of these lies outside the data.
pub open spec fn first_detail_bytes(words_idx: Seq<u8>, words: Seq<u8>, word_id: u32) -> Option<
    Seq<u8>,
> {
    let idx_pos = word_id * 4;
    if idx_pos + 4 > words_idx.len() {
        None
    } else {
        let idx = le_u32(words_idx.subrange(idx_pos, idx_pos + 4));
        if idx + 4 > words.len() {
            None
        } else {
            let joined_len = le_u32(words.subrange(idx as int, idx + 4));
            if idx + 4 + joined_len > words.len() {
                None
            } else {
                Some(until(words.subrange(idx + 4, idx + 4 + joined_len), 0u8))
            }
        }
    }
}

/// A word's first detail. `None` if its bytes are not there or are not valid UTF-8.
pub open spec fn first_detail(words_idx: Seq<u8>, words: Seq<u8>, word_id: u32) -> Option<
    Seq<char>,
> {
    match first_detail_bytes(words_idx, words, word_id) {
        Some(bytes) => if valid_utf8(bytes) {
            Some(decode_utf8(bytes))
        } else {
            None
        },
        None => None,
    }
}

/// A word's space penalty: that of its first detail, and 0 for a word without one.
pub open spec fn word_penalty(words_idx: Seq<u8>, words: Seq<u8>, word_id: u32) -> i16 {
    match first_detail(words_idx, words, word_id) {
        Some(pos) => korean_space_penalty(pos),
        None => 0,
    }
}

/// The space penalties of the words in the index. Word ids have 32 bits: further words in the
/// index count as those with the low 32 bits of their number.
pub open spec fn penalty_table(words_idx: Seq<u8>, words: Seq<u8>) -> Seq<i16> {
    Seq::new(words_idx.len() / 4, |i: int| word_penalty(words_idx, words, i as u32))
}

/// The penalty that a table holds for a word, and 0 for a word that it does not reach.
pub open spec fn table_penalty(table: Seq<i16>, word_id: u32) -> i32 {
    if word_id < table.len() {
        table[word_id as int] as i32
    } else {
        0
    }
}

/// The bytes before the first zero byte.
fn before_zero(bytes: &[u8]) -> (r: &[u8])
    ensures
        r@ == until(bytes@, 0u8),
{
    let mut n: usize = 0;
    while n < bytes.len() && bytes[n] != 0
        invariant
            n <= bytes@.len(),
            forall|i: int| 0 <= i < n ==> bytes@[i] != 0,
        decreases bytes@.len() - n,
    {
        n += 1;
    }
    proof {
        lemma_until_is_prefix(bytes@, 0u8, n as int);
    }
    slice_subrange(bytes, 0, n)
}

/// Reads a word's first detail.
pub fn read_first_detail<'a>(words_idx: &[u8], words: &'a [u8], word_id: u32) -> (r: Option<
    &'a str,
>)
    ensures
        r is Some <==> first_detail(words_idx@, words@, word_id) is Some,
        r matches Some(s) ==> first_detail(words_idx@, words@, word_id) == Some(s@),
{
    if word_id as usize >= words_idx.len() / 4 {
        return None;
    }
    let idx_pos: usize = word_id as usize * 4;
    let idx: usize = read_u32(slice_subrange(words_idx, idx_pos, idx_pos + 4)) as usize;
    if idx > words.len() || words.len() - idx < 4 {
        return None;
    }
    let joined_len: usize = read_u32(slice_subrange(words, idx, idx + 4)) as usize;
    let start: usize = idx + 4;
    if words.len() - start < joined_len {
        return None;
    }
    utf8_str(before_zero(slice_subrange(words, start, start + joined_len)))
}

/// Computes the space penalties of the words in the index.
pub fn compute_penalty_table(words_idx: &[u8], words: &[u8]) -> (table: Vec<i16>)
    ensures
        table@ == penalty_table(words_idx@, words@),
{
    let num_entries: usize = words_idx.len() / 4;
    let mut table: Vec<i16> = Vec::with_capacity(num_entries);
    let mut word_id: usize = 0;
    while word_id < num_entries
        invariant
            word_id <= num_entries == words_idx@.len() / 4,
            table@ == penalty_table(words_idx@, words@).take(word_id as int),
        decreases num_entries - word_id,
    {
        let penalty: i16 = match read_first_detail(
            words_idx,
            words,
            #[verifier::truncate]
            (word_id as u32),
        ) {
            Some(pos) => compute_korean_space_penalty(pos),
            None => 0,
        };
        table.push(penalty);
        word_id += 1;
    }
    assert(table@ == penalty_table(words_idx@, words@));
    table
}

} // verus!
