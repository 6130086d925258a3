//! The values of the automaton, each of which stands for a run of word entries.

use crate::entry::{decoded_entry, WordEntry};
use crate::options::{all_some, somes};
use vstd::prelude::*;
use vstd::slice::slice_subrange;

verus! {

/// How many counts a value can hold: a system dictionary keeps the count in the low 8 bits, a
/// user dictionary in the low 5.
pub open spec fn count_limit(is_system: bool) -> u32 {
    if is_system {
        256
    } else {
        32
    }
}

/// The number of the first entry that `val` stands for.
pub open spec fn entry_offset(is_system: bool, val: u32) -> u32 {
    val / count_limit(is_system)
}

/// How many entries `val` stands for.
pub open spec fn entry_count(is_system: bool, val: u32) -> u32 {
    val % count_limit(is_system)
}

/// The entry with number `k` in the stored entries.
pub open spec fn entry_at(vals: Seq<u8>, is_system: bool, k: int) -> WordEntry {
    decoded_entry(
        vals.subrange(
            k * WordEntry::SERIALIZED_LEN,
            k * WordEntry::SERIALIZED_LEN + WordEntry::SERIALIZED_LEN,
        ),
        is_system,
    )
}

/// The first `n` of the entries from number `offset` on.
pub open spec fn entries_from(vals: Seq<u8>, is_system: bool, offset: int, n: nat) -> Seq<
    WordEntry,
> {
    Seq::new(n, |i: int| entry_at(vals, is_system, offset + i))
}

/// The entries that `val` stands for.
pub open spec fn entries_of(vals: Seq<u8>, is_system: bool, val: u32) -> Seq<WordEntry> {
    entries_from(
        vals,
        is_system,
        entry_offset(is_system, val) as int,
        entry_count(is_system, val) as nat,
    )
}

/// Whether the entries that `val` stands for lie within the stored entries.
pub open spec fn in_range(vals: Seq<u8>, is_system: bool, val: u32) -> bool {
    (entry_offset(is_system, val) + entry_count(is_system, val)) * WordEntry::SERIALIZED_LEN
        <= vals.len()
}

/// Whether `val` stands for entries that start behind the stored ones.
pub open spec fn starts_outside(vals: Seq<u8>, is_system: bool, val: u32) -> bool {
    entry_offset(is_system, val) * WordEntry::SERIALIZED_LEN >= vals.len()
}

/// Whether the entries that `val` stands for can be read: they lie within the stored ones, or, in
/// an archive, they start behind them, and are skipped.
pub open spec fn is_readable(vals: Seq<u8>, is_system: bool, archived: bool, val: u32) -> bool {
    in_range(vals, is_system, val) || (archived && starts_outside(vals, is_system, val))
}

/// The entries that are read for `val`: those that it stands for, or none where, in an archive,
/// they start behind the stored ones.
pub open spec fn entries_read(
    vals: Seq<u8>,
    is_system: bool,
    archived: bool,
    val: u32,
) -> Seq<WordEntry> {
    if archived && starts_outside(vals, is_system, val) {
        Seq::empty()
    } else {
        entries_of(vals, is_system, val)
    }
}

/// The entry with number `k`, or `None` if it is not stored whole.
pub open spec fn stored_entry(vals: Seq<u8>, is_system: bool, k: int) -> Option<WordEntry> {
    if (k + 1) * WordEntry::SERIALIZED_LEN <= vals.len() {
        Some(entry_at(vals, is_system, k))
    } else {
        None
    }
}

/// What reading the entries of `val` one after another gives, with `None` where an entry is not
/// stored and reading cannot go on. In an archive the entries of a value are read all at once:
/// where one of them is not stored, none can be read.
pub open spec fn readings(vals: Seq<u8>, is_system: bool, archived: bool, val: u32) -> Seq<
    Option<WordEntry>,
> {
    let offset = entry_offset(is_system, val) as int;
    if is_readable(vals, is_system, archived, val) {
        somes(entries_read(vals, is_system, archived, val))
    } else if archived || offset * WordEntry::SERIALIZED_LEN > vals.len() {
        seq![None]
    } else {
        Seq::new(
            entry_count(is_system, val) as nat,
            |i: int| stored_entry(vals, is_system, offset + i),
        )
    }
}

/// A value whose entries cannot all be read has a reading that fails.
pub proof fn lemma_unreadable_fails(vals: Seq<u8>, is_system: bool, archived: bool, val: u32)
    requires
        !is_readable(vals, is_system, archived, val),
    ensures
        !all_some(readings(vals, is_system, archived, val)),
{
    let all = readings(vals, is_system, archived, val);
    assert(all.last() is None);
    assert(all[all.len() - 1] is None);
}

/// How many of the entries that `val` stands for are stored whole.
pub open spec fn stored_count(vals: Seq<u8>, is_system: bool, val: u32) -> nat {
    let stored = vals.len() as int / WordEntry::SERIALIZED_LEN as int;
    let offset = entry_offset(is_system, val) as int;
    let count = entry_count(is_system, val) as int;
    if stored <= offset {
        0
    } else if stored - offset < count {
        (stored - offset) as nat
    } else {
        count as nat
    }
}

/// Those of the entries that `val` stands for that are stored whole.
pub open spec fn entries_stored(vals: Seq<u8>, is_system: bool, val: u32) -> Seq<WordEntry> {
    entries_of(vals, is_system, val).take(stored_count(vals, is_system, val) as int)
}

/// Splits a value into the number of its first entry and their count.
pub fn decode_val(is_system: bool, val: u32) -> (r: (u32, u32))
    ensures
        r.0 == entry_offset(is_system, val),
        r.1 == entry_count(is_system, val),
{
    if is_system {
        assert(val >> 8u32 == val / 256 && val & ((1u32 << 8) - 1) as u32 == val % 256)
            by (bit_vector);
        assert(1u32 << 8 == 256) by (bit_vector);
        (val >> 8u32, val & ((1u32 << 8) - 1u32))
    } else {
        assert(val >> 5u32 == val / 32 && val & ((1u32 << 5) - 1) as u32 == val % 32)
            by (bit_vector);
        assert(1u32 << 5 == 32) by (bit_vector);
        (val >> 5u32, val & ((1u32 << 5) - 1u32))
    }
}

/// Reads the first `n` of the entries from number `offset` on.
fn read_entries(vals: &[u8], is_system: bool, offset: usize, n: usize) -> (r: Vec<WordEntry>)
    requires
        (offset + n) * WordEntry::SERIALIZED_LEN <= vals@.len(),
    ensures
        r@ == entries_from(vals@, is_system, offset as int, n as nat),
{
    let len: usize = vals.len();
    let mut r: Vec<WordEntry> = Vec::new();
    let mut i: usize = 0;
    while i < n
        invariant
            i <= n,
            (offset + n) * WordEntry::SERIALIZED_LEN <= vals@.len() == len,
            r@ == entries_from(vals@, is_system, offset as int, i as nat),
        decreases n - i,
    {
        let start: usize = (offset + i) * WordEntry::SERIALIZED_LEN;
        let data = slice_subrange(vals, start, start + WordEntry::SERIALIZED_LEN);
        r.push(WordEntry::deserialize(data, is_system));
        i += 1;
    }
    r
}

/// How many readings there are for `val`.
pub fn reading_count(vals: &[u8], is_system: bool, archived: bool, val: u32) -> (n: usize)
    ensures
        n == readings(vals@, is_system, archived, val).len(),
{
    let (offset, count) = decode_val(is_system, val);
    let start: usize = offset as usize * WordEntry::SERIALIZED_LEN;
    let end: usize = (offset as usize + count as usize) * WordEntry::SERIALIZED_LEN;
    if archived && start >= vals.len() {
        0
    } else if end > vals.len() && (archived || start > vals.len()) {
        1
    } else {
        count as usize
    }
}

/// The reading with number `i` for `val`.
pub fn read_entry(vals: &[u8], is_system: bool, archived: bool, val: u32, i: usize) -> (r: Option<
    WordEntry,
>)
    requires
        i < readings(vals@, is_system, archived, val).len(),
    ensures
        r == readings(vals@, is_system, archived, val)[i as int],
{
    let (offset, count) = decode_val(is_system, val);
    let last: usize = if archived {
        offset as usize + count as usize
    } else {
        offset as usize + i + 1
    };
    if last * WordEntry::SERIALIZED_LEN > vals.len() {
        return None;
    }
    let start: usize = (offset as usize + i) * WordEntry::SERIALIZED_LEN;
    let data = slice_subrange(vals, start, start + WordEntry::SERIALIZED_LEN);
    Some(WordEntry::deserialize(data, is_system))
}

/// Those of the entries that `val` stands for that are stored whole.
pub fn read_stored(vals: &[u8], is_system: bool, val: u32) -> (r: Vec<WordEntry>)
    ensures
        r@ == entries_stored(vals@, is_system, val),
{
    let (offset, count) = decode_val(is_system, val);
    let offset: usize = offset as usize;
    let count: usize = count as usize;
    let stored: usize = vals.len() / WordEntry::SERIALIZED_LEN;
    let n: usize = if stored <= offset {
        0
    } else if stored - offset < count {
        stored - offset
    } else {
        count
    };
    if n == 0 {
        return Vec::new();
    }
    read_entries(vals, is_system, offset, n)
}

} // verus!
