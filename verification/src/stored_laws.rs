//! What holds of the entries that are read from stored bytes.

use crate::bytes::{le_i16, le_u16, le_u32};
use crate::entry::{decoded_entry, WordEntry};
use crate::options::somes;
use crate::values::{
    entries_of, entries_read, entries_stored, entry_at, entry_count, entry_offset, is_readable,
    readings, stored_count,
};
use vstd::prelude::*;

verus! {

/// An integer is read as the sum of its bytes, the lowest first, and a signed one as what differs
/// from that sum by 0 or by 65536.
pub proof fn law_integers_are_the_sum_of_their_bytes(bytes: Seq<u8>)
    requires
        bytes.len() >= 4,
    ensures
        le_u16(bytes) == bytes[0] + 256 * bytes[1],
        le_i16(bytes) == bytes[0] + 256 * bytes[1] || le_i16(bytes) == bytes[0] + 256 * bytes[1]
            - 65536,
        le_u32(bytes) == bytes[0] + 256 * bytes[1] + 65536 * bytes[2] + 16777216 * bytes[3],
{
}

/// An entry takes its word's id from the first four bytes, its cost from the next two, and its two
/// context ids from two bytes each.
pub proof fn law_entry_takes_each_field_from_its_bytes(bytes: Seq<u8>, is_system: bool)
    requires
        bytes.len() >= 10,
    ensures
        decoded_entry(bytes, is_system).word_id.is_system == is_system,
        decoded_entry(bytes, is_system).word_id.id == bytes[0] + 256 * bytes[1] + 65536 * bytes[2]
            + 16777216 * bytes[3],
        bytes[5] < 128 ==> decoded_entry(bytes, is_system).word_cost == bytes[4] + 256 * bytes[5],
        bytes[5] >= 128 ==> decoded_entry(bytes, is_system).word_cost == bytes[4] + 256 * bytes[5]
            - 65536,
        decoded_entry(bytes, is_system).left_id == bytes[6] + 256 * bytes[7],
        decoded_entry(bytes, is_system).right_id == bytes[8] + 256 * bytes[9],
{
}

/// Whether the ten bytes from `at` on are those that store the entry.
pub open spec fn stores(vals: Seq<u8>, at: int, entry: WordEntry) -> bool {
    &&& entry.word_id.id == vals[at] + 256 * vals[at + 1] + 65536 * vals[at + 2] + 16777216
        * vals[at + 3]
    &&& entry.word_cost == vals[at + 4] + 256 * vals[at + 5] || entry.word_cost + 65536 == vals[at
        + 4] + 256 * vals[at + 5]
    &&& entry.left_id == vals[at + 6] + 256 * vals[at + 7]
    &&& entry.right_id == vals[at + 8] + 256 * vals[at + 9]
}

/// Whether the bytes are those of the entries, one after another, with less than one entry behind
/// them.
pub open spec fn stores_all(vals: Seq<u8>, is_system: bool, entries: Seq<WordEntry>) -> bool {
    &&& 10 * entries.len() <= vals.len() < 10 * entries.len() + 10
    &&& forall|k: int|
        0 <= k < entries.len() ==> stores(vals, 10 * k, #[trigger] entries[k])
            && entries[k].word_id.is_system == is_system
}

/// How many counts a value has room for.
pub open spec fn room(is_system: bool) -> int {
    if is_system {
        256
    } else {
        32
    }
}

/// A value of a system dictionary keeps a count of up to 255 behind its offset, and one of a user
/// dictionary a count of up to 31: packing the two and splitting them gives both back.
pub proof fn law_value_keeps_offset_and_count(offset: int, count: int, system: u32, user: u32)
    requires
        0 <= offset,
        0 <= count,
        count < 256 ==> system == offset * 256 + count,
        count < 32 ==> user == offset * 32 + count,
    ensures
        count < 256 ==> entry_offset(true, system) == offset && entry_count(true, system) == count,
        count < 32 ==> entry_offset(false, user) == offset && entry_count(false, user) == count,
        room(true) == 256 && room(false) == 32,
{
}

proof fn lemma_split(is_system: bool, offset: int, count: int, val: u32)
    requires
        0 <= offset,
        0 <= count < room(is_system),
        val == offset * room(is_system) + count,
    ensures
        entry_offset(is_system, val) == offset,
        entry_count(is_system, val) == count,
{
    if is_system {
        assert(val == offset * 256 + count);
        assert(val / 256 == offset && val % 256 == count);
    } else {
        assert(val == offset * 32 + count);
        assert(val / 32 == offset && val % 32 == count);
    }
}

proof fn lemma_stored_entry(vals: Seq<u8>, is_system: bool, entries: Seq<WordEntry>, k: int)
    requires
        stores_all(vals, is_system, entries),
        0 <= k < entries.len(),
    ensures
        entry_at(vals, is_system, k) == entries[k],
{
    let bytes = vals.subrange(10 * k, 10 * k + 10);
    assert(stores(vals, 10 * k, entries[k]));
    assert forall|i: int| 0 <= i < 10 implies bytes[i] == vals[10 * k + i] by {}
    law_entry_takes_each_field_from_its_bytes(bytes, is_system);
    assert(entry_at(vals, is_system, k) == decoded_entry(bytes, is_system));
}

proof fn lemma_two_bytes(a: u8, b: u8, c: u8, d: u8)
    requires
        a + 256 * b == c + 256 * d,
    ensures
        a == c && b == d,
{
}

proof fn lemma_four_bytes(a: u8, b: u8, c: u8, d: u8, e: u8, f: u8, g: u8, h: u8)
    requires
        a + 256 * b + 65536 * c + 16777216 * d == e + 256 * f + 65536 * g + 16777216 * h,
    ensures
        a == e && b == f && c == g && d == h,
{
    assert(d == h);
    assert(c == g);
    lemma_two_bytes(a, b, e, f);
}

/// The entry with number `k` is read from the ten bytes from `10 * k` on: two blocks of bytes give
/// the same entry there exactly if they agree in those.
pub proof fn law_entry_is_read_from_its_own_bytes(
    a: Seq<u8>,
    b: Seq<u8>,
    is_system: bool,
    k: int,
)
    requires
        0 <= k,
        10 * k + 10 <= a.len(),
        10 * k + 10 <= b.len(),
    ensures
        entry_at(a, is_system, k) == entry_at(b, is_system, k) <==> a.subrange(10 * k, 10 * k + 10)
            == b.subrange(10 * k, 10 * k + 10),
{
    let x = a.subrange(10 * k, 10 * k + 10);
    let y = b.subrange(10 * k, 10 * k + 10);
    law_entry_takes_each_field_from_its_bytes(x, is_system);
    law_entry_takes_each_field_from_its_bytes(y, is_system);
    assert(entry_at(a, is_system, k) == decoded_entry(x, is_system));
    assert(entry_at(b, is_system, k) == decoded_entry(y, is_system));
    if decoded_entry(x, is_system) == decoded_entry(y, is_system) {
        lemma_four_bytes(x[0], x[1], x[2], x[3], y[0], y[1], y[2], y[3]);
        lemma_two_bytes(x[4], x[5], y[4], y[5]);
        lemma_two_bytes(x[6], x[7], y[6], y[7]);
        lemma_two_bytes(x[8], x[9], y[8], y[9]);
        assert forall|i: int| 0 <= i < 10 implies x[i] == y[i] by {
            assert(i == 0 || i == 1 || i == 2 || i == 3 || i == 4 || i == 5 || i == 6 || i == 7
                || i == 8 || i == 9);
        }
        assert(x == y);
    }
}

/// Entries that are stored one after another are read back: what is read for the value that packs
/// an offset and a count are `count` of them from number `offset` on. A dictionary and an archive
/// of it read the same, and all of it is stored.
pub proof fn law_stored_entries_are_read_back(
    vals: Seq<u8>,
    is_system: bool,
    entries: Seq<WordEntry>,
    offset: int,
    count: int,
    val: u32,
)
    requires
        stores_all(vals, is_system, entries),
        0 <= offset,
        0 <= count < room(is_system),
        offset + count <= entries.len(),
        val == offset * room(is_system) + count,
    ensures
        entries_of(vals, is_system, val) == entries.subrange(offset, offset + count),
        entries_stored(vals, is_system, val) == entries.subrange(offset, offset + count),
        forall|archived: bool|
            {
                &&& is_readable(vals, is_system, archived, val)
                &&& #[trigger] entries_read(vals, is_system, archived, val) == entries.subrange(
                    offset,
                    offset + count,
                )
            },
        forall|archived: bool|
            (#[trigger] readings(vals, is_system, archived, val)).len() == count,
        forall|archived: bool, i: int|
            0 <= i < count ==> (#[trigger] readings(vals, is_system, archived, val)[i]) == Some(
                entries[offset + i],
            ),
{
    lemma_split(is_system, offset, count, val);
    assert forall|k: int| 0 <= k < entries.len() implies #[trigger] entry_at(vals, is_system, k)
        == entries[k] by {
        lemma_stored_entry(vals, is_system, entries, k);
    }
    assert(entries_of(vals, is_system, val) == entries.subrange(offset, offset + count));
    assert(stored_count(vals, is_system, val) == count);
    assert(entries_stored(vals, is_system, val) == entries.subrange(offset, offset + count));
    assert forall|archived: bool|
        {
            &&& is_readable(vals, is_system, archived, val)
            &&& #[trigger] entries_read(vals, is_system, archived, val) == entries.subrange(
                offset,
                offset + count,
            )
        } by {
        if offset * 10 >= vals.len() {
            assert(count == 0);
            assert(entries.subrange(offset, offset + count) == Seq::<WordEntry>::empty());
        }
    }
    assert forall|archived: bool| true implies #[trigger] readings(
        vals,
        is_system,
        archived,
        val,
    ) == somes(entries.subrange(offset, offset + count)) by {
        assert(entries_read(vals, is_system, archived, val) == entries.subrange(
            offset,
            offset + count,
        ));
    }
}

/// A value that stands for more entries than are stored: a dictionary reads those that are there
/// and fails at the first that is not, at once if it starts behind the bytes; an archive reads none
/// if it starts there, and else fails at once. A common prefix search leaves out what is missing.
pub proof fn law_missing_entries_are_not_read(
    vals: Seq<u8>,
    is_system: bool,
    entries: Seq<WordEntry>,
    offset: int,
    count: int,
    val: u32,
)
    requires
        stores_all(vals, is_system, entries),
        0 <= offset,
        0 <= count < room(is_system),
        offset + count > entries.len(),
        val == offset * room(is_system) + count,
    ensures
        !is_readable(vals, is_system, false, val),
        offset * 10 > vals.len() ==> readings(vals, is_system, false, val) == seq![
            None::<WordEntry>,
        ],
        offset * 10 <= vals.len() ==> {
            &&& readings(vals, is_system, false, val).len() == count
            &&& forall|i: int|
                0 <= i < count ==> (#[trigger] readings(vals, is_system, false, val)[i])
                    == if offset + i < entries.len() {
                    Some(entries[offset + i])
                } else {
                    None
                }
        },
        offset * 10 >= vals.len() ==> {
            &&& is_readable(vals, is_system, true, val)
            &&& entries_read(vals, is_system, true, val).len() == 0
            &&& readings(vals, is_system, true, val).len() == 0
        },
        offset * 10 < vals.len() ==> {
            &&& !is_readable(vals, is_system, true, val)
            &&& readings(vals, is_system, true, val) == seq![None::<WordEntry>]
        },
        offset >= entries.len() ==> entries_stored(vals, is_system, val).len() == 0,
        offset < entries.len() ==> entries_stored(vals, is_system, val) == entries.skip(offset),
{
    lemma_split(is_system, offset, count, val);
    assert forall|k: int| 0 <= k < entries.len() implies #[trigger] entry_at(vals, is_system, k)
        == entries[k] by {
        lemma_stored_entry(vals, is_system, entries, k);
    }
    if offset < entries.len() {
        assert(stored_count(vals, is_system, val) == entries.len() - offset);
        assert(entries_stored(vals, is_system, val) == entries.skip(offset));
    }
}

} // verus!
