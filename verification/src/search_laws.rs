//! What holds of the lookups: what a text adds to its beginning, what a surface has, and what the
//! matches of a search are.

use crate::archived::ArchivedPrefixDictionary;
use crate::automaton::{
    leading, matches_between, matches_ending_at, matches_ending_before, overlapping_matches,
    prefixes_before, prefixes_of, values_of,
};
use crate::dictionary::PrefixDictionary;
use crate::entry::WordEntry;
use crate::growth::lemma_same_prefixes_before;
use crate::laws::law_common_search_reports_the_prefix_search;
use crate::lookup::{
    ending_at, lemma_ending_at_push, lemma_prefix_entries_push, lemma_prefix_readings_push,
    lemma_stored_matches_push, lemma_value_entries_push, lemma_value_readings_push, matches_of,
    prefix_entries, prefix_readings, prefixes_readable, reading_with_end, readings_of_prefix,
    stored_matches, value_entries, value_readings, values_readable, with_end, Match,
};
use crate::stored_laws::{
    law_missing_entries_are_not_read, law_stored_entries_are_read_back, room, stores_all,
};
use crate::values::{
    entries_read, entries_stored, entry_count, entry_offset, is_readable, readings,
};
use vstd::prelude::*;

verus! {

/// A text starts with the patterns that its beginning without the last byte starts with, and then
/// with itself, where it is registered: once for each of its values, in their order.
pub proof fn law_text_starts_with_its_beginnings(patterns: Map<Seq<u8>, Seq<u32>>, text: Seq<u8>)
    requires
        text.len() <= usize::MAX,
    ensures
        ({
            let before = if text.len() == 0 {
                Seq::<(usize, u32)>::empty()
            } else {
                prefixes_of(patterns, text.drop_last())
            };
            let values = if patterns.contains_key(text) {
                patterns[text]
            } else {
                Seq::<u32>::empty()
            };
            prefixes_of(patterns, text) == before + values.map_values(
                |value: u32| (text.len() as usize, value),
            )
        }),
{
    let n = text.len();
    let here = values_of(patterns, text).map_values(|value: u32| (n as usize, value));
    assert(text.take(n as int) == text);
    assert(values_of(patterns, text.take(n as int)).map_values(
        |value: u32| ((n + 1 - 1) as usize, value),
    ) == here);
    assert(prefixes_of(patterns, text) == prefixes_before(patterns, text, n) + here);
    if n > 0 {
        assert(text.drop_last() + seq![text.last()] == text);
        lemma_same_prefixes_before(patterns, text.drop_last(), seq![text.last()], n);
    }
}

/// The entries of prefixes that all end at one place are those of their values.
proof fn lemma_entries_of_one_end(
    before: Seq<(usize, u32)>,
    values: Seq<u32>,
    end: usize,
    vals: Seq<u8>,
    is_system: bool,
    archived: bool,
)
    ensures
        prefix_entries(
            before + values.map_values(|value: u32| (end, value)),
            vals,
            is_system,
            archived,
        ) == prefix_entries(before, vals, is_system, archived) + with_end(
            end,
            value_entries(values, vals, is_system, archived),
        ),
    decreases values.len(),
{
    let all = before + values.map_values(|value: u32| (end, value));
    if values.len() == 0 {
        assert(all == before);
        assert(value_entries(values, vals, is_system, archived) == Seq::<WordEntry>::empty());
    } else {
        let fewer = values.drop_last();
        let last = values.last();
        let most = before + fewer.map_values(|value: u32| (end, value));
        lemma_entries_of_one_end(before, fewer, end, vals, is_system, archived);
        assert(fewer.push(last) == values);
        assert(most.push((end, last)) == all);
        lemma_prefix_entries_push(most, (end, last), vals, is_system, archived);
        lemma_value_entries_push(fewer, last, vals, is_system, archived);
    }
}

/// The readings of values, each with the end of their prefix.
spec fn readings_with_end(end: usize, read: Seq<Option<WordEntry>>) -> Seq<
    Option<(usize, WordEntry)>,
> {
    read.map_values(|reading: Option<WordEntry>| reading_with_end(end, reading))
}

/// The readings of prefixes that all end at one place are those of their values.
proof fn lemma_readings_of_one_end(
    before: Seq<(usize, u32)>,
    values: Seq<u32>,
    end: usize,
    vals: Seq<u8>,
    is_system: bool,
    archived: bool,
)
    ensures
        prefix_readings(
            before + values.map_values(|value: u32| (end, value)),
            vals,
            is_system,
            archived,
        ) == prefix_readings(before, vals, is_system, archived) + readings_with_end(
            end,
            value_readings(values, vals, is_system, archived),
        ),
    decreases values.len(),
{
    let all = before + values.map_values(|value: u32| (end, value));
    if values.len() == 0 {
        assert(all == before);
        assert(value_readings(values, vals, is_system, archived) == Seq::<
            Option<WordEntry>,
        >::empty());
    } else {
        let fewer = values.drop_last();
        let last = values.last();
        let most = before + fewer.map_values(|value: u32| (end, value));
        lemma_readings_of_one_end(before, fewer, end, vals, is_system, archived);
        assert(fewer.push(last) == values);
        assert(most.push((end, last)) == all);
        lemma_prefix_readings_push(most, (end, last), vals, is_system, archived);
        lemma_value_readings_push(fewer, last, vals, is_system, archived);
        assert(readings_of_prefix((end, last), vals, is_system, archived) == readings_with_end(
            end,
            readings(vals, is_system, archived, last),
        ));
    }
}

/// The matches of prefixes that all end at one place are those of their values.
proof fn lemma_matches_of_one_end(
    before: Seq<(usize, u32)>,
    values: Seq<u32>,
    end: usize,
    vals: Seq<u8>,
    is_system: bool,
)
    ensures
        stored_matches(before + values.map_values(|value: u32| (end, value)), vals, is_system)
            == stored_matches(before, vals, is_system) + matches_of(
            end,
            values_stored(values, vals, is_system),
        ),
    decreases values.len(),
{
    let all = before + values.map_values(|value: u32| (end, value));
    if values.len() == 0 {
        assert(all == before);
        assert(values_stored(values, vals, is_system) == Seq::<WordEntry>::empty());
    } else {
        let fewer = values.drop_last();
        let last = values.last();
        let most = before + fewer.map_values(|value: u32| (end, value));
        lemma_matches_of_one_end(before, fewer, end, vals, is_system);
        assert(fewer.push(last) == values);
        assert(most.push((end, last)) == all);
        lemma_stored_matches_push(most, (end, last), vals, is_system);
        lemma_values_stored_push(fewer, last, vals, is_system);
    }
}

/// Those of the entries of each value that are stored whole.
pub open spec fn values_stored(values: Seq<u32>, vals: Seq<u8>, is_system: bool) -> Seq<
    WordEntry,
> {
    values.flat_map(|val: u32| entries_stored(vals, is_system, val))
}

proof fn lemma_values_stored_push(values: Seq<u32>, val: u32, vals: Seq<u8>, is_system: bool)
    ensures
        values_stored(values.push(val), vals, is_system) == values_stored(values, vals, is_system)
            + entries_stored(vals, is_system, val),
{
    values.lemma_flat_map_push(|val: u32| entries_stored(vals, is_system, val), val);
}

/// The entries that a dictionary can report of a surface: those that are stored.
pub open spec fn surface_stored_entries(dict: &PrefixDictionary, surface: Seq<u8>) -> Seq<
    WordEntry,
> {
    values_stored(values_of(dict.patterns(), surface), dict.vals_data@, dict.is_system)
}

proof fn lemma_readable_of_one_end(
    before: Seq<(usize, u32)>,
    values: Seq<u32>,
    end: usize,
    vals: Seq<u8>,
    is_system: bool,
    archived: bool,
)
    ensures
        prefixes_readable(
            before + values.map_values(|value: u32| (end, value)),
            vals,
            is_system,
            archived,
        ) <==> prefixes_readable(before, vals, is_system, archived) && values_readable(
            values,
            vals,
            is_system,
            archived,
        ),
{
    let added = values.map_values(|value: u32| (end, value));
    let all = before + added;
    if prefixes_readable(all, vals, is_system, archived) {
        assert forall|i: int| 0 <= i < before.len() implies is_readable(
            vals,
            is_system,
            archived,
            (#[trigger] before[i]).1,
        ) by {
            assert(all[i] == before[i]);
        }
        assert forall|i: int| 0 <= i < values.len() implies is_readable(
            vals,
            is_system,
            archived,
            #[trigger] values[i],
        ) by {
            assert(all[before.len() + i] == (end, values[i]));
        }
    }
    if prefixes_readable(before, vals, is_system, archived) && values_readable(
        values,
        vals,
        is_system,
        archived,
    ) {
        assert forall|i: int| 0 <= i < all.len() implies is_readable(
            vals,
            is_system,
            archived,
            (#[trigger] all[i]).1,
        ) by {
            if i < before.len() {
                assert(all[i] == before[i]);
            } else {
                assert(all[i] == (end, values[i - before.len()]));
            }
        }
    }
}

/// A prefix search in a text finds what it finds in the text without its last byte, and then the
/// entries of the whole text as a surface, with the text's length as their end. So it is with what
/// is read one after another, and with whether all of it is stored.
pub proof fn law_prefix_search_adds_the_whole_text(dict: &PrefixDictionary, text: Seq<u8>)
    requires
        0 < text.len() <= usize::MAX,
    ensures
        ({
            let before = dict.prefix_search(text.drop_last());
            let whole = dict.surface_search(text);
            let found = dict.prefix_search(text);
            &&& found.len() == before.len() + whole.len()
            &&& forall|i: int| 0 <= i < before.len() ==> found[i] == before[i]
            &&& forall|i: int|
                0 <= i < whole.len() ==> (#[trigger] found[before.len() + i]).0 == text.len()
                    && found[before.len() + i].1 == whole[i]
        }),
        ({
            let before = dict.prefix_readings(text.drop_last());
            let whole = dict.surface_readings(text);
            let found = dict.prefix_readings(text);
            &&& found.len() == before.len() + whole.len()
            &&& forall|i: int| 0 <= i < before.len() ==> found[i] == before[i]
            &&& forall|i: int|
                0 <= i < whole.len() ==> match (#[trigger] found[before.len() + i]) {
                    Some((end, entry)) => end == text.len() && whole[i] == Some(entry),
                    None => whole[i] is None,
                }
        }),
        dict.prefix_stored(text) <==> dict.prefix_stored(text.drop_last()) && dict.surface_stored(
            text,
        ),
{
    let before = prefixes_of(dict.patterns(), text.drop_last());
    let values = values_of(dict.patterns(), text);
    let end = text.len() as usize;
    law_text_starts_with_its_beginnings(dict.patterns(), text);
    lemma_entries_of_one_end(before, values, end, dict.vals_data@, dict.is_system, false);
    lemma_readings_of_one_end(before, values, end, dict.vals_data@, dict.is_system, false);
    lemma_readable_of_one_end(before, values, end, dict.vals_data@, dict.is_system, false);
}

/// A prefix search in the empty text finds the entries of the empty surface, which end at 0.
pub proof fn law_empty_text_has_the_empty_surface_only(dict: &PrefixDictionary, text: Seq<u8>)
    requires
        text.len() == 0,
    ensures
        dict.prefix_search(text).len() == dict.surface_search(text).len(),
        forall|i: int|
            0 <= i < dict.surface_search(text).len() ==> (#[trigger] dict.prefix_search(text)[i]).0
                == 0 && dict.prefix_search(text)[i].1 == dict.surface_search(text)[i],
        dict.prefix_readings(text).len() == dict.surface_readings(text).len(),
        forall|i: int|
            0 <= i < dict.surface_readings(text).len() ==> match (
            #[trigger] dict.prefix_readings(text)[i]) {
                Some((end, entry)) => end == 0 && dict.surface_readings(text)[i] == Some(entry),
                None => dict.surface_readings(text)[i] is None,
            },
        dict.prefix_stored(text) <==> dict.surface_stored(text),
        dict.common_search(text).len() == surface_stored_entries(dict, text).len(),
        forall|i: int|
            0 <= i < surface_stored_entries(dict, text).len() ==> (#[trigger] dict.common_search(
                text,
            )[i]).end_char == 0 && dict.common_search(text)[i].word_idx.word_id
                == surface_stored_entries(dict, text)[i].word_id.id,
{
    let before = Seq::<(usize, u32)>::empty();
    let values = values_of(dict.patterns(), text);
    law_text_starts_with_its_beginnings(dict.patterns(), text);
    lemma_nothing_of_nothing(dict.vals_data@, dict.is_system, false);
    lemma_entries_of_one_end(before, values, 0, dict.vals_data@, dict.is_system, false);
    lemma_readings_of_one_end(before, values, 0, dict.vals_data@, dict.is_system, false);
    lemma_matches_of_one_end(before, values, 0, dict.vals_data@, dict.is_system);
    lemma_readable_of_one_end(before, values, 0, dict.vals_data@, dict.is_system, false);
}

proof fn lemma_nothing_of_nothing(vals: Seq<u8>, is_system: bool, archived: bool)
    ensures
        prefix_entries(Seq::empty(), vals, is_system, archived).len() == 0,
        prefix_readings(Seq::empty(), vals, is_system, archived).len() == 0,
        stored_matches(Seq::empty(), vals, is_system).len() == 0,
{
    let none = Seq::<(usize, u32)>::empty();
    assert(prefix_entries(none, vals, is_system, archived) == Seq::<(usize, WordEntry)>::empty());
    assert(prefix_readings(none, vals, is_system, archived) == Seq::<
        Option<(usize, WordEntry)>,
    >::empty());
    assert(stored_matches(none, vals, is_system) == Seq::<Match>::empty());
}

/// A common prefix search in a text reports what it reports in the text without its last byte, and
/// then one match for each stored entry of the whole text: with the entry's word id, and with the
/// text's length in bytes as its end.
pub proof fn law_common_search_adds_the_whole_text(dict: &PrefixDictionary, text: Seq<u8>)
    requires
        0 < text.len() <= usize::MAX,
    ensures
        ({
            let before = dict.common_search(text.drop_last());
            let whole = surface_stored_entries(dict, text);
            let found = dict.common_search(text);
            &&& found.len() == before.len() + whole.len()
            &&& forall|i: int| 0 <= i < before.len() ==> found[i] == before[i]
            &&& forall|i: int|
                0 <= i < whole.len() ==> (#[trigger] found[before.len() + i]).end_char
                    == text.len() && found[before.len() + i].word_idx.word_id
                    == whole[i].word_id.id
        }),
{
    let before = prefixes_of(dict.patterns(), text.drop_last());
    let values = values_of(dict.patterns(), text);
    let end = text.len() as usize;
    law_text_starts_with_its_beginnings(dict.patterns(), text);
    lemma_matches_of_one_end(before, values, end, dict.vals_data@, dict.is_system);
}

/// Where all entries are stored, a common prefix search reports as many matches as a prefix search
/// finds entries, and each match has the word id and the end of the entry at its place.
pub proof fn law_matches_name_word_and_end_of_the_entries(dict: &PrefixDictionary, text: Seq<u8>)
    requires
        dict.prefix_stored(text),
    ensures
        dict.common_search(text).len() == dict.prefix_search(text).len(),
        forall|i: int|
            0 <= i < dict.prefix_search(text).len() ==> {
                &&& (#[trigger] dict.common_search(text)[i]).word_idx.word_id
                    == dict.prefix_search(text)[i].1.word_id.id
                &&& dict.common_search(text)[i].end_char == dict.prefix_search(text)[i].0
            },
{
    law_common_search_reports_the_prefix_search(dict, text);
}

/// The archive's prefix search in a text finds what it finds in the text without its last byte, and
/// then the entries of the whole text as a surface. So it is with whether all of it can be read.
pub proof fn law_archived_prefix_search_adds_the_whole_text(
    archive: &ArchivedPrefixDictionary,
    text: Seq<u8>,
)
    requires
        0 < text.len() <= usize::MAX,
    ensures
        ({
            let before = archive.prefix_search(text.drop_last());
            let whole = archive.surface_search(text);
            let found = archive.prefix_search(text);
            &&& found.len() == before.len() + whole.len()
            &&& forall|i: int| 0 <= i < before.len() ==> found[i] == before[i]
            &&& forall|i: int|
                0 <= i < whole.len() ==> (#[trigger] found[before.len() + i]).0 == text.len()
                    && found[before.len() + i].1 == whole[i]
        }),
        ({
            let before = archive.prefix_readings(text.drop_last());
            let whole = value_readings(
                values_of(archive.patterns(), text),
                archive.vals_data@,
                archive.is_system,
                true,
            );
            let found = archive.prefix_readings(text);
            &&& found.len() == before.len() + whole.len()
            &&& forall|i: int| 0 <= i < before.len() ==> found[i] == before[i]
            &&& forall|i: int|
                0 <= i < whole.len() ==> match (#[trigger] found[before.len() + i]) {
                    Some((end, entry)) => end == text.len() && whole[i] == Some(entry),
                    None => whole[i] is None,
                }
        }),
        archive.prefix_stored(text) <==> archive.prefix_stored(text.drop_last())
            && archive.surface_stored(text),
{
    let before = prefixes_of(archive.patterns(), text.drop_last());
    let values = values_of(archive.patterns(), text);
    let end = text.len() as usize;
    law_text_starts_with_its_beginnings(archive.patterns(), text);
    lemma_entries_of_one_end(before, values, end, archive.vals_data@, archive.is_system, true);
    lemma_readings_of_one_end(before, values, end, archive.vals_data@, archive.is_system, true);
    lemma_readable_of_one_end(before, values, end, archive.vals_data@, archive.is_system, true);
}

/// The archive's prefix search in the empty text finds the entries of the empty surface, which end
/// at 0.
pub proof fn law_archived_empty_text_has_the_empty_surface_only(
    archive: &ArchivedPrefixDictionary,
    text: Seq<u8>,
)
    requires
        text.len() == 0,
    ensures
        archive.prefix_search(text).len() == archive.surface_search(text).len(),
        forall|i: int|
            0 <= i < archive.surface_search(text).len() ==> (#[trigger] archive.prefix_search(
                text,
            )[i]).0 == 0 && archive.prefix_search(text)[i].1 == archive.surface_search(text)[i],
        ({
            let whole = value_readings(
                values_of(archive.patterns(), text),
                archive.vals_data@,
                archive.is_system,
                true,
            );
            let found = archive.prefix_readings(text);
            &&& found.len() == whole.len()
            &&& forall|i: int|
                0 <= i < whole.len() ==> match (#[trigger] found[i]) {
                    Some((end, entry)) => end == 0 && whole[i] == Some(entry),
                    None => whole[i] is None,
                }
        }),
        archive.prefix_stored(text) <==> archive.surface_stored(text),
{
    let before = Seq::<(usize, u32)>::empty();
    let values = values_of(archive.patterns(), text);
    law_text_starts_with_its_beginnings(archive.patterns(), text);
    lemma_nothing_of_nothing(archive.vals_data@, archive.is_system, true);
    lemma_entries_of_one_end(before, values, 0, archive.vals_data@, archive.is_system, true);
    lemma_readings_of_one_end(before, values, 0, archive.vals_data@, archive.is_system, true);
    lemma_readable_of_one_end(before, values, 0, archive.vals_data@, archive.is_system, true);
}

/// The run of entries that a value stands for: `val % room` of them from number `val / room` on.
pub open spec fn run(is_system: bool, entries: Seq<WordEntry>, val: u32) -> Seq<WordEntry> {
    entries.subrange(
        val as int / room(is_system),
        val as int / room(is_system) + val as int % room(is_system),
    )
}

proof fn lemma_value_splits(is_system: bool, val: u32)
    ensures
        0 <= val as int / room(is_system),
        0 <= val as int % room(is_system) < room(is_system),
        val == (val as int / room(is_system)) * room(is_system) + val as int % room(is_system),
{
    if is_system {
        assert(val as int == (val as int / 256) * 256 + val as int % 256);
    } else {
        assert(val as int == (val as int / 32) * 32 + val as int % 32);
    }
}

proof fn lemma_values_give_their_runs(
    values: Seq<u32>,
    vals: Seq<u8>,
    is_system: bool,
    archived: bool,
    entries: Seq<WordEntry>,
)
    requires
        stores_all(vals, is_system, entries),
        forall|i: int|
            0 <= i < values.len() ==> (#[trigger] values[i]) as int / room(is_system)
                + values[i] as int % room(is_system) <= entries.len(),
    ensures
        values_readable(values, vals, is_system, archived),
        value_entries(values, vals, is_system, archived) == values.flat_map(
            |val: u32| run(is_system, entries, val),
        ),
    decreases values.len(),
{
    let f = |val: u32| run(is_system, entries, val);
    assert forall|i: int| 0 <= i < values.len() implies is_readable(
        vals,
        is_system,
        archived,
        #[trigger] values[i],
    ) && entries_read(vals, is_system, archived, values[i]) == run(
        is_system,
        entries,
        values[i],
    ) by {
        let val = values[i];
        lemma_value_splits(is_system, val);
        law_stored_entries_are_read_back(
            vals,
            is_system,
            entries,
            val as int / room(is_system),
            val as int % room(is_system),
            val,
        );
        assert(entries_read(vals, is_system, archived, val) == run(is_system, entries, val));
    }
    if values.len() == 0 {
        assert(value_entries(values, vals, is_system, archived) == Seq::<WordEntry>::empty());
        assert(values.flat_map(f) == Seq::<WordEntry>::empty());
    } else {
        let fewer = values.drop_last();
        let last = values.last();
        assert(fewer.push(last) == values);
        assert forall|i: int| 0 <= i < fewer.len() implies (#[trigger] fewer[i]) as int / room(
            is_system,
        ) + fewer[i] as int % room(is_system) <= entries.len() by {
            assert(fewer[i] == values[i]);
        }
        lemma_values_give_their_runs(fewer, vals, is_system, archived, entries);
        lemma_value_entries_push(fewer, last, vals, is_system, archived);
        fewer.lemma_flat_map_push(f, last);
        assert(values[values.len() - 1] == last);
        assert(entries_read(vals, is_system, archived, last) == run(is_system, entries, last));
    }
}

/// What is found for a surface are the runs of stored entries that its values stand for, one after
/// another.
pub proof fn law_surface_gives_the_stored_runs_of_its_values(
    dict: &PrefixDictionary,
    surface: Seq<u8>,
    entries: Seq<WordEntry>,
    values: Seq<u32>,
)
    requires
        stores_all(dict.vals_data@, dict.is_system, entries),
        dict.patterns().contains_key(surface),
        values == dict.patterns()[surface],
        forall|i: int|
            0 <= i < values.len() ==> (#[trigger] values[i]) as int / room(dict.is_system)
                + values[i] as int % room(dict.is_system) <= entries.len(),
    ensures
        dict.surface_stored(surface),
        dict.surface_search(surface) == values.flat_map(
            |val: u32| run(dict.is_system, entries, val),
        ),
{
    lemma_values_give_their_runs(values, dict.vals_data@, dict.is_system, false, entries);
}

/// What is found for a surface in an archive are the runs of stored entries that its values stand
/// for, one after another.
pub proof fn law_archived_surface_gives_the_stored_runs_of_its_values(
    archive: &ArchivedPrefixDictionary,
    surface: Seq<u8>,
    entries: Seq<WordEntry>,
    values: Seq<u32>,
)
    requires
        stores_all(archive.vals_data@, archive.is_system, entries),
        archive.patterns().contains_key(surface),
        values == archive.patterns()[surface],
        forall|i: int|
            0 <= i < values.len() ==> (#[trigger] values[i]) as int / room(archive.is_system)
                + values[i] as int % room(archive.is_system) <= entries.len(),
    ensures
        archive.surface_stored(surface),
        archive.surface_search(surface) == values.flat_map(
            |val: u32| run(archive.is_system, entries, val),
        ),
{
    lemma_values_give_their_runs(values, archive.vals_data@, archive.is_system, true, entries);
}

/// Nothing is found for a surface that is not registered.
pub proof fn law_unregistered_surface_has_nothing(
    dict: &PrefixDictionary,
    archive: &ArchivedPrefixDictionary,
    surface: Seq<u8>,
)
    ensures
        !dict.patterns().contains_key(surface) ==> {
            &&& dict.surface_search(surface).len() == 0
            &&& dict.surface_readings(surface).len() == 0
            &&& surface_stored_entries(dict, surface).len() == 0
            &&& dict.surface_stored(surface)
        },
        !archive.patterns().contains_key(surface) ==> {
            &&& archive.surface_search(surface).len() == 0
            &&& archive.surface_stored(surface)
        },
{
    let none = Seq::<u32>::empty();
    assert(value_entries(none, dict.vals_data@, dict.is_system, false) == Seq::<
        WordEntry,
    >::empty());
    assert(value_readings(none, dict.vals_data@, dict.is_system, false) == Seq::<
        Option<WordEntry>,
    >::empty());
    assert(values_stored(none, dict.vals_data@, dict.is_system) == Seq::<WordEntry>::empty());
    assert(value_entries(none, archive.vals_data@, archive.is_system, true) == Seq::<
        WordEntry,
    >::empty());
}

/// A surface with one value is read as the entries of that value are, and where some are missing, a
/// dictionary gives what is there. What is stored of it is what a common prefix search reports.
pub proof fn law_surface_with_one_value(
    dict: &PrefixDictionary,
    surface: Seq<u8>,
    entries: Seq<WordEntry>,
    offset: int,
    count: int,
    val: u32,
)
    requires
        stores_all(dict.vals_data@, dict.is_system, entries),
        dict.patterns().contains_key(surface),
        dict.patterns()[surface] == seq![val],
        0 <= offset,
        10 * offset <= dict.vals_data@.len(),
        0 <= count < room(dict.is_system),
        val == offset * room(dict.is_system) + count,
    ensures
        dict.surface_readings(surface).len() == count,
        forall|i: int|
            0 <= i < count ==> (#[trigger] dict.surface_readings(surface)[i]) == if offset + i
                < entries.len() {
                Some(entries[offset + i])
            } else {
                None
            },
        dict.surface_stored(surface) <==> offset + count <= entries.len(),
        forall|i: int|
            0 <= i < surface_stored_entries(dict, surface).len() ==> (
            #[trigger] surface_stored_entries(dict, surface)[i]) == entries[offset + i],
        surface_stored_entries(dict, surface).len() == if offset + count <= entries.len() {
            count
        } else {
            entries.len() - offset
        },
{
    let vals = dict.vals_data@;
    let none = Seq::<u32>::empty();
    assert(none.push(val) == seq![val]);
    lemma_value_readings_push(none, val, vals, dict.is_system, false);
    lemma_values_stored_push(none, val, vals, dict.is_system);
    assert(value_readings(none, vals, dict.is_system, false) == Seq::<Option<WordEntry>>::empty());
    assert(values_stored(none, vals, dict.is_system) == Seq::<WordEntry>::empty());
    assert(dict.surface_readings(surface) == readings(vals, dict.is_system, false, val));
    assert(surface_stored_entries(dict, surface) == entries_stored(vals, dict.is_system, val));
    assert(seq![val][0] == val);
    if offset + count <= entries.len() {
        law_stored_entries_are_read_back(vals, dict.is_system, entries, offset, count, val);
        assert(entries_read(vals, dict.is_system, false, val) == entries.subrange(
            offset,
            offset + count,
        ));
    } else {
        law_missing_entries_are_not_read(vals, dict.is_system, entries, offset, count, val);
        assert(!is_readable(vals, dict.is_system, false, values_of(dict.patterns(), surface)[0]));
    }
}

/// The entries of several values are read one value after the other: one more value adds what is
/// read for it alone. So it is with the entries that are found and with those that are stored.
pub proof fn law_values_are_read_one_after_another(
    values: Seq<u32>,
    val: u32,
    vals: Seq<u8>,
    is_system: bool,
    archived: bool,
)
    ensures
        value_readings(Seq::empty(), vals, is_system, archived).len() == 0,
        value_readings(values.push(val), vals, is_system, archived) == value_readings(
            values,
            vals,
            is_system,
            archived,
        ) + readings(vals, is_system, archived, val),
        value_entries(Seq::empty(), vals, is_system, archived).len() == 0,
        value_entries(values.push(val), vals, is_system, archived) == value_entries(
            values,
            vals,
            is_system,
            archived,
        ) + entries_read(vals, is_system, archived, val),
        values_stored(Seq::empty(), vals, is_system).len() == 0,
        values_stored(values.push(val), vals, is_system) == values_stored(values, vals, is_system)
            + entries_stored(vals, is_system, val),
{
    let none = Seq::<u32>::empty();
    assert(value_readings(none, vals, is_system, archived) == Seq::<Option<WordEntry>>::empty());
    assert(value_entries(none, vals, is_system, archived) == Seq::<WordEntry>::empty());
    assert(values_stored(none, vals, is_system) == Seq::<WordEntry>::empty());
    lemma_value_readings_push(values, val, vals, is_system, archived);
    lemma_value_entries_push(values, val, vals, is_system, archived);
    lemma_values_stored_push(values, val, vals, is_system);
}

/// What is read, found and stored of a surface is that of the values registered for it, all of them
/// and no others; and it can all be read exactly if each value's entries end within the bytes, or,
/// in an archive, start behind them.
pub proof fn law_surface_has_the_values_registered_for_it(
    dict: &PrefixDictionary,
    archive: &ArchivedPrefixDictionary,
    surface: Seq<u8>,
)
    ensures
        dict.patterns().contains_key(surface) ==> {
            let values = dict.patterns()[surface];
            let room = room(dict.is_system);
            &&& dict.surface_readings(surface) == value_readings(
                values,
                dict.vals_data@,
                dict.is_system,
                false,
            )
            &&& dict.surface_search(surface) == value_entries(
                values,
                dict.vals_data@,
                dict.is_system,
                false,
            )
            &&& surface_stored_entries(dict, surface) == values_stored(
                values,
                dict.vals_data@,
                dict.is_system,
            )
            &&& dict.surface_stored(surface) <==> forall|i: int|
                0 <= i < values.len() ==> 10 * ((#[trigger] values[i]) as int / room
                    + values[i] as int % room) <= dict.vals_data@.len()
        },
        archive.patterns().contains_key(surface) ==> {
            let values = archive.patterns()[surface];
            let room = room(archive.is_system);
            &&& archive.surface_search(surface) == value_entries(
                values,
                archive.vals_data@,
                archive.is_system,
                true,
            )
            &&& archive.surface_stored(surface) <==> forall|i: int|
                0 <= i < values.len() ==> {
                    ||| 10 * ((#[trigger] values[i]) as int / room + values[i] as int % room)
                        <= archive.vals_data@.len()
                    ||| 10 * (values[i] as int / room) >= archive.vals_data@.len()
                }
        },
{
    if dict.patterns().contains_key(surface) {
        lemma_values_readable(
            dict.patterns()[surface],
            dict.vals_data@,
            dict.is_system,
            false,
        );
    }
    if archive.patterns().contains_key(surface) {
        lemma_values_readable(
            archive.patterns()[surface],
            archive.vals_data@,
            archive.is_system,
            true,
        );
    }
}

proof fn lemma_values_readable(values: Seq<u32>, vals: Seq<u8>, is_system: bool, archived: bool)
    ensures
        values_readable(values, vals, is_system, archived) <==> forall|i: int|
            0 <= i < values.len() ==> {
                ||| 10 * ((#[trigger] values[i]) as int / room(is_system) + values[i] as int % room(
                    is_system,
                )) <= vals.len()
                ||| archived && 10 * (values[i] as int / room(is_system)) >= vals.len()
            },
{
    assert forall|i: int| 0 <= i < values.len() implies (is_readable(
        vals,
        is_system,
        archived,
        #[trigger] values[i],
    ) <==> {
        ||| 10 * (values[i] as int / room(is_system) + values[i] as int % room(is_system))
            <= vals.len()
        ||| archived && 10 * (values[i] as int / room(is_system)) >= vals.len()
    }) by {
        assert(entry_offset(is_system, values[i]) == values[i] as int / room(is_system));
        assert(entry_count(is_system, values[i]) == values[i] as int % room(is_system));
    }
}

/// One more match adds its end and value to the leading ones exactly if it starts at 0, and its
/// value to those that end at `len` exactly if it ends there too.
pub proof fn law_only_matches_at_the_start_are_kept(
    matches: Seq<(usize, usize, u32)>,
    start: usize,
    end: usize,
    value: u32,
    len: usize,
)
    ensures
        leading(Seq::empty()).len() == 0,
        leading(matches.push((start, end, value))) == if start == 0 {
            leading(matches).push((end, value))
        } else {
            leading(matches)
        },
        ending_at(Seq::empty(), len).len() == 0,
        ending_at(leading(matches.push((start, end, value))), len) == if start == 0 && end == len {
            ending_at(leading(matches), len).push(value)
        } else {
            ending_at(leading(matches), len)
        },
{
    let m = (start, end, value);
    let pred = |m: (usize, usize, u32)| m.0 == 0;
    reveal(Seq::filter);
    assert(matches.push(m).drop_last() == matches);
    assert(matches.push(m).filter(pred) == if start == 0 {
        matches.filter(pred).push(m)
    } else {
        matches.filter(pred)
    });
    lemma_ending_at_push(leading(matches), (end, value), len);
}

/// The values of the matches from `start` to `end`.
pub open spec fn values_between(
    matches: Seq<(usize, usize, u32)>,
    start: int,
    end: int,
) -> Seq<u32> {
    matches.filter(|m: (usize, usize, u32)| m.0 == start && m.1 == end).map_values(
        |m: (usize, usize, u32)| m.2,
    )
}

proof fn lemma_values_between_add(
    a: Seq<(usize, usize, u32)>,
    b: Seq<(usize, usize, u32)>,
    start: int,
    end: int,
)
    ensures
        values_between(a + b, start, end) == values_between(a, start, end) + values_between(
            b,
            start,
            end,
        ),
{
    Seq::filter_distributes_over_add(
        a,
        b,
        |m: (usize, usize, u32)| m.0 == start && m.1 == end,
    );
}

/// Matches that are all from `s` to `e` have their values there, and none elsewhere.
proof fn lemma_values_between_one_place(
    values: Seq<u32>,
    s: int,
    e: int,
    start: int,
    end: int,
)
    requires
        0 <= s <= e <= usize::MAX,
    ensures
        values_between(
            values.map_values(|value: u32| (s as usize, e as usize, value)),
            start,
            end,
        ) == if s == start && e == end {
            values
        } else {
            Seq::empty()
        },
    decreases values.len(),
{
    let f = |value: u32| (s as usize, e as usize, value);
    reveal(Seq::filter);
    if values.len() > 0 {
        let fewer = values.drop_last();
        lemma_values_between_one_place(fewer, s, e, start, end);
        let one = seq![f(values.last())];
        assert(values.map_values(f) == fewer.map_values(f) + one);
        lemma_values_between_add(fewer.map_values(f), one, start, end);
        reveal_with_fuel(Seq::filter, 2);
        assert(one.drop_last() == Seq::<(usize, usize, u32)>::empty());
        assert(values_between(one, start, end) == if s == start && e == end {
            seq![values.last()]
        } else {
            Seq::empty()
        });
    }
}

proof fn lemma_values_between_ending_at(
    patterns: Map<Seq<u8>, Seq<u32>>,
    text: Seq<u8>,
    e: int,
    n: nat,
    start: int,
    end: int,
)
    requires
        n <= e + 1,
        0 <= e <= text.len() <= usize::MAX,
        0 <= start <= end,
    ensures
        values_between(matches_ending_at(patterns, text, e, n), start, end) == if e == end && start
            < n {
            values_of(patterns, text.subrange(start, end))
        } else {
            Seq::empty()
        },
    decreases n,
{
    if n == 0 {
        reveal(Seq::filter);
    } else {
        let before = matches_ending_at(patterns, text, e, (n - 1) as nat);
        let here = matches_between(patterns, text, n - 1, e);
        lemma_values_between_ending_at(patterns, text, e, (n - 1) as nat, start, end);
        lemma_values_between_one_place(
            values_of(patterns, text.subrange(n - 1, e)),
            n - 1,
            e,
            start,
            end,
        );
        lemma_values_between_add(before, here, start, end);
    }
}

proof fn lemma_values_between_ending_before(
    patterns: Map<Seq<u8>, Seq<u32>>,
    text: Seq<u8>,
    n: nat,
    start: int,
    end: int,
)
    requires
        n <= text.len() + 1,
        text.len() <= usize::MAX,
        0 <= start <= end,
    ensures
        values_between(matches_ending_before(patterns, text, n), start, end) == if end < n {
            values_of(patterns, text.subrange(start, end))
        } else {
            Seq::empty()
        },
    decreases n,
{
    if n == 0 {
        reveal(Seq::filter);
    } else {
        lemma_values_between_ending_before(patterns, text, (n - 1) as nat, start, end);
        lemma_values_between_ending_at(patterns, text, n - 1, n, start, end);
        lemma_values_between_add(
            matches_ending_before(patterns, text, (n - 1) as nat),
            matches_ending_at(patterns, text, n - 1, n),
            start,
            end,
        );
    }
}

/// A search reports, from each place of the text to each later one, the values that are registered
/// for the bytes between them, each as often and in the order as registered, and nothing where
/// these are no pattern.
pub proof fn law_search_reports_each_occurrence(
    patterns: Map<Seq<u8>, Seq<u32>>,
    text: Seq<u8>,
    start: int,
    end: int,
)
    requires
        0 <= start <= end <= text.len() <= usize::MAX,
    ensures
        values_between(overlapping_matches(patterns, text), start, end)
            == if patterns.contains_key(text.subrange(start, end)) {
            patterns[text.subrange(start, end)]
        } else {
            Seq::empty()
        },
{
    lemma_values_between_ending_before(patterns, text, text.len() + 1, start, end);
}

/// Whether a match comes no later than another: it ends before it, or at the same place and starts
/// no later.
pub open spec fn no_later(a: (usize, usize, u32), b: (usize, usize, u32)) -> bool {
    a.1 < b.1 || (a.1 == b.1 && a.0 <= b.0)
}

proof fn lemma_ending_at_ordered(
    patterns: Map<Seq<u8>, Seq<u32>>,
    text: Seq<u8>,
    e: int,
    n: nat,
)
    requires
        n <= e + 1,
        0 <= e <= text.len() <= usize::MAX,
    ensures
        ({
            let all = matches_ending_at(patterns, text, e, n);
            &&& forall|i: int|
                0 <= i < all.len() ==> (#[trigger] all[i]).0 < n && all[i].0 <= all[i].1
                    && all[i].1 == e
            &&& forall|i: int, j: int|
                0 <= i <= j < all.len() ==> #[trigger] no_later(all[i], all[j])
        }),
    decreases n,
{
    if n > 0 {
        let before = matches_ending_at(patterns, text, e, (n - 1) as nat);
        let here = matches_between(patterns, text, n - 1, e);
        let all = matches_ending_at(patterns, text, e, n);
        lemma_ending_at_ordered(patterns, text, e, (n - 1) as nat);
        assert forall|i: int| 0 <= i < all.len() implies (#[trigger] all[i]).0 < n && all[i].0
            <= all[i].1 && all[i].1 == e && (i >= before.len() ==> all[i].0 == n - 1) by {
            if i < before.len() {
                assert(all[i] == before[i]);
            } else {
                assert(all[i] == here[i - before.len()]);
            }
        }
        assert forall|i: int, j: int| 0 <= i <= j < all.len() implies #[trigger] no_later(
            all[i],
            all[j],
        ) by {
            if j < before.len() {
                assert(all[i] == before[i] && all[j] == before[j]);
                assert(no_later(before[i], before[j]));
            }
        }
    }
}

proof fn lemma_ending_before_ordered(patterns: Map<Seq<u8>, Seq<u32>>, text: Seq<u8>, n: nat)
    requires
        n <= text.len() + 1,
        text.len() <= usize::MAX,
    ensures
        ({
            let all = matches_ending_before(patterns, text, n);
            &&& forall|i: int|
                0 <= i < all.len() ==> (#[trigger] all[i]).0 <= all[i].1 && all[i].1 < n
            &&& forall|i: int, j: int|
                0 <= i <= j < all.len() ==> #[trigger] no_later(all[i], all[j])
        }),
    decreases n,
{
    if n > 0 {
        let before = matches_ending_before(patterns, text, (n - 1) as nat);
        let here = matches_ending_at(patterns, text, n - 1, n);
        let all = matches_ending_before(patterns, text, n);
        lemma_ending_before_ordered(patterns, text, (n - 1) as nat);
        lemma_ending_at_ordered(patterns, text, n - 1, n);
        assert forall|i: int| 0 <= i < all.len() implies (#[trigger] all[i]).0 <= all[i].1
            && all[i].1 < n && (i >= before.len() ==> all[i].1 == n - 1) && (i < before.len()
            ==> all[i].1 < n - 1) by {
            if i < before.len() {
                assert(all[i] == before[i]);
            } else {
                assert(all[i] == here[i - before.len()]);
            }
        }
        assert forall|i: int, j: int| 0 <= i <= j < all.len() implies #[trigger] no_later(
            all[i],
            all[j],
        ) by {
            if j < before.len() {
                assert(all[i] == before[i] && all[j] == before[j]);
                assert(no_later(before[i], before[j]));
            } else if i >= before.len() {
                assert(all[i] == here[i - before.len()] && all[j] == here[j - before.len()]);
                assert(no_later(here[i - before.len()], here[j - before.len()]));
            }
        }
    }
}

/// The matches of a search lie within the text, and come in the order of their ends, at one end the
/// longest first.
pub proof fn law_search_reports_in_order(
    patterns: Map<Seq<u8>, Seq<u32>>,
    text: Seq<u8>,
    i: int,
    j: int,
)
    requires
        text.len() <= usize::MAX,
        0 <= i <= j < overlapping_matches(patterns, text).len(),
    ensures
        ({
            let a = overlapping_matches(patterns, text)[i];
            let b = overlapping_matches(patterns, text)[j];
            a.0 <= a.1 <= text.len() && (a.1 < b.1 || (a.1 == b.1 && a.0 <= b.0))
        }),
{
    lemma_ending_before_ordered(patterns, text, text.len() + 1);
    let all = overlapping_matches(patterns, text);
    assert(no_later(all[i], all[j]));
}

} // verus!
