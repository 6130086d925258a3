//! What holds of the library as a whole.

use crate::archived::ArchivedPrefixDictionary;
use crate::automaton::{
    automaton_bytes, built_bytes, decoded, decoded_automaton, group_patterns, is_searchable,
    listed_patterns, prefixes_before, prefixes_of, registered_patterns, sound_automaton, values_of,
};
use crate::bytes::le_u32;
use crate::counts::{counts_fit, list_sizes};
use crate::data::Data;
use crate::details::{first_detail, penalty_table, table_penalty, word_penalty};
use crate::dictionary::{load_outcome, PrefixDictionary};
use crate::double_array_serde::{decode_outcome, is_encoding_of};
use crate::entry::WordEntry;
use crate::error::{LinderaErrorKind, LinderaResult};
use crate::lookup::{
    ending_at, law_whole_text_prefix_is_surface, lemma_ending_at_push, lemma_prefix_entries_push,
    lemma_prefix_readings_are_entries, lemma_stored_matches_push, lemma_value_entries_push,
    match_of, matches_of, prefix_entries, prefixes_readable, stored_matches, value_entries,
    values_readable, with_end, Match,
};
use crate::penalty::korean_space_penalty;
use crate::until::lemma_until_is_prefix;
use crate::values::{
    count_limit, entries_of, entries_read, entries_stored, entry_count, entry_offset, in_range,
    is_readable, starts_outside, stored_count,
};
use daachorse::DoubleArrayAhoCorasick;
use vstd::prelude::*;

verus! {

/// Packing an offset and a count into a value and splitting it gives them back, for every count
/// below 256 in a system dictionary and below 32 in a user dictionary.
pub proof fn law_split_undoes_packing(is_system: bool, offset: u32, count: u32)
    requires
        count < count_limit(is_system),
        offset * count_limit(is_system) + count <= u32::MAX,
    ensures
        ({
            let val = (offset * count_limit(is_system) + count) as u32;
            entry_offset(is_system, val) == offset && entry_count(is_system, val) == count
        }),
{
}

/// Splitting a value and packing what came out gives the value back, and the count is within its
/// bits.
pub proof fn law_packing_undoes_split(is_system: bool, val: u32)
    ensures
        entry_count(is_system, val) < count_limit(is_system),
        entry_offset(is_system, val) * count_limit(is_system) + entry_count(is_system, val) == val,
{
    if is_system {
        assert((val / 256) * 256 + val % 256 == val);
    } else {
        assert((val / 32) * 32 + val % 32 == val);
    }
}

/// A penalty is 0, 3000 or 6000.
pub proof fn law_penalty_is_one_of_three(pos: Seq<char>)
    ensures
        korean_space_penalty(pos) == 0 || korean_space_penalty(pos) == 3000
            || korean_space_penalty(pos) == 6000,
{
}

/// What follows a `+` in a tag does not change its penalty.
pub proof fn law_first_segment_decides(pos: Seq<char>, rest: Seq<char>)
    ensures
        korean_space_penalty(pos.push('+') + rest) == korean_space_penalty(pos),
{
    let whole = pos.push('+') + rest;
    pos.index_of_first_ensures('+');
    match pos.index_of_first('+') {
        Some(i) => {
            lemma_until_is_prefix(whole, '+', i);
            assert(whole.take(i) == pos.take(i));
        },
        None => {
            assert forall|i: int| 0 <= i < pos.len() implies whole[i] != '+' by {
                assert(pos.contains(pos[i]));
            }
            lemma_until_is_prefix(whole, '+', pos.len() as int);
            assert(whole.take(pos.len() as int) == pos);
        },
    }
}

/// The computed table answers for every word as its first detail does, also for the words that
/// are not in the index.
pub proof fn law_table_answers_as_details(words_idx: Seq<u8>, words: Seq<u8>, word_id: u32)
    ensures
        table_penalty(penalty_table(words_idx, words), word_id) == word_penalty(
            words_idx,
            words,
            word_id,
        ),
{
}

/// Where no penalties have been computed, as in a dictionary that comes back from storage, every
/// word has the penalty 0.
pub proof fn law_empty_table_has_no_penalty(dict: &PrefixDictionary, word_id: u32)
    requires
        dict.space_penalty_table@.len() == 0,
    ensures
        table_penalty(dict.space_penalty_table@, word_id) == 0,
{
}

/// In a dictionary whose words have no Korean tag that carries a penalty, all penalties are 0.
pub proof fn law_other_languages_have_no_penalty(words_idx: Seq<u8>, words: Seq<u8>, i: int)
    requires
        forall|word_id: u32|
            (#[trigger] first_detail(words_idx, words, word_id)) matches Some(pos)
                ==> korean_space_penalty(pos) == 0,
        0 <= i < penalty_table(words_idx, words).len(),
    ensures
        penalty_table(words_idx, words)[i] == 0,
{
    assert(first_detail(words_idx, words, i as u32) matches Some(pos) ==> korean_space_penalty(pos)
        == 0);
}

/// The entries of the prefixes that end at `len`.
pub open spec fn entries_ending_at(found: Seq<(usize, WordEntry)>, len: usize) -> Seq<WordEntry> {
    found.filter(|e: (usize, WordEntry)| e.0 == len).map_values(|e: (usize, WordEntry)| e.1)
}

proof fn lemma_entries_ending_at_push(
    found: Seq<(usize, WordEntry)>,
    e: (usize, WordEntry),
    len: usize,
)
    ensures
        entries_ending_at(found.push(e), len) == if e.0 == len {
            entries_ending_at(found, len).push(e.1)
        } else {
            entries_ending_at(found, len)
        },
{
    let pred = |e: (usize, WordEntry)| e.0 == len;
    reveal(Seq::filter);
    assert(found.push(e).drop_last() == found);
    assert(found.push(e).filter(pred) == if e.0 == len {
        found.filter(pred).push(e)
    } else {
        found.filter(pred)
    });
}

/// Adding the entries of one prefix adds them to those that end where it ends.
proof fn lemma_entries_ending_at_with_end(
    found: Seq<(usize, WordEntry)>,
    end: usize,
    entries: Seq<WordEntry>,
    len: usize,
)
    ensures
        entries_ending_at(found + with_end(end, entries), len) == if end == len {
            entries_ending_at(found, len) + entries
        } else {
            entries_ending_at(found, len)
        },
    decreases entries.len(),
{
    if entries.len() == 0 {
        assert(found + with_end(end, entries) == found);
    } else {
        let fewer = entries.drop_last();
        lemma_entries_ending_at_with_end(found, end, fewer, len);
        assert(found + with_end(end, entries) == (found + with_end(end, fewer)).push(
            (end, entries.last()),
        ));
        lemma_entries_ending_at_push(found + with_end(end, fewer), (end, entries.last()), len);
    }
}

proof fn lemma_ending_entries_are_entries_of_ending(
    prefixes: Seq<(usize, u32)>,
    vals: Seq<u8>,
    is_system: bool,
    archived: bool,
    len: usize,
)
    ensures
        entries_ending_at(prefix_entries(prefixes, vals, is_system, archived), len)
            == value_entries(ending_at(prefixes, len), vals, is_system, archived),
    decreases prefixes.len(),
{
    if prefixes.len() == 0 {
        reveal(Seq::filter);
        assert(prefix_entries(prefixes, vals, is_system, archived) == Seq::<
            (usize, WordEntry),
        >::empty());
        assert(ending_at(prefixes, len) == Seq::<u32>::empty());
        assert(value_entries(Seq::<u32>::empty(), vals, is_system, archived) == Seq::<
            WordEntry,
        >::empty());
    } else {
        let fewer = prefixes.drop_last();
        let last = prefixes.last();
        let entries = entries_read(vals, is_system, archived, last.1);
        assert(fewer.push(last) == prefixes);
        lemma_ending_entries_are_entries_of_ending(fewer, vals, is_system, archived, len);
        lemma_prefix_entries_push(fewer, last, vals, is_system, archived);
        lemma_entries_ending_at_with_end(
            prefix_entries(fewer, vals, is_system, archived),
            last.0,
            entries,
            len,
        );
        lemma_ending_at_push(fewer, last, len);
        lemma_value_entries_push(
            ending_at(fewer, len),
            last.1,
            vals,
            is_system,
            archived,
        );
    }
}

/// What is found for a surface is what a prefix search in it finds up to its end.
pub proof fn law_surface_is_the_longest_prefix(dict: &PrefixDictionary, surface: Seq<u8>)
    requires
        surface.len() <= usize::MAX,
    ensures
        dict.surface_search(surface) == entries_ending_at(
            dict.prefix_search(surface),
            surface.len() as usize,
        ),
{
    lemma_ending_entries_are_entries_of_ending(
        prefixes_of(dict.patterns(), surface),
        dict.vals_data@,
        dict.is_system,
        false,
        surface.len() as usize,
    );
    law_whole_text_prefix_is_surface(dict.patterns(), surface);
}

/// What is found for a surface in an archive is what a prefix search in it finds up to its end.
pub proof fn law_archived_surface_is_the_longest_prefix(
    archive: &ArchivedPrefixDictionary,
    surface: Seq<u8>,
)
    requires
        surface.len() <= usize::MAX,
    ensures
        archive.surface_search(surface) == entries_ending_at(
            archive.prefix_search(surface),
            surface.len() as usize,
        ),
{
    lemma_ending_entries_are_entries_of_ending(
        prefixes_of(archive.patterns(), surface),
        archive.vals_data@,
        archive.is_system,
        true,
        surface.len() as usize,
    );
    law_whole_text_prefix_is_surface(archive.patterns(), surface);
}

/// The entries of the surfaces `text[..0]`, `text[..1]` and so on below `text[..n]`, each with
/// the end of its surface.
pub open spec fn surfaces_before(dict: &PrefixDictionary, text: Seq<u8>, n: nat) -> Seq<
    (usize, WordEntry),
>
    decreases n,
{
    if n == 0 {
        Seq::empty()
    } else {
        surfaces_before(dict, text, (n - 1) as nat) + with_end(
            (n - 1) as usize,
            dict.surface_search(text.take(n - 1)),
        )
    }
}

/// The entries of prefixes that all end at one place are those of their values.
proof fn lemma_prefix_entries_of_one_end(
    before: Seq<(usize, u32)>,
    values: Seq<u32>,
    end: usize,
    vals: Seq<u8>,
    is_system: bool,
)
    ensures
        prefix_entries(before + values.map_values(|v: u32| (end, v)), vals, is_system, false)
            == prefix_entries(before, vals, is_system, false) + with_end(
            end,
            value_entries(values, vals, is_system, false),
        ),
    decreases values.len(),
{
    let added = values.map_values(|v: u32| (end, v));
    if values.len() == 0 {
        assert(before + added == before);
        assert(value_entries(values, vals, is_system, false) == Seq::<WordEntry>::empty());
    } else {
        let fewer = values.drop_last();
        let fewer_added = fewer.map_values(|v: u32| (end, v));
        let last = values.last();
        lemma_prefix_entries_of_one_end(before, fewer, end, vals, is_system);
        assert(before + added == (before + fewer_added).push((end, last)));
        lemma_prefix_entries_push(before + fewer_added, (end, last), vals, is_system, false);
        assert(fewer.push(last) == values);
        lemma_value_entries_push(fewer, last, vals, is_system, false);
    }
}

proof fn lemma_prefix_search_joins_surfaces(dict: &PrefixDictionary, text: Seq<u8>, n: nat)
    ensures
        prefix_entries(
            prefixes_before(dict.patterns(), text, n),
            dict.vals_data@,
            dict.is_system,
            false,
        ) == surfaces_before(dict, text, n),
    decreases n,
{
    if n == 0 {
        assert(prefixes_before(dict.patterns(), text, n) == Seq::<(usize, u32)>::empty());
        assert(prefix_entries(
            Seq::<(usize, u32)>::empty(),
            dict.vals_data@,
            dict.is_system,
            false,
        ) == Seq::<(usize, WordEntry)>::empty());
    } else {
        let before = prefixes_before(dict.patterns(), text, (n - 1) as nat);
        let values = values_of(dict.patterns(), text.take(n - 1));
        let end = (n - 1) as usize;
        lemma_prefix_search_joins_surfaces(dict, text, (n - 1) as nat);
        lemma_prefix_entries_of_one_end(before, values, end, dict.vals_data@, dict.is_system);
        assert(prefixes_before(dict.patterns(), text, n) == before + values.map_values(
            |v: u32| (end, v),
        ));
    }
}

/// A prefix search joins what is found for each surface that the text starts with, from the empty
/// one to the whole text.
pub proof fn law_prefix_search_joins_surfaces(dict: &PrefixDictionary, text: Seq<u8>)
    ensures
        dict.prefix_search(text) == surfaces_before(dict, text, text.len() + 1),
{
    lemma_prefix_search_joins_surfaces(dict, text, text.len() + 1);
}

proof fn lemma_surfaces_before_contains(
    dict: &PrefixDictionary,
    text: Seq<u8>,
    n: nat,
    end: usize,
    entry: WordEntry,
)
    requires
        n <= text.len() + 1,
        text.len() <= usize::MAX,
    ensures
        surfaces_before(dict, text, n).contains((end, entry)) <==> end < n && dict.surface_search(
            text.take(end as int),
        ).contains(entry),
    decreases n,
{
    if n > 0 {
        let before = surfaces_before(dict, text, (n - 1) as nat);
        let here = dict.surface_search(text.take(n - 1));
        let added = with_end((n - 1) as usize, here);
        lemma_surfaces_before_contains(dict, text, (n - 1) as nat, end, entry);
        if before.contains((end, entry)) {
            let i = before.index_of((end, entry));
            assert((before + added)[i] == (end, entry));
        }
        if end == n - 1 && here.contains(entry) {
            let i = here.index_of(entry);
            assert((before + added)[before.len() + i] == (end, entry));
        }
        if (before + added).contains((end, entry)) {
            let i = (before + added).index_of((end, entry));
            if i < before.len() {
                assert(before[i] == (end, entry));
            } else {
                assert(added[i - before.len()] == (end, entry));
                assert(here[i - before.len()] == entry);
            }
        }
    }
}

/// A prefix search reports an entry with an end exactly if it is an entry of the surface that the
/// text has up to that end.
pub proof fn law_prefix_search_reports_exactly_the_surfaces(
    dict: &PrefixDictionary,
    text: Seq<u8>,
    end: usize,
    entry: WordEntry,
)
    requires
        text.len() <= usize::MAX,
    ensures
        dict.prefix_search(text).contains((end, entry)) <==> end <= text.len()
            && dict.surface_search(text.take(end as int)).contains(entry),
{
    law_prefix_search_joins_surfaces(dict, text);
    lemma_surfaces_before_contains(dict, text, text.len() + 1, end, entry);
}

proof fn lemma_surfaces_before_ascend(dict: &PrefixDictionary, text: Seq<u8>, n: nat)
    requires
        n <= text.len() + 1,
        text.len() <= usize::MAX,
    ensures
        forall|i: int|
            0 <= i < surfaces_before(dict, text, n).len() ==> (#[trigger] surfaces_before(
                dict,
                text,
                n,
            )[i]).0 < n,
        forall|i: int, j: int|
            0 <= i <= j < surfaces_before(dict, text, n).len() ==> (#[trigger] surfaces_before(
                dict,
                text,
                n,
            )[i]).0 <= (#[trigger] surfaces_before(dict, text, n)[j]).0,
    decreases n,
{
    if n > 0 {
        lemma_surfaces_before_ascend(dict, text, (n - 1) as nat);
        let before = surfaces_before(dict, text, (n - 1) as nat);
        let added = with_end((n - 1) as usize, dict.surface_search(text.take(n - 1)));
        let all = surfaces_before(dict, text, n);
        assert forall|i: int| 0 <= i < all.len() implies (#[trigger] all[i]).0 < n && (i
            >= before.len() ==> all[i].0 == n - 1) by {
            if i < before.len() {
                assert(all[i] == before[i]);
            } else {
                assert(all[i] == added[i - before.len()]);
            }
        }
        assert forall|i: int, j: int| 0 <= i <= j < all.len() implies (#[trigger] all[i]).0 <= (
        #[trigger] all[j]).0 by {
            if j < before.len() {
                assert(all[i] == before[i] && all[j] == before[j]);
            }
        }
    }
}

/// A prefix search reports shorter surfaces before longer ones, and none beyond the text.
pub proof fn law_prefix_ends_ascend(dict: &PrefixDictionary, text: Seq<u8>, i: int, j: int)
    requires
        text.len() <= usize::MAX,
        0 <= i <= j < dict.prefix_search(text).len(),
    ensures
        dict.prefix_search(text)[i].0 <= dict.prefix_search(text)[j].0 <= text.len(),
{
    law_prefix_search_joins_surfaces(dict, text);
    lemma_surfaces_before_ascend(dict, text, text.len() + 1);
    let found = surfaces_before(dict, text, text.len() + 1);
    assert(found[i].0 <= found[j].0);
}

/// A value whose entries are stored reads the same in a dictionary and in an archive of it.
proof fn lemma_stored_reads_alike(vals: Seq<u8>, is_system: bool, val: u32)
    requires
        in_range(vals, is_system, val),
    ensures
        entries_read(vals, is_system, true, val) == entries_read(vals, is_system, false, val),
        entries_stored(vals, is_system, val) == entries_of(vals, is_system, val),
{
    if starts_outside(vals, is_system, val) {
        assert(entry_count(is_system, val) == 0);
        assert(entries_of(vals, is_system, val) == Seq::<WordEntry>::empty());
    }
    assert(stored_count(vals, is_system, val) == entry_count(is_system, val));
    assert(entries_stored(vals, is_system, val) == entries_of(vals, is_system, val));
}

proof fn lemma_prefixes_read_alike(prefixes: Seq<(usize, u32)>, vals: Seq<u8>, is_system: bool)
    requires
        prefixes_readable(prefixes, vals, is_system, false),
    ensures
        prefixes_readable(prefixes, vals, is_system, true),
        prefix_entries(prefixes, vals, is_system, true) == prefix_entries(
            prefixes,
            vals,
            is_system,
            false,
        ),
    decreases prefixes.len(),
{
    if prefixes.len() == 0 {
        assert(prefix_entries(prefixes, vals, is_system, true) == Seq::<
            (usize, WordEntry),
        >::empty());
        assert(prefix_entries(prefixes, vals, is_system, false) == Seq::<
            (usize, WordEntry),
        >::empty());
    } else {
        let fewer = prefixes.drop_last();
        let last = prefixes.last();
        assert(fewer.push(last) == prefixes);
        assert(is_readable(vals, is_system, false, prefixes[prefixes.len() - 1].1));
        assert forall|i: int| 0 <= i < fewer.len() implies is_readable(
            vals,
            is_system,
            false,
            (#[trigger] fewer[i]).1,
        ) by {
            assert(fewer[i] == prefixes[i]);
        }
        lemma_prefixes_read_alike(fewer, vals, is_system);
        lemma_stored_reads_alike(vals, is_system, last.1);
        lemma_prefix_entries_push(fewer, last, vals, is_system, true);
        lemma_prefix_entries_push(fewer, last, vals, is_system, false);
    }
}

proof fn lemma_values_read_alike(values: Seq<u32>, vals: Seq<u8>, is_system: bool)
    requires
        values_readable(values, vals, is_system, false),
    ensures
        values_readable(values, vals, is_system, true),
        value_entries(values, vals, is_system, true) == value_entries(
            values,
            vals,
            is_system,
            false,
        ),
    decreases values.len(),
{
    if values.len() == 0 {
        assert(value_entries(values, vals, is_system, true) == Seq::<WordEntry>::empty());
        assert(value_entries(values, vals, is_system, false) == Seq::<WordEntry>::empty());
    } else {
        let fewer = values.drop_last();
        let last = values.last();
        assert(fewer.push(last) == values);
        assert(is_readable(vals, is_system, false, values[values.len() - 1]));
        assert forall|i: int| 0 <= i < fewer.len() implies is_readable(
            vals,
            is_system,
            false,
            #[trigger] fewer[i],
        ) by {
            assert(fewer[i] == values[i]);
        }
        lemma_values_read_alike(fewer, vals, is_system);
        lemma_stored_reads_alike(vals, is_system, last);
        lemma_value_entries_push(fewer, last, vals, is_system, true);
        lemma_value_entries_push(fewer, last, vals, is_system, false);
    }
}

/// An archive of a dictionary, whose automaton's bytes decode to the same automaton, answers
/// every prefix search that the dictionary can answer, and with the same entries.
pub proof fn law_archive_finds_the_same_prefixes(
    dict: &PrefixDictionary,
    archive: &ArchivedPrefixDictionary,
    text: Seq<u8>,
)
    requires
        is_encoding_of(archive.da@, dict.da),
        archive.vals_data@ == dict.vals_data@,
        archive.is_system == dict.is_system,
        dict.prefix_stored(text),
    ensures
        archive.prefix_stored(text),
        archive.prefix_search(text) == dict.prefix_search(text),
        archive.prefix_readings(text) == dict.prefix_readings(text),
{
    let prefixes = prefixes_of(dict.patterns(), text);
    lemma_prefix_readings_are_entries(prefixes, dict.vals_data@, dict.is_system, false);
    lemma_prefix_readings_are_entries(prefixes, dict.vals_data@, dict.is_system, true);
    lemma_prefixes_read_alike(
        prefixes_of(dict.patterns(), text),
        dict.vals_data@,
        dict.is_system,
    );
}

/// An archive of a dictionary, whose automaton's bytes decode to the same automaton, answers
/// every surface that the dictionary can answer, and with the same entries.
pub proof fn law_archive_finds_the_same_surfaces(
    dict: &PrefixDictionary,
    archive: &ArchivedPrefixDictionary,
    surface: Seq<u8>,
)
    requires
        is_encoding_of(archive.da@, dict.da),
        archive.vals_data@ == dict.vals_data@,
        archive.is_system == dict.is_system,
        dict.surface_stored(surface),
    ensures
        archive.surface_stored(surface),
        archive.surface_search(surface) == dict.surface_search(surface),
{
    lemma_values_read_alike(
        values_of(dict.patterns(), surface),
        dict.vals_data@,
        dict.is_system,
    );
}

/// The matches that report the entries of a prefix search.
pub open spec fn reported(found: Seq<(usize, WordEntry)>) -> Seq<Match> {
    found.map_values(|e: (usize, WordEntry)| match_of(e.0, e.1))
}

proof fn lemma_stored_matches_report_entries(
    prefixes: Seq<(usize, u32)>,
    vals: Seq<u8>,
    is_system: bool,
)
    requires
        prefixes_readable(prefixes, vals, is_system, false),
    ensures
        stored_matches(prefixes, vals, is_system) == reported(
            prefix_entries(prefixes, vals, is_system, false),
        ),
    decreases prefixes.len(),
{
    if prefixes.len() == 0 {
        assert(stored_matches(prefixes, vals, is_system) == Seq::<Match>::empty());
        assert(prefix_entries(prefixes, vals, is_system, false) == Seq::<
            (usize, WordEntry),
        >::empty());
    } else {
        let fewer = prefixes.drop_last();
        let last = prefixes.last();
        let entries = entries_of(vals, is_system, last.1);
        assert(fewer.push(last) == prefixes);
        assert(is_readable(vals, is_system, false, prefixes[prefixes.len() - 1].1));
        assert forall|i: int| 0 <= i < fewer.len() implies is_readable(
            vals,
            is_system,
            false,
            (#[trigger] fewer[i]).1,
        ) by {
            assert(fewer[i] == prefixes[i]);
        }
        lemma_stored_matches_report_entries(fewer, vals, is_system);
        lemma_stored_reads_alike(vals, is_system, last.1);
        lemma_stored_matches_push(fewer, last, vals, is_system);
        lemma_prefix_entries_push(fewer, last, vals, is_system, false);
        assert(reported(with_end(last.0, entries)) == matches_of(last.0, entries));
    }
}

/// Where all entries are stored, a common prefix search reports the word and the end of each
/// entry that a prefix search finds.
pub proof fn law_common_search_reports_the_prefix_search(dict: &PrefixDictionary, text: Seq<u8>)
    requires
        dict.prefix_stored(text),
    ensures
        dict.common_search(text) == reported(dict.prefix_search(text)),
{
    lemma_stored_matches_report_entries(
        prefixes_of(dict.patterns(), text),
        dict.vals_data@,
        dict.is_system,
    );
}

/// Decoding the bytes that serializing an automaton wrote succeeds, and gives an automaton that
/// serializes to the same bytes again, holds the same, can be searched if that one can, and is
/// sound if that one is.
pub proof fn law_deserialize_gives_back_what_was_serialized(
    da: DoubleArrayAhoCorasick<u32>,
    bytes: Seq<u8>,
    r: LinderaResult<DoubleArrayAhoCorasick<u32>>,
)
    requires
        is_encoding_of(bytes, da),
        decode_outcome(r, bytes),
    ensures
        r matches Ok(decoded) && {
            &&& is_searchable(decoded) == is_searchable(da)
            &&& registered_patterns(decoded) == registered_patterns(da)
            &&& sound_automaton(decoded) == sound_automaton(da)
            &&& automaton_bytes(decoded) == automaton_bytes(da)
        },
{
}

/// Decoding fails exactly on bytes that decode to nothing, with an error that says so.
pub proof fn law_decoding_fails_on_other_bytes(
    bytes: Seq<u8>,
    r: LinderaResult<DoubleArrayAhoCorasick<u32>>,
)
    requires
        decode_outcome(r, bytes),
    ensures
        r is Ok <==> decoded(bytes) is Some,
        r matches Err(err) ==> err.kind == LinderaErrorKind::Deserialize && err.message@
            == "InvalidAutomatonError: invalid serialized automaton"@,
{
}

/// A dictionary that is loaded from the bytes of an automaton, as serializing writes them, holds
/// what the automaton holds, can be searched if that can, is sound if that is, has an automaton
/// that serializes to the same bytes, and has the penalty of each word.
pub proof fn law_load_gives_back_what_was_serialized(
    da: DoubleArrayAhoCorasick<u32>,
    da_data: Seq<u8>,
    vals_data: Seq<u8>,
    words_idx_data: Seq<u8>,
    words_data: Seq<u8>,
    is_system: bool,
    r: LinderaResult<PrefixDictionary>,
    word_id: u32,
)
    requires
        is_encoding_of(da_data, da),
        load_outcome(r, da_data, vals_data, words_idx_data, words_data, is_system),
    ensures
        r matches Ok(dict) && {
            &&& dict.searchable() == is_searchable(da)
            &&& dict.sound() == sound_automaton(da)
            &&& automaton_bytes(dict.da) == automaton_bytes(da)
            &&& dict.patterns() == registered_patterns(da)
            &&& table_penalty(dict.space_penalty_table@, word_id) == word_penalty(
                words_idx_data,
                words_data,
                word_id,
            )
        },
{
    law_table_answers_as_details(words_idx_data, words_data, word_id);
}

/// Loading keeps each block of bytes as it is, and fails exactly on bytes that do not decode, with
/// an error that says so.
pub proof fn law_load_keeps_the_data(
    r: LinderaResult<PrefixDictionary>,
    da_data: Seq<u8>,
    vals_data: Seq<u8>,
    words_idx_data: Seq<u8>,
    words_data: Seq<u8>,
    is_system: bool,
)
    requires
        load_outcome(r, da_data, vals_data, words_idx_data, words_data, is_system),
    ensures
        r is Ok <==> decoded(da_data) is Some,
        r matches Ok(dict) ==> {
            &&& dict.vals_data@ == vals_data
            &&& dict.words_idx_data@ == words_idx_data
            &&& dict.words_data@ == words_data
            &&& dict.is_system == is_system
            &&& decoded(da_data) == Some(
                (
                    is_searchable(dict.da),
                    registered_patterns(dict.da),
                    sound_automaton(dict.da),
                    automaton_bytes(dict.da),
                ),
            )
        },
        r matches Err(err) ==> err.kind == LinderaErrorKind::Deserialize && err.message@
            == "InvalidAutomatonError: invalid serialized automaton"@,
{
}

/// A dictionary holds, and can be searched, as its automaton is; an archive as its bytes decode.
pub proof fn law_dictionary_is_as_its_automaton(
    dict: &PrefixDictionary,
    archive: &ArchivedPrefixDictionary,
)
    ensures
        dict.patterns() == registered_patterns(dict.da),
        dict.searchable() == is_searchable(dict.da),
        dict.sound() <==> built_bytes(listed_patterns(dict.da)) == Some(automaton_bytes(dict.da)),
        archive.decodes() <==> decoded(archive.da@) is Some,
        decoded(archive.da@) matches Some((searchable, patterns, sound, _)) ==> {
            &&& archive.searchable() == searchable
            &&& archive.patterns() == patterns
            &&& archive.sound() == sound
        },
{
}

/// A copy of a dictionary has the same data, penalties and automaton, and so gives the same
/// answers.
pub proof fn law_copy_gives_the_same_answers(
    copy: &PrefixDictionary,
    dict: &PrefixDictionary,
    text: Seq<u8>,
    word_id: u32,
)
    requires
        copy.same_as(dict),
    ensures
        copy.prefix_search(text) == dict.prefix_search(text),
        copy.prefix_readings(text) == dict.prefix_readings(text),
        copy.surface_search(text) == dict.surface_search(text),
        copy.common_search(text) == dict.common_search(text),
        copy.words_idx_data@ == dict.words_idx_data@,
        copy.words_data@ == dict.words_data@,
        copy.is_system == dict.is_system,
        copy.space_penalty_table@ == dict.space_penalty_table@,
        automaton_bytes(copy.da) == automaton_bytes(dict.da),
        is_searchable(copy.da) == is_searchable(dict.da),
        sound_automaton(copy.da) == sound_automaton(dict.da),
        table_penalty(copy.space_penalty_table@, word_id) == table_penalty(
            dict.space_penalty_table@,
            word_id,
        ),
{
}

/// A block of bytes holds the bytes that it was made of.
pub proof fn law_data_holds_its_bytes(bytes: Vec<u8>, embedded: &'static [u8])
    ensures
        Data::Owned(bytes)@ == bytes@,
        Data::Static(embedded)@ == embedded@,
{
}

/// Where a count of elements, times the largest of their sizes, is always a `usize`, no bytes are
/// refused for their counts, and decoding is left to the automaton alone.
pub proof fn law_wide_machines_refuse_no_counts(bytes: Seq<u8>)
    requires
        12 * u32::MAX <= usize::MAX,
    ensures
        decoded(bytes) == decoded_automaton(bytes),
{
    lemma_small_counts_fit(bytes, list_sizes());
}

proof fn lemma_small_counts_fit(bytes: Seq<u8>, sizes: Seq<usize>)
    requires
        12 * u32::MAX <= usize::MAX,
        forall|i: int| 0 <= i < sizes.len() ==> (#[trigger] sizes[i]) <= 12,
    ensures
        counts_fit(bytes, sizes),
    decreases sizes.len(),
{
    if sizes.len() > 0 && bytes.len() >= 4 {
        let count = le_u32(bytes.take(4));
        assert(sizes[0] <= 12);
        assert(count * sizes[0] <= 12 * u32::MAX) by (nonlinear_arith)
            requires
                count <= u32::MAX,
                sizes[0] <= 12,
        ;
        if 4 + count * sizes[0] <= bytes.len() {
            assert forall|i: int| 0 <= i < sizes.drop_first().len() implies (
            #[trigger] sizes.drop_first()[i]) <= 12 by {
                assert(sizes.drop_first()[i] == sizes[i + 1]);
            }
            lemma_small_counts_fit(bytes.skip(4 + count * sizes[0]), sizes.drop_first());
        }
    }
}

/// The number that the four bytes from `at` on hold, the lowest byte first.
pub open spec fn count_at(bytes: Seq<u8>, at: int) -> int {
    bytes[at] + 256 * bytes[at + 1] + 65536 * bytes[at + 2] + 16777216 * bytes[at + 3]
}

proof fn lemma_count_at(bytes: Seq<u8>, at: int)
    requires
        0 <= at <= bytes.len() - 4,
    ensures
        le_u32(bytes.skip(at).take(4)) == count_at(bytes, at),
{
    let four = bytes.skip(at).take(4);
    assert(four[0] == bytes[at]);
    assert(four[1] == bytes[at + 1]);
    assert(four[2] == bytes[at + 2]);
    assert(four[3] == bytes[at + 3]);
}

/// Bytes whose counts fit hold four lists, as far as they reach, of elements of 12, 8, 4 and 12
/// bytes, and the size of each list is a `usize`.
pub proof fn law_counts_that_fit(bytes: Seq<u8>, first: int, second: int, third: int)
    requires
        counts_fit(bytes, list_sizes()),
        first == 4 + 12 * count_at(bytes, 0),
        second == first + 4 + 8 * count_at(bytes, first),
        third == second + 4 + 4 * count_at(bytes, second),
    ensures
        4 <= bytes.len() ==> 12 * count_at(bytes, 0) <= usize::MAX,
        4 <= first <= bytes.len() - 4 ==> 8 * count_at(bytes, first) <= usize::MAX,
        4 <= first < second <= bytes.len() - 4 ==> 4 * count_at(bytes, second) <= usize::MAX,
        4 <= first < second < third <= bytes.len() - 4 ==> 12 * count_at(bytes, third)
            <= usize::MAX,
{
    let sizes = list_sizes();
    let fewer = sizes.drop_first();
    if 4 <= bytes.len() {
        assert(bytes.skip(0) == bytes);
        lemma_list_fits(bytes, 0, sizes, 12, first);
        if 4 <= first <= bytes.len() - 4 {
            lemma_list_fits(bytes, first, fewer, 8, second);
            if first < second <= bytes.len() - 4 {
                lemma_list_fits(bytes, second, fewer.drop_first(), 4, third);
                if second < third <= bytes.len() - 4 {
                    lemma_list_fits(
                        bytes,
                        third,
                        fewer.drop_first().drop_first(),
                        12,
                        third + 4 + 12 * count_at(bytes, third),
                    );
                }
            }
        }
    }
}

/// The list from `at` to `end` fits, and so do those behind it.
proof fn lemma_list_fits(bytes: Seq<u8>, at: int, sizes: Seq<usize>, size: usize, end: int)
    requires
        0 <= at <= bytes.len() - 4,
        counts_fit(bytes.skip(at), sizes),
        sizes.len() > 0,
        sizes[0] == size,
        end == at + 4 + size * count_at(bytes, at),
    ensures
        size * count_at(bytes, at) <= usize::MAX,
        at < end,
        end <= bytes.len() ==> counts_fit(bytes.skip(end), sizes.drop_first()),
{
    let left = bytes.skip(at);
    let count = count_at(bytes, at);
    lemma_count_at(bytes, at);
    assert(size * count == count * size && size * count >= 0) by (nonlinear_arith)
        requires
            count >= 0,
    ;
    if end <= bytes.len() {
        assert(left.skip(end - at) == bytes.skip(end));
    }
}

/// Bytes that are refused for their counts hold, somewhere, a count of which that many elements
/// would not fit into the memory of the machine.
pub proof fn law_refused_count_is_too_large(bytes: Seq<u8>)
    requires
        !counts_fit(bytes, list_sizes()),
    ensures
        exists|at: int|
            0 <= at <= bytes.len() - 4 && 12 * (#[trigger] count_at(bytes, at)) > usize::MAX,
{
    let sizes = list_sizes();
    assert(sizes[0] == 12 && sizes[1] == 8 && sizes[2] == 4 && sizes[3] == 12);
    assert(bytes.skip(0) == bytes);
    lemma_refused_count(bytes, 0, sizes);
}

proof fn lemma_refused_count(bytes: Seq<u8>, at: int, sizes: Seq<usize>)
    requires
        0 <= at <= bytes.len(),
        !counts_fit(bytes.skip(at), sizes),
        forall|i: int| 0 <= i < sizes.len() ==> (#[trigger] sizes[i]) <= 12,
    ensures
        exists|p: int|
            0 <= p <= bytes.len() - 4 && 12 * (#[trigger] count_at(bytes, p)) > usize::MAX,
    decreases sizes.len(),
{
    let left = bytes.skip(at);
    let count = count_at(bytes, at);
    let size = sizes[0];
    lemma_count_at(bytes, at);
    assert(size <= 12);
    assert(0 <= count * size <= 12 * count) by (nonlinear_arith)
        requires
            0 <= count,
            size <= 12,
    ;
    if count * size <= usize::MAX {
        let end = at + 4 + count * size;
        assert(left.skip(4 + count * size) == bytes.skip(end));
        assert forall|i: int| 0 <= i < sizes.drop_first().len() implies (
        #[trigger] sizes.drop_first()[i]) <= 12 by {
            assert(sizes.drop_first()[i] == sizes[i + 1]);
        }
        lemma_refused_count(bytes, end, sizes.drop_first());
    }
}

/// Registering pairs of pattern and value gives each pattern its values in the order of the
/// pairs.
pub proof fn law_registered_values(pairs: Seq<(Seq<u8>, u32)>, pattern: Seq<u8>)
    ensures
        values_of(group_patterns(pairs), pattern) == pairs.filter(
            |pair: (Seq<u8>, u32)| pair.0 == pattern,
        ).map_values(|pair: (Seq<u8>, u32)| pair.1),
    decreases pairs.len(),
{
    reveal(Seq::filter);
    if pairs.len() > 0 {
        law_registered_values(pairs.drop_last(), pattern);
        let pred = |pair: (Seq<u8>, u32)| pair.0 == pattern;
        let fewer = pairs.drop_last().filter(pred);
        assert(fewer.push(pairs.last()).map_values(|pair: (Seq<u8>, u32)| pair.1)
            == fewer.map_values(|pair: (Seq<u8>, u32)| pair.1).push(pairs.last().1));
    }
}

} // verus!
