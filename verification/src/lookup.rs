//! From the matches of a search to the word entries that it finds.

use crate::automaton::{prefixes_before, prefixes_of, values_of};
use crate::entry::WordEntry;
use crate::options::{all_some, lemma_all_some_add, somes};
use crate::values::{
    entries_read, entries_stored, is_readable, lemma_unreadable_fails, read_stored, readings,
};
use vstd::prelude::*;

verus! {

/// A word found by a common prefix search.
#[derive(Debug)]
pub struct Match {
    pub word_idx: WordIdx,
    /// Where the prefix ends, in bytes of the UTF-8 encoding of the text.
    pub end_char: usize,
}

impl Clone for Match {
    fn clone(&self) -> (r: Self)
        ensures
            r == *self,
    {
        Match { word_idx: self.word_idx, end_char: self.end_char }
    }
}

/// The id of a word.
#[derive(Debug, Clone, Copy)]
pub struct WordIdx {
    pub word_id: u32,
}

impl WordIdx {
    /// Wraps a word's id.
    pub fn new(word_id: u32) -> (r: Self)
        ensures
            r.word_id == word_id,
    {
        Self { word_id }
    }
}

/// Each entry with the end of the prefix that it was found for.
pub open spec fn with_end(end: usize, entries: Seq<WordEntry>) -> Seq<(usize, WordEntry)> {
    entries.map_values(|entry: WordEntry| (end, entry))
}

/// The entries of each prefix `(end, value)`, in the order of the prefixes.
pub open spec fn prefix_entries(
    prefixes: Seq<(usize, u32)>,
    vals: Seq<u8>,
    is_system: bool,
    archived: bool,
) -> Seq<(usize, WordEntry)> {
    prefixes.flat_map(
        |prefix: (usize, u32)|
            with_end(prefix.0, entries_read(vals, is_system, archived, prefix.1)),
    )
}

/// Whether the entries of each prefix can be read.
pub open spec fn prefixes_readable(
    prefixes: Seq<(usize, u32)>,
    vals: Seq<u8>,
    is_system: bool,
    archived: bool,
) -> bool {
    forall|i: int|
        0 <= i < prefixes.len() ==> is_readable(
            vals,
            is_system,
            archived,
            (#[trigger] prefixes[i]).1,
        )
}

/// The entries of each value, in the order of the values.
pub open spec fn value_entries(
    values: Seq<u32>,
    vals: Seq<u8>,
    is_system: bool,
    archived: bool,
) -> Seq<WordEntry> {
    values.flat_map(|val: u32| entries_read(vals, is_system, archived, val))
}

/// Whether the entries of each value can be read.
pub open spec fn values_readable(
    values: Seq<u32>,
    vals: Seq<u8>,
    is_system: bool,
    archived: bool,
) -> bool {
    forall|i: int|
        0 <= i < values.len() ==> is_readable(vals, is_system, archived, #[trigger] values[i])
}

/// A reading with the end of the prefix that it was made for.
pub open spec fn reading_with_end(end: usize, reading: Option<WordEntry>) -> Option<
    (usize, WordEntry),
> {
    match reading {
        Some(entry) => Some((end, entry)),
        None => None,
    }
}

/// What reading the entries of a prefix `(end, value)` one after another gives.
pub open spec fn readings_of_prefix(
    prefix: (usize, u32),
    vals: Seq<u8>,
    is_system: bool,
    archived: bool,
) -> Seq<Option<(usize, WordEntry)>> {
    readings(vals, is_system, archived, prefix.1).map_values(
        |reading: Option<WordEntry>| reading_with_end(prefix.0, reading),
    )
}

/// What reading the entries of each prefix one after another gives, in the order of the prefixes.
pub open spec fn prefix_readings(
    prefixes: Seq<(usize, u32)>,
    vals: Seq<u8>,
    is_system: bool,
    archived: bool,
) -> Seq<Option<(usize, WordEntry)>> {
    prefixes.flat_map(
        |prefix: (usize, u32)| readings_of_prefix(prefix, vals, is_system, archived),
    )
}

/// What reading the entries of each value one after another gives, in the order of the values.
pub open spec fn value_readings(
    values: Seq<u32>,
    vals: Seq<u8>,
    is_system: bool,
    archived: bool,
) -> Seq<Option<WordEntry>> {
    values.flat_map(|val: u32| readings(vals, is_system, archived, val))
}

/// The values of the prefixes that end at `len`.
pub open spec fn ending_at(prefixes: Seq<(usize, u32)>, len: usize) -> Seq<u32> {
    prefixes.filter(|prefix: (usize, u32)| prefix.0 == len).map_values(
        |prefix: (usize, u32)| prefix.1,
    )
}

/// The match that reports `entry` for a prefix that ends at `end`.
pub open spec fn match_of(end: usize, entry: WordEntry) -> Match {
    Match { word_idx: WordIdx { word_id: entry.word_id.id }, end_char: end }
}

/// A match for each entry found for a prefix that ends at `end`.
pub open spec fn matches_of(end: usize, entries: Seq<WordEntry>) -> Seq<Match> {
    entries.map_values(|entry: WordEntry| match_of(end, entry))
}

/// A match for each entry of each prefix that is stored whole, in the order of the prefixes.
pub open spec fn stored_matches(
    prefixes: Seq<(usize, u32)>,
    vals: Seq<u8>,
    is_system: bool,
) -> Seq<Match> {
    prefixes.flat_map(
        |prefix: (usize, u32)|
            matches_of(prefix.0, entries_stored(vals, is_system, prefix.1)),
    )
}

/// One more prefix adds its entries.
pub proof fn lemma_prefix_entries_push(
    prefixes: Seq<(usize, u32)>,
    prefix: (usize, u32),
    vals: Seq<u8>,
    is_system: bool,
    archived: bool,
)
    ensures
        prefix_entries(prefixes.push(prefix), vals, is_system, archived) == prefix_entries(
            prefixes,
            vals,
            is_system,
            archived,
        ) + with_end(prefix.0, entries_read(vals, is_system, archived, prefix.1)),
{
    prefixes.lemma_flat_map_push(
        |prefix: (usize, u32)|
            with_end(prefix.0, entries_read(vals, is_system, archived, prefix.1)),
        prefix,
    );
}

/// One more value adds its entries.
pub proof fn lemma_value_entries_push(
    values: Seq<u32>,
    val: u32,
    vals: Seq<u8>,
    is_system: bool,
    archived: bool,
)
    ensures
        value_entries(values.push(val), vals, is_system, archived) == value_entries(
            values,
            vals,
            is_system,
            archived,
        ) + entries_read(vals, is_system, archived, val),
{
    values.lemma_flat_map_push(
        |val: u32| entries_read(vals, is_system, archived, val),
        val,
    );
}

/// One more prefix adds its readings.
pub proof fn lemma_prefix_readings_push(
    prefixes: Seq<(usize, u32)>,
    prefix: (usize, u32),
    vals: Seq<u8>,
    is_system: bool,
    archived: bool,
)
    ensures
        prefix_readings(prefixes.push(prefix), vals, is_system, archived) == prefix_readings(
            prefixes,
            vals,
            is_system,
            archived,
        ) + readings_of_prefix(prefix, vals, is_system, archived),
{
    prefixes.lemma_flat_map_push(
        |prefix: (usize, u32)| readings_of_prefix(prefix, vals, is_system, archived),
        prefix,
    );
}

/// The readings of the first prefix come first.
pub proof fn lemma_prefix_readings_first(
    prefixes: Seq<(usize, u32)>,
    vals: Seq<u8>,
    is_system: bool,
    archived: bool,
)
    requires
        prefixes.len() > 0,
    ensures
        prefix_readings(prefixes, vals, is_system, archived) == readings_of_prefix(
            prefixes[0],
            vals,
            is_system,
            archived,
        ) + prefix_readings(prefixes.drop_first(), vals, is_system, archived),
{
    let f = |prefix: (usize, u32)| readings_of_prefix(prefix, vals, is_system, archived);
    assert(prefixes.map_values(f).drop_first() == prefixes.drop_first().map_values(f));
}

/// One more value adds its readings.
pub proof fn lemma_value_readings_push(
    values: Seq<u32>,
    val: u32,
    vals: Seq<u8>,
    is_system: bool,
    archived: bool,
)
    ensures
        value_readings(values.push(val), vals, is_system, archived) == value_readings(
            values,
            vals,
            is_system,
            archived,
        ) + readings(vals, is_system, archived, val),
{
    values.lemma_flat_map_push(|val: u32| readings(vals, is_system, archived, val), val);
}

/// Reading the prefixes one after another succeeds throughout exactly if the entries of each can
/// be read, and then gives these entries.
pub proof fn lemma_prefix_readings_are_entries(
    prefixes: Seq<(usize, u32)>,
    vals: Seq<u8>,
    is_system: bool,
    archived: bool,
)
    ensures
        all_some(prefix_readings(prefixes, vals, is_system, archived)) <==> prefixes_readable(
            prefixes,
            vals,
            is_system,
            archived,
        ),
        prefixes_readable(prefixes, vals, is_system, archived) ==> prefix_readings(
            prefixes,
            vals,
            is_system,
            archived,
        ) == somes(prefix_entries(prefixes, vals, is_system, archived)),
    decreases prefixes.len(),
{
    if prefixes.len() == 0 {
        assert(prefix_readings(prefixes, vals, is_system, archived) == Seq::<
            Option<(usize, WordEntry)>,
        >::empty());
        assert(prefix_entries(prefixes, vals, is_system, archived) == Seq::<
            (usize, WordEntry),
        >::empty());
    } else {
        let fewer = prefixes.drop_last();
        let last = prefixes.last();
        let read = readings(vals, is_system, archived, last.1);
        let added = readings_of_prefix(last, vals, is_system, archived);
        assert(fewer.push(last) == prefixes);
        lemma_prefix_readings_are_entries(fewer, vals, is_system, archived);
        lemma_prefix_readings_push(fewer, last, vals, is_system, archived);
        lemma_prefix_entries_push(fewer, last, vals, is_system, archived);
        lemma_all_some_add(prefix_readings(fewer, vals, is_system, archived), added);
        assert(prefixes_readable(prefixes, vals, is_system, archived) <==> prefixes_readable(
            fewer,
            vals,
            is_system,
            archived,
        ) && is_readable(vals, is_system, archived, last.1)) by {
            if prefixes_readable(prefixes, vals, is_system, archived) {
                assert(is_readable(vals, is_system, archived, prefixes[prefixes.len() - 1].1));
                assert forall|i: int| 0 <= i < fewer.len() implies is_readable(
                    vals,
                    is_system,
                    archived,
                    (#[trigger] fewer[i]).1,
                ) by {
                    assert(fewer[i] == prefixes[i]);
                }
            }
        }
        if is_readable(vals, is_system, archived, last.1) {
            let entries = entries_read(vals, is_system, archived, last.1);
            assert(added == somes(with_end(last.0, entries)));
        } else {
            lemma_unreadable_fails(vals, is_system, archived, last.1);
            let i = choose|i: int| 0 <= i < read.len() && (#[trigger] read[i]) is None;
            assert(added[i] is None);
        }
    }
}

/// Reading the values one after another succeeds throughout exactly if the entries of each can be
/// read, and then gives these entries.
pub proof fn lemma_value_readings_are_entries(
    values: Seq<u32>,
    vals: Seq<u8>,
    is_system: bool,
    archived: bool,
)
    ensures
        all_some(value_readings(values, vals, is_system, archived)) <==> values_readable(
            values,
            vals,
            is_system,
            archived,
        ),
        values_readable(values, vals, is_system, archived) ==> value_readings(
            values,
            vals,
            is_system,
            archived,
        ) == somes(value_entries(values, vals, is_system, archived)),
    decreases values.len(),
{
    if values.len() == 0 {
        assert(value_readings(values, vals, is_system, archived) == Seq::<
            Option<WordEntry>,
        >::empty());
        assert(value_entries(values, vals, is_system, archived) == Seq::<WordEntry>::empty());
    } else {
        let fewer = values.drop_last();
        let last = values.last();
        let added = readings(vals, is_system, archived, last);
        assert(fewer.push(last) == values);
        lemma_value_readings_are_entries(fewer, vals, is_system, archived);
        lemma_value_readings_push(fewer, last, vals, is_system, archived);
        lemma_value_entries_push(fewer, last, vals, is_system, archived);
        lemma_all_some_add(value_readings(fewer, vals, is_system, archived), added);
        if values_readable(values, vals, is_system, archived) {
            assert(is_readable(vals, is_system, archived, values[values.len() - 1]));
            assert forall|i: int| 0 <= i < fewer.len() implies is_readable(
                vals,
                is_system,
                archived,
                #[trigger] fewer[i],
            ) by {
                assert(fewer[i] == values[i]);
            }
        }
        if !is_readable(vals, is_system, archived, last) {
            lemma_unreadable_fails(vals, is_system, archived, last);
        }
    }
}

/// One more prefix adds a match for each of its stored entries.
pub proof fn lemma_stored_matches_push(
    prefixes: Seq<(usize, u32)>,
    prefix: (usize, u32),
    vals: Seq<u8>,
    is_system: bool,
)
    ensures
        stored_matches(prefixes.push(prefix), vals, is_system) == stored_matches(
            prefixes,
            vals,
            is_system,
        ) + matches_of(prefix.0, entries_stored(vals, is_system, prefix.1)),
{
    prefixes.lemma_flat_map_push(
        |prefix: (usize, u32)|
            matches_of(prefix.0, entries_stored(vals, is_system, prefix.1)),
        prefix,
    );
}

/// Where no entries are stored, a common prefix search finds nothing, whatever the surfaces.
pub proof fn law_nothing_stored_nothing_found(
    prefixes: Seq<(usize, u32)>,
    vals: Seq<u8>,
    is_system: bool,
)
    requires
        vals.len() == 0,
    ensures
        stored_matches(prefixes, vals, is_system) == Seq::<Match>::empty(),
    decreases prefixes.len(),
{
    if prefixes.len() > 0 {
        let last = prefixes.last();
        law_nothing_stored_nothing_found(prefixes.drop_last(), vals, is_system);
        lemma_stored_matches_push(prefixes.drop_last(), last, vals, is_system);
        assert(prefixes.drop_last().push(last) == prefixes);
        assert(matches_of(last.0, entries_stored(vals, is_system, last.1)) == Seq::<
            Match,
        >::empty());
    }
}

/// One more prefix adds its value to those of the prefixes that end where it ends.
pub proof fn lemma_ending_at_push(prefixes: Seq<(usize, u32)>, prefix: (usize, u32), len: usize)
    ensures
        ending_at(prefixes.push(prefix), len) == if prefix.0 == len {
            ending_at(prefixes, len).push(prefix.1)
        } else {
            ending_at(prefixes, len)
        },
{
    let pred = |prefix: (usize, u32)| prefix.0 == len;
    reveal(Seq::filter);
    assert(prefixes.push(prefix).drop_last() == prefixes);
    assert(prefixes.push(prefix).filter(pred) == if prefix.0 == len {
        prefixes.filter(pred).push(prefix)
    } else {
        prefixes.filter(pred)
    });
}

proof fn lemma_ending_at_add(a: Seq<(usize, u32)>, b: Seq<(usize, u32)>, len: usize)
    ensures
        ending_at(a + b, len) == ending_at(a, len) + ending_at(b, len),
{
    Seq::filter_distributes_over_add(a, b, |prefix: (usize, u32)| prefix.0 == len);
}

proof fn lemma_ending_at_none(s: Seq<(usize, u32)>, len: usize)
    requires
        forall|i: int| 0 <= i < s.len() ==> (#[trigger] s[i]).0 != len,
    ensures
        ending_at(s, len) == Seq::<u32>::empty(),
    decreases s.len(),
{
    if s.len() == 0 {
        reveal(Seq::filter);
    } else {
        lemma_ending_at_none(s.drop_last(), len);
        lemma_ending_at_push(s.drop_last(), s.last(), len);
        assert(s.drop_last().push(s.last()) == s);
    }
}

proof fn lemma_ending_at_all(s: Seq<(usize, u32)>, len: usize)
    requires
        forall|i: int| 0 <= i < s.len() ==> (#[trigger] s[i]).0 == len,
    ensures
        ending_at(s, len) == s.map_values(|prefix: (usize, u32)| prefix.1),
    decreases s.len(),
{
    if s.len() == 0 {
        reveal(Seq::filter);
    } else {
        lemma_ending_at_all(s.drop_last(), len);
        lemma_ending_at_push(s.drop_last(), s.last(), len);
        assert(s.drop_last().push(s.last()) == s);
    }
}

proof fn lemma_none_ends_later(
    patterns: Map<Seq<u8>, Seq<u32>>,
    text: Seq<u8>,
    n: nat,
    len: usize,
)
    requires
        n <= len,
    ensures
        ending_at(prefixes_before(patterns, text, n), len) == Seq::<u32>::empty(),
    decreases n,
{
    if n == 0 {
        lemma_ending_at_none(prefixes_before(patterns, text, n), len);
    } else {
        let last = values_of(patterns, text.take(n - 1)).map_values(
            |value: u32| ((n - 1) as usize, value),
        );
        lemma_none_ends_later(patterns, text, (n - 1) as nat, len);
        lemma_ending_at_none(last, len);
        lemma_ending_at_add(prefixes_before(patterns, text, (n - 1) as nat), last, len);
    }
}

/// Of the patterns that a text starts with, those that end where the text ends are the text
/// itself: what is found for a surface are the values registered for it, and no others.
pub proof fn law_whole_text_prefix_is_surface(patterns: Map<Seq<u8>, Seq<u32>>, text: Seq<u8>)
    requires
        text.len() <= usize::MAX,
    ensures
        ending_at(prefixes_of(patterns, text), text.len() as usize) == values_of(patterns, text),
{
    let len = text.len() as usize;
    let last = values_of(patterns, text.take(text.len() as int)).map_values(
        |value: u32| (len, value),
    );
    assert(text.take(text.len() as int) == text);
    lemma_none_ends_later(patterns, text, text.len(), len);
    lemma_ending_at_all(last, len);
    lemma_ending_at_add(prefixes_before(patterns, text, text.len()), last, len);
    assert(prefixes_of(patterns, text) == prefixes_before(patterns, text, text.len()) + last);
    assert(ending_at(last, len) == values_of(patterns, text));
}

/// The prefixes that end at `len`, in their order.
pub fn keep_ending_at(prefixes: &Vec<(usize, u32)>, len: usize) -> (r: Vec<(usize, u32)>)
    ensures
        r@.map_values(|prefix: (usize, u32)| prefix.1) == ending_at(prefixes@, len),
{
    let mut r: Vec<(usize, u32)> = Vec::new();
    let mut i: usize = 0;
    proof {
        lemma_ending_at_none(prefixes@.take(0), len);
    }
    while i < prefixes.len()
        invariant
            i <= prefixes@.len(),
            r@.map_values(|prefix: (usize, u32)| prefix.1) == ending_at(
                prefixes@.take(i as int),
                len,
            ),
        decreases prefixes@.len() - i,
    {
        let prefix = prefixes[i];
        proof {
            assert(prefixes@.take(i + 1) == prefixes@.take(i as int).push(prefixes@[i as int]));
            lemma_ending_at_push(prefixes@.take(i as int), prefixes@[i as int], len);
        }
        if prefix.0 == len {
            r.push(prefix);
        }
        i += 1;
    }
    assert(prefixes@.take(i as int) == prefixes@);
    r
}

/// A match for each entry of each prefix that is stored whole.
pub fn read_stored_matches(prefixes: &Vec<(usize, u32)>, vals: &[u8], is_system: bool) -> (r: Vec<
    Match,
>)
    ensures
        r@ == stored_matches(prefixes@, vals@, is_system),
{
    let mut out: Vec<Match> = Vec::new();
    let mut i: usize = 0;
    while i < prefixes.len()
        invariant
            i <= prefixes@.len(),
            out@ == stored_matches(prefixes@.take(i as int), vals@, is_system),
        decreases prefixes@.len() - i,
    {
        let (end, val) = prefixes[i];
        let entries = read_stored(vals, is_system, val);
        let ghost before = out@;
        let mut k: usize = 0;
        while k < entries.len()
            invariant
                k <= entries@.len(),
                out@ == before + matches_of(end, entries@.take(k as int)),
            decreases entries@.len() - k,
        {
            assert(entries@.take(k + 1) == entries@.take(k as int).push(entries@[k as int]));
            out.push(Match { word_idx: WordIdx::new(entries[k].word_id.id), end_char: end });
            k += 1;
        }
        assert(entries@.take(k as int) == entries@);
        proof {
            assert(prefixes@.take(i + 1) == prefixes@.take(i as int).push(prefixes@[i as int]));
            lemma_stored_matches_push(
                prefixes@.take(i as int),
                prefixes@[i as int],
                vals@,
                is_system,
            );
        }
        i += 1;
    }
    assert(prefixes@.take(i as int) == prefixes@);
    out
}

} // verus!
