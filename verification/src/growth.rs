//! What a search finds in a text that grows.

use crate::archived::ArchivedPrefixDictionary;
use crate::automaton::{prefixes_before, prefixes_of, values_of};
use crate::dictionary::PrefixDictionary;
use crate::entry::WordEntry;
use crate::lookup::{
    matches_of, prefix_entries, prefix_readings, readings_of_prefix, with_end, Match,
};
use crate::values::{entries_read, entries_stored};
use vstd::prelude::*;

verus! {

/// Whether `longer` is `shorter` with elements appended that all satisfy `added`.
pub open spec fn appends<A>(shorter: Seq<A>, longer: Seq<A>, added: spec_fn(A) -> bool) -> bool {
    &&& shorter.len() <= longer.len()
    &&& longer.take(shorter.len() as int) == shorter
    &&& forall|i: int| shorter.len() <= i < longer.len() ==> added(#[trigger] longer[i])
}

/// A longer text starts with the same patterns up to a length that the shorter one has.
pub proof fn lemma_same_prefixes_before(
    patterns: Map<Seq<u8>, Seq<u32>>,
    text: Seq<u8>,
    more: Seq<u8>,
    n: nat,
)
    requires
        n <= text.len() + 1,
    ensures
        prefixes_before(patterns, text + more, n) == prefixes_before(patterns, text, n),
    decreases n,
{
    if n > 0 {
        lemma_same_prefixes_before(patterns, text, more, (n - 1) as nat);
        assert((text + more).take(n - 1) == text.take(n - 1));
    }
}

proof fn lemma_prefixes_append(
    patterns: Map<Seq<u8>, Seq<u32>>,
    text: Seq<u8>,
    more: Seq<u8>,
    n: nat,
)
    requires
        text.len() + 1 <= n <= (text + more).len() + 1,
        (text + more).len() <= usize::MAX,
    ensures
        appends(
            prefixes_of(patterns, text),
            prefixes_before(patterns, text + more, n),
            |prefix: (usize, u32)| prefix.0 > text.len(),
        ),
    decreases n,
{
    let shorter = prefixes_of(patterns, text);
    let longer = prefixes_before(patterns, text + more, n);
    if n == text.len() + 1 {
        lemma_same_prefixes_before(patterns, text, more, n);
        assert(longer.take(shorter.len() as int) == shorter);
    } else {
        let before = prefixes_before(patterns, text + more, (n - 1) as nat);
        let last = values_of(patterns, (text + more).take(n - 1)).map_values(
            |value: u32| ((n - 1) as usize, value),
        );
        lemma_prefixes_append(patterns, text, more, (n - 1) as nat);
        assert(longer == before + last);
        assert(longer.take(shorter.len() as int) == before.take(shorter.len() as int));
        assert forall|i: int| shorter.len() <= i < longer.len() implies (#[trigger] longer[i]).0
            > text.len() by {
            if i < before.len() {
                assert(longer[i] == before[i]);
            } else {
                assert(longer[i] == last[i - before.len()]);
            }
        }
    }
}

/// A longer text starts with the same patterns, and further ones that are longer than the shorter
/// text.
pub proof fn law_longer_text_has_further_prefixes(
    patterns: Map<Seq<u8>, Seq<u32>>,
    text: Seq<u8>,
    more: Seq<u8>,
)
    requires
        (text + more).len() <= usize::MAX,
    ensures
        appends(
            prefixes_of(patterns, text),
            prefixes_of(patterns, text + more),
            |prefix: (usize, u32)| prefix.0 > text.len(),
        ),
{
    lemma_prefixes_append(patterns, text, more, (text + more).len() + 1);
}

/// Appended elements append what is made of them.
proof fn lemma_flat_map_appends<A, B>(
    shorter: Seq<A>,
    longer: Seq<A>,
    f: spec_fn(A) -> Seq<B>,
    added: spec_fn(A) -> bool,
    made: spec_fn(B) -> bool,
)
    requires
        appends(shorter, longer, added),
        forall|a: A, j: int|
            added(a) && 0 <= j < f(a).len() ==> made(#[trigger] f(a)[j]),
    ensures
        appends(shorter.flat_map(f), longer.flat_map(f), made),
    decreases longer.len(),
{
    let before = shorter.flat_map(f);
    if longer.len() == shorter.len() {
        assert(longer.take(shorter.len() as int) == longer);
        assert(before.take(before.len() as int) == before);
    } else {
        let fewer = longer.drop_last();
        let last = longer.last();
        assert(fewer.take(shorter.len() as int) == longer.take(shorter.len() as int));
        assert forall|i: int| shorter.len() <= i < fewer.len() implies added(
            #[trigger] fewer[i],
        ) by {
            assert(fewer[i] == longer[i]);
        }
        lemma_flat_map_appends(shorter, fewer, f, added, made);
        fewer.lemma_flat_map_push(f, last);
        assert(fewer.push(last) == longer);
        assert(added(longer[longer.len() - 1]));
        let all = longer.flat_map(f);
        assert(all == fewer.flat_map(f) + f(last));
        assert(all.take(before.len() as int) == fewer.flat_map(f).take(before.len() as int));
        assert forall|i: int| before.len() <= i < all.len() implies made(#[trigger] all[i]) by {
            if i < fewer.flat_map(f).len() {
                assert(all[i] == fewer.flat_map(f)[i]);
            } else {
                assert(all[i] == f(last)[i - fewer.flat_map(f).len()]);
            }
        }
    }
}

/// The entries of appended prefixes are appended, and end where these do.
proof fn lemma_entries_append(
    shorter: Seq<(usize, u32)>,
    longer: Seq<(usize, u32)>,
    vals: Seq<u8>,
    is_system: bool,
    archived: bool,
    len: nat,
)
    requires
        appends(shorter, longer, |prefix: (usize, u32)| prefix.0 > len),
    ensures
        appends(
            prefix_entries(shorter, vals, is_system, archived),
            prefix_entries(longer, vals, is_system, archived),
            |found: (usize, WordEntry)| found.0 > len,
        ),
{
    lemma_flat_map_appends(
        shorter,
        longer,
        |prefix: (usize, u32)|
            with_end(prefix.0, entries_read(vals, is_system, archived, prefix.1)),
        |prefix: (usize, u32)| prefix.0 > len,
        |found: (usize, WordEntry)| found.0 > len,
    );
}

/// Whether a reading that succeeds gives an entry that ends behind `len`.
pub open spec fn reads_behind(reading: Option<(usize, WordEntry)>, len: nat) -> bool {
    reading matches Some((end, _)) ==> end > len
}

/// The readings of appended prefixes are appended, and end where these do.
proof fn lemma_readings_append(
    shorter: Seq<(usize, u32)>,
    longer: Seq<(usize, u32)>,
    vals: Seq<u8>,
    is_system: bool,
    archived: bool,
    len: nat,
)
    requires
        appends(shorter, longer, |prefix: (usize, u32)| prefix.0 > len),
    ensures
        appends(
            prefix_readings(shorter, vals, is_system, archived),
            prefix_readings(longer, vals, is_system, archived),
            |reading: Option<(usize, WordEntry)>| reads_behind(reading, len),
        ),
{
    lemma_flat_map_appends(
        shorter,
        longer,
        |prefix: (usize, u32)| readings_of_prefix(prefix, vals, is_system, archived),
        |prefix: (usize, u32)| prefix.0 > len,
        |reading: Option<(usize, WordEntry)>| reads_behind(reading, len),
    );
}

/// In a longer text a prefix search finds the same entries, and appends only entries of surfaces
/// that are longer than the shorter text. So it is with what is read one after another.
pub proof fn law_longer_text_appends_entries(dict: &PrefixDictionary, text: Seq<u8>, more: Seq<u8>)
    requires
        (text + more).len() <= usize::MAX,
    ensures
        appends(
            dict.prefix_search(text),
            dict.prefix_search(text + more),
            |found: (usize, WordEntry)| found.0 > text.len(),
        ),
        appends(
            dict.prefix_readings(text),
            dict.prefix_readings(text + more),
            |reading: Option<(usize, WordEntry)>| reads_behind(reading, text.len()),
        ),
{
    let shorter = prefixes_of(dict.patterns(), text);
    let longer = prefixes_of(dict.patterns(), text + more);
    law_longer_text_has_further_prefixes(dict.patterns(), text, more);
    lemma_entries_append(shorter, longer, dict.vals_data@, dict.is_system, false, text.len());
    lemma_readings_append(shorter, longer, dict.vals_data@, dict.is_system, false, text.len());
}

/// In a longer text a prefix search in an archive finds the same entries, and appends only entries
/// of surfaces that are longer than the shorter text. So it is with what is read one after another.
pub proof fn law_longer_text_appends_archived_entries(
    archive: &ArchivedPrefixDictionary,
    text: Seq<u8>,
    more: Seq<u8>,
)
    requires
        (text + more).len() <= usize::MAX,
    ensures
        appends(
            archive.prefix_search(text),
            archive.prefix_search(text + more),
            |found: (usize, WordEntry)| found.0 > text.len(),
        ),
        appends(
            archive.prefix_readings(text),
            archive.prefix_readings(text + more),
            |reading: Option<(usize, WordEntry)>| reads_behind(reading, text.len()),
        ),
{
    let shorter = prefixes_of(archive.patterns(), text);
    let longer = prefixes_of(archive.patterns(), text + more);
    law_longer_text_has_further_prefixes(archive.patterns(), text, more);
    lemma_entries_append(shorter, longer, archive.vals_data@, archive.is_system, true, text.len());
    lemma_readings_append(shorter, longer, archive.vals_data@, archive.is_system, true, text.len());
}

/// In a longer text a common prefix search finds the same matches, and appends only matches that
/// are longer than the shorter text.
pub proof fn law_longer_text_appends_matches(dict: &PrefixDictionary, text: Seq<u8>, more: Seq<u8>)
    requires
        (text + more).len() <= usize::MAX,
    ensures
        appends(
            dict.common_search(text),
            dict.common_search(text + more),
            |found: Match| found.end_char > text.len(),
        ),
{
    law_longer_text_has_further_prefixes(dict.patterns(), text, more);
    lemma_flat_map_appends(
        prefixes_of(dict.patterns(), text),
        prefixes_of(dict.patterns(), text + more),
        |prefix: (usize, u32)|
            matches_of(prefix.0, entries_stored(dict.vals_data@, dict.is_system, prefix.1)),
        |prefix: (usize, u32)| prefix.0 > text.len(),
        |found: Match| found.end_char > text.len(),
    );
}

} // verus!
