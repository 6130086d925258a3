//! The pattern-matching automaton of a dictionary: what it holds, how it is stored, and what a
//! search in it reports.

use crate::counts::{counts_fit, list_sizes};
use daachorse::errors::DaachorseError;
use daachorse::DoubleArrayAhoCorasick;
use vstd::prelude::*;
use vstd::string::*;

verus! {

/// The automata of daachorse, opaque here.
#[verifier::external_type_specification]
#[verifier::external_body]
#[verifier::reject_recursive_types(V)]
pub struct ExDoubleArrayAhoCorasick<V>(DoubleArrayAhoCorasick<V>);

/// The errors of daachorse, opaque here.
#[verifier::external_type_specification]
#[verifier::external_body]
pub struct ExDaachorseError(DaachorseError);

/// What an automaton holds: for each registered pattern its values, in the order in which they
/// were registered.
pub uninterp spec fn registered_patterns(da: DoubleArrayAhoCorasick<u32>) -> Map<
    Seq<u8>,
    Seq<u32>,
>;

/// Whether an automaton can be searched for overlapping matches: it has the standard match kind,
/// its states and outputs are those that daachorse builds for its patterns, and so is its
/// prefilter, if it has one: with another, a search would skip over matches. Malformed data can
/// decode to an automaton that is not searchable; a search in it may panic, run forever or report
/// the wrong matches.
pub uninterp spec fn is_searchable(da: DoubleArrayAhoCorasick<u32>) -> bool;

/// The bytes that `DoubleArrayAhoCorasick::<u32>::serialize` makes of an automaton.
pub uninterp spec fn automaton_bytes(da: DoubleArrayAhoCorasick<u32>) -> Seq<u8>;

/// The pairs of pattern and value that `DoubleArrayAhoCorasick::<u32>::iter` lists.
pub uninterp spec fn listed_patterns(da: DoubleArrayAhoCorasick<u32>) -> Seq<(Seq<u8>, u32)>;

/// The bytes of the automaton that `DoubleArrayAhoCorasick::<u32>::with_values` builds for the
/// pairs of pattern and value, or `None` if it refuses them.
pub uninterp spec fn built_bytes(pairs: Seq<(Seq<u8>, u32)>) -> Option<Seq<u8>>;

/// What `DoubleArrayAhoCorasick::<u32>::deserialize` makes of `bytes`: `None` if it refuses
/// them, else whether the automaton is searchable, what it holds, whether it is sound, and the
/// bytes that it has itself.
pub uninterp spec fn decoded_automaton(bytes: Seq<u8>) -> Option<
    (bool, Map<Seq<u8>, Seq<u32>>, bool, Seq<u8>),
>;

/// What the bytes of an automaton decode to, as `decoded_automaton` has it. Bytes with a count that
/// does not fit decode to nothing.
pub open spec fn decoded(bytes: Seq<u8>) -> Option<(bool, Map<Seq<u8>, Seq<u32>>, bool, Seq<u8>)> {
    if counts_fit(bytes, list_sizes()) {
        decoded_automaton(bytes)
    } else {
        None
    }
}

/// Whether an automaton is sound: it is the one that is built for the patterns it lists, byte for
/// byte. One that was built with other options than the default ones need not be.
pub open spec fn sound_automaton(da: DoubleArrayAhoCorasick<u32>) -> bool {
    built_bytes(listed_patterns(da)) == Some(automaton_bytes(da))
}

/// What decoding the bytes of this automaton gives.
pub open spec fn automaton_summary(da: DoubleArrayAhoCorasick<u32>) -> (
    bool,
    Map<Seq<u8>, Seq<u32>>,
    bool,
    Seq<u8>,
) {
    (is_searchable(da), registered_patterns(da), sound_automaton(da), automaton_bytes(da))
}

/// The values registered for `surface`.
pub open spec fn values_of(patterns: Map<Seq<u8>, Seq<u32>>, surface: Seq<u8>) -> Seq<u32> {
    if patterns.contains_key(surface) {
        patterns[surface]
    } else {
        Seq::empty()
    }
}

/// What is registered once the pairs of pattern and value have been registered in this order.
pub open spec fn group_patterns(pairs: Seq<(Seq<u8>, u32)>) -> Map<Seq<u8>, Seq<u32>>
    decreases pairs.len(),
{
    if pairs.len() == 0 {
        Map::empty()
    } else {
        let before = group_patterns(pairs.drop_last());
        let (pattern, value) = pairs.last();
        before.insert(pattern, values_of(before, pattern).push(value))
    }
}

/// The matches `(start, end, value)` of the patterns that are `haystack[start..end]`.
pub open spec fn matches_between(
    patterns: Map<Seq<u8>, Seq<u32>>,
    haystack: Seq<u8>,
    start: int,
    end: int,
) -> Seq<(usize, usize, u32)> {
    values_of(patterns, haystack.subrange(start, end)).map_values(
        |value: u32| (start as usize, end as usize, value),
    )
}

/// The matches that end at `end` and start before `n`, the longest first.
pub open spec fn matches_ending_at(
    patterns: Map<Seq<u8>, Seq<u32>>,
    haystack: Seq<u8>,
    end: int,
    n: nat,
) -> Seq<(usize, usize, u32)>
    decreases n,
{
    if n == 0 {
        Seq::empty()
    } else {
        matches_ending_at(patterns, haystack, end, (n - 1) as nat) + matches_between(
            patterns,
            haystack,
            n - 1,
            end,
        )
    }
}

/// The overlapping matches that end before `n`, ordered by where they end, at one end the
/// longest first.
pub open spec fn matches_ending_before(
    patterns: Map<Seq<u8>, Seq<u32>>,
    haystack: Seq<u8>,
    n: nat,
) -> Seq<(usize, usize, u32)>
    decreases n,
{
    if n == 0 {
        Seq::empty()
    } else {
        matches_ending_before(patterns, haystack, (n - 1) as nat) + matches_ending_at(
            patterns,
            haystack,
            n - 1,
            n,
        )
    }
}

/// All overlapping matches of the patterns in the haystack, in the order of a search.
pub open spec fn overlapping_matches(
    patterns: Map<Seq<u8>, Seq<u32>>,
    haystack: Seq<u8>,
) -> Seq<(usize, usize, u32)> {
    matches_ending_before(patterns, haystack, haystack.len() + 1)
}

/// Decodes an automaton with `DoubleArrayAhoCorasick::<u32>::deserialize`, which also returns
/// the bytes that it did not use; they are dropped. The contract names what the bytes decode to,
/// and says of the error that its text is the one of an invalid automaton: `deserialize` makes no
/// other error. It multiplies each count of elements that stands in the bytes by their size, and
/// where the product is no `usize` it can panic, by the overflow or by the allocation that follows;
/// such bytes are left out.
#[verifier::external_body]
pub(crate) fn decode_automaton(bytes: &[u8]) -> (r: Result<
    DoubleArrayAhoCorasick<u32>,
    DaachorseError,
>)
    requires
        counts_fit(bytes@, list_sizes()),
    ensures
        r is Ok <==> decoded_automaton(bytes@) is Some,
        r matches Ok(da) ==> decoded_automaton(bytes@) == Some(automaton_summary(da)),
        r matches Err(err) ==> forall|text: String| #[trigger]
            to_string_from_display_ensures::<DaachorseError>(&err, text) ==> text@
                == "InvalidAutomatonError: invalid serialized automaton"@,
{
    match DoubleArrayAhoCorasick::<u32>::deserialize(bytes) {
        Ok((da, _rest)) => Ok(da),
        Err(err) => Err(err),
    }
}

/// Encodes an automaton with `DoubleArrayAhoCorasick::<u32>::serialize`. The contract names the
/// bytes, and says that their counts fit, as those of lists in memory do, and that they decode to
/// an automaton that has the same bytes, holds the same, is searchable if this one is, and sound if
/// this one is.
#[verifier::external_body]
pub(crate) fn encode_automaton(da: &DoubleArrayAhoCorasick<u32>) -> (bytes: Vec<u8>)
    ensures
        bytes@ == automaton_bytes(*da),
        counts_fit(bytes@, list_sizes()),
        decoded_automaton(bytes@) == Some(automaton_summary(*da)),
{
    da.serialize()
}

/// Copies an automaton with its `Clone` impl, which daachorse derives. The contract says that
/// the copy has the same bytes, lists and holds the same, and is searchable if this one is.
#[verifier::external_body]
pub(crate) fn clone_automaton(da: &DoubleArrayAhoCorasick<u32>) -> (r: DoubleArrayAhoCorasick<u32>)
    ensures
        automaton_bytes(r) == automaton_bytes(*da),
        listed_patterns(r) == listed_patterns(*da),
        registered_patterns(r) == registered_patterns(*da),
        is_searchable(r) == is_searchable(*da),
{
    da.clone()
}

/// Searches `haystack` with `DoubleArrayAhoCorasick::find_overlapping_iter` and collects each
/// match's start, end and value. The contract says that these are all occurrences of the
/// registered patterns in the bytes of `haystack`: from the first end position to the last, at
/// one end position the longest pattern first, and the values of one pattern in the order of
/// their registration.
#[verifier::external_body]
fn find_overlapping(da: &DoubleArrayAhoCorasick<u32>, haystack: &str) -> (r: Vec<
    (usize, usize, u32),
>)
    requires
        is_searchable(*da),
    ensures
        r@ == overlapping_matches(registered_patterns(*da), haystack.spec_bytes()),
{
    da.find_overlapping_iter(haystack).map(|m| (m.start(), m.end(), m.value())).collect()
}

/// The pairs of pattern and value, the bytes of the patterns as sequences.
pub open spec fn pairs_view(pairs: Seq<(Vec<u8>, u32)>) -> Seq<(Seq<u8>, u32)> {
    pairs.map_values(|pair: (Vec<u8>, u32)| (pair.0@, pair.1))
}

/// Lists what an automaton holds with `DoubleArrayAhoCorasick::iter`. The contract names the pairs
/// of pattern and value, and says of a searchable automaton that these are its patterns with all
/// their values, those of one pattern in the order of their registration.
#[verifier::external_body]
fn list_patterns(da: &DoubleArrayAhoCorasick<u32>) -> (pairs: Vec<(Vec<u8>, u32)>)
    ensures
        pairs_view(pairs@) == listed_patterns(*da),
        is_searchable(*da) ==> group_patterns(pairs_view(pairs@)) == registered_patterns(*da),
{
    da.iter().collect()
}

/// Builds an automaton with `DoubleArrayAhoCorasick::with_values`, which fails only where the
/// patterns are too many or too long for it. The contract names the bytes of the automaton, and
/// says of it that it is searchable and holds the given pairs.
#[verifier::external_body]
fn build_automaton(pairs: Vec<(Vec<u8>, u32)>) -> (r: Result<
    DoubleArrayAhoCorasick<u32>,
    DaachorseError,
>)
    ensures
        r is Ok <==> built_bytes(pairs_view(pairs@)) is Some,
        r matches Ok(da) ==> {
            &&& built_bytes(pairs_view(pairs@)) == Some(automaton_bytes(da))
            &&& is_searchable(da)
            &&& registered_patterns(da) == group_patterns(pairs_view(pairs@))
        },
{
    DoubleArrayAhoCorasick::with_values(pairs)
}

/// Whether two byte strings are equal.
fn same_bytes(a: &Vec<u8>, b: &Vec<u8>) -> (r: bool)
    ensures
        r == (a@ == b@),
{
    if a.len() != b.len() {
        return false;
    }
    let mut i: usize = 0;
    while i < a.len()
        invariant
            i <= a@.len() == b@.len(),
            forall|j: int| 0 <= j < i ==> a@[j] == b@[j],
        decreases a@.len() - i,
    {
        if a[i] != b[i] {
            return false;
        }
        i += 1;
    }
    assert(a@ == b@);
    true
}

/// Checks that an automaton is sound, as one that was decoded from untrusted data need not be. One
/// that is can be searched. This takes as long as building the automaton.
pub fn is_sound(da: &DoubleArrayAhoCorasick<u32>) -> (r: bool)
    ensures
        r == sound_automaton(*da),
        r ==> is_searchable(*da),
{
    match build_automaton(list_patterns(da)) {
        Ok(rebuilt) => same_bytes(&encode_automaton(&rebuilt), &encode_automaton(da)),
        Err(_) => false,
    }
}

/// The `(end, value)` of each match that starts where the haystack starts.
pub open spec fn leading(matches: Seq<(usize, usize, u32)>) -> Seq<(usize, u32)> {
    matches.filter(|m: (usize, usize, u32)| m.0 == 0).map_values(
        |m: (usize, usize, u32)| (m.1, m.2),
    )
}

/// The `(end, value)` of each pattern that is `text[..end]`, for the ends before `n`.
pub open spec fn prefixes_before(
    patterns: Map<Seq<u8>, Seq<u32>>,
    text: Seq<u8>,
    n: nat,
) -> Seq<(usize, u32)>
    decreases n,
{
    if n == 0 {
        Seq::empty()
    } else {
        prefixes_before(patterns, text, (n - 1) as nat) + values_of(
            patterns,
            text.take(n - 1),
        ).map_values(|value: u32| ((n - 1) as usize, value))
    }
}

/// The `(end, value)` of each pattern that `text` starts with, the shortest pattern first and the
/// values of one pattern in the order of their registration.
pub open spec fn prefixes_of(patterns: Map<Seq<u8>, Seq<u32>>, text: Seq<u8>) -> Seq<
    (usize, u32),
> {
    prefixes_before(patterns, text, text.len() + 1)
}

proof fn lemma_leading_add(a: Seq<(usize, usize, u32)>, b: Seq<(usize, usize, u32)>)
    ensures
        leading(a + b) == leading(a) + leading(b),
{
    Seq::filter_distributes_over_add(a, b, |m: (usize, usize, u32)| m.0 == 0);
}

/// Of the matches that end at one position, those that start at 0 are the values of that prefix.
proof fn lemma_leading_ending_at(
    patterns: Map<Seq<u8>, Seq<u32>>,
    text: Seq<u8>,
    end: int,
    n: nat,
)
    requires
        0 <= end <= text.len() <= usize::MAX,
        1 <= n <= end + 1,
    ensures
        leading(matches_ending_at(patterns, text, end, n)) == values_of(
            patterns,
            text.take(end),
        ).map_values(|value: u32| (end as usize, value)),
    decreases n,
{
    let pred = |m: (usize, usize, u32)| m.0 == 0;
    let fewer = matches_ending_at(patterns, text, end, (n - 1) as nat);
    let here = matches_between(patterns, text, n - 1, end);
    lemma_leading_add(fewer, here);
    if n == 1 {
        assert(text.subrange(0, end) == text.take(end));
        lemma_filter_all(here, pred);
        assert(leading(fewer) == Seq::<(usize, u32)>::empty()) by {
            lemma_filter_none(fewer, pred);
        }
        assert(leading(here) == values_of(patterns, text.take(end)).map_values(
            |value: u32| (end as usize, value),
        ));
    } else {
        lemma_leading_ending_at(patterns, text, end, (n - 1) as nat);
        lemma_filter_none(here, pred);
    }
}

proof fn lemma_filter_all<A>(s: Seq<A>, pred: spec_fn(A) -> bool)
    requires
        forall|i: int| 0 <= i < s.len() ==> pred(#[trigger] s[i]),
    ensures
        s.filter(pred) == s,
    decreases s.len(),
{
    reveal(Seq::filter);
    if s.len() > 0 {
        lemma_filter_all(s.drop_last(), pred);
        assert(s.drop_last().push(s.last()) == s);
    }
}

proof fn lemma_filter_none<A>(s: Seq<A>, pred: spec_fn(A) -> bool)
    requires
        forall|i: int| 0 <= i < s.len() ==> !pred(#[trigger] s[i]),
    ensures
        s.filter(pred) == Seq::<A>::empty(),
    decreases s.len(),
{
    reveal(Seq::filter);
    if s.len() > 0 {
        lemma_filter_none(s.drop_last(), pred);
    }
}

proof fn lemma_leading_ending_before(
    patterns: Map<Seq<u8>, Seq<u32>>,
    text: Seq<u8>,
    n: nat,
)
    requires
        n <= text.len() + 1,
        text.len() <= usize::MAX,
    ensures
        leading(matches_ending_before(patterns, text, n)) == prefixes_before(patterns, text, n),
    decreases n,
{
    if n == 0 {
        lemma_filter_none(
            Seq::<(usize, usize, u32)>::empty(),
            |m: (usize, usize, u32)| m.0 == 0,
        );
    } else {
        let before = (n - 1) as nat;
        lemma_leading_ending_before(patterns, text, before);
        lemma_leading_ending_at(patterns, text, before as int, n);
        lemma_leading_add(
            matches_ending_before(patterns, text, before),
            matches_ending_at(patterns, text, before as int, n),
        );
    }
}

/// Of all overlapping matches in a text, those that start at 0 are the patterns that the text
/// starts with, in the order of their length.
pub proof fn law_leading_matches_are_prefixes(patterns: Map<Seq<u8>, Seq<u32>>, text: Seq<u8>)
    requires
        text.len() <= usize::MAX,
    ensures
        leading(overlapping_matches(patterns, text)) == prefixes_of(patterns, text),
{
    lemma_leading_ending_before(patterns, text, text.len() + 1);
}

/// Searches a text for all overlapping matches `(start, end, value)`.
pub fn search(da: &DoubleArrayAhoCorasick<u32>, text: &str) -> (matches: Vec<(usize, usize, u32)>)
    requires
        is_searchable(*da),
    ensures
        matches@ == overlapping_matches(registered_patterns(*da), text.spec_bytes()),
        leading(matches@) == prefixes_of(registered_patterns(*da), text.spec_bytes()),
        text.spec_bytes().len() <= usize::MAX,
{
    let len: usize = text.as_bytes().len();
    assert(text.spec_bytes().len() == len);
    proof {
        law_leading_matches_are_prefixes(registered_patterns(*da), text.spec_bytes());
    }
    find_overlapping(da, text)
}

/// The `(end, value)` of each match in `matches` that starts at 0, in their order.
pub fn leading_matches(matches: &Vec<(usize, usize, u32)>) -> (r: Vec<(usize, u32)>)
    ensures
        r@ == leading(matches@),
{
    let mut r: Vec<(usize, u32)> = Vec::new();
    let mut i: usize = 0;
    proof {
        lemma_filter_none(matches@.take(0), |m: (usize, usize, u32)| m.0 == 0);
    }
    while i < matches.len()
        invariant
            i <= matches@.len(),
            r@ == leading(matches@.take(i as int)),
        decreases matches@.len() - i,
    {
        let (start, end, value) = matches[i];
        proof {
            let one = seq![matches@[i as int]];
            assert(matches@.take(i + 1) == matches@.take(i as int) + one);
            lemma_leading_add(matches@.take(i as int), one);
            if start == 0 {
                lemma_filter_all(one, |m: (usize, usize, u32)| m.0 == 0);
            } else {
                lemma_filter_none(one, |m: (usize, usize, u32)| m.0 == 0);
            }
        }
        if start == 0 {
            r.push((end, value));
        }
        i += 1;
    }
    assert(matches@.take(i as int) == matches@);
    r
}

} // verus!
