//! The part of a sequence before a separator.

use vstd::prelude::*;

verus! {

/// The elements before the first `stop`; all of them, if there is none.
pub open spec fn until<A>(s: Seq<A>, stop: A) -> Seq<A> {
    match s.index_of_first(stop) {
        Some(i) => s.take(i),
        None => s,
    }
}

/// The part before the first `stop` is the prefix that holds none and runs up to one or to the
/// end.
pub proof fn lemma_until_is_prefix<A>(s: Seq<A>, stop: A, n: int)
    requires
        0 <= n <= s.len(),
        forall|i: int| 0 <= i < n ==> s[i] != stop,
        n < s.len() ==> s[n] == stop,
    ensures
        until(s, stop) == s.take(n),
{
    s.index_of_first_ensures(stop);
    if n < s.len() {
        assert(s.contains(s[n]));
    } else {
        assert(s.take(n) == s);
    }
}

} // verus!
