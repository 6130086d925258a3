//! Sequences of results that may be missing.

use vstd::prelude::*;

verus! {

/// The elements, none of them missing.
pub open spec fn somes<A>(s: Seq<A>) -> Seq<Option<A>> {
    s.map_values(|a: A| Some(a))
}

/// Whether no element is missing.
pub open spec fn all_some<A>(s: Seq<Option<A>>) -> bool {
    forall|i: int| 0 <= i < s.len() ==> (#[trigger] s[i]) is Some
}

/// A sequence from which nothing is missing has one sequence of elements.
pub proof fn lemma_somes_injective<A>(a: Seq<A>, b: Seq<A>)
    requires
        somes(a) == somes(b),
    ensures
        a == b,
{
    assert(a.len() == somes(a).len() && b.len() == somes(b).len());
    assert forall|i: int| 0 <= i < a.len() implies a[i] == b[i] by {
        assert(somes(a)[i] == Some(a[i]) && somes(b)[i] == Some(b[i]));
    }
    assert(a =~= b);
}

/// Nothing is missing from two sequences joined exactly if nothing is from either.
pub proof fn lemma_all_some_add<A>(a: Seq<Option<A>>, b: Seq<Option<A>>)
    ensures
        all_some(a + b) <==> all_some(a) && all_some(b),
{
    if all_some(a + b) {
        assert forall|i: int| 0 <= i < a.len() implies (#[trigger] a[i]) is Some by {
            assert((a + b)[i] is Some);
        }
        assert forall|i: int| 0 <= i < b.len() implies (#[trigger] b[i]) is Some by {
            assert((a + b)[a.len() + i] is Some);
        }
    }
}

} // verus!
