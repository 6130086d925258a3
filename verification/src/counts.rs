//! The counts in the bytes of an automaton. A serialized automaton starts with four lists, each of
//! which is a count in four bytes and as many elements of one size.

use crate::bytes::{le_u32, read_u32};
use vstd::prelude::*;
use vstd::slice::slice_subrange;

verus! {

/// The sizes of the elements of the four lists: the states, those of the other match kinds, the
/// failure links and the outputs.
pub open spec fn list_sizes() -> Seq<usize> {
    seq![12usize, 8, 4, 12]
}

/// Whether the size in bytes of each list with these element sizes that the bytes hold, as its
/// count gives it, is a `usize`. A list that runs over the end of the bytes is the last one looked
/// at. Where `usize` is 64 bits wide this is always so.
pub open spec fn counts_fit(bytes: Seq<u8>, sizes: Seq<usize>) -> bool
    decreases sizes.len(),
{
    if sizes.len() == 0 || bytes.len() < 4 {
        true
    } else {
        let size = le_u32(bytes.take(4)) * sizes[0];
        &&& size <= usize::MAX
        &&& 4 + size <= bytes.len() ==> counts_fit(bytes.skip(4 + size), sizes.drop_first())
    }
}

/// Checks that the counts in the bytes of an automaton fit.
pub fn check_counts(bytes: &[u8]) -> (r: bool)
    ensures
        r == counts_fit(bytes@, list_sizes()),
{
    let sizes: [usize; 4] = [12, 8, 4, 12];
    let mut pos: usize = 0;
    let mut k: usize = 0;
    assert(bytes@.skip(0) == bytes@);
    assert(sizes@.skip(0) == list_sizes());
    while k < 4
        invariant
            k <= 4 == sizes@.len(),
            pos <= bytes@.len(),
            counts_fit(bytes@, list_sizes()) == counts_fit(
                bytes@.skip(pos as int),
                sizes@.skip(k as int),
            ),
        decreases 4 - k,
    {
        let ghost left = bytes@.skip(pos as int);
        if bytes.len() - pos < 4 {
            return true;
        }
        assert(bytes@.subrange(pos as int, pos + 4) == left.take(4));
        let count: usize = read_u32(slice_subrange(bytes, pos, pos + 4)) as usize;
        match count.checked_mul(sizes[k]) {
            Some(size) => {
                if size > bytes.len() - pos - 4 {
                    return true;
                }
                assert(left.skip(4 + size as int) == bytes@.skip(pos + 4 + size));
                assert(sizes@.skip(k as int).drop_first() == sizes@.skip(k + 1));
                pos = pos + 4 + size;
                k += 1;
            },
            None => {
                return false;
            },
        }
    }
    true
}

} // verus!
