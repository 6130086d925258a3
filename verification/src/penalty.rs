//! The left-space penalty of Korean part-of-speech tags.

use crate::until::{lemma_until_is_prefix, until};
use vstd::prelude::*;
use vstd::string::*;

verus! {

/// The tags of particles.
pub open spec fn is_particle(tag: Seq<char>) -> bool {
    ||| tag == "JC"@
    ||| tag == "JKB"@
    ||| tag == "JKC"@
    ||| tag == "JKG"@
    ||| tag == "JKO"@
    ||| tag == "JKQ"@
    ||| tag == "JKS"@
    ||| tag == "JKV"@
    ||| tag == "JX"@
}

/// The tags of verbal endings.
pub open spec fn is_ending(tag: Seq<char>) -> bool {
    ||| tag == "EC"@
    ||| tag == "EF"@
    ||| tag == "EP"@
    ||| tag == "ETM"@
    ||| tag == "ETN"@
}

/// The tag of the positive copula.
pub open spec fn is_copula(tag: Seq<char>) -> bool {
    tag == "VCP"@
}

/// The tags of derivational suffixes.
pub open spec fn is_suffix(tag: Seq<char>) -> bool {
    ||| tag == "XSA"@
    ||| tag == "XSN"@
    ||| tag == "XSV"@
}

/// The penalty of a tag: that of its first segment, up to a `+`. It is 6000 for a particle, 3000
/// for an ending, the copula or a suffix, and 0 for any other.
pub open spec fn korean_space_penalty(pos: Seq<char>) -> i16 {
    let first = until(pos, '+');
    if is_particle(first) {
        6000
    } else if is_ending(first) || is_copula(first) || is_suffix(first) {
        3000
    } else {
        0
    }
}

/// Whether the characters are those of `tag`.
fn is_tag(chars: &Vec<char>, tag: &str) -> (r: bool)
    ensures
        r == (chars@ == tag@),
{
    if chars.len() != tag.unicode_len() {
        return false;
    }
    let mut i: usize = 0;
    while i < chars.len()
        invariant
            i <= chars@.len() == tag@.len(),
            forall|j: int| 0 <= j < i ==> chars@[j] == tag@[j],
        decreases chars@.len() - i,
    {
        if chars[i] != tag.get_char(i) {
            return false;
        }
        i += 1;
    }
    assert(chars@ == tag@);
    true
}

/// The characters of `pos` before its first `+`.
fn take_first_segment(pos: &str) -> (first: Vec<char>)
    ensures
        first@ == until(pos@, '+'),
{
    let mut first: Vec<char> = Vec::new();
    let mut rest = pos.chars();
    loop
        invariant
            !first@.contains('+'),
            pos@ == first@ + vstd::std_specs::iter::IteratorSpec::remaining(&rest),
        decreases pos@.len() - first@.len(),
    {
        let ghost seen = first@.len() as int;
        match rest.next() {
            Some(c) => {
                assert(pos@[seen] == c);
                if c == '+' {
                    proof {
                        lemma_until_is_prefix(pos@, '+', seen);
                    }
                    return first;
                }
                first.push(c);
            },
            None => {
                proof {
                    lemma_until_is_prefix(pos@, '+', seen);
                }
                return first;
            },
        }
    }
}

/// Computes the left-space penalty of a Korean part-of-speech tag: 6000 for a particle (J*), 3000
/// for an ending (E*), the copula (VCP) or a suffix (XSA, XSN, XSV), and 0 for any other tag. A
/// compound tag such as `JC+VCP` counts as its first segment.
pub fn compute_korean_space_penalty(pos: &str) -> (penalty: i16)
    ensures
        penalty == korean_space_penalty(pos@),
{
    let first = take_first_segment(pos);
    if is_tag(&first, "JC") || is_tag(&first, "JKB") || is_tag(&first, "JKC") || is_tag(
        &first,
        "JKG",
    ) || is_tag(&first, "JKO") || is_tag(&first, "JKQ") || is_tag(&first, "JKS") || is_tag(
        &first,
        "JKV",
    ) || is_tag(&first, "JX") {
        6000
    } else if is_tag(&first, "EC") || is_tag(&first, "EF") || is_tag(&first, "EP") || is_tag(
        &first,
        "ETM",
    ) || is_tag(&first, "ETN") {
        3000
    } else if is_tag(&first, "VCP") {
        3000
    } else if is_tag(&first, "XSA") || is_tag(&first, "XSN") || is_tag(&first, "XSV") {
        3000
    } else {
        0
    }
}

} // verus!
