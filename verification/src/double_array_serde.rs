//! The automaton as bytes, for the serializers of a dictionary.

use crate::automaton::{
    automaton_bytes, automaton_summary, decode_automaton, decoded, encode_automaton,
};
use crate::counts::check_counts;
use crate::error::{LinderaError, LinderaErrorKind, LinderaResult};
use daachorse::DoubleArrayAhoCorasick;
use vstd::prelude::*;

verus! {

/// The error for bytes that do not decode to an automaton.
pub open spec fn is_decode_error(err: LinderaError) -> bool {
    err.kind == LinderaErrorKind::Deserialize && err.message@
        == "InvalidAutomatonError: invalid serialized automaton"@
}

/// Whether the bytes decode to an automaton that has the bytes of `da`, holds what `da` holds, can
/// be searched if `da` can, and is sound if `da` is.
pub open spec fn is_encoding_of(bytes: Seq<u8>, da: DoubleArrayAhoCorasick<u32>) -> bool {
    decoded(bytes) == Some(automaton_summary(da))
}

/// What decoding the bytes results in: the automaton of which they are an encoding, or the error
/// for bytes that do not decode.
pub open spec fn decode_outcome(
    r: LinderaResult<DoubleArrayAhoCorasick<u32>>,
    bytes: Seq<u8>,
) -> bool {
    match r {
        Ok(da) => is_encoding_of(bytes, da),
        Err(err) => decoded(bytes) is None && is_decode_error(err),
    }
}

/// The bytes of an automaton.
pub fn serialize(da: &DoubleArrayAhoCorasick<u32>) -> (bytes: Vec<u8>)
    ensures
        bytes@ == automaton_bytes(*da),
        is_encoding_of(bytes@, *da),
{
    encode_automaton(da)
}

/// The automaton that the bytes start with.
pub fn deserialize(bytes: &[u8]) -> (r: LinderaResult<DoubleArrayAhoCorasick<u32>>)
    ensures
        decode_outcome(r, bytes@),
{
    if !check_counts(bytes) {
        return Err(
            LinderaErrorKind::Deserialize.with_error(
                "InvalidAutomatonError: invalid serialized automaton".to_string(),
            ),
        );
    }
    match decode_automaton(bytes) {
        Ok(da) => Ok(da),
        Err(err) => Err(LinderaErrorKind::Deserialize.with_error(err.to_string())),
    }
}

/// Archives an automaton as its bytes.
pub struct DoubleArrayArchiver;

impl DoubleArrayArchiver {
    /// The bytes to archive for an automaton.
    pub fn serialize_with(field: &DoubleArrayAhoCorasick<u32>) -> (bytes: Vec<u8>)
        ensures
            bytes@ == automaton_bytes(*field),
            is_encoding_of(bytes@, *field),
    {
        serialize(field)
    }

    /// The automaton whose bytes were archived.
    pub fn deserialize_with(archived: &[u8]) -> (r: LinderaResult<DoubleArrayAhoCorasick<u32>>)
        ensures
            decode_outcome(r, archived@),
    {
        deserialize(archived)
    }
}

} // verus!
