//! Little-endian integers in byte buffers.

use byteorder::{ByteOrder, LittleEndian};
use vstd::prelude::*;

verus! {

/// The unsigned integer that the first two bytes hold, the lowest byte first.
pub open spec fn le_u16(bytes: Seq<u8>) -> u16 {
    (bytes[0] + 0x100 * bytes[1]) as u16
}

/// The two's complement integer that the first two bytes hold, the lowest byte first.
pub open spec fn le_i16(bytes: Seq<u8>) -> i16 {
    if le_u16(bytes) < 0x8000 {
        le_u16(bytes) as i16
    } else {
        (le_u16(bytes) - 0x1_0000) as i16
    }
}

/// The unsigned integer that the first four bytes hold, the lowest byte first.
pub open spec fn le_u32(bytes: Seq<u8>) -> u32 {
    (bytes[0] + 0x100 * bytes[1] + 0x1_0000 * bytes[2] + 0x100_0000 * bytes[3]) as u32
}

/// Reads with byteorder's `LittleEndian::read_u16`, which panics on fewer than two bytes. The
/// contract says that it returns the value of the first two, the lowest byte first.
#[verifier::external_body]
pub(crate) fn read_u16(buf: &[u8]) -> (r: u16)
    requires
        buf@.len() >= 2,
    ensures
        r == le_u16(buf@),
{
    LittleEndian::read_u16(buf)
}

/// Reads with byteorder's `LittleEndian::read_i16`, which panics on fewer than two bytes. The
/// contract says that it returns the two's complement value of the first two, the lowest byte
/// first.
#[verifier::external_body]
pub(crate) fn read_i16(buf: &[u8]) -> (r: i16)
    requires
        buf@.len() >= 2,
    ensures
        r == le_i16(buf@),
{
    LittleEndian::read_i16(buf)
}

/// Reads with byteorder's `LittleEndian::read_u32`, which panics on fewer than four bytes. The
/// contract says that it returns the value of the first four, the lowest byte first.
#[verifier::external_body]
pub(crate) fn read_u32(buf: &[u8]) -> (r: u32)
    requires
        buf@.len() >= 4,
    ensures
        r == le_u32(buf@),
{
    LittleEndian::read_u32(buf)
}

} // verus!
