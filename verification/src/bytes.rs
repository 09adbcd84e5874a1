//! Little-endian integer decoding over raw byte buffers.
use vstd::prelude::*;

verus! {

/// The 16-bit little-endian value stored at byte position `i`.
pub open spec fn le16_at(c: Seq<u8>, i: int) -> u16
    recommends
        0 <= i,
        i + 2 <= c.len(),
{
    (c[i] + c[i + 1] * 256) as u16
}

/// The 32-bit little-endian value stored at byte position `i`.
pub open spec fn le32_at(c: Seq<u8>, i: int) -> u32
    recommends
        0 <= i,
        i + 4 <= c.len(),
{
    (c[i] + c[i + 1] * 256 + c[i + 2] * 65536 + c[i + 3] * 16777216) as u32
}

/// Reads the 16-bit little-endian value at byte position `i`.
pub fn read_le16(chunk: &Vec<u8>, i: usize) -> (r: u16)
    requires
        i + 2 <= chunk@.len(),
    ensures
        r == le16_at(chunk@, i as int),
{
    let _len: usize = chunk.len();
    let lo = chunk[i];
    let hi = chunk[i + 1];
    lo as u16 + hi as u16 * 256
}

/// Reads the 32-bit little-endian value at byte position `i`.
pub fn read_le32(chunk: &Vec<u8>, i: usize) -> (r: u32)
    requires
        i + 4 <= chunk@.len(),
    ensures
        r == le32_at(chunk@, i as int),
{
    let _len: usize = chunk.len();
    let b0 = chunk[i];
    let b1 = chunk[i + 1];
    let b2 = chunk[i + 2];
    let b3 = chunk[i + 3];
    b0 as u32 + b1 as u32 * 256 + b2 as u32 * 65536 + b3 as u32 * 16777216
}

} // verus!
