//! Little-endian decoding of fixed-size integers from byte sequences.

use vstd::prelude::*;

verus! {

/// The `u16` stored little-endian at `s[i..i + 2]`.
pub open spec fn le_u16(s: Seq<u8>, i: int) -> u16 {
    (s[i] as int + s[i + 1] as int * 0x100) as u16
}

/// The `u32` stored little-endian at `s[i..i + 4]`.
pub open spec fn le_u32(s: Seq<u8>, i: int) -> u32 {
    (s[i] as int + s[i + 1] as int * 0x100 + s[i + 2] as int * 0x1_0000 + s[i + 3] as int
        * 0x100_0000) as u32
}

/// Reads the little-endian `u16` at `bytes[i..i + 2]`.
pub fn read_u16_le(bytes: &[u8], i: usize) -> (r: u16)
    requires
        i + 2 <= bytes@.len(),
    ensures
        r == le_u16(bytes@, i as int),
{
    bytes[i] as u16 + bytes[i + 1] as u16 * 0x100
}

/// Reads the little-endian `u32` at `bytes[i..i + 4]`.
pub fn read_u32_le(bytes: &[u8], i: usize) -> (r: u32)
    requires
        i + 4 <= bytes@.len(),
    ensures
        r == le_u32(bytes@, i as int),
{
    bytes[i] as u32 + bytes[i + 1] as u32 * 0x100 + bytes[i + 2] as u32 * 0x1_0000
        + bytes[i + 3] as u32 * 0x100_0000
}

} // verus!
