use vstd::prelude::*;

verus! {

/// The little-endian 16-bit value of the two bytes at `off`.
pub open spec fn le_u16(s: Seq<u8>, off: int) -> int {
    s[off] as int + 256 * (s[off + 1] as int)
}

/// The little-endian 32-bit value of the four bytes at `off`.
pub open spec fn le_u32(s: Seq<u8>, off: int) -> int {
    le_u16(s, off) + 65536 * le_u16(s, off + 2)
}

/// Reads a little-endian `u16` at byte offset `off`.
pub fn read_u16_le(data: &[u8], off: usize) -> (r: u16)
    requires
        off + 2 <= data@.len(),
    ensures
        r as int == le_u16(data@, off as int),
{
    let lo = data[off] as u16;
    let hi = data[off + 1] as u16;
    lo + 256 * hi
}

/// Reads a little-endian `u32` at byte offset `off`.
pub fn read_u32_le(data: &[u8], off: usize) -> (r: u32)
    requires
        off + 4 <= data@.len(),
    ensures
        r as int == le_u32(data@, off as int),
{
    let n = data.len();
    assert(off + 2 < n);
    let lo = read_u16_le(data, off) as u32;
    let hi = read_u16_le(data, off + 2) as u32;
    lo + 65536 * hi
}

} // verus!
