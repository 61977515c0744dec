//! Big-endian integers inside a byte slice.

use vstd::prelude::*;

verus! {

/// The 16-bit big-endian integer at offset `i`.
pub open spec fn be16(s: Seq<u8>, i: int) -> int {
    s[i] * 256 + s[i + 1]
}

/// The 32-bit big-endian integer at offset `i`.
pub open spec fn be32(s: Seq<u8>, i: int) -> int {
    be16(s, i) * 65536 + be16(s, i + 2)
}

/// Read the 16-bit big-endian integer at offset `i`.
pub fn read_be16(data: &[u8], i: usize) -> (r: u16)
    requires
        i + 2 <= data@.len(),
    ensures
        r == be16(data@, i as int),
{
    data[i] as u16 * 256 + data[i + 1] as u16
}

/// Read the 32-bit big-endian integer at offset `i`.
pub fn read_be32(data: &[u8], i: usize) -> (r: u32)
    requires
        i + 4 <= data@.len(),
    ensures
        r == be32(data@, i as int),
{
    assert(i + 4 <= data.len());
    read_be16(data, i) as u32 * 65536 + read_be16(data, i + 2) as u32
}

/// A number that was read gives its bytes back, the first one as the highest.
pub proof fn numbers_give_their_bytes_back(s: Seq<u8>, i: int)
    ensures
        be16(s, i) / 256 == s[i],
        be16(s, i) % 256 == s[i + 1],
        0 <= be16(s, i) < 0x1_0000,
        0 <= be32(s, i) < 0x1_0000_0000,
        be32(s, i) / 0x100_0000 == s[i],
        be32(s, i) / 0x1_0000 % 256 == s[i + 1],
        be32(s, i) / 0x100 % 256 == s[i + 2],
        be32(s, i) % 256 == s[i + 3],
{
    let (a, b, c, d) = (s[i] as int, s[i + 1] as int, s[i + 2] as int, s[i + 3] as int);
    assert(be32(s, i) == a * 0x100_0000 + b * 0x1_0000 + c * 0x100 + d);
}

} // verus!
