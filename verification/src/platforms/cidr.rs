//! Address blocks.

use vstd::prelude::*;

verus! {

/// By what a byte is divided to leave its top `bits` bits.
pub open spec fn low_bits(bits: int) -> int {
    if bits == 1 {
        128
    } else if bits == 2 {
        64
    } else if bits == 3 {
        32
    } else if bits == 4 {
        16
    } else if bits == 5 {
        8
    } else if bits == 6 {
        4
    } else {
        2
    }
}

/// Whether the first `bits` bits of an address equal those of `net`, of which
/// only the bytes that matter are written out.
pub open spec fn in_block(ip: Seq<u8>, net: Seq<u8>, bits: int) -> bool {
    let whole = bits / 8;
    let rest = bits % 8;
    &&& forall|i: int| 0 <= i < whole ==> #[trigger] ip[i] == net[i]
    &&& rest > 0 ==> ip[whole] as int / low_bits(rest) == net[whole] as int / low_bits(rest)
}

} // verus!
