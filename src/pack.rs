//! Big-endian packing of a 32-bit pixel value into four bytes.

use vstd::prelude::*;

verus! {

/// The 32-bit value whose bytes, most significant first, are `b0`, `b1`, `b2`, `b3`.
pub open spec fn pack_be(b0: u8, b1: u8, b2: u8, b3: u8) -> u32 {
    ((b0 as u32) << 24u32) | ((b1 as u32) << 16u32) | ((b2 as u32) << 8u32) | (b3 as u32)
}

/// The four bytes of `v`, most significant first.
pub open spec fn bytes_be(v: u32) -> Seq<u8> {
    seq![(v >> 24u32) as u8, (v >> 16u32) as u8, (v >> 8u32) as u8, v as u8]
}

/// Packing the bytes of a value gives the value back.
pub proof fn lemma_pack_bytes_be(v: u32)
    ensures
        pack_be(bytes_be(v)[0], bytes_be(v)[1], bytes_be(v)[2], bytes_be(v)[3]) == v,
{
    assert(((((v >> 24u32) as u8) as u32) << 24u32) | ((((v >> 16u32) as u8) as u32) << 16u32)
        | ((((v >> 8u32) as u8) as u32) << 8u32) | ((v as u8) as u32) == v) by (bit_vector);
}

} // verus!
