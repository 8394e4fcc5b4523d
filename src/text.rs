//! Fixed-width upper-case hexadecimal text of 32-bit values, as ASCII bytes.

use vstd::prelude::*;

verus! {

/// The upper-case hexadecimal digit for `d` (below 16), as an ASCII byte.
pub open spec fn hex_digit(d: u32) -> u8 {
    if d < 10 {
        (d + 48) as u8
    } else {
        (d + 55) as u8
    }
}

/// A space, then the eight hexadecimal digits of `v`, most significant first.
pub open spec fn cell_text(v: u32) -> Seq<u8> {
    seq![32u8] + Seq::new(8, |k: int| hex_digit((v >> ((28 - 4 * k) as u32)) & 15u32))
}

/// Appends the text of value `v` to `out`.
pub fn push_cell_text(out: &mut Vec<u8>, v: u32)
    ensures
        final(out)@ == old(out)@ + cell_text(v),
{
    let ghost start = out@;
    out.push(32u8);
    let mut k: u32 = 0;
    while k < 8
        invariant
            k <= 8,
            out@ == start + seq![32u8] + Seq::new(k as nat, |j: int| hex_digit((v >> ((28 - 4 * j) as u32)) & 15u32)),
        decreases 8 - k,
    {
        let shifted: u32 = v >> (28 - 4 * k);
        let d: u32 = shifted & 15u32;
        assert(shifted & 15u32 < 16) by (bit_vector);
        let c: u8 = if d < 10 { (d + 48) as u8 } else { (d + 55) as u8 };
        out.push(c);
        k = k + 1;
        assert(out@ =~= start + seq![32u8] + Seq::new(k as nat, |j: int| hex_digit((v >> ((28 - 4 * j) as u32)) & 15u32)));
    }
    assert(out@ =~= start + cell_text(v));
}

} // verus!
