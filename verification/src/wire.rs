//! Big-endian 32-bit fields of the wire format.

use vstd::prelude::*;

verus! {

/// The value that four bytes hold as a big-endian 32-bit integer.
pub open spec fn be32_val(b0: u8, b1: u8, b2: u8, b3: u8) -> u32 {
    ((b0 as u32) << 24) | ((b1 as u32) << 16) | ((b2 as u32) << 8) | (b3 as u32)
}

/// The four big-endian bytes of a 32-bit value.
pub open spec fn u32_be(x: u32) -> Seq<u8> {
    seq![(x >> 24) as u8, (x >> 16) as u8, (x >> 8) as u8, x as u8]
}

/// Reading back the four big-endian bytes of a value yields the value.
pub proof fn lemma_u32_be_round_trip(x: u32)
    ensures
        be32_val((x >> 24) as u8, (x >> 16) as u8, (x >> 8) as u8, x as u8) == x,
{
    assert((((x >> 24) as u8 as u32) << 24) | (((x >> 16) as u8 as u32) << 16) | (((x >> 8) as u8
        as u32) << 8) | (x as u8 as u32) == x) by (bit_vector);
}

/// Four bytes determine the value they encode: the big-endian bytes of the
/// value read from them are the bytes themselves.
pub proof fn lemma_be32_val_bytes(b0: u8, b1: u8, b2: u8, b3: u8)
    ensures
        u32_be(be32_val(b0, b1, b2, b3)) == seq![b0, b1, b2, b3],
{
    let x = be32_val(b0, b1, b2, b3);
    assert((((b0 as u32) << 24) | ((b1 as u32) << 16) | ((b2 as u32) << 8) | (b3 as u32)) >> 24
        == b0 as u32) by (bit_vector);
    assert((((b0 as u32) << 24) | ((b1 as u32) << 16) | ((b2 as u32) << 8) | (b3 as u32)) >> 16
        == (b0 as u32) << 8 | (b1 as u32)) by (bit_vector);
    assert(((b0 as u32) << 8 | (b1 as u32)) as u8 == b1) by (bit_vector);
    assert((((b0 as u32) << 24) | ((b1 as u32) << 16) | ((b2 as u32) << 8) | (b3 as u32)) >> 8
        == (b0 as u32) << 16 | (b1 as u32) << 8 | (b2 as u32)) by (bit_vector);
    assert(((b0 as u32) << 16 | (b1 as u32) << 8 | (b2 as u32)) as u8 == b2) by (bit_vector);
    assert(((((b0 as u32) << 24) | ((b1 as u32) << 16) | ((b2 as u32) << 8) | (b3 as u32)) as u8)
        == b3) by (bit_vector);
    assert(u32_be(x) =~= seq![b0, b1, b2, b3]);
}

/// Reads the big-endian 32-bit field that starts at `at`.
pub fn read_u32_be(bytes: &Vec<u8>, at: usize) -> (r: u32)
    requires
        at + 4 <= bytes@.len(),
    ensures
        r == be32_val(bytes@[at as int], bytes@[at + 1], bytes@[at + 2], bytes@[at + 3]),
{
    let n: usize = bytes.len();
    assert(at + 4 <= n);
    ((bytes[at] as u32) << 24) | ((bytes[at + 1] as u32) << 16) | ((bytes[at + 2] as u32) << 8) | (
    bytes[at + 3] as u32)
}

/// Appends the four big-endian bytes of `x`.
pub fn push_u32_be(out: &mut Vec<u8>, x: u32)
    ensures
        final(out)@ == old(out)@ + u32_be(x),
{
    out.push((x >> 24) as u8);
    out.push((x >> 16) as u8);
    out.push((x >> 8) as u8);
    out.push(x as u8);
    assert(final(out)@ =~= old(out)@ + u32_be(x));
}

} // verus!
