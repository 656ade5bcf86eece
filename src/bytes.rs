//! Little-endian words in byte sequences.
use vstd::prelude::*;

verus! {

/// The four little-endian bytes of a 32-bit word.
pub open spec fn le_bytes_u32(x: u32) -> Seq<u8> {
    seq![(x & 0xff) as u8, ((x >> 8) & 0xff) as u8, ((x >> 16) & 0xff) as u8, ((x >> 24) & 0xff) as u8]
}

/// The 32-bit word stored little-endian at `b[i..i + 4]`.
pub open spec fn u32_at(b: Seq<u8>, i: int) -> u32 {
    (b[i] as u32) | ((b[i + 1] as u32) << 8u32) | ((b[i + 2] as u32) << 16u32) | ((b[i + 3] as u32) << 24u32)
}

/// The 16-bit word stored little-endian at `b[i..i + 2]`.
pub open spec fn u16_at(b: Seq<u8>, i: int) -> u16 {
    ((b[i] as u16) | ((b[i + 1] as u16) << 8u16)) as u16
}

/// Reading back the bytes of a word gives the word.
pub proof fn lemma_u32_round_trip(x: u32)
    ensures
        u32_at(le_bytes_u32(x), 0) == x,
{
    let b0 = (x & 0xff) as u8;
    let b1 = ((x >> 8) & 0xff) as u8;
    let b2 = ((x >> 16) & 0xff) as u8;
    let b3 = ((x >> 24) & 0xff) as u8;
    assert((b0 as u32) | ((b1 as u32) << 8u32) | ((b2 as u32) << 16u32) | ((b3 as u32) << 24u32) == x)
        by (bit_vector)
        requires
            b0 == (x & 0xff) as u8,
            b1 == ((x >> 8) & 0xff) as u8,
            b2 == ((x >> 16) & 0xff) as u8,
            b3 == ((x >> 24) & 0xff) as u8,
    ;
}

/// Appends the little-endian bytes of `x`.
pub fn push_u32_le(out: &mut Vec<u8>, x: u32)
    ensures
        final(out)@ == old(out)@ + le_bytes_u32(x),
{
    out.push((x & 0xff) as u8);
    out.push(((x >> 8) & 0xff) as u8);
    out.push(((x >> 16) & 0xff) as u8);
    out.push(((x >> 24) & 0xff) as u8);
    assert(final(out)@ =~= old(out)@ + le_bytes_u32(x));
}

/// The 32-bit word stored little-endian at `b[i..i + 4]`.
pub fn read_u32_le(b: &[u8], i: usize) -> (r: u32)
    requires
        i + 4 <= b@.len(),
    ensures
        r == u32_at(b@, i as int),
{
    (b[i] as u32) | ((b[i + 1] as u32) << 8u32) | ((b[i + 2] as u32) << 16u32) | ((b[i + 3] as u32) << 24u32)
}

/// The 16-bit word stored little-endian at `b[i..i + 2]`.
pub fn read_u16_le(b: &[u8], i: usize) -> (r: u16)
    requires
        i + 2 <= b@.len(),
    ensures
        r == u16_at(b@, i as int),
{
    ((b[i] as u16) | ((b[i + 1] as u16) << 8u16)) as u16
}

} // verus!
