//! Big-endian byte-order helpers shared by the codecs. Every multi-byte
//! integer of the DNS wire format is network order (RFC 1035 section 4).

use vstd::prelude::*;

verus! {

/// The high byte of a 16-bit value.
pub open spec fn u16_hi(x: u16) -> u8 {
    (x >> 8) as u8
}

/// The low byte of a 16-bit value.
pub open spec fn u16_lo(x: u16) -> u8 {
    (x & 0xff) as u8
}

/// The 16-bit value read big-endian from two bytes.
pub open spec fn u16_join(hi: u8, lo: u8) -> u16 {
    ((hi as u16) << 8) | (lo as u16)
}

/// The two bytes of a 16-bit value in network order.
pub open spec fn u16_be_bytes(x: u16) -> Seq<u8> {
    seq![u16_hi(x), u16_lo(x)]
}

/// The 32-bit value read big-endian from four bytes.
pub open spec fn u32_join(b0: u8, b1: u8, b2: u8, b3: u8) -> u32 {
    ((b0 as u32) << 24) | ((b1 as u32) << 16) | ((b2 as u32) << 8) | (b3 as u32)
}

/// The four bytes of a 32-bit value in network order.
pub open spec fn u32_be_bytes(x: u32) -> Seq<u8> {
    seq![(x >> 24) as u8, ((x >> 16) & 0xff) as u8, ((x >> 8) & 0xff) as u8, (x & 0xff) as u8]
}

/// Splitting a 16-bit value into its two network-order bytes and joining
/// them again gives the value back.
pub proof fn lemma_u16_round_trip(x: u16)
    ensures
        u16_join(u16_hi(x), u16_lo(x)) == x,
{
    assert(((((x >> 8) as u8) as u16) << 8) | (((x & 0xff) as u8) as u16) == x) by (bit_vector);
}

/// Splitting a 32-bit value into its four network-order bytes and joining
/// them again gives the value back.
pub proof fn lemma_u32_round_trip(x: u32)
    ensures
        u32_join(
            u32_be_bytes(x)[0],
            u32_be_bytes(x)[1],
            u32_be_bytes(x)[2],
            u32_be_bytes(x)[3],
        ) == x,
{
    assert((((x >> 24) as u8 as u32) << 24) | ((((x >> 16) & 0xff) as u8 as u32) << 16) | ((((x
        >> 8) & 0xff) as u8 as u32) << 8) | ((x & 0xff) as u8 as u32) == x) by (bit_vector);
}

/// Reads a 16-bit value big-endian from two bytes.
pub fn read_u16_be(hi: u8, lo: u8) -> (r: u16)
    ensures
        r == u16_join(hi, lo),
{
    ((hi as u16) << 8u16) | (lo as u16)
}

/// Reads a 32-bit value big-endian from four bytes.
pub fn read_u32_be(b0: u8, b1: u8, b2: u8, b3: u8) -> (r: u32)
    ensures
        r == u32_join(b0, b1, b2, b3),
{
    ((b0 as u32) << 24u32) | ((b1 as u32) << 16u32) | ((b2 as u32) << 8u32) | (b3 as u32)
}

/// Appends the two network-order bytes of a 16-bit value.
pub fn push_u16_be(out: &mut Vec<u8>, x: u16)
    ensures
        final(out)@ == old(out)@ + u16_be_bytes(x),
{
    out.push((x >> 8u16) as u8);
    out.push((x & 0xffu16) as u8);
    proof {
        assert(out@ =~= old(out)@ + u16_be_bytes(x));
    }
}

/// Appends the four network-order bytes of a 32-bit value.
pub fn push_u32_be(out: &mut Vec<u8>, x: u32)
    ensures
        final(out)@ == old(out)@ + u32_be_bytes(x),
{
    out.push((x >> 24u32) as u8);
    out.push(((x >> 16u32) & 0xff) as u8);
    out.push(((x >> 8u32) & 0xff) as u8);
    out.push((x & 0xffu32) as u8);
    proof {
        assert(out@ =~= old(out)@ + u32_be_bytes(x));
    }
}

} // verus!
