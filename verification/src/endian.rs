use vstd::prelude::*;

verus! {

/// The low byte of a 16-bit value.
pub open spec fn low_byte(x: u16) -> u8 {
    (x % 256) as u8
}

/// The high byte of a 16-bit value.
pub open spec fn high_byte(x: u16) -> u8 {
    (x / 256) as u8
}

/// The 16-bit value whose little-endian bytes are `lo` and `hi`.
pub open spec fn u16_le(lo: u8, hi: u8) -> u16 {
    (lo + 256 * hi) as u16
}

/// The two bytes of a 16-bit value, low byte first.
pub open spec fn le_bytes(x: u16) -> Seq<u8> {
    seq![low_byte(x), high_byte(x)]
}

/// A value is put together again from its two bytes.
pub proof fn lemma_u16_le_of_bytes(x: u16)
    ensures
        u16_le(low_byte(x), high_byte(x)) == x,
{
}

/// The two bytes of a value put together are the bytes it was made of.
pub proof fn lemma_bytes_of_u16_le(lo: u8, hi: u8)
    ensures
        low_byte(u16_le(lo, hi)) == lo,
        high_byte(u16_le(lo, hi)) == hi,
{
}

/// Joining two bytes with a shift and an or gives the value they stand for.
pub proof fn lemma_or_shift_is_u16_le(lo: u8, hi: u8)
    ensures
        (lo as u16) | ((hi as u16) << 8) == u16_le(lo, hi),
{
    assert((lo as u16) | ((hi as u16) << 8) == lo + 256 * hi) by (bit_vector);
}

/// Returns the low byte of `x`.
pub fn low(x: u16) -> (b: u8)
    ensures
        b == low_byte(x),
{
    assert(x & 0xFF == x % 256) by (bit_vector);
    (x & 0xFF) as u8
}

/// Returns the high byte of `x`.
pub fn high(x: u16) -> (b: u8)
    ensures
        b == high_byte(x),
{
    assert(x >> 8 == x / 256) by (bit_vector);
    (x >> 8) as u8
}

/// Puts a 16-bit value together from its bytes, low byte first.
pub fn join(lo: u8, hi: u8) -> (x: u16)
    ensures
        x == u16_le(lo, hi),
{
    proof {
        lemma_or_shift_is_u16_le(lo, hi);
    }
    (lo as u16) | ((hi as u16) << 8)
}

} // verus!
