use vstd::prelude::*;
use crate::table::{crc16_entry, lemma_table_entries, CRC16_TAB};

verus! {

/// The reflected generator polynomial of the checksum.
pub const CRC16_POLY: u16 = 0xA001;

/// The register after one bit has been shifted out of it.
pub open spec fn crc16_shift(c: u16) -> u16 {
    if c & 1 == 1 {
        (c >> 1) ^ CRC16_POLY
    } else {
        c >> 1
    }
}

/// The register after a whole byte has been shifted out of it.
pub open spec fn crc16_shift8(c: u16) -> u16 {
    crc16_shift(
        crc16_shift(
            crc16_shift(
                crc16_shift(crc16_shift(crc16_shift(crc16_shift(crc16_shift(c))))),
            ),
        ),
    )
}

/// The register after the byte `b` has been taken in.
pub open spec fn crc16_update(c: u16, b: u8) -> u16 {
    crc16_shift8(c ^ (b as u16))
}

/// The checksum of a byte sequence: the register starts at zero and takes in
/// the bytes from first to last.
pub open spec fn crc16(bytes: Seq<u8>) -> u16
    decreases bytes.len(),
{
    if bytes.len() == 0 {
        0
    } else {
        crc16_update(crc16(bytes.drop_last()), bytes.last())
    }
}

/// Taking in one more byte updates the checksum of what came before it.
pub proof fn lemma_crc16_push(bytes: Seq<u8>, b: u8)
    ensures
        crc16(bytes.push(b)) == crc16_update(crc16(bytes), b),
{
    assert(bytes.push(b).drop_last() == bytes);
}

/// Shifting one bit out of the register loses nothing: the bit that left
/// shows in the top bit of the result.
proof fn lemma_shift_injective(a: u16, b: u16)
    requires
        crc16_shift(a) == crc16_shift(b),
    ensures
        a == b,
{
    let sa = crc16_shift(a);
    let sb = crc16_shift(b);
    assert(a == b) by (bit_vector)
        requires
            sa == (if a & 1 == 1 { (a >> 1) ^ 0xA001 } else { a >> 1 }),
            sb == (if b & 1 == 1 { (b >> 1) ^ 0xA001 } else { b >> 1 }),
            sa == sb,
    ;
}

/// Two registers that agree after a byte was shifted out agreed before.
proof fn lemma_shift8_injective(a: u16, b: u16)
    requires
        crc16_shift8(a) == crc16_shift8(b),
    ensures
        a == b,
{
    let a1 = crc16_shift(a);
    let a2 = crc16_shift(a1);
    let a3 = crc16_shift(a2);
    let a4 = crc16_shift(a3);
    let a5 = crc16_shift(a4);
    let a6 = crc16_shift(a5);
    let a7 = crc16_shift(a6);
    let b1 = crc16_shift(b);
    let b2 = crc16_shift(b1);
    let b3 = crc16_shift(b2);
    let b4 = crc16_shift(b3);
    let b5 = crc16_shift(b4);
    let b6 = crc16_shift(b5);
    let b7 = crc16_shift(b6);
    lemma_shift_injective(a7, b7);
    lemma_shift_injective(a6, b6);
    lemma_shift_injective(a5, b5);
    lemma_shift_injective(a4, b4);
    lemma_shift_injective(a3, b3);
    lemma_shift_injective(a2, b2);
    lemma_shift_injective(a1, b1);
    lemma_shift_injective(a, b);
}

/// Two registers that take in the same byte and then agree agreed before,
/// and one register that takes in either of two bytes and comes out the
/// same took in the same byte.
pub proof fn lemma_crc16_update_injective(c1: u16, b1: u8, c2: u16, b2: u8)
    requires
        crc16_update(c1, b1) == crc16_update(c2, b2),
    ensures
        b1 == b2 ==> c1 == c2,
        c1 == c2 ==> b1 == b2,
{
    lemma_shift8_injective(c1 ^ (b1 as u16), c2 ^ (b2 as u16));
    assert((b1 == b2 ==> c1 == c2) && (c1 == c2 ==> b1 == b2)) by (bit_vector)
        requires
            c1 ^ (b1 as u16) == c2 ^ (b2 as u16),
    ;
}

/// The checksum tells a sequence from every sequence that differs from it
/// in one byte.
pub proof fn lemma_crc16_detects_change(bytes: Seq<u8>, i: int, b: u8)
    requires
        0 <= i < bytes.len(),
        b != bytes[i],
    ensures
        crc16(bytes.update(i, b)) != crc16(bytes),
    decreases bytes.len(),
{
    let changed = bytes.update(i, b);
    if i == bytes.len() - 1 {
        assert(changed.drop_last() == bytes.drop_last());
    } else {
        assert(changed.drop_last() == bytes.drop_last().update(i, b));
        lemma_crc16_detects_change(bytes.drop_last(), i, b);
    }
    if crc16(changed) == crc16(bytes) {
        lemma_crc16_update_injective(
            crc16(changed.drop_last()),
            changed.last(),
            crc16(bytes.drop_last()),
            bytes.last(),
        );
    }
}

/// What a byte alone leaves in the register is its entry in the table.
proof fn lemma_shift8_low(x: u16)
    requires
        x < 256,
    ensures
        crc16_shift8(x) == crc16_entry(x as int),
{
    let s1 = crc16_shift(x);
    let s2 = crc16_shift(s1);
    let s3 = crc16_shift(s2);
    let s4 = crc16_shift(s3);
    let s5 = crc16_shift(s4);
    let s6 = crc16_shift(s5);
    let s7 = crc16_shift(s6);
    let s8 = crc16_shift(s7);
    let b0: u16 = x % 2;
    let b1: u16 = (x / 2) % 2;
    let b2: u16 = (x / 4) % 2;
    let b3: u16 = (x / 8) % 2;
    let b4: u16 = (x / 16) % 2;
    let b5: u16 = (x / 32) % 2;
    let b6: u16 = (x / 64) % 2;
    let b7: u16 = (x / 128) % 2;
    let p: u16 = ((b0 + b1 + b2 + b3 + b4 + b5 + b6 + b7) as u16) % 2;
    let e: u16 = (p
        + 64 * b0
        + 128 * (((b0 + b1) as u16) % 2)
        + 256 * (((b1 + b2) as u16) % 2)
        + 512 * (((b2 + b3) as u16) % 2)
        + 1024 * (((b3 + b4) as u16) % 2)
        + 2048 * (((b4 + b5) as u16) % 2)
        + 4096 * (((b5 + b6) as u16) % 2)
        + 8192 * (((b6 + b7) as u16) % 2)
        + 16384 * (((b7 + p) as u16) % 2)
        + 32768 * p) as u16;
    assert(s8 == e) by (bit_vector)
        requires
            x < 256,
            s1 == (if x & 1 == 1 { (x >> 1) ^ 0xA001 } else { x >> 1 }),
            s2 == (if s1 & 1 == 1 { (s1 >> 1) ^ 0xA001 } else { s1 >> 1 }),
            s3 == (if s2 & 1 == 1 { (s2 >> 1) ^ 0xA001 } else { s2 >> 1 }),
            s4 == (if s3 & 1 == 1 { (s3 >> 1) ^ 0xA001 } else { s3 >> 1 }),
            s5 == (if s4 & 1 == 1 { (s4 >> 1) ^ 0xA001 } else { s4 >> 1 }),
            s6 == (if s5 & 1 == 1 { (s5 >> 1) ^ 0xA001 } else { s5 >> 1 }),
            s7 == (if s6 & 1 == 1 { (s6 >> 1) ^ 0xA001 } else { s6 >> 1 }),
            s8 == (if s7 & 1 == 1 { (s7 >> 1) ^ 0xA001 } else { s7 >> 1 }),
            b0 == x % 2,
            b1 == (x / 2) % 2,
            b2 == (x / 4) % 2,
            b3 == (x / 8) % 2,
            b4 == (x / 16) % 2,
            b5 == (x / 32) % 2,
            b6 == (x / 64) % 2,
            b7 == (x / 128) % 2,
            p == ((b0 + b1 + b2 + b3 + b4 + b5 + b6 + b7) as u16) % 2,
            e == (p
                + 64 * b0
                + 128 * (((b0 + b1) as u16) % 2)
                + 256 * (((b1 + b2) as u16) % 2)
                + 512 * (((b2 + b3) as u16) % 2)
                + 1024 * (((b3 + b4) as u16) % 2)
                + 2048 * (((b4 + b5) as u16) % 2)
                + 4096 * (((b5 + b6) as u16) % 2)
                + 8192 * (((b6 + b7) as u16) % 2)
                + 16384 * (((b7 + p) as u16) % 2)
                + 32768 * p) as u16,
    ;
}

/// Shifting a byte out of the register moves its high byte down and combines
/// it with what the low byte alone would have left.
proof fn lemma_shift8_split(x: u16)
    ensures
        x & 0xFF < 256,
        crc16_shift8(x) == crc16_shift8(x & 0xFF) ^ (x >> 8),
{
    let y = x & 0xFF;
    let s1 = crc16_shift(x);
    let s2 = crc16_shift(s1);
    let s3 = crc16_shift(s2);
    let s4 = crc16_shift(s3);
    let s5 = crc16_shift(s4);
    let s6 = crc16_shift(s5);
    let s7 = crc16_shift(s6);
    let s8 = crc16_shift(s7);
    let t1 = crc16_shift(y);
    let t2 = crc16_shift(t1);
    let t3 = crc16_shift(t2);
    let t4 = crc16_shift(t3);
    let t5 = crc16_shift(t4);
    let t6 = crc16_shift(t5);
    let t7 = crc16_shift(t6);
    let t8 = crc16_shift(t7);
    assert(y < 256 && s8 == t8 ^ (x >> 8)) by (bit_vector)
        requires
            y == x & 0xFF,
            s1 == (if x & 1 == 1 { (x >> 1) ^ 0xA001 } else { x >> 1 }),
            s2 == (if s1 & 1 == 1 { (s1 >> 1) ^ 0xA001 } else { s1 >> 1 }),
            s3 == (if s2 & 1 == 1 { (s2 >> 1) ^ 0xA001 } else { s2 >> 1 }),
            s4 == (if s3 & 1 == 1 { (s3 >> 1) ^ 0xA001 } else { s3 >> 1 }),
            s5 == (if s4 & 1 == 1 { (s4 >> 1) ^ 0xA001 } else { s4 >> 1 }),
            s6 == (if s5 & 1 == 1 { (s5 >> 1) ^ 0xA001 } else { s5 >> 1 }),
            s7 == (if s6 & 1 == 1 { (s6 >> 1) ^ 0xA001 } else { s6 >> 1 }),
            s8 == (if s7 & 1 == 1 { (s7 >> 1) ^ 0xA001 } else { s7 >> 1 }),
            t1 == (if y & 1 == 1 { (y >> 1) ^ 0xA001 } else { y >> 1 }),
            t2 == (if t1 & 1 == 1 { (t1 >> 1) ^ 0xA001 } else { t1 >> 1 }),
            t3 == (if t2 & 1 == 1 { (t2 >> 1) ^ 0xA001 } else { t2 >> 1 }),
            t4 == (if t3 & 1 == 1 { (t3 >> 1) ^ 0xA001 } else { t3 >> 1 }),
            t5 == (if t4 & 1 == 1 { (t4 >> 1) ^ 0xA001 } else { t4 >> 1 }),
            t6 == (if t5 & 1 == 1 { (t5 >> 1) ^ 0xA001 } else { t5 >> 1 }),
            t7 == (if t6 & 1 == 1 { (t6 >> 1) ^ 0xA001 } else { t6 >> 1 }),
            t8 == (if t7 & 1 == 1 { (t7 >> 1) ^ 0xA001 } else { t7 >> 1 }),
    ;
}

/// Takes one byte into the register, by one look into the table.
pub fn crc16_step(crc: u16, byte: u8) -> (r: u16)
    ensures
        r == crc16_update(crc, byte),
{
    let mixed: u16 = crc ^ (byte as u16);
    let low: u16 = mixed & 0xFF;
    proof {
        lemma_shift8_split(mixed);
        lemma_shift8_low(low);
        lemma_table_entries(low as int);
        assert(mixed >> 8 == crc >> 8) by (bit_vector)
            requires
                mixed == crc ^ (byte as u16),
        ;
    }
    CRC16_TAB[low as usize] ^ (crc >> 8)
}

/// Computes the checksum of `bytes`.
pub fn compute(bytes: &[u8]) -> (crc: u16)
    ensures
        crc == crc16(bytes@),
{
    let mut crc: u16 = 0;
    let mut i: usize = 0;
    while i < bytes.len()
        invariant
            i <= bytes.len(),
            crc == crc16(bytes@.take(i as int)),
        decreases bytes.len() - i,
    {
        proof {
            assert(bytes@.take(i + 1).drop_last() == bytes@.take(i as int));
        }
        crc = crc16_step(crc, bytes[i]);
        i += 1;
    }
    proof {
        assert(bytes@.take(i as int) == bytes@);
    }
    crc
}

} // verus!
