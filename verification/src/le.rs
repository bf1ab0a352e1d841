//! Little-endian packing of bytes into words, and how xor acts on packed
//! words.

use vstd::prelude::*;

verus! {

/// The 16-bit word whose bytes, least significant first, are `b0`, `b1`.
pub open spec fn spec_u16_le(b0: u8, b1: u8) -> u16 {
    (b0 as u16) | ((b1 as u16) << 8u16)
}

/// The 32-bit word whose bytes, least significant first, are `b0` to `b3`.
pub open spec fn spec_u32_le(b0: u8, b1: u8, b2: u8, b3: u8) -> u32 {
    (b0 as u32) | ((b1 as u32) << 8u32) | ((b2 as u32) << 16u32) | ((b3 as u32) << 24u32)
}

/// The 64-bit word whose bytes, least significant first, are `b0` to `b7`.
pub open spec fn spec_u64_le(
    b0: u8,
    b1: u8,
    b2: u8,
    b3: u8,
    b4: u8,
    b5: u8,
    b6: u8,
    b7: u8,
) -> u64 {
    (b0 as u64) | ((b1 as u64) << 8u64) | ((b2 as u64) << 16u64) | ((b3 as u64) << 24u64) | ((
    b4 as u64) << 32u64) | ((b5 as u64) << 40u64) | ((b6 as u64) << 48u64) | ((b7 as u64)
        << 56u64)
}

/// Byte `j` of `w`, byte 0 being the least significant.
pub open spec fn spec_byte32(w: u32, j: int) -> u8 {
    if j == 0 {
        w as u8
    } else if j == 1 {
        (w >> 8u32) as u8
    } else if j == 2 {
        (w >> 16u32) as u8
    } else {
        (w >> 24u32) as u8
    }
}

/// Byte `j` of `w`, byte 0 being the least significant.
pub open spec fn spec_byte64(w: u64, j: int) -> u8 {
    if j == 0 {
        w as u8
    } else if j == 1 {
        (w >> 8u64) as u8
    } else if j == 2 {
        (w >> 16u64) as u8
    } else if j == 3 {
        (w >> 24u64) as u8
    } else if j == 4 {
        (w >> 32u64) as u8
    } else if j == 5 {
        (w >> 40u64) as u8
    } else if j == 6 {
        (w >> 48u64) as u8
    } else {
        (w >> 56u64) as u8
    }
}

pub fn u16_le(b0: u8, b1: u8) -> (w: u16)
    ensures
        w == spec_u16_le(b0, b1),
{
    (b0 as u16) | ((b1 as u16) << 8u16)
}

pub fn u32_le(b0: u8, b1: u8, b2: u8, b3: u8) -> (w: u32)
    ensures
        w == spec_u32_le(b0, b1, b2, b3),
{
    (b0 as u32) | ((b1 as u32) << 8u32) | ((b2 as u32) << 16u32) | ((b3 as u32) << 24u32)
}

pub fn u64_le(b0: u8, b1: u8, b2: u8, b3: u8, b4: u8, b5: u8, b6: u8, b7: u8) -> (w: u64)
    ensures
        w == spec_u64_le(b0, b1, b2, b3, b4, b5, b6, b7),
{
    (b0 as u64) | ((b1 as u64) << 8u64) | ((b2 as u64) << 16u64) | ((b3 as u64) << 24u64) | ((
    b4 as u64) << 32u64) | ((b5 as u64) << 40u64) | ((b6 as u64) << 48u64) | ((b7 as u64)
        << 56u64)
}

/// The bytes of the xor of two packed 32-bit words are the xors of their bytes.
pub proof fn lemma_xor_u32_le(a0: u8, a1: u8, a2: u8, a3: u8, b0: u8, b1: u8, b2: u8, b3: u8)
    by (bit_vector)
    ensures
        ({
            let w = spec_u32_le(a0, a1, a2, a3) ^ spec_u32_le(b0, b1, b2, b3);
            &&& w as u8 == a0 ^ b0
            &&& (w >> 8u32) as u8 == a1 ^ b1
            &&& (w >> 16u32) as u8 == a2 ^ b2
            &&& (w >> 24u32) as u8 == a3 ^ b3
        }),
{
}

/// The bytes of the xor of two packed 64-bit words are the xors of their bytes.
pub proof fn lemma_xor_u64_le(
    a0: u8,
    a1: u8,
    a2: u8,
    a3: u8,
    a4: u8,
    a5: u8,
    a6: u8,
    a7: u8,
    b0: u8,
    b1: u8,
    b2: u8,
    b3: u8,
    b4: u8,
    b5: u8,
    b6: u8,
    b7: u8,
)
    by (bit_vector)
    ensures
        ({
            let w = spec_u64_le(a0, a1, a2, a3, a4, a5, a6, a7) ^ spec_u64_le(
                b0,
                b1,
                b2,
                b3,
                b4,
                b5,
                b6,
                b7,
            );
            &&& w as u8 == a0 ^ b0
            &&& (w >> 8u64) as u8 == a1 ^ b1
            &&& (w >> 16u64) as u8 == a2 ^ b2
            &&& (w >> 24u64) as u8 == a3 ^ b3
            &&& (w >> 32u64) as u8 == a4 ^ b4
            &&& (w >> 40u64) as u8 == a5 ^ b5
            &&& (w >> 48u64) as u8 == a6 ^ b6
            &&& (w >> 56u64) as u8 == a7 ^ b7
        }),
{
}

/// Two packed 16-bit words xor to a third exactly when their bytes do.
pub proof fn lemma_eq_u16_le(a0: u8, a1: u8, b0: u8, b1: u8, c0: u8, c1: u8)
    by (bit_vector)
    ensures
        (spec_u16_le(a0, a1) ^ spec_u16_le(b0, b1)) == spec_u16_le(c0, c1) <==> (a0 ^ b0 == c0
            && a1 ^ b1 == c1),
{
}

/// Two 32-bit words packed from three bytes xor to a third exactly when
/// their bytes do.
pub proof fn lemma_eq_u24_le(
    a0: u8,
    a1: u8,
    a2: u8,
    b0: u8,
    b1: u8,
    b2: u8,
    c0: u8,
    c1: u8,
    c2: u8,
)
    by (bit_vector)
    ensures
        (spec_u32_le(a0, a1, a2, 0) ^ spec_u32_le(b0, b1, b2, 0)) == spec_u32_le(c0, c1, c2, 0)
            <==> (a0 ^ b0 == c0 && a1 ^ b1 == c1 && a2 ^ b2 == c2),
{
}

/// Two packed 32-bit words xor to a third exactly when their bytes do.
pub proof fn lemma_eq_u32_le(
    a0: u8,
    a1: u8,
    a2: u8,
    a3: u8,
    b0: u8,
    b1: u8,
    b2: u8,
    b3: u8,
    c0: u8,
    c1: u8,
    c2: u8,
    c3: u8,
)
    by (bit_vector)
    ensures
        (spec_u32_le(a0, a1, a2, a3) ^ spec_u32_le(b0, b1, b2, b3)) == spec_u32_le(
            c0,
            c1,
            c2,
            c3,
        ) <==> (a0 ^ b0 == c0 && a1 ^ b1 == c1 && a2 ^ b2 == c2 && a3 ^ b3 == c3),
{
}

/// Two packed 64-bit words xor to a third exactly when their bytes do.
pub proof fn lemma_eq_u64_le(
    a0: u8,
    a1: u8,
    a2: u8,
    a3: u8,
    a4: u8,
    a5: u8,
    a6: u8,
    a7: u8,
    b0: u8,
    b1: u8,
    b2: u8,
    b3: u8,
    b4: u8,
    b5: u8,
    b6: u8,
    b7: u8,
    c0: u8,
    c1: u8,
    c2: u8,
    c3: u8,
    c4: u8,
    c5: u8,
    c6: u8,
    c7: u8,
)
    by (bit_vector)
    ensures
        (spec_u64_le(a0, a1, a2, a3, a4, a5, a6, a7) ^ spec_u64_le(b0, b1, b2, b3, b4, b5, b6, b7))
            == spec_u64_le(c0, c1, c2, c3, c4, c5, c6, c7) <==> (a0 ^ b0 == c0 && a1 ^ b1 == c1
            && a2 ^ b2 == c2 && a3 ^ b3 == c3 && a4 ^ b4 == c4 && a5 ^ b5 == c5 && a6 ^ b6 == c6
            && a7 ^ b7 == c7),
{
}

} // verus!
