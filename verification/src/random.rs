//! Random constants of the primitive types.
//!
//! The constants are cut from 64 bits of entropy, which should be uniformly
//! distributed: the integer types take its low bits, and `bool` takes its
//! highest bit.

use vstd::prelude::*;

verus! {

/// The low 8 bits of `seed`.
#[inline(always)]
pub fn as_u8(seed: u64) -> (value: u8)
    ensures
        value == seed as u8,
        value == seed % 0x100,
{
    assert(seed as u8 == seed % 0x100) by (bit_vector);
    seed as u8
}

/// The low 16 bits of `seed`.
#[inline(always)]
pub fn as_u16(seed: u64) -> (value: u16)
    ensures
        value == seed as u16,
        value == seed % 0x1_0000,
{
    assert(seed as u16 == seed % 0x1_0000) by (bit_vector);
    seed as u16
}

/// The low 32 bits of `seed`.
#[inline(always)]
pub fn as_u32(seed: u64) -> (value: u32)
    ensures
        value == seed as u32,
        value == seed % 0x1_0000_0000,
{
    assert(seed as u32 == seed % 0x1_0000_0000) by (bit_vector);
    seed as u32
}

/// `seed` itself.
#[inline(always)]
pub fn as_u64(seed: u64) -> (value: u64)
    ensures
        value == seed,
{
    seed
}

/// The low bits of `seed`, as many as a `usize` holds.
#[inline(always)]
pub fn as_usize(seed: u64) -> (value: usize)
    ensures
        value == seed as usize,
{
    seed as usize
}

/// The low 8 bits of `seed`, read as a signed number.
#[inline(always)]
pub fn as_i8(seed: u64) -> (value: i8)
    ensures
        value == seed as i8,
        value as u8 == seed as u8,
{
    assert((seed as i8) as u8 == seed as u8) by (bit_vector);
    seed as i8
}

/// The low 16 bits of `seed`, read as a signed number.
#[inline(always)]
pub fn as_i16(seed: u64) -> (value: i16)
    ensures
        value == seed as i16,
        value as u16 == seed as u16,
{
    assert((seed as i16) as u16 == seed as u16) by (bit_vector);
    seed as i16
}

/// The low 32 bits of `seed`, read as a signed number.
#[inline(always)]
pub fn as_i32(seed: u64) -> (value: i32)
    ensures
        value == seed as i32,
        value as u32 == seed as u32,
{
    assert((seed as i32) as u32 == seed as u32) by (bit_vector);
    seed as i32
}

/// The bits of `seed`, read as a signed number.
#[inline(always)]
pub fn as_i64(seed: u64) -> (value: i64)
    ensures
        value == seed as i64,
        value as u64 == seed,
{
    assert((seed as i64) as u64 == seed) by (bit_vector);
    seed as i64
}

/// The low bits of `seed`, as many as an `isize` holds, read as a signed
/// number.
#[inline(always)]
pub fn as_isize(seed: u64) -> (value: isize)
    ensures
        value == seed as isize,
{
    seed as isize
}

/// Whether the highest bit of `seed` is clear.
#[inline(always)]
pub fn as_bool(seed: u64) -> (value: bool)
    ensures
        value == (seed < 0x8000_0000_0000_0000),
{
    assert((seed as i64 >= 0) == (seed < 0x8000_0000_0000_0000)) by (bit_vector);
    seed as i64 >= 0
}

} // verus!
