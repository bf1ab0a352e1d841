//! Hiding references to static data.
//!
//! The address of the data is stored minus an offset that is computed from
//! a seed by a chain of bit operations, and the offset is added back where
//! the data is used, behind an optimisation barrier. The address itself is
//! then nowhere in the program as a constant.

use crate::modular::lemma_odd_multiple_u32;
use crate::{spec_splitmix, splitmix};
use vstd::prelude::*;

verus! {

/// `rand`, or 1 in place of 0.
pub open spec fn spec_non_zero(rand: u32) -> u32 {
    if rand == 0 {
        1
    } else {
        rand
    }
}

/// `v` rotated left by `n` bits, for `n` from 1 to 31.
pub open spec fn spec_rotl(v: u32, n: u32) -> u32 {
    (v << n) | (v >> ((32 - n) as u32))
}

/// One step of the chain: the low three bits of `seed` choose the
/// operation, its high half is the operand. Shift and rotation amounts
/// are never zero, and the multiplier is the operand made odd, so that
/// the multiplication can be undone.
pub open spec fn spec_obfchoice(v: u32, seed: u64) -> u32 {
    let rand = (seed >> 32u64) as u32;
    let choice = seed & 7;
    if choice == 0 {
        v.wrapping_add(rand)
    } else if choice == 1 {
        rand.wrapping_sub(v)
    } else if choice == 2 {
        v ^ rand
    } else if choice == 3 {
        v ^ spec_rotl(v, spec_non_zero(rand & 7))
    } else if choice == 4 {
        !v
    } else if choice == 5 {
        v ^ (v >> spec_non_zero(rand & 31))
    } else if choice == 6 {
        v.wrapping_mul(rand | 1)
    } else {
        0u32.wrapping_sub(v)
    }
}

/// `v` after `rounds` steps of the chain that starts from `seed`: each step
/// mixes the seed once more and applies the operation it chooses.
pub open spec fn spec_chain(seed: u64, v: u32, rounds: nat) -> (u64, u32)
    decreases rounds,
{
    if rounds == 0 {
        (seed, v)
    } else {
        let (s, w) = spec_chain(seed, v, (rounds - 1) as nat);
        (spec_splitmix(s), spec_obfchoice(w, spec_splitmix(s)))
    }
}

/// The offset that stands for `v` under `seed`: the low 16 bits of `v`
/// after five steps of the chain.
pub open spec fn spec_obfuscate(seed: u64, v: u32) -> usize {
    (spec_chain(seed, v, 5).1 & 0xffff) as usize
}

#[inline(always)]
pub fn non_zero(rand: u32) -> (r: u32)
    ensures
        r == spec_non_zero(rand),
{
    if rand == 0 {
        1
    } else {
        rand
    }
}

#[inline(always)]
pub fn obfchoice(v: u32, seed: u64) -> (r: u32)
    ensures
        r == spec_obfchoice(v, seed),
{
    let rand: u32 = (seed >> 32u64) as u32;
    assert(rand & 7 <= 7 && rand & 31 <= 31 && seed & 7 <= 7) by (bit_vector);
    match seed & 7 {
        0 => v.wrapping_add(rand),
        1 => rand.wrapping_sub(v),
        2 => v ^ rand,
        3 => {
            let n: u32 = non_zero(rand & 7);
            v ^ ((v << n) | (v >> (32 - n)))
        },
        4 => !v,
        5 => v ^ (v >> non_zero(rand & 31)),
        6 => v.wrapping_mul(rand | 1),
        _ => 0u32.wrapping_sub(v),
    }
}

/// The offset that stands for `v` under `SEED`; it is below 0x10000.
#[inline(always)]
pub fn obfuscate<const SEED: u64>(v: u32) -> (offset: usize)
    ensures
        offset == spec_obfuscate(SEED, v),
        offset <= 0xffff,
{
    let mut v: u32 = v;
    let mut seed: u64 = SEED;
    seed = splitmix(seed);
    v = obfchoice(v, seed);
    seed = splitmix(seed);
    v = obfchoice(v, seed);
    seed = splitmix(seed);
    v = obfchoice(v, seed);
    seed = splitmix(seed);
    v = obfchoice(v, seed);
    seed = splitmix(seed);
    v = obfchoice(v, seed);
    proof {
        reveal_with_fuel(spec_chain, 6);
    }
    assert(v & 0xffff <= 0xffff) by (bit_vector);
    return (v & 0xffff) as usize;
}

/// The address `p` moved up by the offset that stands for `offset`.
#[inline(never)]
pub fn inner<const SEED: u64>(p: usize, offset: u32) -> (r: usize)
    ensures
        r == p.wrapping_add(spec_obfuscate(SEED, offset)),
{
    p.wrapping_add(obfuscate::<SEED>(offset))
}

/// Obfuscates the reference to data at the address `p`: the address is
/// moved down by an offset, passed through the optimisation barrier, and
/// moved up again by the same offset. What comes back is `p`.
#[inline(always)]
pub fn xref<const OFFSET: u32, const SEED: u64>(p: usize) -> (r: usize)
    ensures
        r == p,
{
    // Launder the values through black_box to prevent LLVM from optimizing away the obfuscation
    inner::<SEED>(
        core::hint::black_box(p.wrapping_sub(obfuscate::<SEED>(OFFSET))),
        core::hint::black_box(OFFSET),
    )
}

/// The address `p` of mutable data moved up by the offset that stands for
/// `offset`.
#[inline(never)]
pub fn inner_mut<const SEED: u64>(p: usize, offset: u32) -> (r: usize)
    ensures
        r == p.wrapping_add(spec_obfuscate(SEED, offset)),
{
    p.wrapping_add(obfuscate::<SEED>(offset))
}

/// Obfuscates the reference to mutable data at the address `p`. What comes
/// back is `p`.
#[inline(always)]
pub fn xref_mut<const OFFSET: u32, const SEED: u64>(p: usize) -> (r: usize)
    ensures
        r == p,
{
    // Launder the values through black_box to prevent LLVM from optimizing away the obfuscation
    inner_mut::<SEED>(
        core::hint::black_box(p.wrapping_sub(obfuscate::<SEED>(OFFSET))),
        core::hint::black_box(OFFSET),
    )
}

proof fn lemma_xorshift_nonzero(v: u32, rand: u32)
    by (bit_vector)
    requires
        v != 0,
    ensures
        rand & 31 != 0 ==> v ^ (v >> (rand & 31)) != 0,
        v ^ (v >> 1u32) != 0,
{
}

/// The step that xors a value with itself shifted right never turns a
/// nonzero value into zero: the shift is by one bit at least.
pub proof fn lemma_shift_step_nonzero(v: u32, seed: u64)
    requires
        seed & 7 == 5,
        v != 0,
    ensures
        spec_obfchoice(v, seed) != 0,
{
    lemma_xorshift_nonzero(v, (seed >> 32u64) as u32);
}

/// The step that multiplies can be undone: under one seed it takes no two
/// values to the same value, since its factor is odd.
pub proof fn lemma_multiply_step_one_to_one(a: u32, b: u32, seed: u64)
    requires
        seed & 7 == 6,
        spec_obfchoice(a, seed) == spec_obfchoice(b, seed),
    ensures
        a == b,
{
    let rand = (seed >> 32u64) as u32;
    assert((rand | 1) % 2 == 1) by (bit_vector);
    lemma_odd_multiple_u32(a, b, rand | 1);
}

/// Moving an address down by an offset and up again by the same offset
/// gives the address back, whatever the address, the offset and the seed.
pub proof fn lemma_round_trip(p: usize, offset: u32, seed: u64)
    ensures
        p.wrapping_sub(spec_obfuscate(seed, offset)).wrapping_add(spec_obfuscate(seed, offset))
            == p,
{
}

} // verus!
