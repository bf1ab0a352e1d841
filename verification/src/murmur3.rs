//! MurmurHash3, 32-bit variant: a keyed hash of a byte string.

use crate::le::{spec_u32_le, u32_le};
use vstd::prelude::*;

verus! {

pub const C1: u32 = 0xcc9e2d51u32;

pub const C2: u32 = 0x1b873593u32;

/// `x` rotated left by 15 bits.
pub open spec fn spec_rotl15(x: u32) -> u32 {
    (x << 15u32) | (x >> 17u32)
}

/// `x` rotated left by 13 bits.
pub open spec fn spec_rotl13(x: u32) -> u32 {
    (x << 13u32) | (x >> 19u32)
}

/// A block as it enters the state: multiplied, rotated, multiplied.
pub open spec fn spec_scramble(k: u32) -> u32 {
    spec_rotl15(k.wrapping_mul(C1)).wrapping_mul(C2)
}

/// The state after one more full block `k`.
pub open spec fn spec_absorb(h: u32, k: u32) -> u32 {
    spec_rotl13(h ^ spec_scramble(k)).wrapping_mul(5u32).wrapping_add(0xe6546b64u32)
}

/// The state after the first `n` full blocks of `data`.
pub open spec fn spec_blocks(data: Seq<u8>, seed: u32, n: nat) -> u32
    decreases n,
{
    if n == 0 {
        seed
    } else {
        let at = 4 * (n - 1);
        spec_absorb(
            spec_blocks(data, seed, (n - 1) as nat),
            spec_u32_le(data[at], data[at + 1], data[at + 2], data[at + 3]),
        )
    }
}

/// The last, partial block of `data`, padded with zeros; 0 if there is none.
pub open spec fn spec_tail(data: Seq<u8>) -> u32 {
    let at = data.len() - data.len() % 4;
    if data.len() % 4 == 3 {
        spec_u32_le(data[at], data[at + 1], data[at + 2], 0)
    } else if data.len() % 4 == 2 {
        spec_u32_le(data[at], data[at + 1], 0, 0)
    } else if data.len() % 4 == 1 {
        spec_u32_le(data[at], 0, 0, 0)
    } else {
        0
    }
}

/// The finaliser: forces every input bit to affect every output bit.
pub open spec fn spec_fmix32(h: u32) -> u32 {
    let h1 = (h ^ (h >> 16u32)).wrapping_mul(0x85ebca6bu32);
    let h2 = (h1 ^ (h1 >> 13u32)).wrapping_mul(0xc2b2ae35u32);
    h2 ^ (h2 >> 16u32)
}

/// MurmurHash3 of `data` under `seed`: the full blocks, then the partial
/// block if there is one, then the length (modulo 2^32) and the finaliser.
pub open spec fn spec_murmur3(data: Seq<u8>, seed: u32) -> u32 {
    let body = spec_blocks(data, seed, data.len() / 4);
    let with_tail = if data.len() % 4 != 0 {
        body ^ spec_scramble(spec_tail(data))
    } else {
        body
    };
    spec_fmix32(with_tail ^ (data.len() as u32))
}

fn scramble(k: u32) -> (r: u32)
    ensures
        r == spec_scramble(k),
{
    let k: u32 = k.wrapping_mul(C1);
    let k: u32 = (k << 15u32) | (k >> 17u32);
    k.wrapping_mul(C2)
}

/// Keyed hash of `string` under `seed`.
pub fn murmur3(string: &[u8], seed: u32) -> (h: u32)
    ensures
        h == spec_murmur3(string@, seed),
{
    let mut h: u32 = seed;
    let len: usize = string.len();
    let mut i: usize = 0;
    while len - i >= 4
        invariant
            len == string@.len(),
            i <= len,
            i % 4 == 0,
            h == spec_blocks(string@, seed, (i / 4) as nat),
        decreases len - i,
    {
        let k: u32 = scramble(u32_le(string[i], string[i + 1], string[i + 2], string[i + 3]));
        h ^= k;
        h = (h << 13u32) | (h >> 19u32);
        h = h.wrapping_mul(5u32).wrapping_add(0xe6546b64u32);
        i += 4;
    }
    assert(i / 4 == len / 4 && i == len - len % 4);
    if len - i > 0 {
        let k: u32 = if len - i == 3 {
            u32_le(string[i], string[i + 1], string[i + 2], 0)
        } else if len - i == 2 {
            u32_le(string[i], string[i + 1], 0, 0)
        } else {
            u32_le(string[i], 0, 0, 0)
        };
        h ^= scramble(k);
    }
    fmix32(h ^ len as u32)
}

/// The finaliser of the hash.
#[inline(always)]
pub fn fmix32(h: u32) -> (r: u32)
    ensures
        r == spec_fmix32(h),
{
    let mut h: u32 = h;
    h ^= h >> 16u32;
    h = h.wrapping_mul(0x85ebca6bu32);
    h ^= h >> 13u32;
    h = h.wrapping_mul(0xc2b2ae35u32);
    h ^= h >> 16u32;
    h
}

} // verus!
