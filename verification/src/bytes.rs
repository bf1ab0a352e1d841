//! Byte string obfuscation.
//!
//! A byte string is stored xor-ed with a key stream. The key stream is a
//! function of a 32-bit key and a length, so only the key has to be kept
//! beside the obfuscated bytes.

use crate::le::{
    lemma_eq_u16_le, lemma_eq_u24_le, lemma_eq_u32_le, lemma_eq_u64_le, lemma_xor_u32_le,
    lemma_xor_u64_le, spec_byte32, spec_byte64, u16_le, u32_le, u64_le,
};
use vstd::prelude::*;
use vstd::utf8::{encode_utf8, encode_utf8_valid_utf8, valid_utf8};

verus! {

/// One round of the 32-bit xorshift generator.
pub open spec fn spec_round(x: u32) -> u32 {
    let a = x ^ (x << 13u32);
    let b = a ^ (a >> 17u32);
    b ^ (b << 5u32)
}

/// The generator's state after `n` rounds from `key`.
pub open spec fn spec_round_key(key: u32, n: nat) -> u32
    decreases n,
{
    if n == 0 {
        key
    } else {
        spec_round(spec_round_key(key, (n - 1) as nat))
    }
}

/// Byte `i` of the key stream of `key`: round `i / 4 + 1` gives bytes
/// `4 * (i / 4)` to `4 * (i / 4) + 3`, least significant first.
pub open spec fn spec_key_byte(key: u32, i: int) -> u8 {
    spec_byte32(spec_round_key(key, (i / 4 + 1) as nat), i % 4)
}

/// The key stream of `key`, `len` bytes long.
pub open spec fn spec_keystream(key: u32, len: nat) -> Seq<u8> {
    Seq::new(len, |i: int| spec_key_byte(key, i))
}

/// `s` xor-ed byte by byte with `k`.
pub open spec fn spec_xor(s: Seq<u8>, k: Seq<u8>) -> Seq<u8> {
    Seq::new(s.len(), |i: int| s[i] ^ k[i])
}

/// The obfuscated form of `plain` under `key`.
pub open spec fn spec_encode(key: u32, plain: Seq<u8>) -> Seq<u8> {
    spec_xor(plain, spec_keystream(key, plain.len()))
}

/// The bytes that `data` stands for under `key`.
pub open spec fn spec_decode(key: u32, data: Seq<u8>) -> Seq<u8> {
    spec_xor(data, spec_keystream(key, data.len()))
}

/// Whether `other` is what `s` decodes to under the key stream `k`.
pub open spec fn spec_equals(s: Seq<u8>, k: Seq<u8>, other: Seq<u8>) -> bool {
    other == spec_xor(s, k)
}

// Simple xorshift to generate the key stream.
// Security doesn't matter, we just want a number of random-looking bytes.
#[inline(always)]
pub fn next_round(x: u32) -> (r: u32)
    ensures
        r == spec_round(x),
{
    let mut x: u32 = x;
    x ^= x << 13u32;
    x ^= x >> 17u32;
    x ^= x << 5u32;
    x
}

/// Writes the four bytes of `w`, least significant first, at `at`.
fn store4<const LEN: usize>(buffer: &mut [u8; LEN], at: usize, w: u32)
    requires
        at + 4 <= LEN,
    ensures
        forall|j: int|
            0 <= j < LEN ==> final(buffer)@[j] == if at <= j < at + 4 {
                spec_byte32(w, j - at)
            } else {
                old(buffer)@[j]
            },
{
    buffer[at] = w as u8;
    buffer[at + 1] = (w >> 8u32) as u8;
    buffer[at + 2] = (w >> 16u32) as u8;
    buffer[at + 3] = (w >> 24u32) as u8;
}

/// Writes the eight bytes of `w`, least significant first, at `at`.
fn store8<const LEN: usize>(buffer: &mut [u8; LEN], at: usize, w: u64)
    requires
        at + 8 <= LEN,
    ensures
        forall|j: int|
            0 <= j < LEN ==> final(buffer)@[j] == if at <= j < at + 8 {
                spec_byte64(w, j - at)
            } else {
                old(buffer)@[j]
            },
{
    buffer[at] = w as u8;
    buffer[at + 1] = (w >> 8u64) as u8;
    buffer[at + 2] = (w >> 16u64) as u8;
    buffer[at + 3] = (w >> 24u64) as u8;
    buffer[at + 4] = (w >> 32u64) as u8;
    buffer[at + 5] = (w >> 40u64) as u8;
    buffer[at + 6] = (w >> 48u64) as u8;
    buffer[at + 7] = (w >> 56u64) as u8;
}

/// Generates the key stream for an array of the given length.
#[inline(always)]
pub fn keystream<const LEN: usize>(key: u32) -> (keys: [u8; LEN])
    ensures
        keys@ == spec_keystream(key, LEN as nat),
{
    let mut keys = [0u8; LEN];
    let mut round_key: u32 = key;
    let mut i: usize = 0;
    // Calculate the key stream in chunks of 4 bytes
    while LEN - i >= 4
        invariant
            i <= LEN,
            i % 4 == 0,
            round_key == spec_round_key(key, (i / 4) as nat),
            forall|j: int| 0 <= j < i ==> keys@[j] == spec_key_byte(key, j),
        decreases LEN - i,
    {
        round_key = next_round(round_key);
        store4(&mut keys, i, round_key);
        i += 4;
    }
    // Calculate the remaining bytes of the key stream
    round_key = next_round(round_key);
    match LEN - i {
        1 => {
            keys[i] = round_key as u8;
        },
        2 => {
            keys[i] = round_key as u8;
            keys[i + 1] = (round_key >> 8u32) as u8;
        },
        3 => {
            keys[i] = round_key as u8;
            keys[i + 1] = (round_key >> 8u32) as u8;
            keys[i + 2] = (round_key >> 16u32) as u8;
        },
        _ => (),
    }
    assert(keys@ =~= spec_keystream(key, LEN as nat));
    keys
}

/// Generates the key stream of a length that is only known when the
/// program runs.
pub fn keystream_of(key: u32, len: usize) -> (keys: Vec<u8>)
    ensures
        keys@ == spec_keystream(key, len as nat),
{
    let mut keys: Vec<u8> = Vec::new();
    let mut round_key: u32 = key;
    let mut i: usize = 0;
    while i < len
        invariant
            i <= len,
            keys@.len() == i,
            round_key == spec_round_key(key, ((i + 3) / 4) as nat),
            forall|j: int| 0 <= j < i ==> keys@[j] == spec_key_byte(key, j),
        decreases len - i,
    {
        // Every fourth byte starts a new round
        match i % 4 {
            0 => {
                round_key = next_round(round_key);
                keys.push(round_key as u8);
            },
            1 => {
                keys.push((round_key >> 8u32) as u8);
            },
            2 => {
                keys.push((round_key >> 16u32) as u8);
            },
            _ => {
                keys.push((round_key >> 24u32) as u8);
            },
        }
        i += 1;
    }
    assert(keys@ =~= spec_keystream(key, len as nat));
    keys
}

/// Obfuscates the input string with the given key stream.
#[inline(always)]
pub fn obfuscate<const LEN: usize>(s: &[u8], k: &[u8; LEN]) -> (data: [u8; LEN])
    requires
        s@.len() == LEN,
    ensures
        data@ == spec_xor(s@, k@),
{
    let mut data = [0u8; LEN];
    let mut i: usize = 0usize;
    while i < LEN
        invariant
            s@.len() == LEN,
            i <= LEN,
            forall|j: int| 0 <= j < i ==> data@[j] == s@[j] ^ k@[j],
        decreases LEN - i,
    {
        data[i] = s[i] ^ k[i];
        i += 1;
    }
    assert(data@ =~= spec_xor(s@, k@));
    data
}

/// Loads the eight obfuscated bytes at `at` past the optimisation barrier
/// and takes the key stream off them.
fn plain8<const LEN: usize>(s: &[u8; LEN], k: &[u8; LEN], at: usize) -> (w: u64)
    requires
        at + 8 <= LEN,
    ensures
        forall|j: int| at <= j < at + 8 ==> spec_byte64(w, j - at) == s@[j] ^ k@[j],
{
    let i: usize = at;
    let ct: u64 = core::hint::black_box(
        u64_le(s[i], s[i + 1], s[i + 2], s[i + 3], s[i + 4], s[i + 5], s[i + 6], s[i + 7]),
    );
    proof {
        lemma_xor_u64_le(
            s[i as int],
            s[i + 1],
            s[i + 2],
            s[i + 3],
            s[i + 4],
            s[i + 5],
            s[i + 6],
            s[i + 7],
            k[i as int],
            k[i + 1],
            k[i + 2],
            k[i + 3],
            k[i + 4],
            k[i + 5],
            k[i + 6],
            k[i + 7],
        );
    }
    ct ^ u64_le(k[i], k[i + 1], k[i + 2], k[i + 3], k[i + 4], k[i + 5], k[i + 6], k[i + 7])
}

/// Loads the four obfuscated bytes at `at` past the optimisation barrier
/// and takes the key stream off them.
fn plain4<const LEN: usize>(s: &[u8; LEN], k: &[u8; LEN], at: usize) -> (w: u32)
    requires
        at + 4 <= LEN,
    ensures
        forall|j: int| at <= j < at + 4 ==> spec_byte32(w, j - at) == s@[j] ^ k@[j],
{
    let i: usize = at;
    let ct: u32 = core::hint::black_box(u32_le(s[i], s[i + 1], s[i + 2], s[i + 3]));
    proof {
        lemma_xor_u32_le(
            s[i as int],
            s[i + 1],
            s[i + 2],
            s[i + 3],
            k[i as int],
            k[i + 1],
            k[i + 2],
            k[i + 3],
        );
    }
    ct ^ u32_le(k[i], k[i + 1], k[i + 2], k[i + 3])
}

/// Deobfuscates the obfuscated input string with the given key stream.
///
/// The obfuscated bytes are loaded in chunks of 8, then 4, then what is
/// left, and every load passes the optimisation barrier, so that the
/// plain bytes are not computed before the program runs.
#[inline(always)]
pub fn deobfuscate<const LEN: usize>(s: &[u8; LEN], k: &[u8; LEN]) -> (buffer: [u8; LEN])
    ensures
        buffer@ == spec_xor(s@, k@),
{
    let mut buffer = [0u8; LEN];
    let mut i: usize = 0;
    // Process in chunks of 8 bytes
    while LEN - i >= 8
        invariant
            i <= LEN,
            forall|j: int| 0 <= j < i ==> buffer@[j] == s@[j] ^ k@[j],
        decreases LEN - i,
    {
        let tmp: u64 = plain8(s, k, i);
        store8(&mut buffer, i, tmp);
        i += 8;
    }
    // Process in chunks of 4 bytes
    while LEN - i >= 4
        invariant
            i <= LEN,
            forall|j: int| 0 <= j < i ==> buffer@[j] == s@[j] ^ k@[j],
        decreases LEN - i,
    {
        let tmp: u32 = plain4(s, k, i);
        store4(&mut buffer, i, tmp);
        i += 4;
    }
    // Process the remaining bytes
    match LEN - i {
        1 => {
            let ct: u8 = core::hint::black_box(s[i]);
            buffer[i] = ct ^ k[i];
        },
        2 => {
            let ct: [u8; 2] = core::hint::black_box([s[i], s[i + 1]]);
            buffer[i] = ct[0] ^ k[i];
            buffer[i + 1] = ct[1] ^ k[i + 1];
        },
        3 => {
            let ct: [u8; 3] = core::hint::black_box([s[i], s[i + 1], s[i + 2]]);
            buffer[i] = ct[0] ^ k[i];
            buffer[i + 1] = ct[1] ^ k[i + 1];
            buffer[i + 2] = ct[2] ^ k[i + 2];
        },
        _ => (),
    }
    assert(buffer@ =~= spec_xor(s@, k@));
    buffer
}

/// Whether the eight bytes of `other` at `at` are what `s` stands for there.
fn same8<const LEN: usize>(s: &[u8; LEN], k: &[u8; LEN], other: &[u8], at: usize) -> (same: bool)
    requires
        at + 8 <= LEN,
        other@.len() == LEN,
    ensures
        same <==> (forall|j: int| at <= j < at + 8 ==> other@[j] == s@[j] ^ k@[j]),
{
    let i: usize = at;
    let ct: u64 = core::hint::black_box(
        u64_le(s[i], s[i + 1], s[i + 2], s[i + 3], s[i + 4], s[i + 5], s[i + 6], s[i + 7]),
    );
    let tmp: u64 = ct ^ u64_le(
        k[i],
        k[i + 1],
        k[i + 2],
        k[i + 3],
        k[i + 4],
        k[i + 5],
        k[i + 6],
        k[i + 7],
    );
    let word: u64 = u64_le(
        other[i],
        other[i + 1],
        other[i + 2],
        other[i + 3],
        other[i + 4],
        other[i + 5],
        other[i + 6],
        other[i + 7],
    );
    proof {
        lemma_eq_u64_le(
            s[i as int],
            s[i + 1],
            s[i + 2],
            s[i + 3],
            s[i + 4],
            s[i + 5],
            s[i + 6],
            s[i + 7],
            k[i as int],
            k[i + 1],
            k[i + 2],
            k[i + 3],
            k[i + 4],
            k[i + 5],
            k[i + 6],
            k[i + 7],
            other[i as int],
            other[i + 1],
            other[i + 2],
            other[i + 3],
            other[i + 4],
            other[i + 5],
            other[i + 6],
            other[i + 7],
        );
    }
    tmp == word
}

/// Whether the four bytes of `other` at `at` are what `s` stands for there.
fn same4<const LEN: usize>(s: &[u8; LEN], k: &[u8; LEN], other: &[u8], at: usize) -> (same: bool)
    requires
        at + 4 <= LEN,
        other@.len() == LEN,
    ensures
        same <==> (forall|j: int| at <= j < at + 4 ==> other@[j] == s@[j] ^ k@[j]),
{
    let i: usize = at;
    let ct: u32 = core::hint::black_box(u32_le(s[i], s[i + 1], s[i + 2], s[i + 3]));
    let tmp: u32 = ct ^ u32_le(k[i], k[i + 1], k[i + 2], k[i + 3]);
    let word: u32 = u32_le(other[i], other[i + 1], other[i + 2], other[i + 3]);
    proof {
        lemma_eq_u32_le(
            s[i as int],
            s[i + 1],
            s[i + 2],
            s[i + 3],
            k[i as int],
            k[i + 1],
            k[i + 2],
            k[i + 3],
            other[i as int],
            other[i + 1],
            other[i + 2],
            other[i + 3],
        );
    }
    tmp == word
}

/// Whether the bytes of `other` from `at` on, fewer than four, are what `s`
/// stands for there.
fn same_rest<const LEN: usize>(s: &[u8; LEN], k: &[u8; LEN], other: &[u8], at: usize) -> (same:
    bool)
    requires
        at <= LEN,
        LEN - at < 4,
        other@.len() == LEN,
    ensures
        same <==> (forall|j: int| at <= j < LEN ==> other@[j] == s@[j] ^ k@[j]),
{
    let i: usize = at;
    match LEN - at {
        1 => {
            let ct: u8 = core::hint::black_box(s[i]);
            ct ^ k[i] == other[i]
        },
        2 => {
            let ct: [u8; 2] = core::hint::black_box([s[i], s[i + 1]]);
            proof {
                lemma_eq_u16_le(
                    s[i as int],
                    s[i + 1],
                    k[i as int],
                    k[i + 1],
                    other[i as int],
                    other[i + 1],
                );
            }
            u16_le(ct[0], ct[1]) ^ u16_le(k[i], k[i + 1]) == u16_le(other[i], other[i + 1])
        },
        3 => {
            let ct: [u8; 3] = core::hint::black_box([s[i], s[i + 1], s[i + 2]]);
            proof {
                lemma_eq_u24_le(
                    s[i as int],
                    s[i + 1],
                    s[i + 2],
                    k[i as int],
                    k[i + 1],
                    k[i + 2],
                    other[i as int],
                    other[i + 1],
                    other[i + 2],
                );
            }
            u32_le(ct[0], ct[1], ct[2], 0) ^ u32_le(k[i], k[i + 1], k[i + 2], 0) == u32_le(
                other[i],
                other[i + 1],
                other[i + 2],
                0,
            )
        },
        _ => true,
    }
}

/// Tells whether `other` is the string that `s` stands for under the key
/// stream `k`, without building that string. Strings of another length
/// than `LEN` are never equal to it.
#[inline(always)]
pub fn equals<const LEN: usize>(s: &[u8; LEN], k: &[u8; LEN], other: &[u8]) -> (same: bool)
    ensures
        same == spec_equals(s@, k@, other@),
{
    if other.len() != LEN {
        return false;
    }
    let mut i: usize = 0;
    // Process in chunks of 8 bytes
    while LEN - i >= 8
        invariant
            other@.len() == LEN,
            i <= LEN,
            forall|j: int| 0 <= j < i ==> other@[j] == s@[j] ^ k@[j],
        decreases LEN - i,
    {
        if !same8(s, k, other, i) {
            proof {
                lemma_differs(s@, k@, other@);
            }
            return false;
        }
        i += 8;
    }
    // Process in chunks of 4 bytes
    while LEN - i >= 4
        invariant
            other@.len() == LEN,
            i <= LEN,
            forall|j: int| 0 <= j < i ==> other@[j] == s@[j] ^ k@[j],
        decreases LEN - i,
    {
        if !same4(s, k, other, i) {
            proof {
                lemma_differs(s@, k@, other@);
            }
            return false;
        }
        i += 4;
    }
    // Process the remaining bytes
    let rest: bool = same_rest(s, k, other, i);
    proof {
        lemma_differs(s@, k@, other@);
    }
    rest
}

/// A string equals what `s` stands for exactly when it has the length of
/// `s` and agrees with it byte by byte.
proof fn lemma_differs(s: Seq<u8>, k: Seq<u8>, other: Seq<u8>)
    ensures
        spec_equals(s, k, other) <==> (other.len() == s.len() && forall|j: int|
            0 <= j < s.len() ==> other[j] == s[j] ^ k[j]),
{
    if other.len() == s.len() && (forall|j: int| 0 <= j < s.len() ==> other[j] == s[j] ^ k[j]) {
        assert(other =~= spec_xor(s, k));
    }
}

/// Obfuscates `plaintext` under `key`: the bytes to store in place of it.
pub fn encode<const LEN: usize>(key: u32, plaintext: &[u8]) -> (data: [u8; LEN])
    requires
        plaintext@.len() == LEN,
    ensures
        data@ == spec_encode(key, plaintext@),
{
    let keys = keystream::<LEN>(key);
    obfuscate::<LEN>(plaintext, &keys)
}

/// Recovers into the front of `buf` the bytes that `data` stands for under
/// `key`, and returns how many they are. The rest of `buf` is left as it was.
#[inline(never)]
pub fn decode<const LEN: usize>(data: &[u8; LEN], key: u32, buf: &mut [u8]) -> (n: usize)
    requires
        old(buf)@.len() >= LEN,
    ensures
        n == LEN,
        final(buf)@ == spec_decode(key, data@) + old(buf)@.skip(LEN as int),
{
    let keys = keystream::<LEN>(key);
    let plain = deobfuscate::<LEN>(data, &keys);
    let mut i: usize = 0;
    while i < LEN
        invariant
            i <= LEN,
            buf@.len() == old(buf)@.len(),
            old(buf)@.len() >= LEN,
            forall|j: int| 0 <= j < i ==> buf@[j] == plain@[j],
            forall|j: int| i <= j < buf@.len() ==> buf@[j] == old(buf)@[j],
        decreases LEN - i,
    {
        buf[i] = plain[i];
        i += 1;
    }
    assert(buf@ =~= spec_decode(key, data@) + old(buf)@.skip(LEN as int));
    LEN
}

proof fn lemma_xor_twice(a: u8, k: u8)
    by (bit_vector)
    ensures
        (a ^ k) ^ k == a,
        a ^ k == a <==> k == 0,
{
}

proof fn lemma_round_nonzero(x: u32)
    by (bit_vector)
    requires
        x != 0,
    ensures
        spec_round(x) != 0,
        spec_round(x) as u8 != 0 || (spec_round(x) >> 8u32) as u8 != 0 || (spec_round(x)
            >> 16u32) as u8 != 0 || (spec_round(x) >> 24u32) as u8 != 0,
{
}

/// Xor-ing twice with the same key stream gives the bytes back.
pub proof fn lemma_xor_involution(s: Seq<u8>, k: Seq<u8>)
    ensures
        spec_xor(spec_xor(s, k), k) == s,
{
    assert forall|i: int| 0 <= i < s.len() implies spec_xor(spec_xor(s, k), k)[i] == s[i] by {
        lemma_xor_twice(s[i], k[i]);
    }
    assert(spec_xor(spec_xor(s, k), k) =~= s);
}

/// Decoding what was encoded under the same key gives the plain bytes back,
/// for every key and every byte string.
pub proof fn lemma_round_trip(key: u32, plain: Seq<u8>)
    ensures
        spec_decode(key, spec_encode(key, plain)) == plain,
{
    lemma_xor_involution(plain, spec_keystream(key, plain.len()));
}

/// The generator never reaches zero from a nonzero key.
pub proof fn lemma_round_key_nonzero(key: u32, n: nat)
    requires
        key != 0,
    ensures
        spec_round_key(key, n) != 0,
    decreases n,
{
    if n > 0 {
        lemma_round_key_nonzero(key, (n - 1) as nat);
        lemma_round_nonzero(spec_round_key(key, (n - 1) as nat));
    }
}

/// The obfuscated form equals the plain bytes exactly when every byte of the
/// key stream of that length is zero.
pub proof fn lemma_encode_fixed(key: u32, plain: Seq<u8>)
    ensures
        spec_encode(key, plain) == plain <==> (forall|i: int|
            0 <= i < plain.len() ==> spec_key_byte(key, i) == 0),
{
    let k = spec_keystream(key, plain.len());
    let e = spec_encode(key, plain);
    if forall|i: int| 0 <= i < plain.len() ==> spec_key_byte(key, i) == 0 {
        assert forall|i: int| 0 <= i < plain.len() implies e[i] == plain[i] by {
            lemma_xor_twice(plain[i], k[i]);
        }
        assert(e =~= plain);
    }
    if e == plain {
        assert forall|i: int| 0 <= i < plain.len() implies spec_key_byte(key, i) == 0 by {
            assert(e[i] == plain[i] ^ k[i]);
            lemma_xor_twice(plain[i], k[i]);
        }
    }
}

/// The obfuscated form differs from the plain bytes wherever the key
/// stream of that length has a byte that is not zero.
pub proof fn lemma_encode_differs(key: u32, plain: Seq<u8>)
    requires
        exists|i: int| 0 <= i < plain.len() && spec_key_byte(key, i) != 0,
    ensures
        spec_encode(key, plain) != plain,
{
    lemma_encode_fixed(key, plain);
}

/// Under a nonzero key, a string of four bytes or more never equals its
/// obfuscated form: the first round of the generator is not zero, so one
/// of the first four bytes changes.
pub proof fn lemma_encode_differs_long(key: u32, plain: Seq<u8>)
    requires
        key != 0,
        plain.len() >= 4,
    ensures
        spec_encode(key, plain) != plain,
{
    lemma_round_nonzero(key);
    lemma_encode_fixed(key, plain);
    reveal_with_fuel(spec_round_key, 2);
    assert(spec_round_key(key, 1) == spec_round(key));
    assert(spec_key_byte(key, 0) == spec_round(key) as u8);
    assert(spec_key_byte(key, 1) == (spec_round(key) >> 8u32) as u8);
    assert(spec_key_byte(key, 2) == (spec_round(key) >> 16u32) as u8);
    assert(spec_key_byte(key, 3) == (spec_round(key) >> 24u32) as u8);
}

/// Under the key zero the key stream is zero, and obfuscation changes
/// nothing.
pub proof fn lemma_encode_zero_key(plain: Seq<u8>)
    ensures
        spec_encode(0, plain) == plain,
{
    assert forall|i: int| 0 <= i < plain.len() implies spec_key_byte(0, i) == 0 by {
        lemma_round_key_zero((i / 4 + 1) as nat);
        lemma_zero_bytes();
    }
    lemma_encode_fixed(0, plain);
}

proof fn lemma_zero_bytes()
    by (bit_vector)
    ensures
        0u32 as u8 == 0,
        (0u32 >> 8u32) as u8 == 0,
        (0u32 >> 16u32) as u8 == 0,
        (0u32 >> 24u32) as u8 == 0,
        spec_round(0) == 0,
{
}

proof fn lemma_round_key_zero(n: nat)
    ensures
        spec_round_key(0, n) == 0,
    decreases n,
{
    if n > 0 {
        lemma_round_key_zero((n - 1) as nat);
        lemma_zero_bytes();
    }
}

/// What an obfuscated string decodes to is well-formed UTF-8: it is the
/// UTF-8 form of the string.
pub proof fn lemma_decoded_text(key: u32, text: Seq<char>)
    ensures
        spec_decode(key, spec_encode(key, encode_utf8(text))) == encode_utf8(text),
        valid_utf8(spec_decode(key, spec_encode(key, encode_utf8(text)))),
{
    lemma_round_trip(key, encode_utf8(text));
    encode_utf8_valid_utf8(text);
}

/// The equality test on obfuscated data answers whether the candidate is
/// the plain string: it accepts the string that was encoded, and rejects
/// every other one, of the same length or not.
pub proof fn lemma_equals_oracle(key: u32, plain: Seq<u8>, other: Seq<u8>)
    ensures
        spec_equals(spec_encode(key, plain), spec_keystream(key, plain.len()), other) <==> other
            == plain,
{
    lemma_xor_involution(plain, spec_keystream(key, plain.len()));
}

/// A key stream of length zero is empty, and so is what empty data decodes
/// to.
pub proof fn lemma_empty(key: u32)
    ensures
        spec_keystream(key, 0) == Seq::<u8>::empty(),
        spec_decode(key, Seq::<u8>::empty()) == Seq::<u8>::empty(),
        spec_encode(key, Seq::<u8>::empty()) == Seq::<u8>::empty(),
{
    assert(spec_keystream(key, 0) =~= Seq::<u8>::empty());
    assert(spec_decode(key, Seq::<u8>::empty()) =~= Seq::<u8>::empty());
    assert(spec_encode(key, Seq::<u8>::empty()) =~= Seq::<u8>::empty());
}

/// A shorter key stream is the front of a longer one under the same key.
pub proof fn lemma_keystream_prefix(key: u32, short: nat, long: nat)
    requires
        short <= long,
    ensures
        spec_keystream(key, long).take(short as int) == spec_keystream(key, short),
{
    assert(spec_keystream(key, long).take(short as int) =~= spec_keystream(key, short));
}

} // verus!
