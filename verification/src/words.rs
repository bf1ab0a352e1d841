//! Wide string obfuscation.
//!
//! The same scheme as for byte strings, on 16-bit words: each round of the
//! generator gives two words of key stream, the low half first.

use crate::bytes::{lemma_round_key_nonzero, spec_round, spec_round_key};
use vstd::prelude::*;

verus! {

/// Word `i` of the key stream of `key`: round `i / 2 + 1` gives the words
/// `2 * (i / 2)` and `2 * (i / 2) + 1`, its low half and its high half.
pub open spec fn spec_key_word(key: u32, i: int) -> u16 {
    let round = spec_round_key(key, (i / 2 + 1) as nat);
    if i % 2 == 0 {
        round as u16
    } else {
        (round >> 16u32) as u16
    }
}

/// The key stream of `key`, `len` words long.
pub open spec fn spec_keystream(key: u32, len: nat) -> Seq<u16> {
    Seq::new(len, |i: int| spec_key_word(key, i))
}

/// `s` xor-ed word by word with `k`.
pub open spec fn spec_xor(s: Seq<u16>, k: Seq<u16>) -> Seq<u16> {
    Seq::new(s.len(), |i: int| s[i] ^ k[i])
}

/// The obfuscated form of `plain` under `key`.
pub open spec fn spec_encode(key: u32, plain: Seq<u16>) -> Seq<u16> {
    spec_xor(plain, spec_keystream(key, plain.len()))
}

/// The words that `data` stands for under `key`.
pub open spec fn spec_decode(key: u32, data: Seq<u16>) -> Seq<u16> {
    spec_xor(data, spec_keystream(key, data.len()))
}

// Simple xorshift to generate the key stream.
// Security doesn't matter, we just want a number of random-looking words.
#[inline(always)]
pub fn next_round(x: u32) -> (r: u32)
    ensures
        r == spec_round(x),
{
    let mut x: u32 = x;
    x ^= x << 13u32;
    x ^= x >> 17u32;
    x ^= x << 5u32;
    x
}

/// Generates the key stream for an array of the given length.
#[inline(always)]
pub fn keystream<const LEN: usize>(key: u32) -> (keys: [u16; LEN])
    ensures
        keys@ == spec_keystream(key, LEN as nat),
{
    let mut keys = [0u16; LEN];
    let mut round_key: u32 = key;
    let mut i: usize = 0;
    // Calculate the key stream in chunks of 2 words
    while LEN - i >= 2
        invariant
            i <= LEN,
            i % 2 == 0,
            round_key == spec_round_key(key, (i / 2) as nat),
            forall|j: int| 0 <= j < i ==> keys@[j] == spec_key_word(key, j),
        decreases LEN - i,
    {
        round_key = next_round(round_key);
        keys[i] = round_key as u16;
        keys[i + 1] = (round_key >> 16u32) as u16;
        i += 2;
    }
    // Calculate the remaining word of the key stream
    if LEN - i != 0 {
        round_key = next_round(round_key);
        keys[i] = round_key as u16;
    }
    assert(keys@ =~= spec_keystream(key, LEN as nat));
    keys
}

/// Generates the key stream of a length that is only known when the
/// program runs.
pub fn keystream_of(key: u32, len: usize) -> (keys: Vec<u16>)
    ensures
        keys@ == spec_keystream(key, len as nat),
{
    let mut keys: Vec<u16> = Vec::new();
    let mut round_key: u32 = key;
    let mut i: usize = 0;
    while i < len
        invariant
            i <= len,
            keys@.len() == i,
            round_key == spec_round_key(key, ((i + 1) / 2) as nat),
            forall|j: int| 0 <= j < i ==> keys@[j] == spec_key_word(key, j),
        decreases len - i,
    {
        // Every second word starts a new round
        if i % 2 == 0 {
            round_key = next_round(round_key);
            keys.push(round_key as u16);
        } else {
            keys.push((round_key >> 16u32) as u16);
        }
        i += 1;
    }
    assert(keys@ =~= spec_keystream(key, len as nat));
    keys
}

/// Obfuscates the input string with the given key stream.
pub fn obfuscate<const LEN: usize>(s: &[u16], k: &[u16; LEN]) -> (data: [u16; LEN])
    requires
        s@.len() == LEN,
    ensures
        data@ == spec_xor(s@, k@),
{
    let mut data = [0u16; LEN];
    let mut i: usize = 0usize;
    while i < LEN
        invariant
            s@.len() == LEN,
            i <= LEN,
            forall|j: int| 0 <= j < i ==> data@[j] == s@[j] ^ k@[j],
        decreases LEN - i,
    {
        data[i] = s[i] ^ k[i];
        i += 1;
    }
    assert(data@ =~= spec_xor(s@, k@));
    data
}

/// Deobfuscates the obfuscated input string with the given key stream.
///
/// The obfuscated words are loaded in chunks of 4, then 2, then the one
/// that may be left, and every load passes the optimisation barrier.
#[inline(always)]
pub fn deobfuscate<const LEN: usize>(s: &[u16; LEN], k: &[u16; LEN]) -> (buf: [u16; LEN])
    ensures
        buf@ == spec_xor(s@, k@),
{
    let mut buf = [0u16; LEN];
    let mut i: usize = 0;
    // Process in chunks of 4 words
    while LEN - i >= 4
        invariant
            i <= LEN,
            forall|j: int| 0 <= j < i ==> buf@[j] == s@[j] ^ k@[j],
        decreases LEN - i,
    {
        let ct: [u16; 4] = core::hint::black_box([s[i], s[i + 1], s[i + 2], s[i + 3]]);
        buf[i] = ct[0] ^ k[i];
        buf[i + 1] = ct[1] ^ k[i + 1];
        buf[i + 2] = ct[2] ^ k[i + 2];
        buf[i + 3] = ct[3] ^ k[i + 3];
        i += 4;
    }
    // Process in chunks of 2 words
    while LEN - i >= 2
        invariant
            i <= LEN,
            forall|j: int| 0 <= j < i ==> buf@[j] == s@[j] ^ k@[j],
        decreases LEN - i,
    {
        let ct: [u16; 2] = core::hint::black_box([s[i], s[i + 1]]);
        buf[i] = ct[0] ^ k[i];
        buf[i + 1] = ct[1] ^ k[i + 1];
        i += 2;
    }
    // Process the remaining word
    if LEN - i != 0 {
        let ct: u16 = core::hint::black_box(s[i]);
        buf[i] = ct ^ k[i];
    }
    assert(buf@ =~= spec_xor(s@, k@));
    buf
}

/// Obfuscates `plaintext` under `key`: the words to store in place of it.
pub fn encode<const LEN: usize>(key: u32, plaintext: &[u16]) -> (data: [u16; LEN])
    requires
        plaintext@.len() == LEN,
    ensures
        data@ == spec_encode(key, plaintext@),
{
    let keys = keystream::<LEN>(key);
    obfuscate::<LEN>(plaintext, &keys)
}

/// Recovers into the front of `buf` the words that `data` stands for under
/// `key`, and returns how many they are. The rest of `buf` is left as it was.
#[inline(never)]
pub fn decode<const LEN: usize>(data: &[u16; LEN], key: u32, buf: &mut [u16]) -> (n: usize)
    requires
        old(buf)@.len() >= LEN,
    ensures
        n == LEN,
        final(buf)@ == spec_decode(key, data@) + old(buf)@.skip(LEN as int),
{
    let keys = keystream::<LEN>(key);
    let plain = deobfuscate::<LEN>(data, &keys);
    let mut i: usize = 0;
    while i < LEN
        invariant
            i <= LEN,
            buf@.len() == old(buf)@.len(),
            old(buf)@.len() >= LEN,
            forall|j: int| 0 <= j < i ==> buf@[j] == plain@[j],
            forall|j: int| i <= j < buf@.len() ==> buf@[j] == old(buf)@[j],
        decreases LEN - i,
    {
        buf[i] = plain[i];
        i += 1;
    }
    assert(buf@ =~= spec_decode(key, data@) + old(buf)@.skip(LEN as int));
    LEN
}

proof fn lemma_xor_twice(a: u16, k: u16)
    by (bit_vector)
    ensures
        (a ^ k) ^ k == a,
        a ^ k == a <==> k == 0,
{
}

proof fn lemma_nonzero_half(w: u32)
    by (bit_vector)
    requires
        w != 0,
    ensures
        w as u16 != 0 || (w >> 16u32) as u16 != 0,
{
}

/// Xor-ing twice with the same key stream gives the words back.
pub proof fn lemma_xor_involution(s: Seq<u16>, k: Seq<u16>)
    ensures
        spec_xor(spec_xor(s, k), k) == s,
{
    assert forall|i: int| 0 <= i < s.len() implies spec_xor(spec_xor(s, k), k)[i] == s[i] by {
        lemma_xor_twice(s[i], k[i]);
    }
    assert(spec_xor(spec_xor(s, k), k) =~= s);
}

/// Decoding what was encoded under the same key gives the plain words back,
/// for every key and every wide string.
pub proof fn lemma_round_trip(key: u32, plain: Seq<u16>)
    ensures
        spec_decode(key, spec_encode(key, plain)) == plain,
{
    lemma_xor_involution(plain, spec_keystream(key, plain.len()));
}

/// The obfuscated form equals the plain words exactly when every word of the
/// key stream of that length is zero.
pub proof fn lemma_encode_fixed(key: u32, plain: Seq<u16>)
    ensures
        spec_encode(key, plain) == plain <==> (forall|i: int|
            0 <= i < plain.len() ==> spec_key_word(key, i) == 0),
{
    let k = spec_keystream(key, plain.len());
    let e = spec_encode(key, plain);
    if forall|i: int| 0 <= i < plain.len() ==> spec_key_word(key, i) == 0 {
        assert forall|i: int| 0 <= i < plain.len() implies e[i] == plain[i] by {
            lemma_xor_twice(plain[i], k[i]);
        }
        assert(e =~= plain);
    }
    if e == plain {
        assert forall|i: int| 0 <= i < plain.len() implies spec_key_word(key, i) == 0 by {
            assert(e[i] == plain[i] ^ k[i]);
            lemma_xor_twice(plain[i], k[i]);
        }
    }
}

/// The obfuscated form differs from the plain words wherever the key
/// stream of that length has a word that is not zero.
pub proof fn lemma_encode_differs(key: u32, plain: Seq<u16>)
    requires
        exists|i: int| 0 <= i < plain.len() && spec_key_word(key, i) != 0,
    ensures
        spec_encode(key, plain) != plain,
{
    lemma_encode_fixed(key, plain);
}

/// Under a nonzero key, a string of two words or more never equals its
/// obfuscated form: the first round of the generator is not zero, so one
/// of the first two words changes.
pub proof fn lemma_encode_differs_long(key: u32, plain: Seq<u16>)
    requires
        key != 0,
        plain.len() >= 2,
    ensures
        spec_encode(key, plain) != plain,
{
    lemma_round_key_nonzero(key, 1);
    lemma_nonzero_half(spec_round_key(key, 1));
    lemma_encode_fixed(key, plain);
    assert(spec_key_word(key, 0) == spec_round_key(key, 1) as u16);
    assert(spec_key_word(key, 1) == (spec_round_key(key, 1) >> 16u32) as u16);
}

/// A key stream of length zero is empty, and so is what empty data decodes
/// to.
pub proof fn lemma_empty(key: u32)
    ensures
        spec_keystream(key, 0) == Seq::<u16>::empty(),
        spec_decode(key, Seq::<u16>::empty()) == Seq::<u16>::empty(),
        spec_encode(key, Seq::<u16>::empty()) == Seq::<u16>::empty(),
{
    assert(spec_keystream(key, 0) =~= Seq::<u16>::empty());
    assert(spec_decode(key, Seq::<u16>::empty()) =~= Seq::<u16>::empty());
    assert(spec_encode(key, Seq::<u16>::empty()) =~= Seq::<u16>::empty());
}

} // verus!
