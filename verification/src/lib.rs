//! Obfuscation of constant data.
//!
//! Strings, byte buffers and wide strings are stored XOR-ed with a key
//! stream that is regenerated from a 32-bit key when the data is read back.
//! Addresses of static data are hidden behind a reversible offset, and blocks
//! of statements are flattened into a dispatch loop keyed by hashes.
//!
//! Every function states its result over a `spec` function of the same
//! module, and the laws that connect several functions are proof functions.

pub mod barrier;
pub mod bytes;
pub mod cfo;
pub mod codegen;
pub mod le;
pub mod literal;
pub mod macros;
pub mod modular;
pub mod murmur3;
pub mod pos;
pub mod random;
pub mod tokens;
pub mod wide;
pub mod words;
pub mod xref;

pub use self::murmur3::murmur3;
pub use self::pos::position;
pub use self::xref::{xref, xref_mut};

use vstd::prelude::*;
use vstd::string::*;
use vstd::utf8::{is_ascii_chars, is_ascii_chars_encode_utf8, valid_utf8};

verus! {

/// Text that seeds the generator when no other seed text is supplied.
pub const DEFAULT_SEED_TEXT: &'static str = "FIXED";

/// Seed of the generator for [`DEFAULT_SEED_TEXT`]; see [`lemma_seed_is_default`].
pub const SEED: u64 = 0xc14790938b08e0c9u64;

/// One SplitMix64 step: the finaliser applied to `seed` advanced by the
/// golden-ratio increment.
pub open spec fn spec_splitmix(seed: u64) -> u64 {
    let z0 = seed.wrapping_add(0x9e3779b97f4a7c15u64);
    let z1 = (z0 ^ (z0 >> 30u64)).wrapping_mul(0xbf58476d1ce4e5b9u64);
    let z2 = (z1 ^ (z1 >> 27u64)).wrapping_mul(0x94d049bb133111ebu64);
    z2 ^ (z2 >> 31u64)
}

/// Mixes the bits of `seed` so that nearby seeds give unrelated results.
#[inline(always)]
pub fn splitmix(seed: u64) -> (mixed: u64)
    ensures
        mixed == spec_splitmix(seed),
{
    let next: u64 = seed.wrapping_add(0x9e3779b97f4a7c15u64);
    let mut z: u64 = next;
    z = (z ^ (z >> 30u64)).wrapping_mul(0xbf58476d1ce4e5b9u64);
    z = (z ^ (z >> 27u64)).wrapping_mul(0x94d049bb133111ebu64);
    z ^ (z >> 31u64)
}

/// DJB2 hash, xor variation: starting from 3581, each byte multiplies the
/// state by 33 and is then xor-ed in.
pub open spec fn spec_hash(bytes: Seq<u8>) -> u32
    decreases bytes.len(),
{
    if bytes.len() == 0 {
        3581u32
    } else {
        spec_hash(bytes.drop_last()).wrapping_mul(33u32) ^ (bytes.last() as u32)
    }
}

/// Hashes the bytes of `s`.
#[inline(always)]
pub fn hash(s: &str) -> (h: u32)
    ensures
        h == spec_hash(s.spec_bytes()),
{
    let s = s.as_bytes();
    let mut result: u32 = 3581u32;
    let mut i: usize = 0usize;
    while i < s.len()
        invariant
            i <= s@.len(),
            result == spec_hash(s@.take(i as int)),
        decreases s@.len() - i,
    {
        assert(s@.take(i + 1).drop_last() =~= s@.take(i as int));
        result = result.wrapping_mul(33u32) ^ s[i] as u32;
        i += 1;
    }
    assert(s@.take(i as int) =~= s@);
    result
}

/// The seed that a seed text stands for.
pub open spec fn spec_seed(text: Seq<u8>) -> u64 {
    spec_splitmix(spec_hash(text) as u64)
}

/// Derives the generator's seed from a seed text.
pub fn seed_from(text: &str) -> (seed: u64)
    ensures
        seed == spec_seed(text.spec_bytes()),
{
    splitmix(hash(text) as u64)
}

/// Entropy of a source position under `seed`: the seed is mixed with the
/// hash of the file name, then with the line, then with the column.
pub open spec fn spec_entropy(seed: u64, file: Seq<u8>, line: u32, column: u32) -> u64 {
    spec_splitmix(
        spec_splitmix(spec_splitmix(seed ^ (spec_hash(file) as u64)) ^ (line as u64)) ^ (
        column as u64),
    )
}

/// Pseudorandom value for the position `file:line:column` under `seed`.
pub fn entropy_with(seed: u64, file: &str, line: u32, column: u32) -> (e: u64)
    ensures
        e == spec_entropy(seed, file.spec_bytes(), line, column),
{
    splitmix(splitmix(splitmix(seed ^ hash(file) as u64) ^ line as u64) ^ column as u64)
}

/// Pseudorandom value for the position `file:line:column` under [`SEED`].
#[inline(always)]
pub fn entropy(file: &str, line: u32, column: u32) -> (e: u64)
    ensures
        e == spec_entropy(SEED, file.spec_bytes(), line, column),
{
    entropy_with(SEED, file, line, column)
}

proof fn lemma_xorshift_one_to_one(a: u64, b: u64)
    by (bit_vector)
    ensures
        a ^ (a >> 30u64) == b ^ (b >> 30u64) ==> a == b,
        a ^ (a >> 27u64) == b ^ (b >> 27u64) ==> a == b,
        a ^ (a >> 31u64) == b ^ (b >> 31u64) ==> a == b,
{
}

proof fn lemma_xor_one_to_one(x: u64, a: u64, b: u64)
    by (bit_vector)
    ensures
        x ^ a == x ^ b ==> a == b,
        a ^ x == b ^ x ==> a == b,
{
}

/// The mixer takes no two seeds to the same value: each of its steps can
/// be undone.
pub proof fn lemma_splitmix_one_to_one(a: u64, b: u64)
    requires
        spec_splitmix(a) == spec_splitmix(b),
    ensures
        a == b,
{
    let a0 = a.wrapping_add(0x9e3779b97f4a7c15u64);
    let b0 = b.wrapping_add(0x9e3779b97f4a7c15u64);
    let a1 = (a0 ^ (a0 >> 30u64)).wrapping_mul(0xbf58476d1ce4e5b9u64);
    let b1 = (b0 ^ (b0 >> 30u64)).wrapping_mul(0xbf58476d1ce4e5b9u64);
    let a2 = (a1 ^ (a1 >> 27u64)).wrapping_mul(0x94d049bb133111ebu64);
    let b2 = (b1 ^ (b1 >> 27u64)).wrapping_mul(0x94d049bb133111ebu64);
    lemma_xorshift_one_to_one(a2, b2);
    assert(a2 == b2);
    crate::modular::lemma_odd_multiple_u64(
        a1 ^ (a1 >> 27u64),
        b1 ^ (b1 >> 27u64),
        0x94d049bb133111ebu64,
    );
    lemma_xorshift_one_to_one(a1, b1);
    assert(a1 == b1);
    crate::modular::lemma_odd_multiple_u64(
        a0 ^ (a0 >> 30u64),
        b0 ^ (b0 >> 30u64),
        0xbf58476d1ce4e5b9u64,
    );
    lemma_xorshift_one_to_one(a0, b0);
    assert(a0 == b0);
}

/// Under one seed and in one file, two places that differ in the line
/// alone, or in the column alone, have different entropy; and so has one
/// place under two seeds.
pub proof fn lemma_entropy_one_to_one(
    seed: u64,
    other_seed: u64,
    file: Seq<u8>,
    line: u32,
    other_line: u32,
    column: u32,
    other_column: u32,
)
    ensures
        spec_entropy(seed, file, line, column) == spec_entropy(seed, file, line, other_column)
            ==> column == other_column,
        spec_entropy(seed, file, line, column) == spec_entropy(seed, file, other_line, column)
            ==> line == other_line,
        spec_entropy(seed, file, line, column) == spec_entropy(other_seed, file, line, column)
            ==> seed == other_seed,
{
    let h = spec_hash(file) as u64;
    let s1 = spec_splitmix(seed ^ h);
    let t1 = spec_splitmix(other_seed ^ h);
    let s2 = spec_splitmix(s1 ^ (line as u64));
    let s2l = spec_splitmix(s1 ^ (other_line as u64));
    let t2 = spec_splitmix(t1 ^ (line as u64));
    if spec_entropy(seed, file, line, column) == spec_entropy(seed, file, line, other_column) {
        lemma_splitmix_one_to_one(s2 ^ (column as u64), s2 ^ (other_column as u64));
        lemma_xor_one_to_one(s2, column as u64, other_column as u64);
    }
    if spec_entropy(seed, file, line, column) == spec_entropy(seed, file, other_line, column) {
        lemma_splitmix_one_to_one(s2 ^ (column as u64), s2l ^ (column as u64));
        lemma_xor_one_to_one(column as u64, s2, s2l);
        lemma_splitmix_one_to_one(s1 ^ (line as u64), s1 ^ (other_line as u64));
        lemma_xor_one_to_one(s1, line as u64, other_line as u64);
    }
    if spec_entropy(seed, file, line, column) == spec_entropy(other_seed, file, line, column) {
        lemma_splitmix_one_to_one(s2 ^ (column as u64), t2 ^ (column as u64));
        lemma_xor_one_to_one(column as u64, s2, t2);
        lemma_splitmix_one_to_one(s1 ^ (line as u64), t1 ^ (line as u64));
        lemma_xor_one_to_one(line as u64, s1, t1);
        lemma_splitmix_one_to_one(seed ^ h, other_seed ^ h);
        lemma_xor_one_to_one(h, seed, other_seed);
    }
}

proof fn lemma_default_seed_bits()
    by (bit_vector)
    ensures
        0x1cd9du32 ^ 0x46u32 == 0x1cddbu32,
        0x3b893bu32 ^ 0x49u32 == 0x3b8972u32,
        0x7acb7b2u32 ^ 0x58u32 == 0x7acb7eau32,
        0xfd43b52au32 ^ 0x45u32 == 0xfd43b56fu32,
        0xa5ba634fu32 ^ 0x44u32 == 0xa5ba630bu32,
        0x9e3779ba2504df20u64 ^ (0x9e3779ba2504df20u64 >> 30u64) == 0x9e3779b85dd939c8u64,
        0xd1b44c2078caa988u64 ^ (0xd1b44c2078caa988u64 >> 27u64) == 0xd1b44c3a4e432d87u64,
        0xc14790920987c1edu64 ^ (0xc14790920987c1edu64 >> 31u64) == 0xc14790938b08e0c9u64,
{
}

/// [`SEED`] is the seed that [`DEFAULT_SEED_TEXT`] stands for.
pub proof fn lemma_seed_is_default()
    ensures
        SEED == spec_seed(DEFAULT_SEED_TEXT.spec_bytes()),
{
    reveal_strlit("FIXED");
    let chars = DEFAULT_SEED_TEXT@;
    assert(chars =~= seq!['F', 'I', 'X', 'E', 'D']);
    assert(is_ascii_chars(chars));
    is_ascii_chars_encode_utf8(chars);
    let b5 = DEFAULT_SEED_TEXT.spec_bytes();
    assert(b5 =~= seq![0x46u8, 0x49u8, 0x58u8, 0x45u8, 0x44u8]);
    let b4 = b5.drop_last();
    let b3 = b4.drop_last();
    let b2 = b3.drop_last();
    let b1 = b2.drop_last();
    let b0 = b1.drop_last();
    lemma_default_seed_bits();
    assert(spec_hash(b0) == 3581);
    assert(spec_hash(b1) == 0x1cddb);
    assert(spec_hash(b2) == 0x3b8972);
    assert(spec_hash(b3) == 0x7acb7ea);
    assert(spec_hash(b4) == 0xfd43b56f);
    assert(spec_hash(b5) == 0xa5ba630b);
}

/// `core::str::from_utf8` accepts exactly the byte strings that are
/// well-formed UTF-8, and returns the string that has those bytes.
#[verifier::external_body]
fn from_utf8(bytes: &[u8]) -> (text: Option<&str>)
    ensures
        text is Some <==> valid_utf8(bytes@),
        text is Some ==> text->0.spec_bytes() == bytes@,
{
    core::str::from_utf8(bytes).ok()
}

/// The string whose bytes are `bytes`, which have to be well-formed UTF-8:
/// deobfuscated bytes are, where the obfuscated string was.
#[inline(always)]
pub fn unsafe_as_str(bytes: &[u8]) -> (text: &str)
    requires
        valid_utf8(bytes@),
    ensures
        text.spec_bytes() == bytes@,
{
    match from_utf8(bytes) {
        Some(text) => text,
        None => vstd::pervasive::unreached(),
    }
}

} // verus!
