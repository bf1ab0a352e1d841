//! What the macros write into a program in place of a string literal or of
//! the name of a primitive type.
//!
//! A string literal is replaced by a key, drawn at random, and by an array:
//! the bytes or the words of the string, xor-ed with the key stream of the
//! key. The array is read back by `decode` of [`crate::bytes`] or of
//! [`crate::words`] under the same key.

use crate::tokens::same_text;
use crate::random::{
    as_i16, as_i32, as_i64, as_i8, as_isize, as_u16, as_u32, as_u64, as_u8, as_usize,
};
use crate::wide::{spec_utf16, units};
use vstd::prelude::*;
use vstd::string::*;
use vstd::utf8::encode_utf8;

verus! {

/// `rand::random` draws 32 bits from the thread's generator. Nothing is
/// known of the value.
#[verifier::external_body]
pub(crate) fn random_u32() -> u32 {
    rand::random::<u32>()
}

/// `rand::random` draws 64 bits from the thread's generator. Nothing is
/// known of the value.
#[verifier::external_body]
fn random_u64() -> u64 {
    rand::random::<u64>()
}

/// The array that stands for a string.
#[derive(Debug, PartialEq, Eq)]
pub enum Obfuscated {
    /// The bytes of a string, obfuscated.
    Bytes(Vec<u8>),
    /// The UTF-16 code units of a wide string, obfuscated.
    Words(Vec<u16>),
}

/// What an [`Obfuscated`] holds.
pub enum ObfuscatedView {
    Bytes(Seq<u8>),
    Words(Seq<u16>),
}

impl View for Obfuscated {
    type V = ObfuscatedView;

    open spec fn view(&self) -> ObfuscatedView {
        match self {
            Obfuscated::Bytes(bytes) => ObfuscatedView::Bytes(bytes@),
            Obfuscated::Words(words) => ObfuscatedView::Words(words@),
        }
    }
}

/// The array that stands for the string `text` under `key`: its UTF-16
/// form for a wide string, else its UTF-8 form, obfuscated.
pub open spec fn spec_obfstr(text: Seq<char>, wide: bool, key: u32) -> ObfuscatedView {
    if wide {
        ObfuscatedView::Words(crate::words::spec_encode(key, spec_utf16(text)))
    } else {
        ObfuscatedView::Bytes(crate::bytes::spec_encode(key, encode_utf8(text)))
    }
}

/// Obfuscates the bytes in place: lays the key stream of `key` over them.
pub fn encrypt(bytes: &mut [u8], key: u32)
    ensures
        final(bytes)@ == crate::bytes::spec_encode(key, old(bytes)@),
{
    let n: usize = bytes.len();
    let keys = crate::bytes::keystream_of(key, n);
    let mut i: usize = 0;
    while i < n
        invariant
            n == bytes@.len(),
            bytes@.len() == old(bytes)@.len(),
            keys@ == crate::bytes::spec_keystream(key, n as nat),
            i <= n,
            forall|j: int| 0 <= j < i ==> bytes@[j] == old(bytes)@[j] ^ keys@[j],
            forall|j: int| i <= j < n ==> bytes@[j] == old(bytes)@[j],
        decreases n - i,
    {
        bytes[i] = bytes[i] ^ keys[i];
        i += 1;
    }
    assert(bytes@ =~= crate::bytes::spec_encode(key, old(bytes)@));
}

/// Obfuscates the words in place: lays the key stream of `key` over them.
pub fn wencrypt(words: &mut [u16], key: u32)
    ensures
        final(words)@ == crate::words::spec_encode(key, old(words)@),
{
    let n: usize = words.len();
    let keys = crate::words::keystream_of(key, n);
    let mut i: usize = 0;
    while i < n
        invariant
            n == words@.len(),
            words@.len() == old(words)@.len(),
            keys@ == crate::words::spec_keystream(key, n as nat),
            i <= n,
            forall|j: int| 0 <= j < i ==> words@[j] == old(words)@[j] ^ keys@[j],
            forall|j: int| i <= j < n ==> words@[j] == old(words)@[j],
        decreases n - i,
    {
        words[i] = words[i] ^ keys[i];
        i += 1;
    }
    assert(words@ =~= crate::words::spec_encode(key, old(words)@));
}

/// Obfuscates the string `text` under `key`, as a wide string or not.
pub fn obfstr_with(text: &str, wide: bool, key: u32) -> (array: Obfuscated)
    ensures
        array@ == spec_obfstr(text@, wide, key),
{
    if wide {
        let mut words = units(text);
        wencrypt(words.as_mut_slice(), key);
        Obfuscated::Words(words)
    } else {
        let mut bytes = text.as_bytes_vec();
        encrypt(bytes.as_mut_slice(), key);
        Obfuscated::Bytes(bytes)
    }
}

/// The array that stands for a string is read back as the string: decoding
/// it under its key gives the UTF-8 form of the string, or its UTF-16 form
/// for a wide string.
pub proof fn lemma_obfstr_reads_back(text: Seq<char>, key: u32)
    ensures
        spec_obfstr(text, false, key) matches ObfuscatedView::Bytes(data)
            && crate::bytes::spec_decode(key, data) == encode_utf8(text),
        spec_obfstr(text, true, key) matches ObfuscatedView::Words(data)
            && crate::words::spec_decode(key, data) == spec_utf16(text),
{
    crate::bytes::lemma_round_trip(key, encode_utf8(text));
    crate::words::lemma_round_trip(key, spec_utf16(text));
}

/// A constant of a primitive integer type.
#[derive(Clone, Copy, Debug, PartialEq, Eq, Structural)]
pub enum RandomLiteral {
    U8(u8),
    U16(u16),
    U32(u32),
    U64(u64),
    Usize(usize),
    I8(i8),
    I16(i16),
    I32(i32),
    I64(i64),
    Isize(isize),
}

/// The constant of the integer type named `ty` that is cut from `seed`:
/// its low bits, as many as the type holds. `None` where `ty` names no
/// integer type.
pub open spec fn spec_literal(ty: Seq<char>, seed: u64) -> Option<RandomLiteral> {
    if ty == "u8"@ {
        Some(RandomLiteral::U8(seed as u8))
    } else if ty == "u16"@ {
        Some(RandomLiteral::U16(seed as u16))
    } else if ty == "u32"@ {
        Some(RandomLiteral::U32(seed as u32))
    } else if ty == "u64"@ {
        Some(RandomLiteral::U64(seed))
    } else if ty == "usize"@ {
        Some(RandomLiteral::Usize(seed as usize))
    } else if ty == "i8"@ {
        Some(RandomLiteral::I8(seed as i8))
    } else if ty == "i16"@ {
        Some(RandomLiteral::I16(seed as i16))
    } else if ty == "i32"@ {
        Some(RandomLiteral::I32(seed as i32))
    } else if ty == "i64"@ {
        Some(RandomLiteral::I64(seed as i64))
    } else if ty == "isize"@ {
        Some(RandomLiteral::Isize(seed as isize))
    } else {
        None
    }
}

/// The constant of the integer type named `ty` that is cut from `seed`.
pub fn literal_from(ty: &str, seed: u64) -> (literal: Option<RandomLiteral>)
    ensures
        literal == spec_literal(ty@, seed),
        literal is Some <==> spec_integer_type(ty@),
{
    if same_text(ty, "u8") {
        Some(RandomLiteral::U8(as_u8(seed)))
    } else if same_text(ty, "u16") {
        Some(RandomLiteral::U16(as_u16(seed)))
    } else if same_text(ty, "u32") {
        Some(RandomLiteral::U32(as_u32(seed)))
    } else if same_text(ty, "u64") {
        Some(RandomLiteral::U64(as_u64(seed)))
    } else if same_text(ty, "usize") {
        Some(RandomLiteral::Usize(as_usize(seed)))
    } else if same_text(ty, "i8") {
        Some(RandomLiteral::I8(as_i8(seed)))
    } else if same_text(ty, "i16") {
        Some(RandomLiteral::I16(as_i16(seed)))
    } else if same_text(ty, "i32") {
        Some(RandomLiteral::I32(as_i32(seed)))
    } else if same_text(ty, "i64") {
        Some(RandomLiteral::I64(as_i64(seed)))
    } else if same_text(ty, "isize") {
        Some(RandomLiteral::Isize(as_isize(seed)))
    } else {
        None
    }
}

/// Whether `ty` names a primitive integer type.
pub open spec fn spec_integer_type(ty: Seq<char>) -> bool {
    ||| ty == "u8"@
    ||| ty == "u16"@
    ||| ty == "u32"@
    ||| ty == "u64"@
    ||| ty == "usize"@
    ||| ty == "i8"@
    ||| ty == "i16"@
    ||| ty == "i32"@
    ||| ty == "i64"@
    ||| ty == "isize"@
}

/// A constant of the integer type named `ty`, cut from 64 bits that are
/// drawn at random; `None` where `ty` names no integer type, and then
/// nothing is drawn.
pub fn random(ty: &str) -> (literal: Option<RandomLiteral>)
    ensures
        literal is Some <==> spec_integer_type(ty@),
        literal is Some ==> exists|seed: u64| literal == #[trigger] spec_literal(ty@, seed),
{
    if literal_from(ty, 0).is_none() {
        return None;
    }
    let seed: u64 = random_u64();
    let literal = literal_from(ty, seed);
    assert(literal == spec_literal(ty@, seed));
    literal
}

} // verus!
