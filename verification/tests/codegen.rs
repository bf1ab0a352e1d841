use obfstr::bytes::{decode, encode, keystream};
use obfstr::codegen::{
    encrypt, literal_from, obfstr_with, random, wencrypt, Obfuscated, RandomLiteral,
};
use obfstr::words;

#[test]
fn encrypt_lays_the_key_stream_over_the_bytes() {
    let mut bytes = *b"Hello world!";
    encrypt(&mut bytes, 0x1234_5678);
    let keys = keystream::<12>(0x1234_5678);
    for (i, &byte) in b"Hello world!".iter().enumerate() {
        assert_eq!(bytes[i], byte ^ keys[i]);
    }
    assert_ne!(&bytes, b"Hello world!");
    assert_eq!(bytes, encode::<12>(0x1234_5678, b"Hello world!"));
}

#[test]
fn encrypt_known_bytes() {
    // The key stream of 0x1111 starts 00 30 64 46 72
    let mut bytes = [0x10u8, 0x72, 0x23, 0x00, 0xff];
    encrypt(&mut bytes, 0x1111);
    assert_eq!(bytes, [0x10, 0x42, 0x47, 0x46, 0x8d]);
    // The first byte of the key stream of 1 is 0x21
    let mut zero = [0u8];
    encrypt(&mut zero, 1);
    assert_eq!(zero, [0x21]);
    let mut none: [u8; 0] = [];
    encrypt(&mut none, 0x1111);
}

#[test]
fn encrypted_bytes_are_read_back() {
    let mut bytes = *b"01234567ABCDEFGHI";
    encrypt(&mut bytes, 0xfeed_f00d);
    let mut buf = [0u8; 17];
    assert_eq!(decode::<17>(&bytes, 0xfeed_f00d, &mut buf), 17);
    assert_eq!(&buf, b"01234567ABCDEFGHI");
}

#[test]
fn wencrypt_lays_the_key_stream_over_the_words() {
    // The key stream of 0x1111 starts 3000 4664 5672 ccee
    let mut words: [u16; 4] = [0xd83c, 0xdf0d, 0x0041, 0x0000];
    wencrypt(&mut words, 0x1111);
    assert_eq!(words, [0xd83c ^ 0x3000, 0xdf0d ^ 0x4664, 0x0041 ^ 0x5672, 0xccee]);
    let mut buf = [0u16; 4];
    assert_eq!(words::decode::<4>(&words, 0x1111, &mut buf), 4);
    assert_eq!(buf, [0xd83c, 0xdf0d, 0x0041, 0x0000]);
}

#[test]
fn obfstr_with_a_key() {
    let mut expected = *b"abc";
    encrypt(&mut expected, 77);
    assert_eq!(obfstr_with("abc", false, 77), Obfuscated::Bytes(expected.to_vec()));
    let mut expected: [u16; 2] = [0xd83c, 0xdf0d];
    wencrypt(&mut expected, 77);
    assert_eq!(obfstr_with("🌍", true, 77), Obfuscated::Words(expected.to_vec()));
    assert_eq!(obfstr_with("", false, 77), Obfuscated::Bytes(Vec::new()));
    assert_eq!(obfstr_with("", true, 77), Obfuscated::Words(Vec::new()));
}

#[test]
fn obfuscated_string_is_read_back() {
    let data = match obfstr_with("Hello 🌍", false, 0x0bad_cafe) {
        Obfuscated::Bytes(bytes) => bytes,
        Obfuscated::Words(_) => panic!("a string gives bytes"),
    };
    let data: [u8; 10] = data.try_into().unwrap();
    let mut buf = [0u8; 10];
    decode::<10>(&data, 0x0bad_cafe, &mut buf);
    assert_eq!(obfstr::unsafe_as_str(&buf), "Hello 🌍");
    let data = match obfstr_with("Hello 🌍", true, 0x0bad_cafe) {
        Obfuscated::Words(words) => words,
        Obfuscated::Bytes(_) => panic!("a wide string gives words"),
    };
    let data: [u16; 8] = data.try_into().unwrap();
    let mut buf = [0u16; 8];
    words::decode::<8>(&data, 0x0bad_cafe, &mut buf);
    assert_eq!(buf, obfstr::wide::encode::<8>("Hello 🌍"));
}

#[test]
fn literal_from_cuts_the_low_bits() {
    let seed: u64 = 0x8123_4567_89ab_cdef;
    assert_eq!(literal_from("u8", seed), Some(RandomLiteral::U8(0xef)));
    assert_eq!(literal_from("u16", seed), Some(RandomLiteral::U16(0xcdef)));
    assert_eq!(literal_from("u32", seed), Some(RandomLiteral::U32(0x89ab_cdef)));
    assert_eq!(literal_from("u64", seed), Some(RandomLiteral::U64(seed)));
    assert_eq!(literal_from("usize", seed), Some(RandomLiteral::Usize(seed as usize)));
    assert_eq!(literal_from("i8", seed), Some(RandomLiteral::I8(-0x11)));
    assert_eq!(literal_from("i16", seed), Some(RandomLiteral::I16(-0x3211)));
    assert_eq!(literal_from("i32", seed), Some(RandomLiteral::I32(-0x7654_3211)));
    assert_eq!(
        literal_from("i64", seed),
        Some(RandomLiteral::I64(-0x7edc_ba98_7654_3211))
    );
    assert_eq!(literal_from("isize", seed), Some(RandomLiteral::Isize(seed as isize)));
}

#[test]
fn other_names_give_no_literal() {
    for ty in ["", "u", "u7", "u128", "U8", "bool", "char", "str", "u8 ", "uszie"] {
        assert_eq!(literal_from(ty, 1), None);
        assert_eq!(random(ty), None);
    }
}

#[test]
fn random_gives_the_type_that_is_named() {
    assert!(matches!(random("u8"), Some(RandomLiteral::U8(_))));
    assert!(matches!(random("u16"), Some(RandomLiteral::U16(_))));
    assert!(matches!(random("u32"), Some(RandomLiteral::U32(_))));
    assert!(matches!(random("u64"), Some(RandomLiteral::U64(_))));
    assert!(matches!(random("usize"), Some(RandomLiteral::Usize(_))));
    assert!(matches!(random("i8"), Some(RandomLiteral::I8(_))));
    assert!(matches!(random("i16"), Some(RandomLiteral::I16(_))));
    assert!(matches!(random("i32"), Some(RandomLiteral::I32(_))));
    assert!(matches!(random("i64"), Some(RandomLiteral::I64(_))));
    assert!(matches!(random("isize"), Some(RandomLiteral::Isize(_))));
}

#[test]
fn random_draws_keys_that_differ() {
    // Sixteen draws of 64 bits that are all the same would be no generator
    let first = random("u64");
    assert!((0..16).any(|_| random("u64") != first));
}
