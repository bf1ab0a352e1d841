use obfstr::bytes::{decode, deobfuscate, encode, equals, keystream, keystream_of, obfuscate};
use obfstr::{entropy, unsafe_as_str};

// Obfuscates the string under the key and reads it back.
fn obfbytes<const LEN: usize>(s: &[u8], key: u32) -> [u8; LEN] {
    assert_eq!(s.len(), LEN);
    let keys = keystream::<LEN>(key);
    let data = obfuscate::<LEN>(s, &keys);
    deobfuscate::<LEN>(&data, &keys)
}

fn remaining_bytes<const LEN: usize>(key: u32) {
    let string: &[u8] = b"01234567ABCDEFGHI";
    let keys = keystream::<LEN>(key);
    let data = obfuscate::<LEN>(&string[..LEN], &keys);
    let buffer = deobfuscate::<LEN>(&data, &keys);
    // Ciphertext should not equal input string
    assert_ne!(&data[..], &string[..LEN]);
    // Deobfuscated result should equal input string
    assert_eq!(&buffer[..], &string[..LEN]);
    // Specialized equals check should succeed
    assert!(equals::<LEN>(&data, &keys, &string[..LEN]));
}

// Test correct processing of less than multiple of 8 lengths
#[test]
fn bytes_test_remaining_bytes() {
    remaining_bytes::<8>(0x1111);
    remaining_bytes::<9>(0x2222);
    remaining_bytes::<10>(0x3333);
    remaining_bytes::<11>(0x4444);
    remaining_bytes::<12>(0x5555);
    remaining_bytes::<13>(0x6666);
    remaining_bytes::<14>(0x7777);
    remaining_bytes::<15>(0x8888);
    remaining_bytes::<16>(0x9999);
}

#[test]
fn test_equals() {
    const STRING: &str = "Hello ðŸŒ\u{8d}";
    const LEN: usize = STRING.len();
    let keys: [u8; LEN] = keystream::<LEN>(0x10203040);
    let obfstring: [u8; LEN] = obfuscate::<LEN>(STRING.as_bytes(), &keys);
    assert!(equals::<LEN>(&obfstring, &keys, STRING.as_bytes()));
}

#[test]
fn bytes_test_obfstr_let() {
    let abc = obfbytes::<3>("abc".as_bytes(), entropy("src/bytes.rs", 317, 3) as u32);
    let def = obfbytes::<6>("defdef".as_bytes(), entropy("src/bytes.rs", 318, 3) as u32);
    let abc = unsafe_as_str(&abc);
    let def = unsafe_as_str(&def);
    assert_eq!(abc, "abc");
    assert_eq!(def, "defdef");
}

#[test]
fn bytes_test_obfstr_const() {
    let key = entropy("src/bytes.rs", 326, 13) as u32;
    assert_eq!(unsafe_as_str(&obfbytes::<2>("\u{20}\0".as_bytes(), key)), " \0");
    assert_eq!(
        unsafe_as_str(&obfbytes::<6>("\"\n\t\\\'\"".as_bytes(), key)),
        "\"\n\t\\\'\""
    );

    const LONG_STRING: &str =
        "This literal is very very very long to see if it correctly handles long strings";
    const LONG_LEN: usize = LONG_STRING.len();
    assert_eq!(
        unsafe_as_str(&obfbytes::<LONG_LEN>(LONG_STRING.as_bytes(), key)),
        LONG_STRING
    );

    const ABC: &str = "ABC";
    const WORLD: &str = "🌍";

    assert_eq!(&obfbytes::<3>(ABC.as_bytes(), key), "ABC".as_bytes());
    assert_eq!(&obfbytes::<4>(WORLD.as_bytes(), key), "🌍".as_bytes());
}

#[test]
fn keystream_known_bytes() {
    // Three rounds of xorshift from 0x1111, least significant byte first.
    assert_eq!(
        keystream::<9>(0x1111),
        [0x00, 0x30, 0x64, 0x46, 0x72, 0x56, 0xee, 0xcc, 0x22]
    );
}

#[test]
fn keystream_of_length_zero_is_empty() {
    let keys = keystream::<0>(0xdeadbeef);
    assert_eq!(keys.len(), 0);
    let data = obfuscate::<0>(b"", &keys);
    assert_eq!(deobfuscate::<0>(&data, &keys), [0u8; 0]);
    assert!(equals::<0>(&data, &keys, b""));
    assert!(!equals::<0>(&data, &keys, b"x"));
}

#[test]
fn shorter_keystream_is_a_prefix() {
    let long = keystream::<16>(0xabcdef01);
    let short = keystream::<7>(0xabcdef01);
    assert_eq!(&long[..7], &short[..]);
}

fn round_trip<const LEN: usize>(key: u32) {
    let string: &[u8] = b"The quick brown fox jumps over the lazy dog";
    let data = encode::<LEN>(key, &string[..LEN]);
    let mut buf = [0xaau8; 48];
    let n = decode::<LEN>(&data, key, &mut buf);
    assert_eq!(n, LEN);
    assert_eq!(&buf[..LEN], &string[..LEN]);
    // The rest of the buffer is left alone
    assert!(buf[LEN..].iter().all(|&b| b == 0xaa));
}

#[test]
fn bytes_decode_undoes_encode_for_every_remainder() {
    round_trip::<0>(1);
    round_trip::<1>(2);
    round_trip::<2>(3);
    round_trip::<3>(4);
    round_trip::<4>(5);
    round_trip::<5>(6);
    round_trip::<6>(7);
    round_trip::<7>(8);
    round_trip::<8>(9);
    round_trip::<23>(0xffff_ffff);
    round_trip::<43>(0x8000_0000);
}

#[test]
fn encode_changes_the_bytes() {
    let data = encode::<12>(0x1234_5678, b"Hello world!");
    assert_ne!(&data, b"Hello world!");
    // Exactly the key stream is laid over the bytes
    let keys = keystream::<12>(0x1234_5678);
    for i in 0..12 {
        assert_eq!(data[i], b"Hello world!"[i] ^ keys[i]);
    }
}

#[test]
fn zero_key_leaves_the_bytes_unchanged() {
    assert_eq!(keystream::<8>(0), [0u8; 8]);
    assert_eq!(&encode::<5>(0, b"plain"), b"plain");
}

#[test]
fn equals_rejects_other_strings() {
    const LEN: usize = 17;
    let string: &[u8; LEN] = b"01234567ABCDEFGHI";
    let keys = keystream::<LEN>(0x5eed);
    let data = obfuscate::<LEN>(string, &keys);
    assert!(equals::<LEN>(&data, &keys, string));
    // Another length
    assert!(!equals::<LEN>(&data, &keys, &string[..16]));
    assert!(!equals::<LEN>(&data, &keys, b"01234567ABCDEFGHIJ"));
    // One byte changed, in every chunk and in the remainder
    for i in 0..LEN {
        let mut other = *string;
        other[i] ^= 0x20;
        assert!(!equals::<LEN>(&data, &keys, &other));
    }
}

#[test]
fn equals_sees_every_remainder_byte() {
    let keys = keystream::<3>(77);
    let data = obfuscate::<3>(b"abc", &keys);
    assert!(equals::<3>(&data, &keys, b"abc"));
    assert!(!equals::<3>(&data, &keys, b"abd"));
    assert!(!equals::<3>(&data, &keys, b"aXc"));
    assert!(!equals::<3>(&data, &keys, b"Xbc"));
    let keys = keystream::<2>(78);
    let data = obfuscate::<2>(b"ab", &keys);
    assert!(equals::<2>(&data, &keys, b"ab"));
    assert!(!equals::<2>(&data, &keys, b"aX"));
    assert!(!equals::<2>(&data, &keys, b"Xb"));
    let keys = keystream::<1>(79);
    let data = obfuscate::<1>(b"a", &keys);
    assert!(equals::<1>(&data, &keys, b"a"));
    assert!(!equals::<1>(&data, &keys, b"b"));
}

#[test]
fn bytes_keystream_of_a_length_known_late() {
    assert_eq!(keystream_of(0x1111, 0), vec![]);
    assert_eq!(
        keystream_of(0x1111, 9),
        vec![0x00, 0x30, 0x64, 0x46, 0x72, 0x56, 0xee, 0xcc, 0x22]
    );
    for len in 0..=17 {
        assert_eq!(keystream_of(0xabcdef01, len), keystream::<17>(0xabcdef01)[..len].to_vec());
    }
}
