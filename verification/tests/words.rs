use obfstr::entropy;
use obfstr::wide;
use obfstr::words::{decode, deobfuscate, encode, keystream, keystream_of, obfuscate};

// Obfuscates the wide string under the key and reads it back.
fn obfwide<const LEN: usize>(s: &str, key: u32) -> [u16; LEN] {
    assert_eq!(wide::len(s), LEN);
    let string = wide::encode::<LEN>(s);
    let keys = keystream::<LEN>(key);
    let data = obfuscate::<LEN>(&string, &keys);
    deobfuscate::<LEN>(&data, &keys)
}

fn remaining_words<const LEN: usize>(key: u32) {
    let string: &[u16] = &[0, 1, 2, 3, 4, 5, 6, 7, 8, 9, 10, 11, 12, 13, 14, 15];
    let keys = keystream::<LEN>(key);
    let data = obfuscate::<LEN>(&string[..LEN], &keys);
    let buffer = deobfuscate::<LEN>(&data, &keys);
    // Ciphertext should not equal input string
    assert_ne!(&data[..], &string[..LEN]);
    // Deobfuscated result should equal input string
    assert_eq!(&buffer[..], &string[..LEN]);
}

// Test correct processing of less than multiple of 8 lengths
#[test]
fn words_test_remaining_bytes() {
    remaining_words::<8>(0x1111);
    remaining_words::<9>(0x2222);
    remaining_words::<10>(0x3333);
    remaining_words::<11>(0x4444);
    remaining_words::<12>(0x5555);
    remaining_words::<13>(0x6666);
    remaining_words::<14>(0x7777);
    remaining_words::<15>(0x8888);
    remaining_words::<16>(0x9999);
}

#[test]
fn words_test_obfstr_let() {
    let hello = obfwide::<5>("hello", entropy("src/words.rs", 162, 3) as u32);
    let world = obfwide::<5>("world", entropy("src/words.rs", 163, 3) as u32);
    assert_eq!(&hello, &wide::encode::<5>("hello"));
    assert_eq!(&world, &wide::encode::<5>("world"));
}

#[test]
fn words_test_obfstr_const() {
    let key = entropy("src/words.rs", 172, 13) as u32;
    const LONG_STRING: &str =
        "This literal is very very very long to see if it correctly handles long strings";
    const LONG_LEN: usize = LONG_STRING.len();
    assert_eq!(
        &obfwide::<LONG_LEN>(LONG_STRING, key),
        &wide::encode::<LONG_LEN>(LONG_STRING)
    );

    const ABC: &str = "ABC";
    const WORLD: &str = "🌍";

    assert_eq!(
        &obfwide::<3>(ABC, key),
        &[b'A' as u16, b'B' as u16, b'C' as u16]
    );
    assert_eq!(&obfwide::<2>(WORLD, key), &[0xd83c, 0xdf0d]);
}

#[test]
fn keystream_known_words() {
    // Two rounds of xorshift from 0x1111: the low half, then the high half.
    assert_eq!(keystream::<3>(0x1111), [0x3000, 0x4664, 0x5672]);
    assert_eq!(keystream::<0>(0x1111), [0u16; 0]);
}

fn round_trip<const LEN: usize>(key: u32) {
    let string: &[u16] = &[0xd83c, 0xdf0d, 0x41, 0x42, 0x43, 0xffff, 0, 1, 0x8000];
    let data = encode::<LEN>(key, &string[..LEN]);
    let mut buf = [0x5555u16; 12];
    let n = decode::<LEN>(&data, key, &mut buf);
    assert_eq!(n, LEN);
    assert_eq!(&buf[..LEN], &string[..LEN]);
    assert!(buf[LEN..].iter().all(|&w| w == 0x5555));
}

#[test]
fn words_decode_undoes_encode_for_every_remainder() {
    round_trip::<0>(1);
    round_trip::<1>(2);
    round_trip::<2>(3);
    round_trip::<3>(4);
    round_trip::<4>(5);
    round_trip::<5>(6);
    round_trip::<9>(0xffff_ffff);
}

#[test]
fn encode_lays_the_key_stream_over_the_words() {
    let string: [u16; 5] = [104, 101, 108, 108, 111];
    let data = encode::<5>(0x0bad_cafe, &string);
    assert_ne!(data, string);
    let keys = keystream::<5>(0x0bad_cafe);
    for i in 0..5 {
        assert_eq!(data[i], string[i] ^ keys[i]);
    }
}

#[test]
fn words_keystream_of_a_length_known_late() {
    assert_eq!(keystream_of(0x1111, 0), vec![]);
    assert_eq!(keystream_of(0x1111, 3), vec![0x3000, 0x4664, 0x5672]);
    for len in 0..=9 {
        assert_eq!(keystream_of(0xabcdef01, len), keystream::<9>(0xabcdef01)[..len].to_vec());
    }
}
