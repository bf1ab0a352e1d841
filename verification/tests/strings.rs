use obfstr::bytes;
use obfstr::wide;
use obfstr::words;
use obfstr::{entropy, entropy_with, seed_from, unsafe_as_str, SEED};

// Obfuscates the string under the key and reads it back.
fn obfstr<const LEN: usize>(s: &str, key: u32) -> [u8; LEN] {
    let data = bytes::encode::<LEN>(key, s.as_bytes());
    let mut buf = [0u8; LEN];
    assert_eq!(bytes::decode::<LEN>(&data, key, &mut buf), LEN);
    buf
}

// Obfuscates the wide string under the key and reads it back.
fn obfwide<const LEN: usize>(s: &str, key: u32) -> [u16; LEN] {
    assert_eq!(wide::len(s), LEN);
    let data = words::encode::<LEN>(key, &wide::encode::<LEN>(s));
    let mut buf = [0u16; LEN];
    assert_eq!(words::decode::<LEN>(&data, key, &mut buf), LEN);
    buf
}

#[test]
fn lib_test_obfstr_let() {
    let abc = obfstr::<3>("abc", entropy("src/lib.rs", 244, 3) as u32);
    let def = obfstr::<6>("defdef", entropy("src/lib.rs", 245, 3) as u32);
    assert_eq!(unsafe_as_str(&abc), "abc");
    assert_eq!(unsafe_as_str(&def), "defdef");
    let hello = obfwide::<5>("hello", entropy("src/lib.rs", 250, 3) as u32);
    let world = obfwide::<5>("world", entropy("src/lib.rs", 251, 3) as u32);
    assert_eq!(&hello, &wide::encode::<5>("hello"));
    assert_eq!(&world, &wide::encode::<5>("world"));
}

#[test]
fn lib_test_obfstr_const() {
    let key = entropy("src/lib.rs", 259, 13) as u32;
    assert_eq!(unsafe_as_str(&obfstr::<2>("\u{20}\0", key)), " \0");
    assert_eq!(
        unsafe_as_str(&obfstr::<6>("\"\n\t\\\'\"", key)),
        "\"\n\t\\\'\""
    );

    const LONG_STRING: &str =
        "This literal is very very very long to see if it correctly handles long strings";
    const LONG_LEN: usize = LONG_STRING.len();
    assert_eq!(
        unsafe_as_str(&obfstr::<LONG_LEN>(LONG_STRING, key)),
        LONG_STRING
    );

    const ABC: &str = "ABC";
    const WORLD: &str = "🌍";

    assert_eq!(
        &obfwide::<3>(ABC, key),
        &[b'A' as u16, b'B' as u16, b'C' as u16]
    );
    assert_eq!(&obfwide::<2>(WORLD, key), &[0xd83c, 0xdf0d]);
}

// The pieces work together from outside the crate
#[test]
fn main() {
    let (a, b) = (
        entropy("tests/main.rs", 7, 15),
        entropy("tests/main.rs", 7, 30),
    );
    assert_ne!(a, b);

    let key = a as u32;
    const LONG_STRING: &str =
        "This literal is very very very long to see if it correctly handles long string";
    const LONG_LEN: usize = LONG_STRING.len();
    assert_eq!(
        unsafe_as_str(&obfstr::<LONG_LEN>(LONG_STRING, key)),
        LONG_STRING
    );

    assert_eq!(unsafe_as_str(&obfstr::<2>("\u{20}\0", key)), " \0");
    assert_eq!(
        unsafe_as_str(&obfstr::<6>("\"\n\t\\\'\"", key)),
        "\"\n\t\\\'\""
    );

    const ABC: &str = "ABC";
    const WORLD: &str = "🌍";

    assert_eq!(
        &obfwide::<3>(ABC, key),
        &[b'A' as u16, b'B' as u16, b'C' as u16]
    );
    assert_eq!(&obfwide::<2>(WORLD, key), &[0xd83c, 0xdf0d]);

    assert!(wide::encode::<3>(ABC) == obfwide::<3>(ABC, b as u32));
    assert!(wide::encode::<2>(WORLD) == obfwide::<2>(WORLD, b as u32));
}

#[test]
fn decode_into_a_larger_buffer() {
    let key = entropy("src/lib.rs", 175, 3) as u32;
    let data = bytes::encode::<5>(key, b"hello");
    let mut buf = [0u8; 16];
    let n = bytes::decode::<5>(&data, key, &mut buf);
    assert_eq!(unsafe_as_str(&buf[..n]), "hello");
}

#[test]
fn seed_of_the_default_text() {
    assert_eq!(seed_from("FIXED"), SEED);
    assert_eq!(SEED, 0xc14790938b08e0c9);
    assert_ne!(seed_from("another"), SEED);
}

#[test]
fn entropy_known_values() {
    assert_eq!(entropy("tests/main.rs", 7, 15), 0x91456cdbeff533a4);
    assert_eq!(entropy("tests/main.rs", 7, 30), 0x2a079a60e571cc3b);
    assert_eq!(
        entropy_with(SEED, "tests/main.rs", 7, 15),
        entropy("tests/main.rs", 7, 15)
    );
    assert_ne!(
        entropy_with(SEED ^ 1, "tests/main.rs", 7, 15),
        entropy("tests/main.rs", 7, 15)
    );
}

#[test]
fn bytes_of_a_string_are_text() {
    assert_eq!(unsafe_as_str(b"plain"), "plain");
    assert_eq!(unsafe_as_str("🌍".as_bytes()), "🌍");
    assert_eq!(unsafe_as_str(b""), "");
    assert_eq!(unsafe_as_str(&[0xf0, 0x9f, 0x8c, 0x8d, 0x21]), "🌍!");
}
