use obfstr::wide::{encode, len, next};

#[test]
fn test_example() {
    let text = &[
        'e' as u16, 'x' as u16, 'a' as u16, 'm' as u16, 'p' as u16, 'l' as u16, 'e' as u16,
    ];
    assert_eq!(len("example"), 7);
    assert_eq!(text, &encode::<7>("example"));
}

#[test]
fn test_escapes() {
    let text = &[
        '\t' as u16,
        '\n' as u16,
        '\r' as u16,
        '\\' as u16,
        '\0' as u16,
        '\'' as u16,
        '\"' as u16,
        '\x52' as u16,
        '\u{00B6}' as u16,
    ];
    assert_eq!(len("\t\n\r\\\0\'\"\x52\u{00B6}"), 9);
    assert_eq!(text, &encode::<9>("\t\n\r\\\0\'\"\x52\u{00B6}"));
}

#[test]
fn test_raw() {
    let text = &[b'\\' as u16];
    assert_eq!(text, &encode::<1>(r"\"));
    assert_eq!(text, &encode::<1>(r#"\"#));
    assert_eq!(text, &encode::<1>(r##"\"##));
}

#[test]
fn test_const() {
    const STRING: &str = "Wide\0";
    let text = &['W' as u16, 'i' as u16, 'd' as u16, 'e' as u16, 0];
    assert_eq!(len(STRING), 5);
    assert_eq!(text, &encode::<5>(STRING));
}

#[test]
fn surrogate_pairs() {
    assert_eq!(len("🌍"), 2);
    assert_eq!(encode::<2>("🌍"), [0xd83c, 0xdf0d]);
    // The first and the last character that take a pair
    assert_eq!(encode::<2>("\u{10000}"), [0xd800, 0xdc00]);
    assert_eq!(encode::<2>("\u{10ffff}"), [0xdbff, 0xdfff]);
    // The last character that takes one unit
    assert_eq!(encode::<1>("\u{ffff}"), [0xffff]);
}

#[test]
fn agrees_with_the_standard_encoder() {
    let samples = ["", "a", "ß", "€", "🌍", "aß€🌍z", "\u{7ff}\u{800}\u{d7ff}\u{e000}"];
    for s in samples {
        let expected: Vec<u16> = s.encode_utf16().collect();
        assert_eq!(len(s), expected.len());
        let units = encode::<16>(s);
        assert_eq!(&units[..expected.len()], &expected[..]);
    }
}

#[test]
fn longer_array_is_filled_with_zeros() {
    assert_eq!(encode::<4>("ab"), [0x61, 0x62, 0, 0]);
    assert_eq!(encode::<0>(""), [0u16; 0]);
    assert_eq!(len(""), 0);
}

#[test]
fn next_splits_one_code_point_off() {
    assert_eq!(next(b"A-"), Some((0x41, &b"-"[..])));
    assert_eq!(next("ß-".as_bytes()), Some((0xdf, &b"-"[..])));
    assert_eq!(next("€-".as_bytes()), Some((0x20ac, &b"-"[..])));
    assert_eq!(next("🌍-".as_bytes()), Some((0x1f30d, &b"-"[..])));
    assert_eq!(next(b""), None);
    // A continuation byte leads nothing
    assert_eq!(next(&[0x80, 0x41]), None);
    // The bytes end before the code point does
    assert_eq!(next(&[0xe2, 0x82]), None);
}
