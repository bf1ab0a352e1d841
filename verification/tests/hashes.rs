use obfstr::murmur3;
use obfstr::{hash, splitmix};

#[test]
fn test_vectors() {
    let vectors: [(u32, u32, &[u8]); 13] = [
        (0, 0, b""), // with zero data and zero seed, everything becomes zero
        (0x514E28B7, 1, b""), // ignores nearly all the math
        (0x81F16F39, 0xffffffff, b""), // make sure your seed uses unsigned 32-bit math
        (0x76293B50, 0, &[0xff, 0xff, 0xff, 0xff]), // make sure 4-byte chunks use unsigned math
        (0xF55B516B, 0, &[0x21, 0x43, 0x65, 0x87]), // Endian order. UInt32 should end up as 0x87654321
        (0x2362F9DE, 0x5082EDEE, &[0x21, 0x43, 0x65, 0x87]), // Special seed value eliminates initial key with xor
        (0x7E4A8634, 0, &[0x21, 0x43, 0x65]), // Only three bytes. Should end up as 0x654321
        (0xA0F7B07A, 0, &[0x21, 0x43]), // Only two bytes. Should end up as 0x4321
        (0x72661CF4, 0, &[0x21]), // Only one byte. Should end up as 0x21
        (0x2362F9DE, 0, &[0, 0, 0, 0]),
        (0x85F0B427, 0, &[0, 0, 0]),
        (0x30F4C306, 0, &[0, 0]),
        (0x514E28B7, 0, &[0]),
    ];

    for &(expected, seed, input) in vectors.iter() {
        assert_eq!(expected, murmur3(input, seed));
    }
}

#[test]
fn hash_of_hello_world() {
    assert_eq!(hash("Hello World"), 0x6E4A573D);
    assert_eq!(hash(""), 3581);
}

#[test]
fn splitmix_known_values() {
    assert_eq!(splitmix(0), 0xe220a8397b1dcdaf);
    assert_eq!(splitmix(1), 0x910a2dec89025cc1);
}

#[test]
fn fmix32_known_values() {
    assert_eq!(obfstr::murmur3::fmix32(0), 0);
    assert_eq!(obfstr::murmur3::fmix32(1), 0x514e28b7);
    assert_eq!(obfstr::murmur3::fmix32(0xffffffff), 0x81f16f39);
}

#[test]
fn murmur3_of_a_longer_string() {
    // Three full blocks and no tail
    assert_eq!(murmur3(b"Hello world!", 42), 0xd85cc9a2);
}

#[test]
fn little_endian_words() {
    assert_eq!(obfstr::le::u16_le(0x34, 0x12), 0x1234);
    assert_eq!(obfstr::le::u32_le(0x78, 0x56, 0x34, 0x12), 0x12345678);
    assert_eq!(
        obfstr::le::u64_le(0xef, 0xcd, 0xab, 0x89, 0x67, 0x45, 0x23, 0x01),
        0x0123456789abcdef
    );
}
