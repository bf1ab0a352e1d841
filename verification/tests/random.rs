use obfstr::entropy;
use obfstr::random::{
    as_bool, as_i16, as_i32, as_i64, as_i8, as_isize, as_u16, as_u32, as_u64, as_u8, as_usize,
};

#[test]
fn unsigned_constants_take_the_low_bits() {
    let seed: u64 = 0xfedc_ba98_7654_3210;
    assert_eq!(as_u8(seed), 0x10);
    assert_eq!(as_u16(seed), 0x3210);
    assert_eq!(as_u32(seed), 0x7654_3210);
    assert_eq!(as_u64(seed), seed);
    assert_eq!(as_usize(seed), seed as usize);
    assert_eq!(as_u8(0), 0);
    assert_eq!(as_u8(u64::MAX), 0xff);
}

#[test]
fn signed_constants_take_the_low_bits() {
    let seed: u64 = 0xfedc_ba98_f654_b2f0;
    assert_eq!(as_i8(seed), -0x10);
    assert_eq!(as_i16(seed), -0x4d10);
    assert_eq!(as_i32(seed), -0x09ab_4d10);
    assert_eq!(as_i64(seed), -0x0123_4567_09ab_4d10);
    assert_eq!(as_isize(seed), seed as isize);
    assert_eq!(as_i8(0x7f), 0x7f);
    assert_eq!(as_i8(0x80), -0x80);
}

#[test]
fn bool_is_the_highest_bit() {
    assert!(as_bool(0));
    assert!(as_bool(0x7fff_ffff_ffff_ffff));
    assert!(!as_bool(0x8000_0000_0000_0000));
    assert!(!as_bool(u64::MAX));
}

#[test]
fn constants_of_a_byte_stay_in_range() {
    let rnd = as_u8(entropy("src/lib.rs", 39, 18)) as i32;
    assert!(rnd >= 0 && rnd <= 255);
}

#[test]
fn constants_at_two_places_differ() {
    assert_ne!(
        as_u64(entropy("src/lib.rs", 46, 12)),
        as_u64(entropy("src/lib.rs", 46, 35))
    );
}
