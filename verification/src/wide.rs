//! Wide strings: the UTF-16 form of a string.

use vstd::prelude::*;
use vstd::slice::slice_subrange;
use vstd::string::*;
use vstd::utf8::*;

verus! {

/// The UTF-16 code units of one character: itself below 0x10000, a pair
/// of surrogates from there on.
pub open spec fn spec_units(chr: u32) -> Seq<u16> {
    if chr >= 0x10000 {
        seq![
            (0xD800 + (chr - 0x10000) / 0x400) as u16,
            (0xDC00 + (chr - 0x10000) % 0x400) as u16,
        ]
    } else {
        seq![chr as u16]
    }
}

/// The UTF-16 form of a string.
pub open spec fn spec_utf16(chars: Seq<char>) -> Seq<u16>
    decreases chars.len(),
{
    if chars.len() == 0 {
        seq![]
    } else {
        spec_units(chars[0] as u32) + spec_utf16(chars.drop_first())
    }
}

/// The first code point that the bytes hold, with the bytes after it. Only
/// the leading byte is looked at to tell how many bytes belong to it;
/// `None` at the end, at a byte that leads nothing, and where the bytes
/// end before the code point does.
pub open spec fn spec_next(bytes: Seq<u8>) -> Option<(u32, Seq<u8>)> {
    if bytes.len() >= 1 && bytes[0] & 0x80 == 0x00 {
        Some((bytes[0] as u32, bytes.skip(1)))
    } else if bytes.len() >= 2 && bytes[0] & 0xe0 == 0xc0 {
        Some(((bytes[0] as u32 & 0x1f) << 6 | (bytes[1] as u32 & 0x3f), bytes.skip(2)))
    } else if bytes.len() >= 3 && bytes[0] & 0xf0 == 0xe0 {
        Some(
            (
                (bytes[0] as u32 & 0x0f) << 12 | (bytes[1] as u32 & 0x3f) << 6 | (bytes[2] as u32
                    & 0x3f),
                bytes.skip(3),
            ),
        )
    } else if bytes.len() >= 4 && bytes[0] & 0xf8 == 0xf0 {
        Some(
            (
                (bytes[0] as u32 & 0x07) << 18 | (bytes[1] as u32 & 0x3f) << 12 | (bytes[2] as u32
                    & 0x3f) << 6 | (bytes[3] as u32 & 0x3f),
                bytes.skip(4),
            ),
        )
    } else {
        None
    }
}

/// Splits the first code point off the bytes.
pub fn next(bytes: &[u8]) -> (r: Option<(u32, &[u8])>)
    ensures
        match r {
            Some((chr, tail)) => spec_next(bytes@) == Some((chr, tail@)),
            None => spec_next(bytes@) is None,
        },
{
    let n: usize = bytes.len();
    if n >= 1 && bytes[0] & 0x80 == 0x00 {
        let a: u8 = bytes[0];
        Some((a as u32, slice_subrange(bytes, 1, n)))
    } else if n >= 2 && bytes[0] & 0xe0 == 0xc0 {
        let (a, b): (u8, u8) = (bytes[0], bytes[1]);
        Some(((a as u32 & 0x1f) << 6 | (b as u32 & 0x3f), slice_subrange(bytes, 2, n)))
    } else if n >= 3 && bytes[0] & 0xf0 == 0xe0 {
        let (a, b, c): (u8, u8, u8) = (bytes[0], bytes[1], bytes[2]);
        Some(
            (
                (a as u32 & 0x0f) << 12 | (b as u32 & 0x3f) << 6 | (c as u32 & 0x3f),
                slice_subrange(bytes, 3, n),
            ),
        )
    } else if n >= 4 && bytes[0] & 0xf8 == 0xf0 {
        let (a, b, c, d): (u8, u8, u8, u8) = (bytes[0], bytes[1], bytes[2], bytes[3]);
        Some(
            (
                (a as u32 & 0x07) << 18 | (b as u32 & 0x3f) << 12 | (c as u32 & 0x3f) << 6 | (
                d as u32 & 0x3f),
                slice_subrange(bytes, 4, n),
            ),
        )
    } else {
        None
    }
}

/// The bit patterns by which the code points are told apart and put
/// together, in the terms in which well-formed UTF-8 is defined.
proof fn lemma_code_points(a: u8, b: u8, c: u8, d: u8)
    by (bit_vector)
    ensures
        a & 0x80 == 0x00 ==> a as u32 == codepoint_width_1(a),
        (a as u32 & 0x1f) << 6 | (b as u32 & 0x3f) == codepoint_width_2(a, b),
        (a as u32 & 0x0f) << 12 | (b as u32 & 0x3f) << 6 | (c as u32 & 0x3f) == codepoint_width_3(
            a,
            b,
            c,
        ),
        (a as u32 & 0x07) << 18 | (b as u32 & 0x3f) << 12 | (c as u32 & 0x3f) << 6 | (d as u32
            & 0x3f) == codepoint_width_4(a, b, c, d),
        codepoint_width_1(a) < 0x10000,
        codepoint_width_2(a, b) < 0x10000,
        codepoint_width_3(a, b, c) < 0x10000,
        is_leading_byte_width_1(a) <==> a & 0x80 == 0x00,
        is_leading_byte_width_2(a) <==> a & 0xe0 == 0xc0,
        is_leading_byte_width_3(a) <==> a & 0xf0 == 0xe0,
        is_leading_byte_width_4(a) <==> a & 0xf8 == 0xf0,
{
}

/// On well-formed UTF-8 that is not empty, splitting gives the first
/// character and leaves well-formed UTF-8; a character from 0x10000 on
/// takes four bytes.
proof fn lemma_next_valid(bytes: Seq<u8>)
    requires
        valid_utf8(bytes),
        bytes.len() > 0,
    ensures
        spec_next(bytes) == Some((decode_first_scalar(bytes), pop_first_scalar(bytes))),
        valid_utf8(pop_first_scalar(bytes)),
        pop_first_scalar(bytes).len() < bytes.len(),
        decode_first_scalar(bytes) >= 0x10000 ==> pop_first_scalar(bytes).len() + 4
            == bytes.len(),
        spec_utf16(decode_utf8(bytes)) == spec_units(decode_first_scalar(bytes)) + spec_utf16(
            decode_utf8(pop_first_scalar(bytes)),
        ),
{
    let len = bytes.len() as int;
    lemma_code_points(
        bytes[0],
        if len > 1 {
            bytes[1]
        } else {
            0
        },
        if len > 2 {
            bytes[2]
        } else {
            0
        },
        if len > 3 {
            bytes[3]
        } else {
            0
        },
    );
    let chr = decode_first_scalar(bytes);
    let rest = pop_first_scalar(bytes);
    assert(rest =~= bytes.skip(length_of_first_scalar(bytes)));
    let chars = decode_utf8(bytes);
    assert(chars == seq![chr as char] + decode_utf8(rest));
    assert(chars.drop_first() =~= decode_utf8(rest));
    assert(chars[0] as u32 == chr);
}

/// The number of UTF-16 code units that `s` takes.
pub fn len(s: &str) -> (len: usize)
    ensures
        len == spec_utf16(s@).len(),
{
    let mut bytes = s.as_bytes();
    let mut len: usize = 0;
    proof {
        encode_utf8_valid_utf8(s@);
        encode_utf8_decode_utf8(s@);
    }
    assert(bytes@.len() == bytes.len());
    loop
        invariant
            valid_utf8(bytes@),
            len + spec_utf16(decode_utf8(bytes@)).len() == spec_utf16(s@).len(),
            len + bytes@.len() <= usize::MAX,
        ensures
            len == spec_utf16(s@).len(),
        decreases bytes@.len(),
    {
        match next(bytes) {
            Some((chr, tail)) => {
                proof {
                    lemma_next_valid(bytes@);
                }
                bytes = tail;
                len += if chr >= 0x10000 {
                    2
                } else {
                    1
                };
            },
            None => {
                proof {
                    if bytes@.len() > 0 {
                        lemma_next_valid(bytes@);
                    }
                }
                break ;
            },
        }
    }
    return len;
}

/// The UTF-16 form of `s`, followed by zeros up to `LEN`.
pub fn encode<const LEN: usize>(s: &str) -> (data: [u16; LEN])
    requires
        spec_utf16(s@).len() <= LEN,
    ensures
        data@ == spec_utf16(s@) + Seq::new(
            (LEN - spec_utf16(s@).len()) as nat,
            |i: int| 0u16,
        ),
{
    let mut bytes = s.as_bytes();
    let mut data = [0u16; LEN];
    let mut i: usize = 0usize;
    proof {
        encode_utf8_valid_utf8(s@);
        encode_utf8_decode_utf8(s@);
    }
    loop
        invariant
            valid_utf8(bytes@),
            i <= LEN,
            data@.take(i as int) + spec_utf16(decode_utf8(bytes@)) == spec_utf16(s@),
            spec_utf16(s@).len() <= LEN,
            forall|j: int| i <= j < LEN ==> data@[j] == 0,
        ensures
            i == spec_utf16(s@).len(),
            data@.take(i as int) == spec_utf16(s@),
            forall|j: int| i <= j < LEN ==> data@[j] == 0,
        decreases bytes@.len(),
    {
        match next(bytes) {
            Some((chr, tail)) => {
                proof {
                    lemma_next_valid(bytes@);
                }
                let ghost before = data@.take(i as int);
                bytes = tail;
                if chr >= 0x10000 {
                    data[i] = (0xD800 + (chr - 0x10000) / 0x400) as u16;
                    data[i + 1] = (0xDC00 + (chr - 0x10000) % 0x400) as u16;
                    i += 2;
                } else {
                    data[i] = chr as u16;
                    i += 1;
                }
                assert(data@.take(i as int) =~= before + spec_units(chr));
            },
            None => {
                proof {
                    if bytes@.len() > 0 {
                        lemma_next_valid(bytes@);
                    }
                }
                break ;
            },
        }
    }
    assert(data@ =~= spec_utf16(s@) + Seq::new(
        (LEN - spec_utf16(s@).len()) as nat,
        |i: int| 0u16,
    ));
    return data;
}

/// The UTF-16 form of `s`.
pub fn units(s: &str) -> (data: Vec<u16>)
    ensures
        data@ == spec_utf16(s@),
{
    let mut bytes = s.as_bytes();
    let mut data: Vec<u16> = Vec::new();
    proof {
        encode_utf8_valid_utf8(s@);
        encode_utf8_decode_utf8(s@);
    }
    loop
        invariant
            valid_utf8(bytes@),
            data@ + spec_utf16(decode_utf8(bytes@)) == spec_utf16(s@),
        ensures
            data@ == spec_utf16(s@),
        decreases bytes@.len(),
    {
        match next(bytes) {
            Some((chr, tail)) => {
                proof {
                    lemma_next_valid(bytes@);
                }
                let ghost before = data@;
                bytes = tail;
                if chr >= 0x10000 {
                    data.push((0xD800 + (chr - 0x10000) / 0x400) as u16);
                    data.push((0xDC00 + (chr - 0x10000) % 0x400) as u16);
                } else {
                    data.push(chr as u16);
                }
                assert(data@ =~= before + spec_units(chr));
                assert((before + spec_units(chr)) + spec_utf16(decode_utf8(bytes@)) =~= before + (
                spec_units(chr) + spec_utf16(decode_utf8(bytes@))));
            },
            None => {
                proof {
                    if bytes@.len() > 0 {
                        lemma_next_valid(bytes@);
                    }
                    assert(data@ + Seq::<u16>::empty() =~= data@);
                }
                break ;
            },
        }
    }
    return data;
}

} // verus!
