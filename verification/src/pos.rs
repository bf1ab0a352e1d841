//! Finding a string inside another.
//!
//! Strings that are pooled into one obfuscated constant are found again by
//! their position in the pool.

use vstd::prelude::*;
use vstd::string::*;

verus! {

/// Whether `needle` stands in `haystack` at byte offset `at`.
pub open spec fn spec_occurs_at(haystack: Seq<u8>, needle: Seq<u8>, at: int) -> bool {
    &&& 0 <= at
    &&& at + needle.len() <= haystack.len()
    &&& forall|i: int| 0 <= i < needle.len() ==> haystack[at + i] == #[trigger] needle[i]
}

/// Whether `needle` stands anywhere in `haystack`.
pub open spec fn spec_occurs(haystack: Seq<u8>, needle: Seq<u8>) -> bool {
    exists|at: int| spec_occurs_at(haystack, needle, at)
}

/// Whether `at` is the first offset at which `needle` stands in `haystack`.
pub open spec fn spec_first_at(haystack: Seq<u8>, needle: Seq<u8>, at: int) -> bool {
    &&& spec_occurs_at(haystack, needle, at)
    &&& forall|earlier: int| 0 <= earlier < at ==> !spec_occurs_at(haystack, needle, earlier)
}

/// `a`, capped at 255.
pub open spec fn spec_max(a: int) -> int {
    if a > 255 {
        255
    } else {
        a
    }
}

/// The jump table of `needle` as far as its first `done` bytes have been
/// entered: every jump is at least 1 and at most the needle's length, and
/// no jump passes over an occurrence of its byte in the needle before the
/// last place.
pub open spec fn spec_jumps_ok(jumps: Seq<u8>, needle: Seq<u8>, done: int) -> bool {
    &&& jumps.len() == 256
    &&& forall|c: int| 0 <= c < 256 ==> 1 <= #[trigger] jumps[c] <= needle.len()
    &&& forall|j: int|
        0 <= j < done ==> jumps[#[trigger] needle[j] as int] <= needle.len() - 1 - j
}

/// Finds the position of the needle in the haystack: the range of bytes of
/// its first occurrence.
///
/// The needle has to occur in the haystack; [`search`] is for callers that
/// do not know whether it does.
#[inline(always)]
pub fn position(haystack: &str, needle: &str) -> (range: core::ops::Range<usize>)
    requires
        spec_occurs(haystack.spec_bytes(), needle.spec_bytes()),
    ensures
        spec_first_at(haystack.spec_bytes(), needle.spec_bytes(), range.start as int),
        range.end == range.start + needle.spec_bytes().len(),
{
    let len: usize = needle.as_bytes().len();
    match search(haystack, needle) {
        Some(start) => start..start + len,
        None => vstd::pervasive::unreached(),
    }
}

/// Finds the first occurrence of the needle in the haystack, if there is
/// one. The empty needle occurs at 0.
pub fn search(haystack: &str, needle: &str) -> (found: Option<usize>)
    ensures
        match found {
            Some(at) => spec_first_at(haystack.spec_bytes(), needle.spec_bytes(), at as int),
            None => !spec_occurs(haystack.spec_bytes(), needle.spec_bytes()),
        },
        haystack.spec_bytes().len() <= usize::MAX,
{
    let hay = haystack.as_bytes();
    let pin = needle.as_bytes();
    assert(hay@.len() == hay.len());

    // Short-circuit empty needles
    if pin.len() == 0 {
        return Some(0);
    }
    // Avoid overflow checks later
    if pin.len() <= hay.len() {
        // Special case for needle length of 1
        if pin.len() == 1 {
            let byte: u8 = pin[0];
            let mut offset: usize = 0;
            while offset < hay.len()
                invariant
                    hay@ == haystack.spec_bytes(),
                    pin@ == needle.spec_bytes(),
                    hay@.len() <= usize::MAX,
                    pin@.len() == 1,
                    byte == pin@[0],
                    offset <= hay@.len(),
                    forall|at: int| 0 <= at < offset ==> !spec_occurs_at(hay@, pin@, at),
                decreases hay@.len() - offset,
            {
                if hay[offset] == byte {
                    return Some(offset);
                }
                assert(!spec_occurs_at(hay@, pin@, offset as int)) by {
                    assert(hay@[offset + 0] != pin@[0]);
                }
                offset += 1;
            }
        } else {
            // Full blown quicksearch: initialize the jump table
            let mut jumps = [max(pin.len());256];
            let tail: usize = pin.len() - 1;
            let mut i: usize = 0;
            while i < tail
                invariant
                    tail == pin@.len() - 1,
                    i <= tail,
                    spec_jumps_ok(jumps@, pin@, i as int),
                decreases tail - i,
            {
                jumps[pin[i] as usize] = max(tail - i);
                i += 1;
            }
            // Find the needle
            let sentinel: u8 = pin[tail];
            let limit: usize = hay.len() - tail;
            let mut offset: usize = 0;
            while offset < limit
                invariant
                    hay@ == haystack.spec_bytes(),
                    pin@ == needle.spec_bytes(),
                    hay@.len() <= usize::MAX,
                    pin@.len() >= 2,
                    tail == pin@.len() - 1,
                    limit == hay@.len() - tail,
                    sentinel == pin@[tail as int],
                    offset <= limit,
                    spec_jumps_ok(jumps@, pin@, tail as int),
                    forall|at: int| 0 <= at < offset ==> !spec_occurs_at(hay@, pin@, at),
                decreases limit - offset,
            {
                let chr: u8 = hay[offset + tail];
                if chr == sentinel && check(hay, pin, offset) {
                    return Some(offset);
                }
                assert(!spec_occurs_at(hay@, pin@, offset as int)) by {
                    if chr != sentinel {
                        assert(hay@[offset + tail] != pin@[tail as int]);
                    }
                }
                let jump: usize = jumps[chr as usize] as usize;
                proof {
                    lemma_jump(hay@, pin@, jumps@, offset as int);
                }
                offset = if jump >= limit - offset {
                    limit
                } else {
                    offset + jump
                };
            }
        }
    }
    assert forall|at: int| !spec_occurs_at(hay@, pin@, at) by {
        if spec_occurs_at(hay@, pin@, at) {
            assert(at + pin@.len() <= hay@.len());
        }
    }
    return None;
}

/// After a mismatch at `offset`, the needle occurs nowhere from `offset`
/// up to the jump that the table gives for the byte under the needle's
/// last place.
proof fn lemma_jump(haystack: Seq<u8>, needle: Seq<u8>, jumps: Seq<u8>, offset: int)
    requires
        needle.len() >= 2,
        0 <= offset,
        offset + needle.len() <= haystack.len(),
        spec_jumps_ok(jumps, needle, needle.len() - 1),
        !spec_occurs_at(haystack, needle, offset),
    ensures
        forall|at: int|
            offset <= at < offset + jumps[haystack[offset + needle.len() - 1] as int]
                ==> !spec_occurs_at(haystack, needle, at),
{
    let tail = needle.len() - 1;
    let chr = haystack[offset + tail];
    let jump = jumps[chr as int];
    assert forall|at: int| offset <= at < offset + jump implies !spec_occurs_at(
        haystack,
        needle,
        at,
    ) by {
        if at > offset && spec_occurs_at(haystack, needle, at) {
            let j = tail - (at - offset);
            assert(0 <= j < tail);
            assert(haystack[at + j] == needle[j]);
            assert(jumps[needle[j] as int] <= tail - j);
        }
    }
}

#[inline(always)]
pub fn check(haystack: &[u8], needle: &[u8], offset: usize) -> (matches: bool)
    requires
        offset + needle@.len() <= haystack@.len(),
    ensures
        matches == spec_occurs_at(haystack@, needle@, offset as int),
{
    let mut i: usize = 0;
    assert(haystack@.len() == haystack.len());
    while i < needle.len()
        invariant
            offset + needle@.len() <= haystack@.len(),
            haystack@.len() <= usize::MAX,
            i <= needle@.len(),
            forall|j: int| 0 <= j < i ==> haystack@[offset + j] == #[trigger] needle@[j],
        decreases needle@.len() - i,
    {
        if haystack[offset + i] != needle[i] {
            return false;
        }
        i += 1;
    }
    return true;
}

#[inline(always)]
pub fn max(a: usize) -> (capped: u8)
    ensures
        capped == spec_max(a as int),
{
    if a > 255 {
        255
    } else {
        a as u8
    }
}

} // verus!
