//! The scan that decides whether bytes are UTF-8.

use crate::utf8::{is_continuation, scalar_width, valid_utf8};
use vstd::prelude::*;

verus! {

/// Whether `b` is a continuation byte.
fn continuation(b: u8) -> (yes: bool)
    ensures
        yes == is_continuation(b),
{
    0x80 <= b && b <= 0xBF
}

/// The length of the well-formed sequence that starts at index `at` of
/// `bytes`, or 0 where none starts there.
///
/// No code point is put together: the first two bytes of a sequence decide
/// already whether it is overlong, a surrogate, or past U+10FFFF.
fn scalar_width_at(bytes: &[u8], at: usize) -> (width: usize)
    requires
        at < bytes@.len(),
    ensures
        width == scalar_width(bytes@.skip(at as int)),
{
    let ghost rest = bytes@.skip(at as int);
    let left: usize = bytes.len() - at;
    let lead: u8 = bytes[at];
    assert(rest[0] == lead);
    if lead <= 0x7F {
        1
    } else if lead < 0xC2 {
        // a continuation byte, or a two-byte sequence for a code point below U+0080
        0
    } else if lead <= 0xDF {
        if left < 2 {
            return 0;
        }
        assert(rest[1] == bytes@[at + 1]);
        if continuation(bytes[at + 1]) {
            2
        } else {
            0
        }
    } else if lead <= 0xEF {
        if left < 3 {
            return 0;
        }
        let second: u8 = bytes[at + 1];
        let third: u8 = bytes[at + 2];
        assert(rest[1] == second && rest[2] == third);
        // E0 must not fall below U+0800; ED must not reach the surrogates at U+D800
        let low: u8 = if lead == 0xE0 { 0xA0 } else { 0x80 };
        let high: u8 = if lead == 0xED { 0x9F } else { 0xBF };
        if low <= second && second <= high && continuation(third) {
            3
        } else {
            0
        }
    } else if lead <= 0xF4 {
        if left < 4 {
            return 0;
        }
        let second: u8 = bytes[at + 1];
        let third: u8 = bytes[at + 2];
        let fourth: u8 = bytes[at + 3];
        assert(rest[1] == second && rest[2] == third && rest[3] == fourth);
        // F0 must not fall below U+10000; F4 must not pass U+10FFFF
        let low: u8 = if lead == 0xF0 { 0x90 } else { 0x80 };
        let high: u8 = if lead == 0xF4 { 0x8F } else { 0xBF };
        if low <= second && second <= high && continuation(third) && continuation(fourth) {
            4
        } else {
            0
        }
    } else {
        // F5 to F7 lead past U+10FFFF; F8 to FF lead nothing
        0
    }
}

/// Whether `v` is well-formed UTF-8.
///
/// Every sequence must be complete, carry a scalar value, and be the shortest
/// that carries it. The empty run is well-formed. By
/// `lemma_valid_iff_encoded` the answer is yes exactly for the bytes that some
/// text encodes to.
pub fn is_utf8(v: &[u8]) -> (ok: bool)
    ensures
        ok == valid_utf8(v@),
{
    let n: usize = v.len();
    let mut at: usize = 0;
    assert(v@.skip(0) == v@);
    while at < n
        invariant
            at <= n,
            n == v@.len(),
            valid_utf8(v@) == valid_utf8(v@.skip(at as int)),
        decreases n - at,
    {
        let width: usize = scalar_width_at(v, at);
        if width == 0 {
            return false;
        }
        assert(v@.skip(at as int).skip(width as int) == v@.skip(at + width));
        at = at + width;
    }
    true
}

} // verus!
