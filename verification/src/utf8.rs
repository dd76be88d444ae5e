//! What it means for a run of bytes to be UTF-8.
//!
//! UTF-8 writes each Unicode scalar value as one to four bytes. The first byte
//! of such a sequence, its leading byte, tells by its high bits how long the
//! sequence is; the others are continuation bytes. The definitions here read
//! bytes from the front: [`scalar_width`] is the length of the well-formed
//! sequence that a run of bytes begins with, and [`valid_utf8`] holds when the
//! whole run falls apart into such sequences.
//!
//! Bytes are compared as numbers: a range of byte values is a pattern of high
//! bits, and [`lemma_bit_patterns`] says which.

use vstd::prelude::*;

verus! {

/// A Unicode scalar value: a code point up to U+10FFFF outside the surrogate
/// range U+D800 to U+DFFF.
pub open spec fn is_scalar_value(c: int) -> bool {
    0 <= c <= 0x10FFFF && !(0xD800 <= c <= 0xDFFF)
}

/// A continuation byte: one with the high bits `10xxxxxx`.
pub open spec fn is_continuation(b: u8) -> bool {
    0x80 <= b <= 0xBF
}

/// The length that a leading byte declares for its sequence: 1 for
/// `0xxxxxxx`, 2 for `110xxxxx`, 3 for `1110xxxx`, 4 for `11110xxx`. It is 0
/// for every other byte, which can lead nothing.
pub open spec fn declared_width(lead: u8) -> int {
    if lead <= 0x7F {
        1
    } else if 0xC0 <= lead <= 0xDF {
        2
    } else if 0xE0 <= lead <= 0xEF {
        3
    } else if 0xF0 <= lead <= 0xF7 {
        4
    } else {
        0
    }
}

/// The smallest code point that needs `width` bytes. A sequence of `width`
/// bytes that carries a smaller one is overlong.
pub open spec fn least_code_point(width: int) -> int {
    if width <= 1 {
        0
    } else if width == 2 {
        0x80
    } else if width == 3 {
        0x800
    } else {
        0x1_0000
    }
}

/// The code point that the first `width` bytes of `bytes` carry: the bits left
/// of the leading byte once its length marker is taken off, followed by the low
/// six bits of each continuation byte.
pub open spec fn code_point(bytes: Seq<u8>, width: int) -> int
    recommends
        1 <= width <= 4,
        width <= bytes.len(),
{
    if width <= 1 {
        bytes[0] as int
    } else if width == 2 {
        (bytes[0] - 0xC0) * 0x40 + (bytes[1] - 0x80)
    } else if width == 3 {
        (bytes[0] - 0xE0) * 0x1000 + (bytes[1] - 0x80) * 0x40 + (bytes[2] - 0x80)
    } else {
        (bytes[0] - 0xF0) * 0x4_0000 + (bytes[1] - 0x80) * 0x1000 + (bytes[2] - 0x80) * 0x40 + (
        bytes[3] - 0x80)
    }
}

/// Every byte of the first `width` but the leading one is a continuation byte.
pub open spec fn continues(bytes: Seq<u8>, width: int) -> bool
    recommends
        width <= bytes.len(),
{
    &&& width >= 2 ==> is_continuation(bytes[1])
    &&& width >= 3 ==> is_continuation(bytes[2])
    &&& width >= 4 ==> is_continuation(bytes[3])
}

/// The length of the well-formed sequence that `bytes` begins with, or 0 where
/// it begins with none.
///
/// The sequence is well-formed when its leading byte declares a length, the
/// bytes are there, those after the first are continuation bytes, the code
/// point needs that many bytes, and the code point is a scalar value.
pub open spec fn scalar_width(bytes: Seq<u8>) -> int {
    if bytes.len() == 0 {
        0
    } else {
        let width = declared_width(bytes[0]);
        if width >= 1 && width <= bytes.len() && continues(bytes, width) && least_code_point(width)
            <= code_point(bytes, width) && is_scalar_value(code_point(bytes, width)) {
            width
        } else {
            0
        }
    }
}

/// `bytes` is well-formed UTF-8: it is empty, or it begins with a well-formed
/// sequence and what follows that sequence is well-formed UTF-8.
pub open spec fn valid_utf8(bytes: Seq<u8>) -> bool
    decreases bytes.len(),
{
    bytes.len() == 0 || (scalar_width(bytes) > 0 && valid_utf8(bytes.skip(scalar_width(bytes))))
}

/// The scalar values that `bytes` encodes, in order, read as far as `bytes` is
/// well-formed.
pub open spec fn decode_utf8(bytes: Seq<u8>) -> Seq<int>
    decreases bytes.len(),
{
    if scalar_width(bytes) > 0 {
        seq![code_point(bytes, scalar_width(bytes))] + decode_utf8(
            bytes.skip(scalar_width(bytes)),
        )
    } else {
        Seq::empty()
    }
}

/// The byte ranges above are the bit patterns of the encoding: a range test on
/// a byte is a test of its high bits, and taking the marker off by subtraction
/// leaves its low bits.
pub proof fn lemma_bit_patterns(b: u8)
    ensures
        b <= 0x7F <==> b & 0x80 == 0,
        is_continuation(b) <==> b & 0xC0 == 0x80,
        declared_width(b) == 2 <==> b & 0xE0 == 0xC0,
        declared_width(b) == 3 <==> b & 0xF0 == 0xE0,
        declared_width(b) == 4 <==> b & 0xF8 == 0xF0,
        is_continuation(b) ==> b - 0x80 == b & 0x3F,
        declared_width(b) == 2 ==> b - 0xC0 == b & 0x1F,
        declared_width(b) == 3 ==> b - 0xE0 == b & 0x0F,
        declared_width(b) == 4 ==> b - 0xF0 == b & 0x07,
{
    assert(b <= 0x7F <==> b & 0x80 == 0) by (bit_vector);
    assert(0x80 <= b <= 0xBF <==> b & 0xC0 == 0x80) by (bit_vector);
    assert(0xC0 <= b <= 0xDF <==> b & 0xE0 == 0xC0) by (bit_vector);
    assert(0xE0 <= b <= 0xEF <==> b & 0xF0 == 0xE0) by (bit_vector);
    assert(0xF0 <= b <= 0xF7 <==> b & 0xF8 == 0xF0) by (bit_vector);
    assert(0x80 <= b <= 0xBF ==> b - 0x80 == b & 0x3F) by (bit_vector);
    assert(0xC0 <= b <= 0xDF ==> b - 0xC0 == b & 0x1F) by (bit_vector);
    assert(0xE0 <= b <= 0xEF ==> b - 0xE0 == b & 0x0F) by (bit_vector);
    assert(0xF0 <= b <= 0xF7 ==> b - 0xF0 == b & 0x07) by (bit_vector);
}

} // verus!
