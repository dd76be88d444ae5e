//! Encoding scalar values as UTF-8, and why well-formed bytes are exactly the
//! bytes that some text encodes to.

use crate::utf8::{
    code_point, continues, declared_width, decode_utf8, is_scalar_value, scalar_width, valid_utf8,
};
use vstd::prelude::*;

verus! {

/// The UTF-8 sequence for the scalar value `c`: the shortest of the four
/// forms that has room for it.
pub open spec fn encode_scalar(c: int) -> Seq<u8>
    recommends
        is_scalar_value(c),
{
    if c < 0x80 {
        seq![c as u8]
    } else if c < 0x800 {
        seq![(0xC0 + c / 0x40) as u8, (0x80 + c % 0x40) as u8]
    } else if c < 0x1_0000 {
        seq![(0xE0 + c / 0x1000) as u8, (0x80 + c / 0x40 % 0x40) as u8, (0x80 + c % 0x40) as u8]
    } else {
        seq![
            (0xF0 + c / 0x4_0000) as u8,
            (0x80 + c / 0x1000 % 0x40) as u8,
            (0x80 + c / 0x40 % 0x40) as u8,
            (0x80 + c % 0x40) as u8,
        ]
    }
}

/// Every member of `text` is a scalar value.
pub open spec fn is_text(text: Seq<int>) -> bool {
    forall|i: int| 0 <= i < text.len() ==> is_scalar_value(#[trigger] text[i])
}

/// The UTF-8 encoding of `text`: the sequences of its members, one after
/// another.
pub open spec fn encode_utf8(text: Seq<int>) -> Seq<u8>
    decreases text.len(),
{
    if text.len() == 0 {
        Seq::empty()
    } else {
        encode_scalar(text[0]) + encode_utf8(text.drop_first())
    }
}

/// The sequence for a scalar value reads back as that value, whatever bytes
/// follow it.
pub proof fn lemma_encode_scalar_reads_back(c: int, tail: Seq<u8>)
    requires
        is_scalar_value(c),
    ensures
        scalar_width(encode_scalar(c) + tail) == encode_scalar(c).len(),
        1 <= encode_scalar(c).len() <= 4,
        code_point(encode_scalar(c) + tail, encode_scalar(c).len() as int) == c,
        (encode_scalar(c) + tail).skip(encode_scalar(c).len() as int) == tail,
{
    let seq = encode_scalar(c);
    let bytes = seq + tail;
    let width = seq.len() as int;
    assert forall|i: int| 0 <= i < width implies bytes[i] == seq[i] by {}
    assert(bytes.skip(width) =~= tail);
    assert(declared_width(bytes[0]) == width);
    assert(continues(bytes, width));
    assert(code_point(bytes, width) == c);
}

/// Cutting a number into a high part and three groups of six low bits gives
/// back the parts that it was put together from.
proof fn lemma_six_bit_groups(high: int, second: int, third: int, fourth: int)
    requires
        0 <= high,
        0 <= second < 0x40,
        0 <= third < 0x40,
        0 <= fourth < 0x40,
    ensures
        (high * 0x40 + fourth) / 0x40 == high,
        (high * 0x40 + fourth) % 0x40 == fourth,
        (high * 0x1000 + third * 0x40 + fourth) / 0x1000 == high,
        (high * 0x1000 + third * 0x40 + fourth) / 0x40 % 0x40 == third,
        (high * 0x1000 + third * 0x40 + fourth) % 0x40 == fourth,
        (high * 0x4_0000 + second * 0x1000 + third * 0x40 + fourth) / 0x4_0000 == high,
        (high * 0x4_0000 + second * 0x1000 + third * 0x40 + fourth) / 0x1000 % 0x40 == second,
        (high * 0x4_0000 + second * 0x1000 + third * 0x40 + fourth) / 0x40 % 0x40 == third,
        (high * 0x4_0000 + second * 0x1000 + third * 0x40 + fourth) % 0x40 == fourth,
{
}

/// A well-formed sequence at the front of `bytes` carries a scalar value, and
/// is the sequence that this value encodes to.
pub proof fn lemma_scalar_width_encodes(bytes: Seq<u8>)
    requires
        scalar_width(bytes) > 0,
    ensures
        1 <= scalar_width(bytes) <= 4,
        scalar_width(bytes) <= bytes.len(),
        is_scalar_value(code_point(bytes, scalar_width(bytes))),
        encode_scalar(code_point(bytes, scalar_width(bytes))) == bytes.take(scalar_width(bytes)),
{
    let width = scalar_width(bytes);
    let c = code_point(bytes, width);
    if width == 1 {
    } else if width == 2 {
        lemma_six_bit_groups(bytes[0] - 0xC0, 0, 0, bytes[1] - 0x80);
    } else if width == 3 {
        lemma_six_bit_groups(bytes[0] - 0xE0, 0, bytes[1] - 0x80, bytes[2] - 0x80);
    } else {
        lemma_six_bit_groups(bytes[0] - 0xF0, bytes[1] - 0x80, bytes[2] - 0x80, bytes[3] - 0x80);
    }
    assert(encode_scalar(c) =~= bytes.take(width));
}

/// Encoding text gives well-formed bytes, and decoding them gives the text
/// back.
pub proof fn lemma_encode_then_decode(text: Seq<int>)
    requires
        is_text(text),
    ensures
        valid_utf8(encode_utf8(text)),
        decode_utf8(encode_utf8(text)) == text,
    decreases text.len(),
{
    if text.len() == 0 {
        assert(decode_utf8(encode_utf8(text)) =~= text);
    } else {
        let rest = text.drop_first();
        let tail = encode_utf8(rest);
        assert(is_text(rest)) by {
            assert forall|i: int| 0 <= i < rest.len() implies is_scalar_value(
                #[trigger] rest[i],
            ) by {
                assert(rest[i] == text[i + 1]);
            }
        }
        lemma_encode_then_decode(rest);
        lemma_encode_scalar_reads_back(text[0], tail);
        assert(decode_utf8(encode_utf8(text)) =~= seq![text[0]] + rest);
        assert(seq![text[0]] + rest =~= text);
    }
}

/// Well-formed bytes decode to text, and that text encodes to the same bytes.
pub proof fn lemma_decode_then_encode(bytes: Seq<u8>)
    requires
        valid_utf8(bytes),
    ensures
        is_text(decode_utf8(bytes)),
        encode_utf8(decode_utf8(bytes)) == bytes,
    decreases bytes.len(),
{
    if bytes.len() == 0 {
        assert(encode_utf8(decode_utf8(bytes)) =~= bytes);
    } else {
        let width = scalar_width(bytes);
        let c = code_point(bytes, width);
        let tail = bytes.skip(width);
        lemma_scalar_width_encodes(bytes);
        lemma_decode_then_encode(tail);
        let text = decode_utf8(bytes);
        assert(text == seq![c] + decode_utf8(tail));
        assert(text.drop_first() =~= decode_utf8(tail));
        assert(text[0] == c);
        assert(is_text(text)) by {
            assert forall|i: int| 0 <= i < text.len() implies is_scalar_value(
                #[trigger] text[i],
            ) by {
                if i > 0 {
                    assert(text[i] == decode_utf8(tail)[i - 1]);
                }
            }
        }
        assert(encode_utf8(text) == bytes.take(width) + tail);
        assert(bytes.take(width) + tail =~= bytes);
    }
}

/// Bytes are well-formed UTF-8 exactly when they are the encoding of some
/// text.
pub proof fn lemma_valid_iff_encoded(bytes: Seq<u8>)
    ensures
        valid_utf8(bytes) <==> exists|text: Seq<int>|
            is_text(text) && #[trigger] encode_utf8(text) == bytes,
{
    if valid_utf8(bytes) {
        lemma_decode_then_encode(bytes);
        assert(encode_utf8(decode_utf8(bytes)) == bytes);
    }
    if exists|text: Seq<int>| is_text(text) && #[trigger] encode_utf8(text) == bytes {
        let text = choose|text: Seq<int>| is_text(text) && #[trigger] encode_utf8(text) == bytes;
        lemma_encode_then_decode(text);
    }
}

/// Well-formed bytes stay well-formed, or not, by what is put behind them: the
/// two runs together are well-formed exactly when the second is.
pub proof fn lemma_valid_concat(head: Seq<u8>, tail: Seq<u8>)
    requires
        valid_utf8(head),
    ensures
        valid_utf8(head + tail) == valid_utf8(tail),
    decreases head.len(),
{
    if head.len() == 0 {
        assert(head + tail =~= tail);
    } else {
        let width = scalar_width(head);
        let both = head + tail;
        assert forall|i: int| 0 <= i < width implies both[i] == head[i] by {}
        assert(scalar_width(both) == width);
        assert(both.skip(width) =~= head.skip(width) + tail);
        lemma_valid_concat(head.skip(width), tail);
    }
}

/// Bytes below 0x80 are ASCII, and ASCII is UTF-8 as it stands.
pub proof fn lemma_ascii_is_valid(bytes: Seq<u8>)
    requires
        forall|i: int| 0 <= i < bytes.len() ==> bytes[i] <= 0x7F,
    ensures
        valid_utf8(bytes),
    decreases bytes.len(),
{
    if bytes.len() > 0 {
        assert(scalar_width(bytes) == 1);
        lemma_ascii_is_valid(bytes.skip(1));
    }
}

} // verus!
