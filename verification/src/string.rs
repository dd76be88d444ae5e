//! The string type and the three operations on it.

use crate::encoding::lemma_ascii_is_valid;
use crate::utf8::valid_utf8;
use vstd::prelude::*;

verus! {

/// A string: an owned run of bytes, meant to hold UTF-8 text.
///
/// Nothing here forces the bytes to be well-formed UTF-8; a caller who needs
/// that asks `is_utf8` of the bytes that `buf` lends out.
pub struct Str {
    bytes: Vec<u8>,
}

impl View for Str {
    type V = Seq<u8>;

    /// The bytes of the string, in order.
    closed spec fn view(&self) -> Seq<u8> {
        self.bytes@
    }
}

/// The contents of a fresh string of `n` bytes: `n` zero bytes.
pub open spec fn zeroed(n: int) -> Seq<u8> {
    Seq::new(n as nat, |i: int| 0u8)
}

/// The length of `s`, as `len` reports it: the number of its bytes.
pub open spec fn spec_len(s: &Str) -> nat {
    s@.len()
}

/// The bytes that `buf` lends out of `s`: all of them, in order.
pub open spec fn spec_buf(s: &Str) -> Seq<u8> {
    s@
}

/// Makes a string of `n_bytes` bytes, each of them zero.
pub fn allocate(n_bytes: isize) -> (s: Str)
    requires
        n_bytes >= 0,
    ensures
        s@ == zeroed(n_bytes as int),
{
    let s = Str { bytes: vec![0u8; n_bytes as usize] };
    assert(s@ =~= zeroed(n_bytes as int));
    s
}

/// The number of bytes in `s`.
pub fn len(s: &Str) -> (n: usize)
    ensures
        n == spec_len(s),
{
    s.bytes.len()
}

/// A read-only view of the bytes of `s`, borrowed from `s` and so unable to
/// outlive it.
pub fn buf(s: &Str) -> (b: &[u8])
    ensures
        b@ == spec_buf(s),
{
    s.bytes.as_slice()
}

/// A string made with `n` bytes has length `n`.
pub proof fn lemma_allocated_len(n: int, s: &Str)
    requires
        n >= 0,
        s@ == zeroed(n),
    ensures
        spec_len(s) == n,
{
}

/// The view of a string holds exactly as many bytes as the string is long.
pub proof fn lemma_buf_has_len_bytes(s: &Str)
    ensures
        spec_buf(s).len() == spec_len(s),
{
}

/// Length and view are decided by the bytes of the string and nothing else:
/// strings with the same bytes have the same length and the same view. So
/// asking twice of a string that has not changed gives the same answer twice.
pub proof fn lemma_reads_repeat(s: &Str, t: &Str)
    requires
        s@ == t@,
    ensures
        spec_len(s) == spec_len(t),
        spec_buf(s) == spec_buf(t),
{
}

/// A fresh string is well-formed UTF-8: it holds `n` times the character
/// U+0000.
pub proof fn lemma_zeroed_is_utf8(n: int)
    ensures
        valid_utf8(zeroed(n)),
{
    lemma_ascii_is_valid(zeroed(n));
}

} // verus!
