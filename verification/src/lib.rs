//! Byte strings held by the library, and the test that tells whether a run of
//! bytes is well-formed UTF-8.
//!
//! A [`Str`] owns its bytes. [`allocate`] makes one of a given length, [`len`]
//! reports the length, [`buf`] lends the bytes out for reading, and
//! [`is_utf8`] decides whether bytes encode text.
//!
//! [`utf8`] defines well-formed UTF-8 by reading bytes from the front, and
//! [`encoding`] proves that this is the same as being the encoding of a
//! sequence of Unicode scalar values.

pub mod encoding;
pub mod string;
pub mod utf8;
pub mod validate;

pub use string::{allocate, buf, len, Str};
pub use validate::is_utf8;
