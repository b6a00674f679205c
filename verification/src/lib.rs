//! A codec for tagged unions over a flat byte buffer.
//!
//! An encoded buffer is a fixed-width, zero-padded variant name followed by
//! the raw bytes of that variant's payload.  A [`schema::Schema`] records the
//! variant names and payload sizes of one tagged-union type; the codec
//! operations on it encode and decode values byte-exactly.

pub mod bytes;
pub mod codec;
pub mod laws;
pub mod schema;
pub mod utf8;
