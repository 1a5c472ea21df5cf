//! Byte-level encoders for a BER/DER-style tagged binary format: a boolean,
//! a definite-length field, identifier octets for a tag, and an integer whose
//! width a declared range selects.
//!
//! Every encoder appends to a caller-owned `Vec<u8>` and states, as a
//! sequence of bytes, exactly what it appended. The bytes reach the vector
//! through `bytes::BufMut`; the four calls into it, in `sink`, are the only
//! code here that is trusted rather than proved.

pub mod boolean;
pub mod endian;
pub mod integer;
pub mod length;
pub mod sink;
pub mod tag;

pub use boolean::encode_boolean;
pub use integer::{
    encode_int, included, select_width, write_int, Bound, IntRange, RangeError, Width,
};
pub use length::write_length_encoding;
pub use tag::{write_base128, write_tag, Tag};
