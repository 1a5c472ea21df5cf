//! The output buffer: a `Vec<u8>` that is only ever appended to, through the
//! `bytes::BufMut` implementation for `Vec<u8>`.

use crate::endian::big_endian;
use bytes::BufMut;
use vstd::prelude::*;

verus! {

/// Whether `count` more bytes can be appended behind `bytes`: a vector never
/// holds more than `isize::MAX` bytes.
pub open spec fn has_room(bytes: Seq<u8>, count: nat) -> bool {
    bytes.len() + count <= isize::MAX
}

/// Calls `bytes::BufMut::put_u8` on a `Vec<u8>`.
///
/// Trusted: the call appends exactly the one byte given. It panics when the
/// vector has no remaining capacity, which for a `Vec<u8>` is `isize::MAX`
/// less its length; `requires` leaves that out.
#[verifier::external_body]
pub(crate) fn put_u8(buffer: &mut Vec<u8>, byte: u8)
    requires
        has_room(old(buffer)@, 1),
    ensures
        final(buffer)@ == old(buffer)@.push(byte),
{
    BufMut::put_u8(buffer, byte);
}

/// Calls `bytes::BufMut::put_u16` on a `Vec<u8>`.
///
/// Trusted: the call appends the two bytes of `value` in big-endian order.
/// It panics when fewer than two bytes of capacity remain; `requires` leaves
/// that out.
#[verifier::external_body]
pub(crate) fn put_u16(buffer: &mut Vec<u8>, value: u16)
    requires
        has_room(old(buffer)@, 2),
    ensures
        final(buffer)@ == old(buffer)@ + big_endian(value as int, 2),
{
    BufMut::put_u16(buffer, value);
}

/// Calls `bytes::BufMut::put_u32` on a `Vec<u8>`.
///
/// Trusted: the call appends the four bytes of `value` in big-endian order.
/// It panics when fewer than four bytes of capacity remain; `requires`
/// leaves that out.
#[verifier::external_body]
pub(crate) fn put_u32(buffer: &mut Vec<u8>, value: u32)
    requires
        has_room(old(buffer)@, 4),
    ensures
        final(buffer)@ == old(buffer)@ + big_endian(value as int, 4),
{
    BufMut::put_u32(buffer, value);
}

/// Calls `bytes::BufMut::put_u64` on a `Vec<u8>`.
///
/// Trusted: the call appends the eight bytes of `value` in big-endian order.
/// It panics when fewer than eight bytes of capacity remain; `requires`
/// leaves that out.
#[verifier::external_body]
pub(crate) fn put_u64(buffer: &mut Vec<u8>, value: u64)
    requires
        has_room(old(buffer)@, 8),
    ensures
        final(buffer)@ == old(buffer)@ + big_endian(value as int, 8),
{
    BufMut::put_u64(buffer, value);
}

} // verus!
