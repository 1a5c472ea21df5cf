//! The boolean encoder.

use crate::sink::{has_room, put_u8};
use vstd::prelude::*;

verus! {

/// The canonical encoding of a truth value: the single byte `0x01` for true,
/// `0x00` for false.
pub open spec fn boolean_encoding(value: bool) -> Seq<u8> {
    if value {
        seq![0x01u8]
    } else {
        seq![0x00u8]
    }
}

/// Appends the canonical one-byte encoding of `value` to `buffer`.
pub fn encode_boolean(buffer: &mut Vec<u8>, value: bool)
    requires
        has_room(old(buffer)@, 1),
    ensures
        final(buffer)@ == old(buffer)@ + boolean_encoding(value),
        final(buffer)@ == old(buffer)@.push(if value { 1u8 } else { 0u8 }),
{
    if value {
        put_u8(buffer, 1);
    } else {
        put_u8(buffer, 0);
    }
}

/// The encoder keeps no state: what a run leaves in a fresh buffer is
/// decided by the truth value alone, so two runs on one value leave the same
/// byte.
pub proof fn lemma_boolean_encoder_is_pure(value: bool, first: Seq<u8>, second: Seq<u8>)
    requires
        first == Seq::<u8>::empty() + boolean_encoding(value),
        second == Seq::<u8>::empty() + boolean_encoding(value),
    ensures
        first == second,
        first == boolean_encoding(value),
{
}

} // verus!
