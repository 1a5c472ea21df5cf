//! The length encoder: the definite-length field, in its short form for
//! lengths up to 127 and in its long form above.

use crate::endian::{
    big_endian, big_endian_value, lemma_big_endian_len, lemma_big_endian_round_trip,
};
use crate::sink::{has_room, put_u8};
use vstd::arithmetic::div_mod::lemma_small_mod;
use vstd::arithmetic::power::pow;
use vstd::prelude::*;

verus! {

/// How many bytes the shortest big-endian form of `value` takes: as many as
/// it has base-256 digits, none for zero.
pub open spec fn byte_length(value: nat) -> nat
    decreases value,
{
    if value == 0 {
        0
    } else {
        1 + byte_length(value / 256)
    }
}

/// The definite-length field for `length`.
///
/// Up to 127 it is the length itself in one byte. Above, it is a byte that
/// holds `0x80` and the count of bytes that follow, then the length in that
/// many bytes, most significant first and without a leading zero byte. The
/// count has seven bits to itself, which is more than any `usize` needs.
pub open spec fn length_encoding(length: nat) -> Seq<u8> {
    if length <= 127 {
        seq![length as u8]
    } else {
        seq![(0x80 + byte_length(length)) as u8] + big_endian(length as int, byte_length(length))
    }
}

/// The length that a conforming decoder reads from the front of `bytes`.
///
/// A first byte below `0x80` is the length. Otherwise its low seven bits
/// count the bytes that follow and spell the length, most significant first.
pub open spec fn decoded_length(bytes: Seq<u8>) -> nat {
    if bytes[0] < 0x80 {
        bytes[0] as nat
    } else {
        big_endian_value(bytes.subrange(1, 1 + (bytes[0] - 0x80)))
    }
}

/// What is left of `value` once its low `skipped` bytes are dropped.
spec fn high_part(value: int, skipped: nat) -> int
    decreases skipped,
{
    if skipped == 0 {
        value
    } else {
        high_part(value, (skipped - 1) as nat) / 256
    }
}

/// Shifting right by whole bytes drops that many low bytes.
proof fn lemma_shift_drops_bytes(value: u64, skipped: u64)
    requires
        skipped <= 7,
    ensures
        (value >> (8 * skipped)) as int == high_part(value as int, skipped as nat),
    decreases skipped,
{
    if skipped == 0 {
        assert(value >> (8 * 0u64) == value) by (bit_vector);
    } else {
        let before = (skipped - 1) as u64;
        lemma_shift_drops_bytes(value, before);
        assert((value >> (8 * before)) / 256 == value >> (8 * skipped)) by (bit_vector)
            requires
                1 <= skipped <= 7,
                before == skipped - 1,
        ;
    }
}

/// Nothing is left of a 64-bit value once eight bytes are dropped.
proof fn lemma_eight_bytes_suffice(value: u64)
    ensures
        high_part(value as int, 8) == 0,
{
    reveal_with_fuel(high_part, 9);
}

/// Counts the base-256 digits of `value`.
fn count_bytes(value: u64) -> (count: u8)
    ensures
        count == byte_length(value as nat),
        count <= 8,
{
    let mut count: u8 = 0;
    let mut rest: u64 = value;
    while rest > 0
        invariant
            count <= 8,
            rest == high_part(value as int, count as nat),
            byte_length(value as nat) == count + byte_length(rest as nat),
        decreases rest,
    {
        proof {
            if count == 8 {
                lemma_eight_bytes_suffice(value);
            }
            assert(rest >> 8 == rest / 256) by (bit_vector);
        }
        count += 1;
        rest >>= 8;
    }
    count
}

/// Appends the definite-length field for `length` to `buffer`.
pub fn write_length_encoding(buffer: &mut Vec<u8>, length: usize)
    requires
        has_room(old(buffer)@, length_encoding(length as nat).len()),
    ensures
        final(buffer)@ == old(buffer)@ + length_encoding(length as nat),
        length <= 127 ==> final(buffer)@ == old(buffer)@.push(length as u8),
{
    if length < 0b1000_0000 {
        put_u8(buffer, length as u8);
    } else {
        let whole: u64 = length as u64;
        let bytes_used: u8 = count_bytes(whole);
        let lead: u8 = 0b1000_0000 | bytes_used;
        proof {
            assert(lead == 0x80 + bytes_used) by (bit_vector)
                requires
                    lead == 0b1000_0000u8 | bytes_used,
                    bytes_used <= 8,
            ;
            lemma_big_endian_len(whole as int, bytes_used as nat);
        }
        put_u8(buffer, lead);
        let mut left: u8 = bytes_used;
        while left > 0
            invariant
                left <= bytes_used <= 8,
                has_room(old(buffer)@, 1 + bytes_used as nat),
                buffer@ == old(buffer)@.push(lead) + big_endian(
                    high_part(whole as int, left as nat),
                    (bytes_used - left) as nat,
                ),
            decreases left,
        {
            let shift: u64 = (left - 1) as u64 * 8;
            let digit: u64 = (whole >> shift) & 0xFF;
            proof {
                lemma_shift_drops_bytes(whole, (left - 1) as u64);
                assert(digit == (whole >> shift) % 256) by (bit_vector)
                    requires
                        digit == (whole >> shift) & 0xFF,
                ;
                lemma_big_endian_len(
                    high_part(whole as int, left as nat),
                    (bytes_used - left) as nat,
                );
            }
            put_u8(buffer, digit as u8);
            left -= 1;
        }
    }
}

/// `byte_length` is the least count of bytes that holds a value: a value
/// above zero lies from `256^(k-1)` up to, but not at, `256^k`, where `k` is
/// its byte length.
pub proof fn lemma_byte_length_is_minimal(value: nat)
    requires
        value > 0,
    ensures
        byte_length(value) >= 1,
        pow(256, (byte_length(value) - 1) as nat) <= value < pow(256, byte_length(value)),
    decreases value,
{
    reveal(pow);
    if value < 256 {
        reveal_with_fuel(byte_length, 2);
    } else {
        lemma_byte_length_is_minimal(value / 256);
    }
}

/// A length that fits a `usize` takes eight bytes at most.
pub proof fn lemma_byte_length_of_usize(length: usize)
    ensures
        byte_length(length as nat) <= 8,
        length >= 128 ==> byte_length(length as nat) >= 1,
{
    reveal_with_fuel(byte_length, 9);
}

/// The shortest big-endian form of a value above zero starts with a byte
/// that is not zero.
pub proof fn lemma_no_leading_zero(value: nat)
    requires
        value > 0,
    ensures
        big_endian(value as int, byte_length(value)).len() == byte_length(value),
        byte_length(value) >= 1,
        big_endian(value as int, byte_length(value))[0] != 0,
    decreases value,
{
    if value < 256 {
        reveal_with_fuel(byte_length, 2);
        reveal_with_fuel(big_endian, 2);
    } else {
        lemma_no_leading_zero(value / 256);
    }
}

/// The whole field is nine bytes at most: one in the short form, and in the
/// long form one more than the byte length.
pub proof fn lemma_length_encoding_len(length: usize)
    ensures
        length <= 127 ==> length_encoding(length as nat).len() == 1,
        length >= 128 ==> length_encoding(length as nat).len() == 1 + byte_length(length as nat),
        1 <= length_encoding(length as nat).len() <= 9,
{
    lemma_byte_length_of_usize(length);
    lemma_big_endian_len(length as int, byte_length(length as nat));
}

/// The short form: a length up to 127 is encoded as the one byte that
/// equals it, whose top bit is therefore clear.
pub proof fn lemma_short_form(length: usize)
    requires
        length <= 127,
    ensures
        length_encoding(length as nat) == seq![length as u8],
        length_encoding(length as nat)[0] < 0x80,
{
}

/// The long form: a length of 128 or more is encoded as the byte
/// `0x80 | k` and then the length in `k` bytes, most significant first,
/// where `k` is the least count of bytes that holds the length. So the first
/// of the `k` bytes is not zero.
pub proof fn lemma_long_form(length: usize)
    requires
        length >= 128,
    ensures
        ({
            let count = byte_length(length as nat);
            let bytes = length_encoding(length as nat);
            &&& 1 <= count <= 8
            &&& pow(256, (count - 1) as nat) <= length < pow(256, count)
            &&& bytes.len() == 1 + count
            &&& bytes[0] == (0x80u8 | count as u8)
            &&& bytes.subrange(1, 1 + count as int) == big_endian(length as int, count)
            &&& bytes[1] != 0
        }),
{
    lemma_byte_length_of_usize(length);
    lemma_byte_length_is_minimal(length as nat);
    lemma_no_leading_zero(length as nat);
    let count = byte_length(length as nat) as u8;
    assert(0x80u8 | count == 0x80 + count) by (bit_vector)
        requires
            count <= 8,
    ;
}

/// Round trip: decoding the field that encodes a length gives the length
/// back, whatever bytes follow the field.
pub proof fn lemma_length_round_trip(length: usize, rest: Seq<u8>)
    ensures
        decoded_length(length_encoding(length as nat)) == length,
        decoded_length(length_encoding(length as nat) + rest) == length,
{
    let bytes = length_encoding(length as nat);
    if length >= 128 {
        let count = byte_length(length as nat);
        lemma_long_form(length);
        lemma_big_endian_round_trip(length as int, count);
        lemma_small_mod(length as nat, pow(256, count) as nat);
        assert((bytes + rest).subrange(1, 1 + count as int) =~= bytes.subrange(
            1,
            1 + count as int,
        ));
    }
}

/// The encoder keeps no state: what a run leaves in a fresh buffer is
/// decided by the length alone, so two runs on one length leave the same
/// bytes.
pub proof fn lemma_length_encoder_is_pure(length: usize, first: Seq<u8>, second: Seq<u8>)
    requires
        first == Seq::<u8>::empty() + length_encoding(length as nat),
        second == Seq::<u8>::empty() + length_encoding(length as nat),
    ensures
        first == second,
        first == length_encoding(length as nat),
{
}

} // verus!
