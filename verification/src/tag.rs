//! The tag encoder: identifier octets for a class and a tag number, in one
//! byte for numbers up to 30 and in high-tag-number form above.

use crate::sink::{has_room, put_u8};
use vstd::prelude::*;

verus! {

/// A tag: one of four classes, with the tag number.
#[derive(Clone, Copy, Debug, PartialEq, Eq)]
pub enum Tag {
    Universal(usize),
    Application(usize),
    ContextSpecific(usize),
    Private(usize),
}

impl Tag {
    /// The class, as the top two bits of the first identifier octet.
    pub open spec fn class_bits(self) -> u8 {
        match self {
            Tag::Universal(_) => 0b0000_0000,
            Tag::Application(_) => 0b0100_0000,
            Tag::ContextSpecific(_) => 0b1000_0000,
            Tag::Private(_) => 0b1100_0000,
        }
    }

    /// The tag number.
    pub open spec fn number(self) -> nat {
        match self {
            Tag::Universal(number) => number as nat,
            Tag::Application(number) => number as nat,
            Tag::ContextSpecific(number) => number as nat,
            Tag::Private(number) => number as nat,
        }
    }
}

/// The base-128 digits of `value`, most significant first, each in the low
/// seven bits of a byte whose top bit is set. Zero has no digits.
pub open spec fn continued_groups(value: nat) -> Seq<u8>
    decreases value,
{
    if value == 0 {
        Seq::empty()
    } else {
        continued_groups(value / 128).push((0x80 + value % 128) as u8)
    }
}

/// `value` in base 128, most significant digit first: seven bits to a byte,
/// the top bit set on every byte but the last. Zero is the single byte
/// `0x00`.
pub open spec fn base128_encoding(value: nat) -> Seq<u8> {
    continued_groups(value / 128).push((value % 128) as u8)
}

/// The identifier octets for `tag`.
///
/// A number up to 30 shares one byte with the class: class in the top two
/// bits, number in the low six. A larger number follows in base 128 behind
/// a byte that holds the class and has its low six bits all set.
pub open spec fn tag_encoding(tag: Tag) -> Seq<u8> {
    if tag.number() <= 30 {
        seq![(tag.class_bits() + tag.number()) as u8]
    } else {
        seq![(tag.class_bits() + 0b0011_1111) as u8] + base128_encoding(tag.number())
    }
}

/// The number that `bytes` spell in base 128, most significant digit first:
/// each byte gives its low seven bits.
pub open spec fn base128_value(bytes: Seq<u8>) -> nat
    decreases bytes.len(),
{
    if bytes.len() == 0 {
        0
    } else {
        base128_value(bytes.drop_last()) * 128 + (bytes.last() % 128) as nat
    }
}

/// What is left of `value` once its low `skipped` base-128 digits are
/// dropped.
spec fn high_groups(value: int, skipped: nat) -> int
    decreases skipped,
{
    if skipped == 0 {
        value
    } else {
        high_groups(value, (skipped - 1) as nat) / 128
    }
}

/// Shifting right by seven bits at a time drops that many base-128 digits.
proof fn lemma_shift_drops_groups(value: u64, skipped: u64)
    requires
        skipped <= 9,
    ensures
        (value >> (7 * skipped)) as int == high_groups(value as int, skipped as nat),
    decreases skipped,
{
    if skipped == 0 {
        assert(value >> (7 * 0u64) == value) by (bit_vector);
    } else {
        let before = (skipped - 1) as u64;
        lemma_shift_drops_groups(value, before);
        assert((value >> (7 * before)) / 128 == value >> (7 * skipped)) by (bit_vector)
            requires
                1 <= skipped <= 9,
                before == skipped - 1,
        ;
    }
}

/// Nothing is left of a 64-bit value once ten base-128 digits are dropped.
proof fn lemma_ten_groups_suffice(value: u64)
    ensures
        high_groups(value as int, 10) == 0,
{
    reveal_with_fuel(high_groups, 11);
}

/// Counts the bytes of the base-128 form of `value`.
fn count_groups(value: u64) -> (count: u8)
    ensures
        1 <= count <= 10,
        count == base128_encoding(value as nat).len(),
        high_groups(value as int, count as nat) == 0,
        forall|skipped: nat| 1 <= skipped < count ==> high_groups(value as int, skipped) > 0,
{
    let mut count: u8 = 1;
    let mut rest: u64 = value >> 7;
    proof {
        assert(value >> 7 == value / 128) by (bit_vector);
        reveal_with_fuel(high_groups, 2);
    }
    while rest > 0
        invariant
            1 <= count <= 10,
            rest == high_groups(value as int, count as nat),
            base128_encoding(value as nat).len() == count + continued_groups(rest as nat).len(),
            forall|skipped: nat| 1 <= skipped < count ==> high_groups(value as int, skipped) > 0,
        decreases rest,
    {
        proof {
            if count == 10 {
                lemma_ten_groups_suffice(value);
            }
            assert(rest >> 7 == rest / 128) by (bit_vector);
        }
        count += 1;
        rest >>= 7;
    }
    count
}

/// Appends `value` to `buffer` in base 128, as the high-tag-number form has
/// it behind its first byte.
pub fn write_base128(buffer: &mut Vec<u8>, value: usize)
    requires
        has_room(old(buffer)@, base128_encoding(value as nat).len()),
    ensures
        final(buffer)@ == old(buffer)@ + base128_encoding(value as nat),
{
    let whole: u64 = value as u64;
    let byte_count: u8 = count_groups(whole);
    let mut left: u8 = byte_count;
    while left > 0
        invariant
            left <= byte_count <= 10,
            byte_count == base128_encoding(whole as nat).len(),
            has_room(old(buffer)@, byte_count as nat),
            forall|skipped: nat|
                1 <= skipped < byte_count ==> high_groups(whole as int, skipped) > 0,
            buffer@.len() == old(buffer)@.len() + (byte_count - left),
            left > 0 ==> buffer@ == old(buffer)@ + continued_groups(
                high_groups(whole as int, left as nat) as nat,
            ),
            left == 0 ==> buffer@ == old(buffer)@ + base128_encoding(whole as nat),
        decreases left,
    {
        left -= 1;
        let bit: u8 = if left > 0 {
            0b1000_0000
        } else {
            0
        };
        let shift: u64 = left as u64 * 7;
        let group: u64 = (whole >> shift) & 0b0111_1111;
        let byte: u8 = bit | group as u8;
        proof {
            lemma_shift_drops_groups(whole, left as u64);
            assert(group == (whole >> shift) % 128) by (bit_vector)
                requires
                    group == (whole >> shift) & 0b0111_1111,
            ;
            let low = group as u8;
            assert(byte == bit + low) by (bit_vector)
                requires
                    byte == bit | low,
                    bit == 0b1000_0000u8 || bit == 0u8,
                    low < 128,
            ;
        }
        put_u8(buffer, byte);
    }
}

/// Appends the identifier octets for `tag` to `buffer`.
pub fn write_tag(buffer: &mut Vec<u8>, tag: Tag)
    requires
        has_room(old(buffer)@, tag_encoding(tag).len()),
    ensures
        final(buffer)@ == old(buffer)@ + tag_encoding(tag),
{
    let first_bits: u8 = match tag {
        Tag::Universal(_) => 0b0000_0000,
        Tag::Application(_) => 0b0100_0000,
        Tag::ContextSpecific(_) => 0b1000_0000,
        Tag::Private(_) => 0b1100_0000,
    };
    let value: usize = match tag {
        Tag::Universal(number) => number,
        Tag::Application(number) => number,
        Tag::ContextSpecific(number) => number,
        Tag::Private(number) => number,
    };
    if value <= 30 {
        let low: u8 = value as u8;
        let byte: u8 = first_bits | low;
        assert(byte == first_bits + low) by (bit_vector)
            requires
                byte == first_bits | low,
                low <= 30,
                first_bits == 0u8 || first_bits == 0x40u8 || first_bits == 0x80u8 || first_bits
                    == 0xC0u8,
        ;
        put_u8(buffer, byte);
    } else {
        let byte: u8 = first_bits | 0b0011_1111;
        assert(byte == first_bits + 0b0011_1111) by (bit_vector)
            requires
                byte == first_bits | 0b0011_1111u8,
                first_bits == 0u8 || first_bits == 0x40u8 || first_bits == 0x80u8 || first_bits
                    == 0xC0u8,
        ;
        put_u8(buffer, byte);
        write_base128(buffer, value);
    }
}

/// The digits before the last: every byte has its top bit set, the first
/// holds a digit that is not zero, and together they spell the value.
pub proof fn lemma_continued_groups(value: nat)
    ensures
        forall|at: int|
            0 <= at < continued_groups(value).len() ==> #[trigger] continued_groups(value)[at]
                >= 0x80,
        value > 0 ==> continued_groups(value).len() >= 1 && continued_groups(value)[0] > 0x80,
        base128_value(continued_groups(value)) == value,
    decreases value,
{
    if value > 0 {
        let above = continued_groups(value / 128);
        let groups = continued_groups(value);
        lemma_continued_groups(value / 128);
        assert(groups.drop_last() =~= above);
    }
}

/// The base-128 form: the top bit is set on every byte but the last, no
/// digit is wasted on a leading zero, and reassembling the seven-bit digits
/// gives the value back.
pub proof fn lemma_base128_form(value: nat)
    ensures
        ({
            let bytes = base128_encoding(value);
            &&& bytes.len() >= 1
            &&& forall|at: int| 0 <= at < bytes.len() - 1 ==> #[trigger] bytes[at] & 0x80 == 0x80
            &&& bytes.last() & 0x80 == 0
            &&& bytes.len() > 1 ==> bytes[0] & 0x7F != 0
            &&& base128_value(bytes) == value
        }),
{
    let above = continued_groups(value / 128);
    let bytes = base128_encoding(value);
    lemma_continued_groups(value / 128);
    assert(bytes.drop_last() =~= above);
    assert(forall|byte: u8| byte >= 0x80 ==> #[trigger] (byte & 0x80) == 0x80) by (bit_vector);
    assert(forall|byte: u8| byte < 0x80 ==> #[trigger] (byte & 0x80) == 0) by (bit_vector);
    assert(forall|byte: u8| byte > 0x80 ==> #[trigger] (byte & 0x7F) != 0) by (bit_vector);
}

/// A tag number that fits a `usize` takes ten bytes at most in base 128.
pub proof fn lemma_base128_encoding_len(value: usize)
    ensures
        1 <= base128_encoding(value as nat).len() <= 10,
{
    reveal_with_fuel(continued_groups, 10);
}

/// The identifier octets are eleven bytes at most.
pub proof fn lemma_tag_encoding_len(tag: Tag)
    ensures
        tag.number() <= 30 ==> tag_encoding(tag).len() == 1,
        tag.number() >= 31 ==> tag_encoding(tag).len() == 1 + base128_encoding(tag.number()).len(),
        1 <= tag_encoding(tag).len() <= 11,
{
    match tag {
        Tag::Universal(number) => lemma_base128_encoding_len(number),
        Tag::Application(number) => lemma_base128_encoding_len(number),
        Tag::ContextSpecific(number) => lemma_base128_encoding_len(number),
        Tag::Private(number) => lemma_base128_encoding_len(number),
    }
}

/// The low form: a tag number up to 30 is encoded, for each class, as one
/// byte whose top two bits are the class and whose low six bits are the
/// number.
pub proof fn lemma_low_tag_form(tag: Tag)
    requires
        tag.number() <= 30,
    ensures
        tag_encoding(tag).len() == 1,
        tag_encoding(tag)[0] & 0b1100_0000 == tag.class_bits(),
        tag_encoding(tag)[0] & 0b0011_1111 == tag.number(),
{
    let class = tag.class_bits();
    let low = tag.number() as u8;
    let byte = tag_encoding(tag)[0];
    assert(byte & 0b1100_0000 == class && byte & 0b0011_1111 == low) by (bit_vector)
        requires
            byte == class + low,
            low <= 30,
            class == 0u8 || class == 0x40u8 || class == 0x80u8 || class == 0xC0u8,
    ;
}

/// The high-tag-number form: a tag number of 31 or more is encoded as a
/// byte whose top two bits are the class and whose low six bits are all
/// set, and then the number in base 128: the top bit set on every byte but
/// the last, and the seven-bit digits reassembling to the number.
pub proof fn lemma_high_tag_form(tag: Tag)
    requires
        tag.number() >= 31,
    ensures
        ({
            let bytes = tag_encoding(tag);
            let digits = bytes.subrange(1, bytes.len() as int);
            &&& bytes.len() >= 2
            &&& bytes[0] & 0b1100_0000 == tag.class_bits()
            &&& bytes[0] & 0b0011_1111 == 0b0011_1111
            &&& digits == base128_encoding(tag.number())
            &&& forall|at: int|
                0 <= at < digits.len() - 1 ==> #[trigger] digits[at] & 0x80 == 0x80
            &&& digits.last() & 0x80 == 0
            &&& base128_value(digits) == tag.number()
        }),
{
    let class = tag.class_bits();
    let bytes = tag_encoding(tag);
    let byte = bytes[0];
    lemma_base128_form(tag.number());
    assert(byte & 0b1100_0000 == class && byte & 0b0011_1111 == 0b0011_1111) by (bit_vector)
        requires
            byte == class + 0b0011_1111,
            class == 0u8 || class == 0x40u8 || class == 0x80u8 || class == 0xC0u8,
    ;
}

/// The encoder keeps no state: what a run leaves in a fresh buffer is
/// decided by the tag alone, so two runs on one tag leave the same bytes.
pub proof fn lemma_tag_encoder_is_pure(tag: Tag, first: Seq<u8>, second: Seq<u8>)
    requires
        first == Seq::<u8>::empty() + tag_encoding(tag),
        second == Seq::<u8>::empty() + tag_encoding(tag),
    ensures
        first == second,
        first == tag_encoding(tag),
{
}

} // verus!
