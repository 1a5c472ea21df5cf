//! The integer encoder: a fixed-width big-endian integer whose width is
//! chosen from a declared range of values, never from the value itself.

use crate::endian::{
    big_endian, big_endian_value, lemma_big_endian_len, lemma_big_endian_of_remainder,
    lemma_big_endian_round_trip,
};
use crate::sink::{has_room, put_u16, put_u32, put_u64, put_u8};
use vstd::arithmetic::power::pow;
use vstd::prelude::*;

verus! {

/// One end of a declared range.
#[derive(Clone, Copy, Debug, PartialEq, Eq)]
pub enum Bound {
    /// The range reaches this value.
    Included(i128),
    /// The range stops short of this value.
    Excluded(i128),
    /// The range has no limit on this side.
    Unbounded,
}

/// A declared range of integers: where it starts and where it ends.
///
/// The range is never checked against the value that is encoded; it only
/// selects the width.
#[derive(Clone, Copy, Debug, PartialEq, Eq)]
pub struct IntRange {
    pub start: Bound,
    pub end: Bound,
}

impl IntRange {
    /// The range from `start` to `end`, both included.
    pub fn closed(start: i128, end: i128) -> (bounds: IntRange)
        ensures
            bounds == (IntRange { start: Bound::Included(start), end: Bound::Included(end) }),
    {
        IntRange { start: Bound::Included(start), end: Bound::Included(end) }
    }

    /// The range from `start`, included, to `end`, excluded.
    pub fn half_open(start: i128, end: i128) -> (bounds: IntRange)
        ensures
            bounds == (IntRange { start: Bound::Included(start), end: Bound::Excluded(end) }),
    {
        IntRange { start: Bound::Included(start), end: Bound::Excluded(end) }
    }
}

/// The layouts an integer can be written in: one, two, four or eight bytes,
/// read as unsigned or as two's complement.
#[derive(Clone, Copy, Debug, PartialEq, Eq)]
pub enum Width {
    U8,
    U16,
    U32,
    U64,
    I8,
    I16,
    I32,
    I64,
}

/// Why no width could be chosen for a range.
#[derive(Clone, Copy, Debug, PartialEq, Eq)]
pub enum RangeError {
    /// The range lacks a limit on one side or on both.
    Unbounded,
    /// Both limits are there, but no width of up to eight bytes holds them.
    TooWide,
}

impl Width {
    /// How many bytes a value takes in this layout.
    pub open spec fn byte_count(self) -> nat {
        match self {
            Width::U8 | Width::I8 => 1,
            Width::U16 | Width::I16 => 2,
            Width::U32 | Width::I32 => 4,
            Width::U64 | Width::I64 => 8,
        }
    }

    /// Whether the bytes are read as two's complement.
    pub open spec fn is_signed(self) -> bool {
        match self {
            Width::I8 | Width::I16 | Width::I32 | Width::I64 => true,
            _ => false,
        }
    }

    /// The least value this layout represents.
    pub open spec fn least(self) -> int {
        match self {
            Width::I8 => i8::MIN as int,
            Width::I16 => i16::MIN as int,
            Width::I32 => i32::MIN as int,
            Width::I64 => i64::MIN as int,
            _ => 0,
        }
    }

    /// The greatest value this layout represents.
    pub open spec fn greatest(self) -> int {
        match self {
            Width::U8 => u8::MAX as int,
            Width::U16 => u16::MAX as int,
            Width::U32 => u32::MAX as int,
            Width::U64 => u64::MAX as int,
            Width::I8 => i8::MAX as int,
            Width::I16 => i16::MAX as int,
            Width::I32 => i32::MAX as int,
            Width::I64 => i64::MAX as int,
        }
    }

    /// Whether `value` is represented without loss in this layout.
    pub open spec fn holds(self, value: int) -> bool {
        self.least() <= value <= self.greatest()
    }

    /// How many bytes a value takes in this layout.
    pub fn bytes(self) -> (count: usize)
        ensures
            count == self.byte_count(),
    {
        match self {
            Width::U8 | Width::I8 => 1,
            Width::U16 | Width::I16 => 2,
            Width::U32 | Width::I32 => 4,
            Width::U64 | Width::I64 => 8,
        }
    }

    /// The value that `bytes` stand for in this layout: the number they
    /// spell, most significant byte first, taken as two's complement where
    /// the layout is signed.
    pub open spec fn read(self, bytes: Seq<u8>) -> int {
        let number = big_endian_value(bytes) as int;
        if self.is_signed() && number > self.greatest() {
            number - pow(256, self.byte_count())
        } else {
            number
        }
    }
}

/// The inclusive limit that a bound stands for: an exclusive bound at X is
/// an inclusive one at X - 1.
///
/// The same rule serves both ends of a range. For the end it names the same
/// range. For the start it names a range that begins two lower than the
/// exclusive bound asks for, so nothing of the declared range is lost.
pub open spec fn inclusive(bound: Bound) -> Option<int> {
    match bound {
        Bound::Included(value) => Some(value as int),
        Bound::Excluded(value) => Some(value - 1),
        Bound::Unbounded => None,
    }
}

/// The width for a range that starts at zero or above: its end alone
/// decides, and without an end nothing can be chosen.
pub open spec fn unsigned_width(end: Option<int>) -> Result<Width, RangeError> {
    match end {
        None => Err(RangeError::Unbounded),
        Some(end) => if end <= u8::MAX {
            Ok(Width::U8)
        } else if end <= u16::MAX {
            Ok(Width::U16)
        } else if end <= u32::MAX {
            Ok(Width::U32)
        } else if end <= u64::MAX {
            Ok(Width::U64)
        } else {
            Err(RangeError::TooWide)
        },
    }
}

/// The width for a range that starts below zero or has no start: the
/// narrowest two's complement layout whose limits enclose both ends. No
/// layout encloses a side that has no limit.
pub open spec fn signed_width(start: Option<int>, end: Option<int>) -> Result<Width, RangeError> {
    match (start, end) {
        (Some(start), Some(end)) => if i8::MIN <= start && end <= i8::MAX {
            Ok(Width::I8)
        } else if i16::MIN <= start && end <= i16::MAX {
            Ok(Width::I16)
        } else if i32::MIN <= start && end <= i32::MAX {
            Ok(Width::I32)
        } else if i64::MIN <= start && end <= i64::MAX {
            Ok(Width::I64)
        } else {
            Err(RangeError::TooWide)
        },
        _ => Err(RangeError::Unbounded),
    }
}

/// The width that a declared range selects.
///
/// Both ends are first taken as inclusive limits. A range that starts at
/// zero or above is unsigned. A range that starts below zero, or has no
/// start, is signed.
pub open spec fn width_of(bounds: IntRange) -> Result<Width, RangeError> {
    match inclusive(bounds.start) {
        Some(start) if start >= 0 => unsigned_width(inclusive(bounds.end)),
        start => signed_width(start, inclusive(bounds.end)),
    }
}

/// What the integer encoder appends for `value` under `bounds`: the low
/// bytes of the value, most significant first, as many as the width that the
/// range selects; or the reason why the range selects none.
pub open spec fn int_encoding(value: int, bounds: IntRange) -> Result<Seq<u8>, RangeError> {
    match width_of(bounds) {
        Ok(width) => Ok(big_endian(value, width.byte_count())),
        Err(error) => Err(error),
    }
}

/// The inclusive limit that `bounds` stands for, or `None` where it is
/// unbounded.
///
/// An exclusive bound at `i128::MIN` stands for a limit one below what
/// `i128` holds; for it the result is `i128::MIN`.
pub fn included(bounds: Bound) -> (limit: Option<i128>)
    ensures
        match inclusive(bounds) {
            Some(exact) => limit == Some(
                if exact < i128::MIN {
                    i128::MIN
                } else {
                    exact as i128
                },
            ),
            None => limit == None::<i128>,
        },
{
    match bounds {
        Bound::Included(value) => Some(value),
        Bound::Excluded(value) => if value > i128::MIN {
            Some(value - 1)
        } else {
            Some(value)
        },
        Bound::Unbounded => None,
    }
}

/// Chooses the width for a declared range.
pub fn select_width(bounds: IntRange) -> (chosen: Result<Width, RangeError>)
    ensures
        chosen == width_of(bounds),
{
    match included(bounds.start) {
        Some(start) if start >= 0 => match included(bounds.end) {
            Some(end) if end <= u8::MAX as i128 => Ok(Width::U8),
            Some(end) if end <= u16::MAX as i128 => Ok(Width::U16),
            Some(end) if end <= u32::MAX as i128 => Ok(Width::U32),
            Some(end) if end <= u64::MAX as i128 => Ok(Width::U64),
            Some(_) => Err(RangeError::TooWide),
            None => Err(RangeError::Unbounded),
        },
        Some(start) => match included(bounds.end) {
            Some(end) if i8::MIN as i128 <= start && end <= i8::MAX as i128 => Ok(Width::I8),
            Some(end) if i16::MIN as i128 <= start && end <= i16::MAX as i128 => Ok(Width::I16),
            Some(end) if i32::MIN as i128 <= start && end <= i32::MAX as i128 => Ok(Width::I32),
            Some(end) if i64::MIN as i128 <= start && end <= i64::MAX as i128 => Ok(Width::I64),
            Some(_) => Err(RangeError::TooWide),
            None => Err(RangeError::Unbounded),
        },
        None => Err(RangeError::Unbounded),
    }
}

/// Cutting a value down to an unsigned type of `n` bytes leaves its
/// remainder by `256^n`.
proof fn lemma_low_bytes(value: i64)
    ensures
        (value as u8) as int == (value as int) % 0x100,
        (value as u16) as int == (value as int) % 0x1_0000,
        (value as u32) as int == (value as int) % 0x1_0000_0000,
        (value as u64) as int == (value as int) % 0x1_0000_0000_0000_0000,
{
    assert((value as u8) as int == (value as int) % 0x100) by (bit_vector);
    assert((value as u16) as int == (value as int) % 0x1_0000) by (bit_vector);
    assert((value as u32) as int == (value as int) % 0x1_0000_0000) by (bit_vector);
    assert((value as u64) as int == (value as int) % 0x1_0000_0000_0000_0000) by (bit_vector);
}

/// The powers of 256 that bound the four widths.
proof fn lemma_byte_moduli()
    ensures
        pow(256, 1) == 0x100,
        pow(256, 2) == 0x1_0000,
        pow(256, 4) == 0x1_0000_0000,
        pow(256, 8) == 0x1_0000_0000_0000_0000,
{
    reveal_with_fuel(pow, 9);
}

/// Appends `value` to `buffer` in the layout `width`: the low bytes of its
/// two's complement form, most significant first.
///
/// A value that `width` does not hold is cut down to its low bytes.
pub fn write_int(buffer: &mut Vec<u8>, value: isize, width: Width)
    requires
        has_room(old(buffer)@, width.byte_count()),
    ensures
        final(buffer)@ == old(buffer)@ + big_endian(value as int, width.byte_count()),
{
    let wide: i64 = value as i64;
    proof {
        lemma_low_bytes(wide);
        lemma_byte_moduli();
        lemma_big_endian_of_remainder(value as int, width.byte_count());
    }
    match width {
        Width::U8 | Width::I8 => {
            proof {
                reveal_with_fuel(big_endian, 2);
            }
            put_u8(buffer, #[verifier::truncate] (wide as u8));
        },
        Width::U16 | Width::I16 => {
            put_u16(buffer, #[verifier::truncate] (wide as u16));
        },
        Width::U32 | Width::I32 => {
            put_u32(buffer, #[verifier::truncate] (wide as u32));
        },
        Width::U64 | Width::I64 => {
            put_u64(buffer, #[verifier::truncate] (wide as u64));
        },
    }
}

/// Appends `value` to `buffer` in the width that `bounds` selects.
///
/// The number of bytes written depends on `bounds` alone. Where `bounds`
/// selects no width, nothing is written and the error says why.
pub fn encode_int(buffer: &mut Vec<u8>, value: isize, bounds: IntRange) -> (written: Result<
    (),
    RangeError,
>)
    requires
        width_of(bounds) matches Ok(width) ==> has_room(old(buffer)@, width.byte_count()),
    ensures
        match int_encoding(value as int, bounds) {
            Ok(bytes) => written == Ok::<(), RangeError>(()) && final(buffer)@ == old(buffer)@
                + bytes,
            Err(error) => written == Err::<(), RangeError>(error) && final(buffer)@ == old(
                buffer,
            )@,
        },
{
    match select_width(bounds) {
        Ok(width) => {
            write_int(buffer, value, width);
            Ok(())
        },
        Err(error) => Err(error),
    }
}

/// When each error comes: `Unbounded` exactly where a side of the range has
/// no limit, and `TooWide` exactly where both have one and the end of an
/// unsigned range, or either end of a signed one, lies beyond eight bytes.
pub proof fn lemma_range_errors(bounds: IntRange)
    ensures
        width_of(bounds) == Err::<Width, RangeError>(RangeError::Unbounded) <==> (bounds.start
            is Unbounded || bounds.end is Unbounded),
        width_of(bounds) == Err::<Width, RangeError>(RangeError::TooWide) <==> (inclusive(
            bounds.start,
        ) matches Some(start) && inclusive(bounds.end) matches Some(end) && if start >= 0 {
            end > u64::MAX
        } else {
            start < i64::MIN || end > i64::MAX
        }),
{
}

/// The width belongs to the range: whatever the value, the encoder
/// appends as many bytes as the selected width has.
pub proof fn lemma_int_encoding_len(value: int, bounds: IntRange)
    ensures
        match width_of(bounds) {
            Ok(width) => int_encoding(value, bounds) matches Ok(bytes) && bytes.len()
                == width.byte_count(),
            Err(error) => int_encoding(value, bounds) == Err::<Seq<u8>, RangeError>(error),
        },
{
    if let Ok(width) = width_of(bounds) {
        lemma_big_endian_len(value, width.byte_count());
    }
}

/// The selected width holds every value of the declared range.
pub proof fn lemma_width_holds_range(bounds: IntRange, value: int)
    requires
        width_of(bounds) is Ok,
        inclusive(bounds.start) matches Some(start) && start <= value,
        inclusive(bounds.end) matches Some(end) && value <= end,
    ensures
        width_of(bounds) matches Ok(width) && width.holds(value),
{
}

/// A value that the width holds is read back from its bytes without loss.
pub proof fn lemma_held_value_reads_back(value: int, width: Width)
    requires
        width.holds(value),
    ensures
        width.read(big_endian(value, width.byte_count())) == value,
{
    lemma_byte_moduli();
    lemma_big_endian_round_trip(value, width.byte_count());
}

/// The encoder keeps no state: what a run reports and what it leaves in a
/// fresh buffer are decided by the value and the range alone, so two runs on
/// the same two report the same and leave the same bytes.
pub proof fn lemma_int_encoder_is_pure(
    value: isize,
    bounds: IntRange,
    first_written: Result<(), RangeError>,
    first: Seq<u8>,
    second_written: Result<(), RangeError>,
    second: Seq<u8>,
)
    requires
        match int_encoding(value as int, bounds) {
            Ok(bytes) => first_written == Ok::<(), RangeError>(()) && first == Seq::<u8>::empty()
                + bytes,
            Err(error) => first_written == Err::<(), RangeError>(error) && first == Seq::<
                u8,
            >::empty(),
        },
        match int_encoding(value as int, bounds) {
            Ok(bytes) => second_written == Ok::<(), RangeError>(()) && second == Seq::<
                u8,
            >::empty() + bytes,
            Err(error) => second_written == Err::<(), RangeError>(error) && second == Seq::<
                u8,
            >::empty(),
        },
    ensures
        first_written == second_written,
        first == second,
{
}

} // verus!
