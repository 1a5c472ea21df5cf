//! Big-endian byte strings as mathematics: the bytes of a number, the number
//! of a byte string, and how the two relate.

use vstd::arithmetic::div_mod::{lemma_fundamental_div_mod, lemma_fundamental_div_mod_converse};
use vstd::arithmetic::power::{lemma_pow_positive, pow};
use vstd::prelude::*;

verus! {

/// The low `width` bytes of `value`, most significant first.
///
/// Division and remainder are Euclidean, so for a negative `value` these are
/// the bytes of its two's complement form.
pub open spec fn big_endian(value: int, width: nat) -> Seq<u8>
    decreases width,
{
    if width == 0 {
        Seq::empty()
    } else {
        big_endian(value / 256, (width - 1) as nat).push((value % 256) as u8)
    }
}

/// The number that `bytes` spell, most significant byte first.
pub open spec fn big_endian_value(bytes: Seq<u8>) -> nat
    decreases bytes.len(),
{
    if bytes.len() == 0 {
        0
    } else {
        big_endian_value(bytes.drop_last()) * 256 + bytes.last() as nat
    }
}

/// `big_endian(value, width)` has `width` bytes.
pub proof fn lemma_big_endian_len(value: int, width: nat)
    ensures
        big_endian(value, width).len() == width,
    decreases width,
{
    if width > 0 {
        lemma_big_endian_len(value / 256, (width - 1) as nat);
    }
}

/// Taking a remainder by `256 * modulus` and then splitting off the low
/// byte is splitting off the low byte and then taking the remainder of the
/// rest by `modulus`.
proof fn lemma_split_low_byte(value: int, modulus: int)
    requires
        modulus > 0,
    ensures
        (value % (256 * modulus)) % 256 == value % 256,
        (value % (256 * modulus)) / 256 == (value / 256) % modulus,
{
    let whole = 256 * modulus;
    let quotient = value / whole;
    let rest = value % whole;
    let high = rest / 256;
    lemma_fundamental_div_mod(value, whole);
    assert(0 <= rest < whole) by (nonlinear_arith)
        requires
            whole > 0,
            rest == value % whole,
    ;
    assert(whole * quotient == 256 * (modulus * quotient)) by (nonlinear_arith)
        requires
            whole == 256 * modulus,
    ;
    assert(value == 256 * (modulus * quotient + high) + rest % 256);
    lemma_fundamental_div_mod_converse(value / 256, modulus, quotient, high);
}

/// The low `width` bytes of a value depend on its remainder by
/// `256^width` alone.
pub proof fn lemma_big_endian_of_remainder(value: int, width: nat)
    ensures
        pow(256, width) > 0,
        big_endian(value % pow(256, width), width) == big_endian(value, width),
    decreases width,
{
    reveal(pow);
    if width > 0 {
        let below = (width - 1) as nat;
        lemma_pow_positive(256, below);
        lemma_split_low_byte(value, pow(256, below));
        lemma_big_endian_of_remainder(value / 256, below);
    }
}

/// Reading back the low `width` bytes of a value gives its remainder by
/// `256^width`: the value itself where it is at least zero and below
/// `256^width`.
pub proof fn lemma_big_endian_round_trip(value: int, width: nat)
    ensures
        pow(256, width) > 0,
        big_endian_value(big_endian(value, width)) == value % pow(256, width),
    decreases width,
{
    reveal(pow);
    if width > 0 {
        let below = (width - 1) as nat;
        let bytes = big_endian(value, width);
        lemma_big_endian_round_trip(value / 256, below);
        assert(bytes.drop_last() =~= big_endian(value / 256, below));
        lemma_split_low_byte(value, pow(256, below));
    }
}

} // verus!
