//! Numbers of the language: IEEE 754 binary64 values, held as their bit
//! patterns. What can be said of a bit pattern in a few lines stands here:
//! the order, equality and negation. Arithmetic and the reading of
//! literals are left to the caller of the interpreter.

use vstd::prelude::*;

verus! {

/// The sign bit of a binary64 bit pattern.
pub const SIGN: u64 = 0x8000_0000_0000_0000;

/// The bits of a binary64 bit pattern below its sign.
pub const MAGNITUDE: u64 = 0x7fff_ffff_ffff_ffff;

/// The magnitude of an infinity: every exponent bit set, no fraction bit.
pub const INFINITE: u64 = 0x7ff0_0000_0000_0000;

/// Whether `bits` is a NaN: its magnitude is above that of an infinity.
pub open spec fn is_nan(bits: u64) -> bool {
    (bits & MAGNITUDE) > INFINITE
}

/// The place of a number that is no NaN in the order of the numbers: its
/// magnitude, with the sign of the number. Both zeros have the place 0.
pub open spec fn place(bits: u64) -> int {
    if bits & SIGN == 0 {
        (bits & MAGNITUDE) as int
    } else {
        -((bits & MAGNITUDE) as int)
    }
}

/// `lhs == rhs` on binary64: neither is a NaN and both have one place.
pub open spec fn number_eq(lhs: u64, rhs: u64) -> bool {
    !is_nan(lhs) && !is_nan(rhs) && place(lhs) == place(rhs)
}

/// `lhs < rhs` on binary64.
pub open spec fn number_lt(lhs: u64, rhs: u64) -> bool {
    !is_nan(lhs) && !is_nan(rhs) && place(lhs) < place(rhs)
}

/// `lhs <= rhs` on binary64.
pub open spec fn number_le(lhs: u64, rhs: u64) -> bool {
    !is_nan(lhs) && !is_nan(rhs) && place(lhs) <= place(rhs)
}

/// `-bits` on binary64: the same magnitude with the other sign.
pub open spec fn negated(bits: u64) -> u64 {
    bits ^ SIGN
}

/// Whether `bits` is a NaN.
pub fn nan(bits: u64) -> (out: bool)
    ensures
        out == is_nan(bits),
{
    (bits & MAGNITUDE) > INFINITE
}

/// The place of `bits` in the order of the numbers.
pub fn place_of(bits: u64) -> (out: i64)
    ensures
        out == place(bits),
{
    let magnitude: u64 = bits & MAGNITUDE;
    assert(bits & 0x7fff_ffff_ffff_ffff <= 0x7fff_ffff_ffff_ffff) by (bit_vector);
    if bits & SIGN == 0 {
        magnitude as i64
    } else {
        -(magnitude as i64)
    }
}

/// Whether `lhs == rhs` as numbers.
pub fn equal(lhs: u64, rhs: u64) -> (out: bool)
    ensures
        out == number_eq(lhs, rhs),
{
    !nan(lhs) && !nan(rhs) && place_of(lhs) == place_of(rhs)
}

/// Whether `lhs < rhs` as numbers.
pub fn less(lhs: u64, rhs: u64) -> (out: bool)
    ensures
        out == number_lt(lhs, rhs),
{
    !nan(lhs) && !nan(rhs) && place_of(lhs) < place_of(rhs)
}

/// Whether `lhs <= rhs` as numbers.
pub fn at_most(lhs: u64, rhs: u64) -> (out: bool)
    ensures
        out == number_le(lhs, rhs),
{
    !nan(lhs) && !nan(rhs) && place_of(lhs) <= place_of(rhs)
}

/// `-bits` as a number.
pub fn negate(bits: u64) -> (out: u64)
    ensures
        out == negated(bits),
{
    bits ^ SIGN
}

} // verus!
