//! Ordering of similarity scores given as IEEE-754 single-precision bit patterns.

use vstd::prelude::*;

verus! {

/// The sign bit of a single-precision bit pattern.
pub const SIGN_BIT: u32 = 0x8000_0000;

/// The exponent field of a single-precision bit pattern.
pub const EXPONENT_MASK: u32 = 0x7f80_0000;

/// The mantissa field of a single-precision bit pattern.
pub const MANTISSA_MASK: u32 = 0x007f_ffff;

/// The bit pattern of `0.0`.
pub const ZERO_BITS: u32 = 0;

/// Whether the bit pattern encodes a NaN: all exponent bits set and a
/// non-zero mantissa.
pub open spec fn is_nan_bits(b: u32) -> bool {
    b & EXPONENT_MASK == EXPONENT_MASK && b & MANTISSA_MASK != 0
}

/// The position of a non-NaN value on the number line, as an unsigned key:
/// for two non-NaN patterns `a` and `b`, the value of `a` is at most the
/// value of `b` exactly when `order_key(a) <= order_key(b)`. Negative values
/// have their bits inverted, non-negative ones get the sign bit set, and the
/// two zeros share one key.
pub open spec fn order_key(b: u32) -> u32 {
    if b == SIGN_BIT {
        SIGN_BIT
    } else if b & SIGN_BIT != 0 {
        !b
    } else {
        b | SIGN_BIT
    }
}

/// Whether a score clears a minimum: both are numbers and the score is at
/// least the minimum.
pub open spec fn clears(score: u32, min: u32) -> bool {
    !is_nan_bits(score) && !is_nan_bits(min) && order_key(score) >= order_key(min)
}

/// Whether the bit pattern encodes a NaN.
pub fn is_nan(b: u32) -> (r: bool)
    ensures
        r == is_nan_bits(b),
{
    b & EXPONENT_MASK == EXPONENT_MASK && b & MANTISSA_MASK != 0
}

/// The ordering key of a score (see `order_key`).
pub fn score_key(b: u32) -> (r: u32)
    ensures
        r == order_key(b),
{
    if b == SIGN_BIT {
        SIGN_BIT
    } else if b & SIGN_BIT != 0 {
        !b
    } else {
        b | SIGN_BIT
    }
}

/// Whether `score` is a number at least as large as the number `min`.
pub fn clears_threshold(score: u32, min: u32) -> (r: bool)
    ensures
        r == clears(score, min),
{
    !is_nan(score) && !is_nan(min) && score_key(score) >= score_key(min)
}

} // verus!
