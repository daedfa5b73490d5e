//! Duration samples and how they are ordered.
//!
//! A duration is held as the 64 bits of an IEEE 754 double, so that the
//! engine can store and compare samples with integer arithmetic alone. The
//! caller converts between numbers and their bits.

use vstd::prelude::*;

verus! {

/// The bit that holds the sign.
pub const SIGN_BIT: u64 = 0x8000_0000_0000_0000;

/// The bits of positive infinity: every larger magnitude is not a number.
pub const INFINITY_BITS: u64 = 0x7FF0_0000_0000_0000;

/// Whether the sign bit is set.
pub open spec fn is_negative(bits: u64) -> bool {
    bits >= SIGN_BIT
}

/// The bits without the sign: exponent and fraction.
pub open spec fn magnitude(bits: u64) -> int {
    if bits >= SIGN_BIT {
        bits - SIGN_BIT
    } else {
        bits as int
    }
}

/// Not a number: the exponent is all ones and the fraction is not zero.
pub open spec fn is_nan(bits: u64) -> bool {
    magnitude(bits) > INFINITY_BITS
}

/// The place of a number among all numbers: magnitudes grow with the value,
/// and a negative number lies as far below zero as its magnitude says. Both
/// zeros have rank 0.
pub open spec fn rank(bits: u64) -> int {
    if is_negative(bits) {
        -magnitude(bits)
    } else {
        magnitude(bits)
    }
}

/// `a <= b` as numbers: false as soon as one of them is not a number.
pub open spec fn le_spec(a: u64, b: u64) -> bool {
    !is_nan(a) && !is_nan(b) && rank(a) <= rank(b)
}

/// Whether the sample `value` is less than or equal to `bound`.
pub fn sample_le(value: u64, bound: u64) -> (le: bool)
    ensures
        le == le_spec(value, bound),
{
    let value_negative = value >= SIGN_BIT;
    let bound_negative = bound >= SIGN_BIT;
    let value_magnitude: u64 = if value_negative { value - SIGN_BIT } else { value };
    let bound_magnitude: u64 = if bound_negative { bound - SIGN_BIT } else { bound };
    if value_magnitude > INFINITY_BITS || bound_magnitude > INFINITY_BITS {
        false
    } else if value_negative && bound_negative {
        bound_magnitude <= value_magnitude
    } else if value_negative {
        true
    } else if bound_negative {
        value_magnitude == 0 && bound_magnitude == 0
    } else {
        value_magnitude <= bound_magnitude
    }
}

/// Whether the bits are those of a number.
pub fn is_number(bits: u64) -> (number: bool)
    ensures
        number == !is_nan(bits),
{
    let m: u64 = if bits >= SIGN_BIT { bits - SIGN_BIT } else { bits };
    m <= INFINITY_BITS
}

/// The order of numbers is transitive.
pub proof fn lemma_le_transitive(a: u64, b: u64, c: u64)
    requires
        le_spec(a, b),
        le_spec(b, c),
    ensures
        le_spec(a, c),
{
}

} // verus!
