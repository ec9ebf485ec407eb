//! Binary64 numbers as bit patterns: sign, order and equality, read off the bits.
//!
//! The bits of a binary64 number are a sign bit and a magnitude of 63 bits. Two numbers
//! that are not NaN are ordered as their signed magnitudes are, and both zeros are equal.
//! Sums, products and the like are not computed here.
use vstd::prelude::*;

verus! {

/// The sign bit, as a number.
pub const SIGN: u64 = 0x8000_0000_0000_0000;

/// The bits of positive infinity: every larger magnitude is a NaN.
pub const INFINITY: u64 = 0x7ff0_0000_0000_0000;

pub open spec fn negative(bits: u64) -> bool {
    bits >= SIGN
}

/// The bits without the sign bit.
pub open spec fn magnitude(bits: u64) -> int {
    if bits >= SIGN {
        bits - SIGN
    } else {
        bits as int
    }
}

pub open spec fn nan(bits: u64) -> bool {
    magnitude(bits) > INFINITY
}

/// The place of a number that is not a NaN on the number line of signed magnitudes.
pub open spec fn rank(bits: u64) -> int {
    if negative(bits) {
        -magnitude(bits)
    } else {
        magnitude(bits)
    }
}

/// Equality of two binary64 numbers: a NaN equals nothing, and the two zeros are equal.
pub open spec fn equal(a: u64, b: u64) -> bool {
    !nan(a) && !nan(b) && rank(a) == rank(b)
}

/// Strict order of two binary64 numbers: a NaN is neither before nor after anything.
pub open spec fn less(a: u64, b: u64) -> bool {
    !nan(a) && !nan(b) && rank(a) < rank(b)
}

pub open spec fn less_or_equal(a: u64, b: u64) -> bool {
    !nan(a) && !nan(b) && rank(a) <= rank(b)
}

/// The number with the opposite sign.
pub open spec fn negated(bits: u64) -> u64 {
    if bits >= SIGN {
        (bits - SIGN) as u64
    } else {
        (bits + SIGN) as u64
    }
}

pub fn is_nan(bits: u64) -> (yes: bool)
    ensures
        yes == nan(bits),
{
    if bits >= SIGN {
        bits - SIGN > INFINITY
    } else {
        bits > INFINITY
    }
}

/// Whether `a` is below `b`, or equal to it when `or_equal` is set.
pub fn in_order(a: u64, b: u64, or_equal: bool) -> (yes: bool)
    ensures
        yes == if or_equal {
            less_or_equal(a, b)
        } else {
            less(a, b)
        },
{
    if is_nan(a) || is_nan(b) {
        return false;
    }
    if a >= SIGN {
        if b >= SIGN {
            // both negative: the larger magnitude is the smaller number
            if or_equal {
                a - SIGN >= b - SIGN
            } else {
                a - SIGN > b - SIGN
            }
        } else {
            // a is negative or minus zero, b is positive or zero
            if or_equal {
                true
            } else {
                a - SIGN > 0 || b > 0
            }
        }
    } else {
        if b >= SIGN {
            if or_equal {
                a == 0 && b - SIGN == 0
            } else {
                false
            }
        } else {
            if or_equal {
                a <= b
            } else {
                a < b
            }
        }
    }
}

pub fn is_equal(a: u64, b: u64) -> (yes: bool)
    ensures
        yes == equal(a, b),
{
    if is_nan(a) || is_nan(b) {
        return false;
    }
    let zero_a = a == 0 || a == SIGN;
    let zero_b = b == 0 || b == SIGN;
    a == b || (zero_a && zero_b)
}

pub fn negate(bits: u64) -> (opposite: u64)
    ensures
        opposite == negated(bits),
{
    if bits >= SIGN {
        bits - SIGN
    } else {
        bits + SIGN
    }
}

} // verus!
