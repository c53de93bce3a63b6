//! Comparison of binary64 values given by their bit patterns.
use vstd::prelude::*;

verus! {

/// The sign bit of a binary64 pattern.
pub const SIGN_BIT: u64 = 0x8000_0000_0000_0000;

/// The pattern of positive infinity: every pattern whose magnitude lies above
/// it is a NaN.
pub const INFINITY_BITS: u64 = 0x7FF0_0000_0000_0000;

/// The pattern with the sign bit cleared.
pub open spec fn spec_magnitude(bits: u64) -> u64 {
    if bits >= SIGN_BIT {
        (bits - SIGN_BIT) as u64
    } else {
        bits
    }
}

/// Whether the sign bit is set.
pub open spec fn spec_is_negative(bits: u64) -> bool {
    bits >= SIGN_BIT
}

/// Whether the pattern encodes a NaN.
pub open spec fn spec_is_nan(bits: u64) -> bool {
    spec_magnitude(bits) > INFINITY_BITS
}

/// Numeric equality: false whenever a NaN takes part, and the two zeros are
/// equal to each other.
pub open spec fn spec_equal(a: u64, b: u64) -> bool {
    &&& !spec_is_nan(a)
    &&& !spec_is_nan(b)
    &&& (a == b || (spec_magnitude(a) == 0 && spec_magnitude(b) == 0))
}

/// Numeric `a > b`: false whenever a NaN takes part. Among non-negative
/// values the patterns order as the numbers do, among negative values the
/// other way round, and neither zero is greater than the other.
pub open spec fn spec_greater(a: u64, b: u64) -> bool {
    &&& !spec_is_nan(a)
    &&& !spec_is_nan(b)
    &&& if spec_is_negative(a) {
        spec_is_negative(b) && spec_magnitude(a) < spec_magnitude(b)
    } else if spec_is_negative(b) {
        spec_magnitude(a) > 0 || spec_magnitude(b) > 0
    } else {
        a > b
    }
}

pub fn magnitude(bits: u64) -> (r: u64)
    ensures
        r == spec_magnitude(bits),
{
    if bits >= SIGN_BIT {
        bits - SIGN_BIT
    } else {
        bits
    }
}

pub fn is_nan(bits: u64) -> (r: bool)
    ensures
        r == spec_is_nan(bits),
{
    magnitude(bits) > INFINITY_BITS
}

pub fn equal(a: u64, b: u64) -> (r: bool)
    ensures
        r == spec_equal(a, b),
{
    !is_nan(a) && !is_nan(b) && (a == b || (magnitude(a) == 0 && magnitude(b) == 0))
}

pub fn greater(a: u64, b: u64) -> (r: bool)
    ensures
        r == spec_greater(a, b),
{
    if is_nan(a) || is_nan(b) {
        false
    } else if a >= SIGN_BIT {
        b >= SIGN_BIT && magnitude(a) < magnitude(b)
    } else if b >= SIGN_BIT {
        magnitude(a) > 0 || magnitude(b) > 0
    } else {
        a > b
    }
}

/// Nothing is greater than itself, and of two values at most one is greater
/// than the other; equal values are never ordered.
pub proof fn lemma_greater_is_strict(a: u64, b: u64)
    ensures
        !spec_greater(a, a),
        spec_greater(a, b) ==> !spec_greater(b, a),
        spec_equal(a, b) ==> !spec_greater(a, b) && !spec_greater(b, a),
        spec_equal(a, b) == spec_equal(b, a),
{
}

} // verus!
