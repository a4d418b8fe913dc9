//! Ordering of IEEE 754 single-precision values, read from their bit patterns.
//!
//! Network outputs reach this crate as 32-bit patterns, one per floating-point score.
//! The functions here compare such patterns exactly as the numbers they encode
//! compare, using integer arithmetic only.

use vstd::prelude::*;

verus! {

/// The bit that carries the sign.
pub const SIGN_BIT: u32 = 0x8000_0000;

/// The pattern of positive infinity; every larger magnitude encodes a NaN.
pub const INFINITY: u32 = 0x7f80_0000;

/// The pattern with the sign cleared.
pub open spec fn magnitude(bits: u32) -> int {
    if bits >= SIGN_BIT {
        bits - SIGN_BIT
    } else {
        bits as int
    }
}

/// Whether the sign bit is set.
pub open spec fn is_negative(bits: u32) -> bool {
    bits >= SIGN_BIT
}

/// Whether the pattern encodes a NaN.
pub open spec fn is_nan(bits: u32) -> bool {
    magnitude(bits) > INFINITY
}

/// An integer that orders the non-NaN patterns as their values are ordered.
/// Both zeros map to 0.
pub open spec fn numeric_key(bits: u32) -> int {
    if is_negative(bits) {
        -magnitude(bits)
    } else {
        magnitude(bits)
    }
}

/// The comparison `value > limit` of the encoded numbers: false whenever
/// either side is a NaN.
pub open spec fn greater(value: u32, limit: u32) -> bool {
    !is_nan(value) && !is_nan(limit) && numeric_key(value) > numeric_key(limit)
}

/// An integer that orders all patterns by the IEEE 754 total order:
/// negative NaNs, negative numbers, -0, +0, positive numbers, positive NaNs.
pub open spec fn total_key(bits: u32) -> int {
    if is_negative(bits) {
        -magnitude(bits) - 1
    } else {
        magnitude(bits)
    }
}

/// Computes [`greater`].
pub fn exceeds(value: u32, limit: u32) -> (r: bool)
    ensures
        r == greater(value, limit),
{
    let value_mag: u32 = if value >= SIGN_BIT { value - SIGN_BIT } else { value };
    let limit_mag: u32 = if limit >= SIGN_BIT { limit - SIGN_BIT } else { limit };
    if value_mag > INFINITY || limit_mag > INFINITY {
        return false;
    }
    let value_key: i64 = if value >= SIGN_BIT { -(value_mag as i64) } else { value_mag as i64 };
    let limit_key: i64 = if limit >= SIGN_BIT { -(limit_mag as i64) } else { limit_mag as i64 };
    value_key > limit_key
}

/// Computes [`total_key`].
pub fn total_order_key(bits: u32) -> (key: i64)
    ensures
        key == total_key(bits),
{
    if bits >= SIGN_BIT {
        -((bits - SIGN_BIT) as i64) - 1
    } else {
        bits as i64
    }
}

/// The total order never ties two different patterns.
pub proof fn total_key_is_injective(a: u32, b: u32)
    ensures
        total_key(a) == total_key(b) <==> a == b,
{
}

/// On numbers the total order refines the numeric comparison.
pub proof fn greater_implies_total_order(a: u32, b: u32)
    requires
        greater(a, b),
    ensures
        total_key(a) > total_key(b),
{
}

} // verus!
