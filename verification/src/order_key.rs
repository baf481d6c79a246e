//! Integer keys that order IEEE-754 double bit patterns the way a total
//! float order does: every NaN is equal to every other NaN and greater than
//! everything else, and `-0.0` equals `+0.0`.
use vstd::prelude::*;

verus! {

/// Mask of the sign bit of a double.
pub const SIGN_BIT: u64 = 0x8000_0000_0000_0000;

/// Mask of the exponent and mantissa bits of a double.
pub const MAGNITUDE_MASK: u64 = 0x7FFF_FFFF_FFFF_FFFF;

/// Mask of the exponent bits of a double.
pub const EXPONENT_MASK: u64 = 0x7FF0_0000_0000_0000;

/// Mask of the mantissa bits of a double.
pub const MANTISSA_MASK: u64 = 0x000F_FFFF_FFFF_FFFF;

/// The bit pattern encodes a NaN: all exponent bits set, mantissa not zero.
pub open spec fn is_nan_bits(bits: u64) -> bool {
    (bits & EXPONENT_MASK) == EXPONENT_MASK && (bits & MANTISSA_MASK) != 0
}

/// The value of a non-NaN bit pattern read as sign and magnitude. For
/// non-NaN doubles the numeric order is exactly the order of this integer.
pub open spec fn signed_magnitude(bits: u64) -> int {
    if bits & SIGN_BIT != 0 {
        -((bits & MAGNITUDE_MASK) as int)
    } else {
        (bits & MAGNITUDE_MASK) as int
    }
}

/// The key of a bit pattern.
pub open spec fn spec_order_key(bits: u64) -> u64 {
    if is_nan_bits(bits) {
        u64::MAX
    } else if bits & MAGNITUDE_MASK == 0 {
        SIGN_BIT
    } else if bits & SIGN_BIT != 0 {
        !bits
    } else {
        bits | SIGN_BIT
    }
}

/// Computes the order key of the bit pattern of a double.
pub fn order_key(bits: u64) -> (key: u64)
    ensures
        key == spec_order_key(bits),
{
    if (bits & EXPONENT_MASK) == EXPONENT_MASK && (bits & MANTISSA_MASK) != 0 {
        u64::MAX
    } else if bits & MAGNITUDE_MASK == 0 {
        SIGN_BIT
    } else if bits & SIGN_BIT != 0 {
        !bits
    } else {
        bits | SIGN_BIT
    }
}

/// The key of a non-NaN pattern, written as an integer offset from the key of zero.
proof fn lemma_key_value(bits: u64)
    requires
        !is_nan_bits(bits),
    ensures
        signed_magnitude(bits) < 0 ==> spec_order_key(bits) as int == SIGN_BIT as int - 1
            + signed_magnitude(bits),
        signed_magnitude(bits) >= 0 ==> spec_order_key(bits) as int == SIGN_BIT as int
            + signed_magnitude(bits),
{
    assert(bits & 0x8000_0000_0000_0000u64 != 0 ==> bits == 0x8000_0000_0000_0000u64 + (bits
        & 0x7FFF_FFFF_FFFF_FFFFu64)) by (bit_vector);
    assert(bits & 0x8000_0000_0000_0000u64 == 0 ==> bits == (bits & 0x7FFF_FFFF_FFFF_FFFFu64))
        by (bit_vector);
    assert(!bits == 0xFFFF_FFFF_FFFF_FFFFu64 - bits) by (bit_vector);
    assert(bits & 0x8000_0000_0000_0000u64 == 0 ==> (bits | 0x8000_0000_0000_0000u64) == bits
        + 0x8000_0000_0000_0000u64) by (bit_vector);
}

/// Keys order non-NaN doubles as their numeric values do (equal values,
/// `-0.0` and `+0.0` among them, get equal keys), and every NaN gets the
/// largest key, which no other double gets.
pub proof fn lemma_order_key_monotonic(a: u64, b: u64)
    ensures
        !is_nan_bits(a) && !is_nan_bits(b) ==> ((spec_order_key(a) < spec_order_key(b)) == (
        signed_magnitude(a) < signed_magnitude(b))),
        !is_nan_bits(a) && !is_nan_bits(b) ==> ((spec_order_key(a) == spec_order_key(b)) == (
        signed_magnitude(a) == signed_magnitude(b))),
        is_nan_bits(a) ==> spec_order_key(a) == u64::MAX,
        !is_nan_bits(a) ==> spec_order_key(a) < u64::MAX,
{
    if !is_nan_bits(a) {
        lemma_key_value(a);
        assert(a & 0x7FFF_FFFF_FFFF_FFFFu64 <= 0x7FFF_FFFF_FFFF_FFFFu64) by (bit_vector);
        assert(((a & 0x7FF0_0000_0000_0000u64) == 0x7FF0_0000_0000_0000u64 && (a
            & 0x000F_FFFF_FFFF_FFFFu64) != 0) == false ==> (a & 0x7FFF_FFFF_FFFF_FFFFu64)
            <= 0x7FF0_0000_0000_0000u64) by (bit_vector);
    }
    if !is_nan_bits(b) {
        lemma_key_value(b);
    }
}

/// The key of a velocity triple, from the bit patterns of `dx`, `dy` and `dtheta`.
pub fn velocity_key(dx_bits: u64, dy_bits: u64, dtheta_bits: u64) -> (key: (u64, u64, u64))
    ensures
        key == (spec_order_key(dx_bits), spec_order_key(dy_bits), spec_order_key(dtheta_bits)),
{
    (order_key(dx_bits), order_key(dy_bits), order_key(dtheta_bits))
}

} // verus!
