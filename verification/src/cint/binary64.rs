//! Reading an integer out of the bit pattern of a double.
//!
//! An atom record stores the fractional charge of its group in an integer
//! slot.  The value stored is the double rounded toward zero and clamped to
//! the range of `i32`, with zero for a NaN.
use vstd::prelude::*;
use super::Binary64;

verus! {

/// Exponent field of a double that holds the value one.
pub const EXPONENT_BIAS: u64 = 1023;

/// Exponent field shared by the infinities and the NaNs.
pub const EXPONENT_SPECIAL: u64 = 0x7ff;

/// Number of bits of the fraction field.
pub const FRACTION_BITS: u64 = 52;

/// Whether the sign bit is set.
pub open spec fn is_negative(bits: Binary64) -> bool {
    bits >> 63 == 1
}

/// The exponent field, biased, in `0..=0x7ff`.
pub open spec fn exponent_field(bits: Binary64) -> u64 {
    (bits >> 52) & 0x7ff
}

/// The fraction field, the low 52 bits.
pub open spec fn fraction_field(bits: Binary64) -> u64 {
    bits & 0xf_ffff_ffff_ffff
}

/// Whether the pattern is a NaN.
pub open spec fn is_nan(bits: Binary64) -> bool {
    exponent_field(bits) == 0x7ff && fraction_field(bits) != 0
}

/// The integer part of the magnitude of a double whose magnitude lies in
/// `[1, 2^31)`: the significand, implicit leading one included, with the
/// bits below the binary point dropped.
pub open spec fn integer_magnitude(bits: Binary64) -> u64
    recommends
        1023 <= exponent_field(bits) < 1023 + 31,
{
    ((1u64 << 52) | fraction_field(bits)) >> ((1075 - exponent_field(bits)) as u64)
}

/// The double rounded toward zero and clamped to `i32`; zero for a NaN.
pub open spec fn truncated(bits: Binary64) -> int {
    if is_nan(bits) {
        0
    } else if exponent_field(bits) < 1023 {
        0
    } else if exponent_field(bits) >= 1023 + 31 {
        if is_negative(bits) {
            i32::MIN as int
        } else {
            i32::MAX as int
        }
    } else if is_negative(bits) {
        -(integer_magnitude(bits) as int)
    } else {
        integer_magnitude(bits) as int
    }
}

/// Rounds the double with the given bit pattern toward zero, clamps it to
/// the range of `i32`, and maps a NaN to zero.
pub fn to_i32(bits: Binary64) -> (r: i32)
    ensures
        r == truncated(bits),
{
    let negative = bits >> 63 == 1;
    let exponent: u64 = (bits >> 52) & 0x7ff;
    let fraction: u64 = bits & 0xf_ffff_ffff_ffff;
    if exponent == EXPONENT_SPECIAL && fraction != 0 {
        0
    } else if exponent < EXPONENT_BIAS {
        0
    } else if exponent >= EXPONENT_BIAS + 31 {
        if negative {
            i32::MIN
        } else {
            i32::MAX
        }
    } else {
        let shift: u64 = EXPONENT_BIAS + FRACTION_BITS - exponent;
        let magnitude: u64 = ((1u64 << 52) | fraction) >> shift;
        assert(magnitude < 0x8000_0000) by (bit_vector)
            requires
                magnitude == ((1u64 << 52) | fraction) >> shift,
                fraction == bits & 0xf_ffff_ffff_ffff,
                21 < shift <= 52,
        ;
        if negative {
            -(magnitude as i32)
        } else {
            magnitude as i32
        }
    }
}

} // verus!
