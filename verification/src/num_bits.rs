//! Classification and ordering of IEEE-754 binary64 values held as their
//! bit patterns.

use vstd::prelude::*;

verus! {

/// Bit pattern of the quiet NaN that the standard library uses for `NAN`.
pub const NAN: u64 = 0x7ff8_0000_0000_0000u64;

/// Bit pattern of positive zero.
pub const ZERO: u64 = 0u64;

/// The biased exponent field.
pub open spec fn exponent(x: u64) -> u64 {
    (x >> 52u64) & 0x7ffu64
}

/// The fraction field.
pub open spec fn fraction(x: u64) -> u64 {
    x & 0x000f_ffff_ffff_ffffu64
}

/// Everything but the sign bit.
pub open spec fn magnitude(x: u64) -> u64 {
    x & 0x7fff_ffff_ffff_ffffu64
}

/// The sign bit is set.
pub open spec fn sign_set(x: u64) -> bool {
    (x >> 63u64) == 1u64
}

/// Not a number: all exponent bits set and a nonzero fraction.
pub open spec fn spec_is_nan(x: u64) -> bool {
    exponent(x) == 0x7ffu64 && fraction(x) != 0u64
}

/// Normal: neither zero, subnormal, infinite nor NaN, i.e. the exponent
/// field is neither all zeros nor all ones.
pub open spec fn spec_is_normal(x: u64) -> bool {
    exponent(x) != 0u64 && exponent(x) != 0x7ffu64
}

/// A key that orders all non-NaN values as the numbers they stand for:
/// the magnitude, negated when the sign bit is set (so both zeros map to 0).
pub open spec fn order_key(x: u64) -> int {
    if sign_set(x) {
        -(magnitude(x) as int)
    } else {
        magnitude(x) as int
    }
}

/// `a == b` on the numbers: false whenever a NaN takes part.
pub open spec fn spec_eq(a: u64, b: u64) -> bool {
    !spec_is_nan(a) && !spec_is_nan(b) && order_key(a) == order_key(b)
}

/// `a < b` on the numbers: false whenever a NaN takes part.
pub open spec fn spec_lt(a: u64, b: u64) -> bool {
    !spec_is_nan(a) && !spec_is_nan(b) && order_key(a) < order_key(b)
}

/// `a <= b` on the numbers: false whenever a NaN takes part.
pub open spec fn spec_le(a: u64, b: u64) -> bool {
    !spec_is_nan(a) && !spec_is_nan(b) && order_key(a) <= order_key(b)
}

pub fn is_nan(x: u64) -> (r: bool)
    ensures
        r == spec_is_nan(x),
{
    ((x >> 52u64) & 0x7ffu64) == 0x7ffu64 && (x & 0x000f_ffff_ffff_ffffu64) != 0u64
}

pub fn is_normal(x: u64) -> (r: bool)
    ensures
        r == spec_is_normal(x),
{
    let e = (x >> 52u64) & 0x7ffu64;
    e != 0u64 && e != 0x7ffu64
}

fn key(x: u64) -> (k: i64)
    ensures
        k as int == order_key(x),
{
    let m = x & 0x7fff_ffff_ffff_ffffu64;
    assert(m <= 0x7fff_ffff_ffff_ffffu64) by (bit_vector)
        requires
            m == x & 0x7fff_ffff_ffff_ffffu64,
    ;
    let mi = m as i64;
    if (x >> 63u64) == 1u64 {
        -mi
    } else {
        mi
    }
}

pub fn eq(a: u64, b: u64) -> (r: bool)
    ensures
        r == spec_eq(a, b),
{
    !is_nan(a) && !is_nan(b) && key(a) == key(b)
}

pub fn lt(a: u64, b: u64) -> (r: bool)
    ensures
        r == spec_lt(a, b),
{
    !is_nan(a) && !is_nan(b) && key(a) < key(b)
}

pub fn le(a: u64, b: u64) -> (r: bool)
    ensures
        r == spec_le(a, b),
{
    !is_nan(a) && !is_nan(b) && key(a) <= key(b)
}

/// A NaN is neither equal to, below nor above any value, itself included.
pub proof fn lemma_nan_unordered(a: u64, b: u64)
    requires
        spec_is_nan(a),
    ensures
        !spec_eq(a, b),
        !spec_eq(b, a),
        !spec_lt(a, b),
        !spec_lt(b, a),
        !spec_le(a, b),
        !spec_le(b, a),
{
}

/// Positive and negative zero are equal numbers.
pub proof fn lemma_zeros_equal()
    ensures
        spec_eq(0u64, 0x8000_0000_0000_0000u64),
{
    assert(exponent(0u64) == 0 && fraction(0u64) == 0 && magnitude(0u64) == 0) by (bit_vector);
    assert(exponent(0x8000_0000_0000_0000u64) == 0 && magnitude(0x8000_0000_0000_0000u64) == 0)
        by (bit_vector);
}

/// The stored NaN constant is a NaN, and normal values are not NaN.
pub proof fn lemma_nan_constant()
    ensures
        spec_is_nan(NAN),
        !spec_is_normal(NAN),
{
    assert(exponent(0x7ff8_0000_0000_0000u64) == 0x7ff && fraction(0x7ff8_0000_0000_0000u64)
        != 0) by (bit_vector);
}

} // verus!
