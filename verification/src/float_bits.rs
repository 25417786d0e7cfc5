//! Comparing floating-point numbers by their bit patterns.
//!
//! Coordinates travel through this library as the bit patterns of IEEE 754
//! numbers: `u64` for double precision, `u32` for single precision. Order and
//! equality of two such numbers can be read off their bits: apart from NaN,
//! the magnitude bits of a number grow with its absolute value.

use vstd::prelude::*;

verus! {

/// The magnitude bits of a double: everything but the sign.
pub open spec fn f64_magnitude(bits: u64) -> int {
    if bits < 0x8000_0000_0000_0000 {
        bits as int
    } else {
        bits - 0x8000_0000_0000_0000
    }
}

/// A double is NaN when its magnitude lies above that of infinity.
pub open spec fn f64_is_nan(bits: u64) -> bool {
    f64_magnitude(bits) > 0x7ff0_0000_0000_0000
}

/// A double is finite when its magnitude lies below that of infinity.
pub open spec fn f64_is_finite(bits: u64) -> bool {
    f64_magnitude(bits) < 0x7ff0_0000_0000_0000
}

/// The place of a double among all doubles that are not NaN. Both zeros have
/// place 0.
pub open spec fn f64_rank(bits: u64) -> int {
    if bits < 0x8000_0000_0000_0000 {
        f64_magnitude(bits)
    } else {
        -f64_magnitude(bits)
    }
}

/// `a < b`, which no NaN takes part in.
pub open spec fn f64_lt(a: u64, b: u64) -> bool {
    !f64_is_nan(a) && !f64_is_nan(b) && f64_rank(a) < f64_rank(b)
}

/// `a == b`, which no NaN takes part in.
pub open spec fn f64_eq(a: u64, b: u64) -> bool {
    !f64_is_nan(a) && !f64_is_nan(b) && f64_rank(a) == f64_rank(b)
}

/// `a <= b`, which no NaN takes part in.
pub open spec fn f64_le(a: u64, b: u64) -> bool {
    !f64_is_nan(a) && !f64_is_nan(b) && f64_rank(a) <= f64_rank(b)
}

/// The smaller of two doubles; a NaN gives way to the other operand.
pub open spec fn f64_min(a: u64, b: u64) -> u64 {
    if f64_is_nan(a) || f64_lt(b, a) {
        b
    } else {
        a
    }
}

/// The larger of two doubles; a NaN gives way to the other operand.
pub open spec fn f64_max(a: u64, b: u64) -> u64 {
    if f64_is_nan(a) || f64_lt(a, b) {
        b
    } else {
        a
    }
}

/// Positive infinity.
pub const F64_INFINITY: u64 = 0x7ff0_0000_0000_0000;

/// Negative infinity.
pub const F64_NEG_INFINITY: u64 = 0xfff0_0000_0000_0000;

/// Whether a double is NaN.
pub fn is_nan_f64(bits: u64) -> (r: bool)
    ensures
        r == f64_is_nan(bits),
{
    if bits < 0x8000_0000_0000_0000 {
        bits > 0x7ff0_0000_0000_0000
    } else {
        bits > 0xfff0_0000_0000_0000
    }
}

/// Whether a double is neither infinite nor NaN.
pub fn is_finite_f64(bits: u64) -> (r: bool)
    ensures
        r == f64_is_finite(bits),
{
    if bits < 0x8000_0000_0000_0000 {
        bits < 0x7ff0_0000_0000_0000
    } else {
        bits < 0xfff0_0000_0000_0000
    }
}

/// Whether a double is normal, that is neither zero, subnormal, infinite nor
/// NaN.
pub open spec fn f64_is_normal(bits: u64) -> bool {
    0x0010_0000_0000_0000 <= f64_magnitude(bits) < 0x7ff0_0000_0000_0000
}

/// Whether the sign bit of a double is clear.
pub open spec fn f64_is_sign_positive(bits: u64) -> bool {
    bits < 0x8000_0000_0000_0000
}

fn rank_f64(bits: u64) -> (r: i64)
    ensures
        r == f64_rank(bits),
{
    if bits < 0x8000_0000_0000_0000 {
        bits as i64
    } else {
        -((bits - 0x8000_0000_0000_0000) as i64)
    }
}

/// `a < b` on doubles.
pub fn lt_f64(a: u64, b: u64) -> (r: bool)
    ensures
        r == f64_lt(a, b),
{
    !is_nan_f64(a) && !is_nan_f64(b) && rank_f64(a) < rank_f64(b)
}

/// `a == b` on doubles.
pub fn eq_f64(a: u64, b: u64) -> (r: bool)
    ensures
        r == f64_eq(a, b),
{
    !is_nan_f64(a) && !is_nan_f64(b) && rank_f64(a) == rank_f64(b)
}

/// `a <= b` on doubles.
pub fn le_f64(a: u64, b: u64) -> (r: bool)
    ensures
        r == f64_le(a, b),
{
    !is_nan_f64(a) && !is_nan_f64(b) && rank_f64(a) <= rank_f64(b)
}

/// The smaller of two doubles.
pub fn min_f64(a: u64, b: u64) -> (r: u64)
    ensures
        r == f64_min(a, b),
{
    if is_nan_f64(a) || lt_f64(b, a) {
        b
    } else {
        a
    }
}

/// The larger of two doubles.
pub fn max_f64(a: u64, b: u64) -> (r: u64)
    ensures
        r == f64_max(a, b),
{
    if is_nan_f64(a) || lt_f64(a, b) {
        b
    } else {
        a
    }
}

/// The magnitude bits of a single: everything but the sign.
pub open spec fn f32_magnitude(bits: u32) -> int {
    if bits < 0x8000_0000 {
        bits as int
    } else {
        bits - 0x8000_0000
    }
}

/// A single is NaN when its magnitude lies above that of infinity.
pub open spec fn f32_is_nan(bits: u32) -> bool {
    f32_magnitude(bits) > 0x7f80_0000
}

/// The place of a single among all singles that are not NaN. Both zeros have
/// place 0.
pub open spec fn f32_rank(bits: u32) -> int {
    if bits < 0x8000_0000 {
        f32_magnitude(bits)
    } else {
        -f32_magnitude(bits)
    }
}

/// `a < b`, which no NaN takes part in.
pub open spec fn f32_lt(a: u32, b: u32) -> bool {
    !f32_is_nan(a) && !f32_is_nan(b) && f32_rank(a) < f32_rank(b)
}

/// Positive infinity.
pub const F32_INFINITY: u32 = 0x7f80_0000;

/// Negative infinity.
pub const F32_NEG_INFINITY: u32 = 0xff80_0000;

/// The largest finite single.
pub const F32_MAX: u32 = 0x7f7f_ffff;

/// The smallest finite single.
pub const F32_MIN: u32 = 0xff7f_ffff;

/// The quiet NaN that marks a missing value.
pub const F32_NAN: u32 = 0x7fc0_0000;

/// One.
pub const F32_ONE: u32 = 0x3f80_0000;

/// Whether a single is NaN.
pub fn is_nan_f32(bits: u32) -> (r: bool)
    ensures
        r == f32_is_nan(bits),
{
    if bits < 0x8000_0000 {
        bits > 0x7f80_0000
    } else {
        bits > 0xff80_0000
    }
}

fn rank_f32(bits: u32) -> (r: i32)
    ensures
        r == f32_rank(bits),
{
    if bits < 0x8000_0000 {
        bits as i32
    } else {
        -((bits - 0x8000_0000) as i32)
    }
}

/// `a < b` on singles.
pub fn lt_f32(a: u32, b: u32) -> (r: bool)
    ensures
        r == f32_lt(a, b),
{
    !is_nan_f32(a) && !is_nan_f32(b) && rank_f32(a) < rank_f32(b)
}

/// The smaller of two singles; a NaN gives way to the other operand.
pub open spec fn f32_min(a: u32, b: u32) -> u32 {
    if f32_is_nan(a) || f32_lt(b, a) {
        b
    } else {
        a
    }
}

/// The larger of two singles; a NaN gives way to the other operand.
pub open spec fn f32_max(a: u32, b: u32) -> u32 {
    if f32_is_nan(a) || f32_lt(a, b) {
        b
    } else {
        a
    }
}

/// The smaller of two singles.
pub fn min_f32(a: u32, b: u32) -> (r: u32)
    ensures
        r == f32_min(a, b),
{
    if is_nan_f32(a) || lt_f32(b, a) {
        b
    } else {
        a
    }
}

/// The larger of two singles.
pub fn max_f32(a: u32, b: u32) -> (r: u32)
    ensures
        r == f32_max(a, b),
{
    if is_nan_f32(a) || lt_f32(a, b) {
        b
    } else {
        a
    }
}

/// Of any two doubles that are not NaN exactly one is less, or they are
/// equal.
pub proof fn law_f64_trichotomy(a: u64, b: u64)
    requires
        !f64_is_nan(a),
        !f64_is_nan(b),
    ensures
        f64_lt(a, b) || f64_lt(b, a) || f64_eq(a, b),
        !(f64_lt(a, b) && f64_lt(b, a)),
        f64_eq(a, b) ==> !f64_lt(a, b) && !f64_lt(b, a),
{
}

/// Numbers without a sign are ordered as their bits are, and numbers with one
/// the other way round; these come before those. Both zeros have the same
/// place, and a NaN has none: its bits lie beyond those of infinity.
pub proof fn law_f64_order(a: u64, b: u64)
    ensures
        f64_is_nan(a) <==> (0x7ff0_0000_0000_0000 < a < 0x8000_0000_0000_0000 || 0xfff0_0000_0000_0000 < a),
        a <= 0x7ff0_0000_0000_0000 && b <= 0x7ff0_0000_0000_0000 ==> (f64_lt(a, b) <==> a < b),
        0x8000_0000_0000_0000 <= a <= 0xfff0_0000_0000_0000 && 0x8000_0000_0000_0000 <= b <= 0xfff0_0000_0000_0000 ==> (f64_lt(a, b) <==> b < a),
        0x8000_0000_0000_0000 < a <= 0xfff0_0000_0000_0000 && b <= 0x7ff0_0000_0000_0000 ==> f64_lt(a, b) && !f64_lt(b, a),
        !f64_lt(0, 0x8000_0000_0000_0000) && !f64_lt(0x8000_0000_0000_0000, 0),
        f64_is_nan(a) ==> !f64_lt(a, b) && !f64_lt(b, a),
{
}

/// The smaller of two numbers is one of them, and neither is less; the larger is
/// one of them, and less than neither. A NaN comes out only where both are.
pub proof fn law_f64_min_max(a: u64, b: u64)
    ensures
        f64_min(a, b) == a || f64_min(a, b) == b,
        f64_max(a, b) == a || f64_max(a, b) == b,
        !f64_lt(a, f64_min(a, b)) && !f64_lt(b, f64_min(a, b)),
        !f64_lt(f64_max(a, b), a) && !f64_lt(f64_max(a, b), b),
        f64_is_nan(f64_min(a, b)) <==> f64_is_nan(a) && f64_is_nan(b),
        f64_is_nan(f64_max(a, b)) <==> f64_is_nan(a) && f64_is_nan(b),
{
}

/// Numbers without a sign are ordered as their bits are, and numbers with one
/// the other way round; these come before those. Both zeros have the same
/// place, and a NaN has none: its bits lie beyond those of infinity.
pub proof fn law_f32_order(a: u32, b: u32)
    ensures
        f32_is_nan(a) <==> (0x7f80_0000 < a < 0x8000_0000 || 0xff80_0000 < a),
        a <= 0x7f80_0000 && b <= 0x7f80_0000 ==> (f32_lt(a, b) <==> a < b),
        0x8000_0000 <= a <= 0xff80_0000 && 0x8000_0000 <= b <= 0xff80_0000 ==> (f32_lt(a, b) <==> b < a),
        0x8000_0000 < a <= 0xff80_0000 && b <= 0x7f80_0000 ==> f32_lt(a, b) && !f32_lt(b, a),
        !f32_lt(0, 0x8000_0000) && !f32_lt(0x8000_0000, 0),
        f32_is_nan(a) ==> !f32_lt(a, b) && !f32_lt(b, a),
{
}

/// The smaller of two numbers is one of them, and neither is less; the larger is
/// one of them, and less than neither. A NaN comes out only where both are.
pub proof fn law_f32_min_max(a: u32, b: u32)
    ensures
        f32_min(a, b) == a || f32_min(a, b) == b,
        f32_max(a, b) == a || f32_max(a, b) == b,
        !f32_lt(a, f32_min(a, b)) && !f32_lt(b, f32_min(a, b)),
        !f32_lt(f32_max(a, b), a) && !f32_lt(f32_max(a, b), b),
        f32_is_nan(f32_min(a, b)) <==> f32_is_nan(a) && f32_is_nan(b),
        f32_is_nan(f32_max(a, b)) <==> f32_is_nan(a) && f32_is_nan(b),
{
}

/// Two doubles are equal when both are numbers and neither is less; one is at
/// most the other when it is less or equal. A double is finite when it lies
/// between the two infinities.
pub proof fn law_f64_equal_and_at_most(a: u64, b: u64)
    ensures
        f64_eq(a, b) <==> !f64_is_nan(a) && !f64_is_nan(b) && !f64_lt(a, b) && !f64_lt(b, a),
        f64_le(a, b) <==> f64_lt(a, b) || f64_eq(a, b),
        f64_is_finite(a) <==> f64_lt(0xfff0_0000_0000_0000, a) && f64_lt(a, 0x7ff0_0000_0000_0000),
{
}

/// A normal number has an exponent that is neither the smallest nor the largest;
/// the highest bit is the sign.
pub proof fn law_f64_normal(a: u64)
    ensures
        f64_is_normal(a) <==> (0x0010_0000_0000_0000 <= a < 0x7ff0_0000_0000_0000
            || 0x8010_0000_0000_0000 <= a < 0xfff0_0000_0000_0000),
        f64_is_sign_positive(a) <==> a < 0x8000_0000_0000_0000,
        f64_is_normal(a) ==> f64_is_finite(a),
{
}

} // verus!
