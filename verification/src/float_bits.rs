//! IEEE-754 numbers as bit patterns: what can be said of a float by comparing
//! integers.
//!
//! A 32-bit float is a sign bit above 31 bits of magnitude, of which the upper
//! eight are the exponent. Patterns whose magnitude is above that of infinity
//! are no numbers (NaN). Both zeros compare equal.
use vstd::prelude::*;

verus! {

/// The pattern of 0.0.
pub const ZERO: u32 = 0;

/// The pattern of 1.0.
pub const ONE: u32 = 0x3f80_0000;

/// The pattern of -1.0.
pub const MINUS_ONE: u32 = 0xbf80_0000;

/// The pattern of the largest finite number.
pub const LARGEST: u32 = 0x7f7f_ffff;

/// The pattern of infinity.
pub const INFINITY: u32 = 0x7f80_0000;

/// The bits below the sign.
pub open spec fn magnitude(bits: u32) -> int {
    bits as int % 0x8000_0000
}

/// Whether the pattern is no number.
pub open spec fn is_nan(bits: u32) -> bool {
    magnitude(bits) > INFINITY
}

/// An integer that orders patterns as the numbers that they stand for.
pub open spec fn order(bits: u32) -> int {
    if bits < 0x8000_0000 {
        magnitude(bits)
    } else {
        -magnitude(bits)
    }
}

/// The comparison `a < b` of the numbers: false where one is no number.
pub open spec fn less(a: u32, b: u32) -> bool {
    !is_nan(a) && !is_nan(b) && order(a) < order(b)
}

/// The number clamped to the range from 0.0 to 1.0; NaN stays NaN.
pub open spec fn clamped(bits: u32) -> u32 {
    if less(bits, ZERO) {
        ZERO
    } else if less(ONE, bits) {
        ONE
    } else {
        bits
    }
}

/// Whether a 64-bit float is above 0.0.
pub open spec fn is_positive_wide(bits: u64) -> bool {
    0 < bits <= 0x7ff0_0000_0000_0000
}

/// Whether the pattern is no number.
pub fn not_a_number(bits: u32) -> (r: bool)
    ensures
        r == is_nan(bits),
{
    bits % 0x8000_0000 > INFINITY
}

/// The integer by which patterns are ordered.
pub fn order_key(bits: u32) -> (r: i64)
    ensures
        r == order(bits),
{
    if bits < 0x8000_0000 {
        bits as i64
    } else {
        0x8000_0000 - bits as i64
    }
}

/// Clamps a number to the range from 0.0 to 1.0.
pub fn clamp01(bits: u32) -> (r: u32)
    ensures
        r == clamped(bits),
{
    if not_a_number(bits) {
        bits
    } else if order_key(bits) < order_key(ZERO) {
        ZERO
    } else if order_key(ONE) < order_key(bits) {
        ONE
    } else {
        bits
    }
}

/// Whether a 64-bit float is above 0.0.
pub fn positive_wide(bits: u64) -> (r: bool)
    ensures
        r == is_positive_wide(bits),
{
    0 < bits && bits <= 0x7ff0_0000_0000_0000
}

/// A clamped number is in range, and clamping it again changes nothing.
pub proof fn clamping_brings_into_range(bits: u32)
    ensures
        is_nan(clamped(bits)) <==> is_nan(bits),
        !is_nan(bits) ==> order(ZERO) <= order(clamped(bits)) <= order(ONE),
        clamped(clamped(bits)) == clamped(bits),
        !is_nan(bits) && order(ZERO) <= order(bits) <= order(ONE) ==> clamped(bits) == bits,
{
}

/// The pattern of -0.0.
pub const MINUS_ZERO: u32 = 0x8000_0000;

/// Whether two patterns are the same, or stand for the same number.
pub open spec fn same_number(a: u32, b: u32) -> bool {
    a == b || (!is_nan(a) && !is_nan(b) && order(a) == order(b))
}

/// Whether two numbers are both at or above 1.0, or both at or below 0.0.
pub open spec fn both_saturated(a: u32, b: u32) -> bool {
    &&& !is_nan(a)
    &&& !is_nan(b)
    &&& (order(ONE) <= order(a) && order(ONE) <= order(b)) || (order(a) <= order(ZERO) && order(b)
        <= order(ZERO))
}

/// Clamping saturates: numbers at or above 1.0 clamp to the same number, and so do
/// numbers at or below 0.0. Only -0.0 keeps a pattern of its own.
pub proof fn clamping_saturates(a: u32, b: u32)
    requires
        both_saturated(a, b),
    ensures
        order(clamped(a)) == order(clamped(b)),
        same_number(clamped(a), clamped(b)),
        a != MINUS_ZERO && b != MINUS_ZERO ==> clamped(a) == clamped(b),
{
}

/// The size of a number with magnitude `m`, in units of the smallest positive
/// number.
pub open spec fn units(m: int) -> int {
    let exponent = m / 0x80_0000;
    let fraction = m % 0x80_0000;
    if exponent == 0 {
        fraction
    } else {
        (0x80_0000 + fraction) * vstd::arithmetic::power2::pow2((exponent - 1) as nat)
    }
}

/// The number that a pattern stands for, in units of the smallest positive
/// number. Infinity counts as the first size above all finite ones.
pub open spec fn value_in_units(bits: u32) -> int {
    if bits < 0x8000_0000 {
        units(magnitude(bits))
    } else {
        -units(magnitude(bits))
    }
}

proof fn lemma_next_magnitude(m: int)
    requires
        0 <= m,
    ensures
        units(m) < units(m + 1),
{
    let exponent = m / 0x80_0000;
    let fraction = m % 0x80_0000;
    vstd::arithmetic::power2::lemma2_to64();
    if fraction < 0x7f_ffff {
        assert((m + 1) / 0x80_0000 == exponent);
        assert((m + 1) % 0x80_0000 == fraction + 1);
        if exponent > 0 {
            let p = vstd::arithmetic::power2::pow2((exponent - 1) as nat) as int;
            vstd::arithmetic::power2::lemma_pow2_pos((exponent - 1) as nat);
            assert((0x80_0000 + fraction) * p < (0x80_0000 + fraction + 1) * p) by (nonlinear_arith)
                requires
                    p > 0,
            ;
        }
    } else {
        assert((m + 1) / 0x80_0000 == exponent + 1);
        assert((m + 1) % 0x80_0000 == 0);
        if exponent > 0 {
            let p = vstd::arithmetic::power2::pow2((exponent - 1) as nat) as int;
            vstd::arithmetic::power2::lemma_pow2_pos((exponent - 1) as nat);
            vstd::arithmetic::power2::lemma_pow2_unfold(exponent as nat);
            assert((0x80_0000 + fraction) * p < 0x80_0000 * (2 * p)) by (nonlinear_arith)
                requires
                    p > 0,
                    fraction == 0x7f_ffff,
            ;
        }
    }
}

proof fn lemma_units_grow(m1: int, m2: int)
    requires
        0 <= m1 <= m2,
    ensures
        units(m1) <= units(m2),
        m1 < m2 ==> units(m1) < units(m2),
        0 <= units(m1),
        0 < m1 ==> 0 < units(m1),
    decreases m2 - m1,
{
    if m1 < m2 {
        lemma_units_grow(m1, m2 - 1);
        lemma_next_magnitude(m2 - 1);
    }
    lemma_units_nonnegative(m1);
}

proof fn lemma_units_nonnegative(m: int)
    requires
        0 <= m,
    ensures
        0 <= units(m),
        0 < m ==> 0 < units(m),
    decreases m,
{
    if m > 0 {
        lemma_units_nonnegative(m - 1);
        lemma_next_magnitude(m - 1);
    }
}

/// The order of patterns is the order of the numbers that they stand for.
pub proof fn order_is_that_of_the_numbers(a: u32, b: u32)
    requires
        !is_nan(a),
        !is_nan(b),
    ensures
        less(a, b) <==> value_in_units(a) < value_in_units(b),
        order(a) == order(b) <==> value_in_units(a) == value_in_units(b),
{
    let x = magnitude(a);
    let y = magnitude(b);
    lemma_units_nonnegative(x);
    lemma_units_nonnegative(y);
    if x <= y {
        lemma_units_grow(x, y);
    } else {
        lemma_units_grow(y, x);
    }
}

/// A pattern is no number if and only if its eight exponent bits are all set and its
/// 23 fraction bits are not all clear.
pub proof fn nan_has_full_exponent_and_a_fraction(bits: u32)
    ensures
        is_nan(bits) <==> (bits / 0x80_0000) % 256 == 255 && bits % 0x80_0000 != 0,
        is_nan(bits) <==> 0x7f80_0000 < bits < 0x8000_0000 || 0xff80_0000 < bits,
{
}

/// Patterns without the sign bit are ordered as integers are, patterns with it the
/// other way round, and those with it come first. Only the two zeros tie.
pub proof fn order_of_patterns(a: u32, b: u32)
    ensures
        a < 0x8000_0000 && b < 0x8000_0000 ==> (order(a) < order(b) <==> a < b),
        a >= 0x8000_0000 && b >= 0x8000_0000 ==> (order(a) < order(b) <==> a > b),
        a >= 0x8000_0000 && b < 0x8000_0000 ==> order(a) <= order(b),
        order(a) == order(b) <==> a == b || (a == 0 && b == 0x8000_0000) || (a == 0x8000_0000 && b
            == 0),
        order(0) == 0,
        -0x7fff_ffff <= order(a) <= 0x7fff_ffff,
{
}

/// Numbers between 0.0 and 1.0 are left as they are, and so is what is no number.
/// Larger numbers give 1.0 and numbers below zero give 0.0, infinities too.
pub proof fn clamping_by_range(bits: u32)
    ensures
        bits <= 0x3f80_0000 || bits == 0x8000_0000 ==> clamped(bits) == bits,
        0x3f80_0000 < bits <= 0x7f80_0000 ==> clamped(bits) == 0x3f80_0000,
        0x8000_0000 < bits <= 0xff80_0000 ==> clamped(bits) == 0,
        0x7f80_0000 < bits < 0x8000_0000 || 0xff80_0000 < bits ==> clamped(bits) == bits,
{
}

/// A 64-bit float is above 0.0 if and only if its sign bit is clear, not all its
/// other bits are, and it is no NaN: its exponent is not full, or it is infinity.
pub proof fn positive_by_sign_exponent_and_fraction(bits: u64)
    ensures
        is_positive_wide(bits) <==> bits / 0x8000_0000_0000_0000 == 0 && bits != 0 && ((bits
            / 0x10_0000_0000_0000) % 2048 != 2047 || bits % 0x10_0000_0000_0000 == 0),
{
}

} // verus!
