//! Order and clipping of IEEE-754 single-precision encodings.
//!
//! The runtime stores every scalar as the 32-bit encoding of a
//! single-precision number and never performs arithmetic on it. What it does
//! need — comparing a strength against a threshold, taking the larger of two
//! changes, clipping to the unit interval — depends only on the order of the
//! encoded numbers, which this module defines over the integers: an encoding
//! is a sign bit and a 31-bit magnitude, magnitudes above that of infinity
//! are not-a-number, and among the others the number grows with the
//! magnitude when the sign is clear and falls with it when the sign is set.
use vstd::prelude::*;
use vstd::arithmetic::power2::{lemma2_to64, pow2};

verus! {

/// Encoding of `+0.0`.
pub const ZERO: u32 = 0;

/// Encoding of `1.0`.
pub const ONE: u32 = 0x3F80_0000;

/// The sign bit.
pub const SIGN_BIT: u32 = 0x8000_0000;

/// Magnitude of the two infinities; larger magnitudes are not-a-number.
pub const INFINITY_MAGNITUDE: u32 = 0x7F80_0000;

/// The encoding without its sign bit.
pub open spec fn magnitude(w: u32) -> int {
    if w >= SIGN_BIT {
        w - SIGN_BIT
    } else {
        w as int
    }
}

/// Whether the sign bit is set.
pub open spec fn is_negative(w: u32) -> bool {
    w >= SIGN_BIT
}

/// Whether the encoding is not-a-number.
pub open spec fn is_nan(w: u32) -> bool {
    magnitude(w) > INFINITY_MAGNITUDE
}

/// Position of an encoding on the number line: equal for equal numbers (the
/// two zeros share position 0) and strictly increasing with the number.
/// Only meaningful when the encoding is a number.
pub open spec fn rank(w: u32) -> int {
    if is_negative(w) {
        -magnitude(w)
    } else {
        magnitude(w)
    }
}

/// `a < b` as numbers; false when either is not-a-number.
pub open spec fn lt(a: u32, b: u32) -> bool {
    !is_nan(a) && !is_nan(b) && rank(a) < rank(b)
}

/// `a <= b` as numbers; false when either is not-a-number.
pub open spec fn le(a: u32, b: u32) -> bool {
    !is_nan(a) && !is_nan(b) && rank(a) <= rank(b)
}

/// The encoding of the absolute value: the sign bit cleared.
pub open spec fn abs(w: u32) -> u32 {
    magnitude(w) as u32
}

/// `|w| < threshold` as numbers.
pub open spec fn abs_lt(w: u32, threshold: u32) -> bool {
    lt(abs(w), threshold)
}

/// The larger of two numbers; not-a-number gives way to a number, and of two
/// equal numbers the first is kept.
pub open spec fn max(a: u32, b: u32) -> u32 {
    if is_nan(a) {
        b
    } else if is_nan(b) {
        a
    } else if rank(a) < rank(b) {
        b
    } else {
        a
    }
}

/// The number clipped to `[0, 1]`; not-a-number is left as it is.
pub open spec fn clamp_unit(w: u32) -> u32 {
    if lt(w, ZERO) {
        ZERO
    } else if lt(ONE, w) {
        ONE
    } else {
        w
    }
}

/// Whether the number lies in the half-open unit interval `(0, 1]`.
pub open spec fn in_unit_interval(w: u32) -> bool {
    lt(ZERO, w) && le(w, ONE)
}

/// Clears the sign bit.
pub fn absolute(w: u32) -> (r: u32)
    ensures
        r == abs(w),
        !is_negative(r),
        is_nan(r) == is_nan(w),
{
    if w >= SIGN_BIT {
        w - SIGN_BIT
    } else {
        w
    }
}

/// Tells whether the encoding is not-a-number.
pub fn not_a_number(w: u32) -> (r: bool)
    ensures
        r == is_nan(w),
{
    absolute(w) > INFINITY_MAGNITUDE
}

/// Tells whether the sign bit is set.
pub fn negative(w: u32) -> (r: bool)
    ensures
        r == is_negative(w),
{
    w >= SIGN_BIT
}

/// Compares two encodings as numbers: `a < b`.
pub fn less_than(a: u32, b: u32) -> (r: bool)
    ensures
        r == lt(a, b),
{
    if not_a_number(a) || not_a_number(b) {
        return false;
    }
    let ma: u32 = absolute(a);
    let mb: u32 = absolute(b);
    if negative(a) {
        if negative(b) {
            mb < ma
        } else {
            ma != 0 || mb != 0
        }
    } else {
        if negative(b) {
            false
        } else {
            ma < mb
        }
    }
}

/// Compares two encodings as numbers: `a > b`.
pub fn greater_than(a: u32, b: u32) -> (r: bool)
    ensures
        r == lt(b, a),
{
    less_than(b, a)
}

/// Compares two encodings as numbers: `a <= b`.
pub fn at_most(a: u32, b: u32) -> (r: bool)
    ensures
        r == le(a, b),
{
    if not_a_number(a) || not_a_number(b) {
        return false;
    }
    !less_than(b, a)
}

/// Compares the absolute value of `w` with `threshold`: `|w| < threshold`.
pub fn abs_less_than(w: u32, threshold: u32) -> (r: bool)
    ensures
        r == abs_lt(w, threshold),
{
    less_than(absolute(w), threshold)
}

/// The larger of two numbers.
pub fn maximum(a: u32, b: u32) -> (r: u32)
    ensures
        r == max(a, b),
        r == a || r == b,
{
    if not_a_number(a) {
        b
    } else if not_a_number(b) {
        a
    } else if less_than(a, b) {
        b
    } else {
        a
    }
}

/// Clips a number to `[0, 1]`.
pub fn clip_unit(w: u32) -> (r: u32)
    ensures
        r == clamp_unit(w),
        !is_nan(w) ==> le(ZERO, r) && le(r, ONE),
{
    if less_than(w, ZERO) {
        ZERO
    } else if less_than(ONE, w) {
        ONE
    } else {
        w
    }
}

/// Tells whether a damping factor is usable: it lies in `(0, 1]`.
pub fn is_damping(w: u32) -> (r: bool)
    ensures
        r == in_unit_interval(w),
{
    less_than(ZERO, w) && at_most(w, ONE)
}

/// The order of numbers is irreflexive and transitive, and never relates
/// two numbers both ways.
pub proof fn lemma_lt_strict_order(a: u32, b: u32, c: u32)
    ensures
        !lt(a, a),
        lt(a, b) ==> !lt(b, a),
        lt(a, b) && lt(b, c) ==> lt(a, c),
{
}

/// Any two numbers are comparable: one is below the other or they occupy
/// the same position.
pub proof fn lemma_lt_total(a: u32, b: u32)
    requires
        !is_nan(a),
        !is_nan(b),
    ensures
        lt(a, b) || lt(b, a) || rank(a) == rank(b),
        rank(a) == rank(b) <==> (a == b || (magnitude(a) == 0 && magnitude(b) == 0)),
{
}

/// The larger of two numbers is an upper bound of both, and taking the
/// maximum never lowers a running maximum.
pub proof fn lemma_max_is_upper_bound(a: u32, b: u32)
    requires
        !is_nan(a),
        !is_nan(b),
    ensures
        le(a, max(a, b)),
        le(b, max(a, b)),
        !is_nan(max(a, b)),
{
}

/// A smaller threshold prunes no more than a larger one.
pub proof fn lemma_abs_lt_monotone(w: u32, low: u32, high: u32)
    requires
        le(low, high),
    ensures
        abs_lt(w, low) ==> abs_lt(w, high),
{
}

/// Clipping is idempotent and leaves numbers of the unit interval alone.
pub proof fn lemma_clamp_unit_idempotent(w: u32)
    ensures
        clamp_unit(clamp_unit(w)) == clamp_unit(w),
        le(ZERO, w) && le(w, ONE) ==> clamp_unit(w) == w,
{
}

/// The exponent field of an encoding.
pub open spec fn exponent_field(w: u32) -> int {
    ((w / 0x80_0000) % 256) as int
}

/// The fraction field of an encoding.
pub open spec fn fraction_field(w: u32) -> int {
    (w % 0x80_0000) as int
}

/// Whether `w` encodes the whole number `n` exactly: zero is all bits
/// clear, and any other number is its leading one, implied, followed by
/// the fraction, scaled by two to the power of the unbiased exponent.
pub open spec fn encodes_whole(w: u32, n: int) -> bool {
    if n == 0 {
        w == ZERO
    } else {
        &&& !is_negative(w)
        &&& 127 <= exponent_field(w) < 255
        &&& (0x80_0000 + fraction_field(w)) * pow2((exponent_field(w) - 127) as nat) == n
            * 0x80_0000
    }
}

/// The encoding of a whole number from 0 to 255.
pub open spec fn byte_encoding(n: int) -> u32 {
    if n <= 0 {
        ZERO
    } else if n < 2 {
        (127 * 0x80_0000 + (n - 1) * 0x80_0000) as u32
    } else if n < 4 {
        (128 * 0x80_0000 + (n - 2) * 0x40_0000) as u32
    } else if n < 8 {
        (129 * 0x80_0000 + (n - 4) * 0x20_0000) as u32
    } else if n < 16 {
        (130 * 0x80_0000 + (n - 8) * 0x10_0000) as u32
    } else if n < 32 {
        (131 * 0x80_0000 + (n - 16) * 0x8_0000) as u32
    } else if n < 64 {
        (132 * 0x80_0000 + (n - 32) * 0x4_0000) as u32
    } else if n < 128 {
        (133 * 0x80_0000 + (n - 64) * 0x2_0000) as u32
    } else {
        (134 * 0x80_0000 + (n - 128) * 0x1_0000) as u32
    }
}

/// The encoding of a whole number from 0 to 255, without any arithmetic
/// on numbers of single precision.
pub fn whole_encoding(n: u8) -> (w: u32)
    ensures
        w == byte_encoding(n as int),
        encodes_whole(w, n as int),
        !is_nan(w),
{
    proof {
        lemma_byte_encoding(n as int);
    }
    let m: u32 = n as u32;
    if m == 0 {
        ZERO
    } else if m < 2 {
        127 * 0x80_0000
    } else if m < 4 {
        128 * 0x80_0000 + (m - 2) * 0x40_0000
    } else if m < 8 {
        129 * 0x80_0000 + (m - 4) * 0x20_0000
    } else if m < 16 {
        130 * 0x80_0000 + (m - 8) * 0x10_0000
    } else if m < 32 {
        131 * 0x80_0000 + (m - 16) * 0x8_0000
    } else if m < 64 {
        132 * 0x80_0000 + (m - 32) * 0x4_0000
    } else if m < 128 {
        133 * 0x80_0000 + (m - 64) * 0x2_0000
    } else {
        134 * 0x80_0000 + (m - 128) * 0x1_0000
    }
}

/// The encoding of a byte encodes that byte exactly, is a number, and a
/// larger byte has a larger encoding.
pub proof fn lemma_byte_encoding(n: int)
    requires
        0 <= n <= 255,
    ensures
        encodes_whole(byte_encoding(n), n),
        !is_nan(byte_encoding(n)),
        !is_negative(byte_encoding(n)),
        n < 255 ==> lt(byte_encoding(n), byte_encoding(n + 1)),
{
    lemma2_to64();
    let w = byte_encoding(n);
    if 1 <= n < 2 {
        assert(w == 127 * 0x80_0000 + (n - 1) * 0x800000);
        assert(w / 0x80_0000 == 127);
        assert(w % 0x80_0000 == (n - 1) * 0x800000);
        assert(pow2(0) == 1);
        assert((0x80_0000 + (n - 1) * 0x800000) * 1 == n * 0x80_0000);
    } else if 2 <= n < 4 {
        assert(w == 128 * 0x80_0000 + (n - 2) * 0x400000);
        assert(w / 0x80_0000 == 128);
        assert(w % 0x80_0000 == (n - 2) * 0x400000);
        assert(pow2(1) == 2);
        assert((0x80_0000 + (n - 2) * 0x400000) * 2 == n * 0x80_0000);
    } else if 4 <= n < 8 {
        assert(w == 129 * 0x80_0000 + (n - 4) * 0x200000);
        assert(w / 0x80_0000 == 129);
        assert(w % 0x80_0000 == (n - 4) * 0x200000);
        assert(pow2(2) == 4);
        assert((0x80_0000 + (n - 4) * 0x200000) * 4 == n * 0x80_0000);
    } else if 8 <= n < 16 {
        assert(w == 130 * 0x80_0000 + (n - 8) * 0x100000);
        assert(w / 0x80_0000 == 130);
        assert(w % 0x80_0000 == (n - 8) * 0x100000);
        assert(pow2(3) == 8);
        assert((0x80_0000 + (n - 8) * 0x100000) * 8 == n * 0x80_0000);
    } else if 16 <= n < 32 {
        assert(w == 131 * 0x80_0000 + (n - 16) * 0x80000);
        assert(w / 0x80_0000 == 131);
        assert(w % 0x80_0000 == (n - 16) * 0x80000);
        assert(pow2(4) == 16);
        assert((0x80_0000 + (n - 16) * 0x80000) * 16 == n * 0x80_0000);
    } else if 32 <= n < 64 {
        assert(w == 132 * 0x80_0000 + (n - 32) * 0x40000);
        assert(w / 0x80_0000 == 132);
        assert(w % 0x80_0000 == (n - 32) * 0x40000);
        assert(pow2(5) == 32);
        assert((0x80_0000 + (n - 32) * 0x40000) * 32 == n * 0x80_0000);
    } else if 64 <= n < 128 {
        assert(w == 133 * 0x80_0000 + (n - 64) * 0x20000);
        assert(w / 0x80_0000 == 133);
        assert(w % 0x80_0000 == (n - 64) * 0x20000);
        assert(pow2(6) == 64);
        assert((0x80_0000 + (n - 64) * 0x20000) * 64 == n * 0x80_0000);
    } else if 128 <= n < 256 {
        assert(w == 134 * 0x80_0000 + (n - 128) * 0x10000);
        assert(w / 0x80_0000 == 134);
        assert(w % 0x80_0000 == (n - 128) * 0x10000);
        assert(pow2(7) == 128);
        assert((0x80_0000 + (n - 128) * 0x10000) * 128 == n * 0x80_0000);
    }
}

} // verus!
