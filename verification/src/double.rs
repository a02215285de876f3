//! Real numbers held as the bit patterns of IEEE 754 double-precision values.
//!
//! The library stores and compares such numbers without computing with them.

use vstd::prelude::*;

verus! {

/// The bit pattern with only the sign set.
pub const SIGN_BIT: u64 = 0x8000_0000_0000_0000;

/// The bit pattern of positive infinity.
pub const INFINITY_BITS: u64 = 0x7FF0_0000_0000_0000;

/// The pattern without its sign.
pub open spec fn magnitude(bits: u64) -> int {
    if bits >= SIGN_BIT {
        bits - SIGN_BIT
    } else {
        bits as int
    }
}

/// Whether the pattern is one of the values that are not numbers.
pub open spec fn nan(bits: u64) -> bool {
    magnitude(bits) > INFINITY_BITS
}

/// Whether the pattern is one of the two zeros.
pub open spec fn zero(bits: u64) -> bool {
    magnitude(bits) == 0
}

/// Numeric equality: the zeros are equal, and a value that is not a number equals nothing.
pub open spec fn equal(a: u64, b: u64) -> bool {
    !nan(a) && !nan(b) && (a == b || (zero(a) && zero(b)))
}

fn magnitude_of(bits: u64) -> (r: u64)
    ensures
        r == magnitude(bits),
{
    if bits >= SIGN_BIT {
        bits - SIGN_BIT
    } else {
        bits
    }
}

/// Tests for a value that is not a number.
pub fn is_nan(bits: u64) -> (r: bool)
    ensures
        r == nan(bits),
{
    magnitude_of(bits) > INFINITY_BITS
}

/// Tests for a zero.
pub fn is_zero(bits: u64) -> (r: bool)
    ensures
        r == zero(bits),
{
    magnitude_of(bits) == 0
}

/// Tests numeric equality.
pub fn is_equal(a: u64, b: u64) -> (r: bool)
    ensures
        r == equal(a, b),
{
    !is_nan(a) && !is_nan(b) && (a == b || (is_zero(a) && is_zero(b)))
}

/// The place of a pattern in the order of numbers; the zeros share theirs.
pub open spec fn rank(bits: u64) -> int {
    if bits >= SIGN_BIT {
        -magnitude(bits)
    } else {
        magnitude(bits)
    }
}

/// Numeric order: a value that is not a number is neither less nor greater than any.
pub open spec fn less(a: u64, b: u64) -> bool {
    !nan(a) && !nan(b) && rank(a) < rank(b)
}

/// Tests numeric order.
pub fn is_less(a: u64, b: u64) -> (r: bool)
    ensures
        r == less(a, b),
{
    if is_nan(a) || is_nan(b) {
        return false;
    }
    if a >= SIGN_BIT {
        if b >= SIGN_BIT {
            a > b
        } else {
            magnitude_of(a) > 0 || b > 0
        }
    } else {
        b < SIGN_BIT && a < b
    }
}

/// A position, as the bit patterns of its latitude and longitude in degrees.
#[derive(Clone, Copy, PartialEq, Eq, Debug, Structural)]
pub struct Point {
    pub latitude: u64,
    pub longitude: u64,
}

/// Numeric equality of both coordinates.
pub open spec fn same_point(a: Point, b: Point) -> bool {
    equal(a.latitude, b.latitude) && equal(a.longitude, b.longitude)
}

/// Tests numeric equality of both coordinates.
pub fn is_same_point(a: Point, b: Point) -> (r: bool)
    ensures
        r == same_point(a, b),
{
    is_equal(a.latitude, b.latitude) && is_equal(a.longitude, b.longitude)
}

/// The bits of a double: one sign bit, eleven of the exponent, the rest of the fraction. It is no
/// number where the exponent is full and the fraction is not empty.
pub proof fn bits_that_are_no_number_have_a_full_exponent(exponent: u64, fraction: u64, sign: u64)
    requires
        exponent < 2048,
        fraction < 0x10_0000_0000_0000,
        sign < 2,
    ensures
        ({
            let bits = (sign * 0x8000_0000_0000_0000 + exponent * 0x10_0000_0000_0000
                + fraction) as u64;
            &&& nan(bits) <==> exponent == 2047 && fraction != 0
            &&& zero(bits) <==> exponent == 0 && fraction == 0
        }),
{
}

/// Numbers are ordered: of two numbers just one of less, equal and greater holds, and what is no
/// number is neither less than, equal to nor greater than anything.
pub proof fn numbers_are_ordered(a: u64, b: u64, c: u64)
    ensures
        !nan(a) && !nan(b) ==> (less(a, b) || equal(a, b) || less(b, a)),
        !(less(a, b) && equal(a, b)),
        !(less(a, b) && less(b, a)),
        less(a, b) && less(b, c) ==> less(a, c),
        equal(a, b) == equal(b, a),
        !nan(a) ==> equal(a, a),
        nan(a) ==> !less(a, b) && !less(b, a) && !equal(a, b),
{
}

/// Positive numbers are ordered like their bits and negative ones the other way; a negative number
/// is less than a positive one, and the two zeros are equal.
pub proof fn numbers_are_ordered_like_their_bits(a: u64, b: u64)
    requires
        a <= 0x7FF0_0000_0000_0000,
        b <= 0x7FF0_0000_0000_0000,
    ensures
        less(a, b) <==> a < b,
        equal(a, b) <==> a == b,
        ({
            let minus_a = (a + 0x8000_0000_0000_0000) as u64;
            let minus_b = (b + 0x8000_0000_0000_0000) as u64;
            &&& less(minus_a, minus_b) <==> b < a
            &&& less(minus_a, b) <==> a + b > 0
            &&& !less(a, minus_b)
            &&& equal(minus_a, b) <==> a == 0 && b == 0
        }),
{
}

/// Points are the same where both of their coordinates are equal.
pub proof fn points_are_the_same_by_both_coordinates(a: Point, b: Point)
    ensures
        same_point(a, b) <==> equal(a.latitude, b.latitude) && equal(a.longitude, b.longitude),
{
}

} // verus!
