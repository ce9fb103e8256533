//! Comparison of floating-point numbers given by their bit patterns.
//!
//! A number is held as the integer that its IEEE 754 representation spells: the sign bit on
//! top, then the exponent, then the fraction.

use vstd::prelude::*;

verus! {

/// The sign bit of a double.
pub const SIGN_64: u64 = 0x8000_0000_0000_0000;

/// The representation of positive infinity as a double.
pub const INFINITY_64: u64 = 0x7ff0_0000_0000_0000;

/// The sign bit of a single.
pub const SIGN_32: u32 = 0x8000_0000;

/// The representation of positive infinity as a single.
pub const INFINITY_32: u32 = 0x7f80_0000;

/// Whether a double is not a number.
pub open spec fn nan_64(bits: u64) -> bool {
    magnitude_64(bits) > INFINITY_64
}

/// The representation of a double without its sign.
pub open spec fn magnitude_64(bits: u64) -> int {
    if bits < SIGN_64 {
        bits as int
    } else {
        bits - SIGN_64
    }
}

/// An integer that orders doubles that are numbers by their value; both zeros give zero.
pub open spec fn rank_64(bits: u64) -> int {
    if bits < SIGN_64 {
        bits as int
    } else {
        -(bits - SIGN_64)
    }
}

/// Whether the double `a` is greater than `b`; never where one is not a number.
pub open spec fn greater_64(a: u64, b: u64) -> bool {
    !nan_64(a) && !nan_64(b) && rank_64(a) > rank_64(b)
}

/// The position of a double in the total order of all representations.
pub open spec fn total_64(bits: u64) -> int {
    if bits < SIGN_64 {
        bits + SIGN_64
    } else {
        u64::MAX - bits
    }
}

/// Whether a double is not a number.
pub fn is_nan_64(bits: u64) -> (r: bool)
    ensures
        r == nan_64(bits),
{
    if bits < SIGN_64 {
        bits > INFINITY_64
    } else {
        bits - SIGN_64 > INFINITY_64
    }
}

/// Whether the double `a` is greater than `b`.
pub fn is_greater_64(a: u64, b: u64) -> (r: bool)
    ensures
        r == greater_64(a, b),
{
    if is_nan_64(a) || is_nan_64(b) {
        return false;
    }
    if a < SIGN_64 {
        if b < SIGN_64 {
            a > b
        } else {
            a > 0 || b > SIGN_64
        }
    } else {
        b > a
    }
}

/// The position of a double in the total order of all representations.
pub fn total_key_64(bits: u64) -> (r: u64)
    ensures
        r == total_64(bits),
{
    if bits < SIGN_64 {
        bits + SIGN_64
    } else {
        u64::MAX - bits
    }
}

/// Whether two doubles are equal; never where one is not a number.
pub open spec fn equal_64(a: u64, b: u64) -> bool {
    !nan_64(a) && !nan_64(b) && rank_64(a) == rank_64(b)
}

/// Whether two doubles are equal.
pub fn is_equal_64(a: u64, b: u64) -> (r: bool)
    ensures
        r == equal_64(a, b),
{
    if is_nan_64(a) || is_nan_64(b) {
        return false;
    }
    a == b || ((a == 0 || a == SIGN_64) && (b == 0 || b == SIGN_64))
}

/// The representation of one as a double. Those of the doubles from zero to one are the numbers
/// up to it.
pub const ONE_64: u64 = 0x3ff0_0000_0000_0000;

/// The representation of one as a single.
pub const ONE_32: u32 = 0x3f80_0000;

/// The representation of a single without its sign.
pub open spec fn magnitude_32(bits: u32) -> int {
    if bits < SIGN_32 {
        bits as int
    } else {
        bits - SIGN_32
    }
}

/// Whether a single is not a number.
pub open spec fn nan_32(bits: u32) -> bool {
    magnitude_32(bits) > INFINITY_32
}

/// An integer that orders singles that are numbers by their value; both zeros give zero.
pub open spec fn rank_32(bits: u32) -> int {
    if bits < SIGN_32 {
        bits as int
    } else {
        -(bits - SIGN_32)
    }
}

/// Whether the single `a` is less than `b`; never where one is not a number.
pub open spec fn less_32(a: u32, b: u32) -> bool {
    !nan_32(a) && !nan_32(b) && rank_32(a) < rank_32(b)
}

/// The position of a single in the total order of all representations.
pub open spec fn total_32(bits: u32) -> int {
    if bits < SIGN_32 {
        bits + SIGN_32
    } else {
        u32::MAX - bits
    }
}

/// Whether a single is not a number.
pub fn is_nan_32(bits: u32) -> (r: bool)
    ensures
        r == nan_32(bits),
{
    if bits < SIGN_32 {
        bits > INFINITY_32
    } else {
        bits - SIGN_32 > INFINITY_32
    }
}

/// Whether the single `a` is less than `b`.
pub fn is_less_32(a: u32, b: u32) -> (r: bool)
    ensures
        r == less_32(a, b),
{
    if is_nan_32(a) || is_nan_32(b) {
        return false;
    }
    if b < SIGN_32 {
        if a < SIGN_32 {
            b > a
        } else {
            b > 0 || a > SIGN_32
        }
    } else {
        a > b
    }
}

/// The position of a single in the total order of all representations.
pub fn total_key_32(bits: u32) -> (r: u32)
    ensures
        r == total_32(bits),
{
    if bits < SIGN_32 {
        bits + SIGN_32
    } else {
        u32::MAX - bits
    }
}

/// Of two numbers at most one is less than the other, and the total order agrees with that
/// order.
pub proof fn law_total_order_extends_order(a: u32, b: u32)
    requires
        less_32(a, b),
    ensures
        !less_32(b, a),
        total_32(a) < total_32(b),
{
}

/// Doubles compare as numbers do: by their signs, and by their magnitudes, the other way round
/// where both are negative. Both zeros are one number.
pub proof fn law_doubles_compare_as_numbers(a: u64, b: u64, x: int, y: int)
    requires
        x == (if a < 0x8000_0000_0000_0000 {
            a as int
        } else {
            a - 0x8000_0000_0000_0000
        }),
        y == (if b < 0x8000_0000_0000_0000 {
            b as int
        } else {
            b - 0x8000_0000_0000_0000
        }),
        x <= 0x7ff0_0000_0000_0000,
        y <= 0x7ff0_0000_0000_0000,
    ensures
        a < 0x8000_0000_0000_0000 && b < 0x8000_0000_0000_0000 ==> greater_64(a, b) == (x > y),
        a < 0x8000_0000_0000_0000 && b >= 0x8000_0000_0000_0000 ==> greater_64(a, b) == (x > 0 || y > 0),
        a >= 0x8000_0000_0000_0000 && b < 0x8000_0000_0000_0000 ==> !greater_64(a, b),
        a >= 0x8000_0000_0000_0000 && b >= 0x8000_0000_0000_0000 ==> greater_64(a, b) == (x < y),
        equal_64(a, b) <==> a == b || (x == 0 && y == 0),
{
}

/// What is not a number compares with nothing.
pub proof fn law_doubles_that_are_no_numbers_do_not_compare(a: u64, b: u64)
    requires
        0x7ff0_0000_0000_0000 < a < 0x8000_0000_0000_0000 || a > 0x8000_0000_0000_0000 + 0x7ff0_0000_0000_0000,
    ensures
        !greater_64(a, b) && !greater_64(b, a) && !equal_64(a, b) && !equal_64(b, a),
{
}

/// The total order tells any two representations apart, puts the negative ones first, and goes
/// by the representation among positive ones and against it among negative ones.
pub proof fn law_doubles_have_a_total_order(a: u64, b: u64)
    ensures
        0 <= total_64(a) <= u64::MAX,
        total_64(a) == total_64(b) <==> a == b,
        a >= 0x8000_0000_0000_0000 && b < 0x8000_0000_0000_0000 ==> total_64(a) < total_64(b),
        a < b < 0x8000_0000_0000_0000 ==> total_64(a) < total_64(b),
        0x8000_0000_0000_0000 <= a < b ==> total_64(a) > total_64(b),
{
}

/// Singles compare as numbers do: by their signs, and by their magnitudes, the other way round
/// where both are negative. Both zeros are one number.
pub proof fn law_singles_compare_as_numbers(a: u32, b: u32, x: int, y: int)
    requires
        x == (if a < 0x8000_0000 {
            a as int
        } else {
            a - 0x8000_0000
        }),
        y == (if b < 0x8000_0000 {
            b as int
        } else {
            b - 0x8000_0000
        }),
        x <= 0x7f80_0000,
        y <= 0x7f80_0000,
    ensures
        a < 0x8000_0000 && b < 0x8000_0000 ==> less_32(b, a) == (x > y),
        a < 0x8000_0000 && b >= 0x8000_0000 ==> less_32(b, a) == (x > 0 || y > 0),
        a >= 0x8000_0000 && b < 0x8000_0000 ==> !less_32(b, a),
        a >= 0x8000_0000 && b >= 0x8000_0000 ==> less_32(b, a) == (x < y),
{
}

/// What is not a number compares with nothing.
pub proof fn law_singles_that_are_no_numbers_do_not_compare(a: u32, b: u32)
    requires
        0x7f80_0000 < a < 0x8000_0000 || a > 0x8000_0000 + 0x7f80_0000,
    ensures
        !less_32(a, b) && !less_32(b, a),
{
}

/// The total order tells any two representations apart, puts the negative ones first, and goes
/// by the representation among positive ones and against it among negative ones.
pub proof fn law_singles_have_a_total_order(a: u32, b: u32)
    ensures
        0 <= total_32(a) <= u32::MAX,
        total_32(a) == total_32(b) <==> a == b,
        a >= 0x8000_0000 && b < 0x8000_0000 ==> total_32(a) < total_32(b),
        a < b < 0x8000_0000 ==> total_32(a) < total_32(b),
        0x8000_0000 <= a < b ==> total_32(a) > total_32(b),
{
}

} // verus!
