//! Single-precision numbers as bit patterns.
//!
//! Vertex data passes through the library without arithmetic: it is copied,
//! negated and compared. All three can be read off the IEEE 754 bit pattern,
//! so a coordinate is held as the `u32` of its bits.

use vstd::prelude::*;

verus! {

/// The sign bit.
pub const SIGN: u32 = 0x8000_0000;

/// The bit pattern of the negated number: the sign bit is flipped.
pub open spec fn neg_bits(b: u32) -> u32 {
    b ^ SIGN
}

/// Negates a number.
pub fn negate(b: u32) -> (r: u32)
    ensures
        r == neg_bits(b),
{
    b ^ SIGN
}

/// Negating twice changes nothing.
pub proof fn law_negate_twice(b: u32)
    ensures
        neg_bits(neg_bits(b)) == b,
{
    assert((b ^ 0x8000_0000u32) ^ 0x8000_0000u32 == b) by (bit_vector);
}

/// The pattern is that of no number.
pub open spec fn is_nan(b: u32) -> bool {
    0x7f80_0000 < b < SIGN || 0xff80_0000 < b
}

/// The place of a number among all numbers: patterns order as their numbers
/// do within a sign, and both zeros have the same place.
pub open spec fn rank(b: u32) -> int {
    if b < SIGN {
        b as int
    } else {
        SIGN - b
    }
}

/// The first number is less than the second.
pub open spec fn less(a: u32, b: u32) -> bool {
    !is_nan(a) && !is_nan(b) && rank(a) < rank(b)
}

/// Whether the first number is less than the second.
pub fn is_less(a: u32, b: u32) -> (r: bool)
    ensures
        r == less(a, b),
{
    let a_nan = (0x7f80_0000 < a && a < SIGN) || 0xff80_0000 < a;
    let b_nan = (0x7f80_0000 < b && b < SIGN) || 0xff80_0000 < b;
    if a_nan || b_nan {
        return false;
    }
    if a < SIGN {
        b < SIGN && a < b
    } else if b < SIGN {
        a - SIGN > 0 || b > 0
    } else {
        a > b
    }
}

/// The smaller of two numbers; the second where neither is less.
pub open spec fn min_bits(a: u32, b: u32) -> u32 {
    if less(a, b) {
        a
    } else {
        b
    }
}

/// The greater of two numbers; the second where neither is less.
pub open spec fn max_bits(a: u32, b: u32) -> u32 {
    if less(b, a) {
        a
    } else {
        b
    }
}

/// Three coordinates.
pub type Bits3 = [u32; 3];

/// Three coordinates, component by component the smaller one.
pub open spec fn min3(a: Bits3, b: Bits3) -> Bits3 {
    [min_bits(a[0], b[0]), min_bits(a[1], b[1]), min_bits(a[2], b[2])]
}

/// Three coordinates, component by component the greater one.
pub open spec fn max3(a: Bits3, b: Bits3) -> Bits3 {
    [max_bits(a[0], b[0]), max_bits(a[1], b[1]), max_bits(a[2], b[2])]
}

fn min_of(a: u32, b: u32) -> (r: u32)
    ensures
        r == min_bits(a, b),
{
    if is_less(a, b) {
        a
    } else {
        b
    }
}

fn max_of(a: u32, b: u32) -> (r: u32)
    ensures
        r == max_bits(a, b),
{
    if is_less(b, a) {
        a
    } else {
        b
    }
}

/// The lower corner of the box around two points.
pub fn lower_corner(a: Bits3, b: Bits3) -> (r: Bits3)
    ensures
        r == min3(a, b),
{
    [min_of(a[0], b[0]), min_of(a[1], b[1]), min_of(a[2], b[2])]
}

/// The upper corner of the box around two points.
pub fn upper_corner(a: Bits3, b: Bits3) -> (r: Bits3)
    ensures
        r == max3(a, b),
{
    [max_of(a[0], b[0]), max_of(a[1], b[1]), max_of(a[2], b[2])]
}

/// How patterns compare: the numbers from zero to infinity as their patterns
/// do; numbers below zero the other way round; a negated number is less than
/// another unless both are zero; and what is no number is neither less nor
/// greater than anything.
pub proof fn law_patterns_order_as_numbers(a: u32, b: u32)
    ensures
        a <= 0x7f80_0000 && b <= 0x7f80_0000 ==> {
            &&& less(a, b) <==> a < b
            &&& less(neg_bits(a), neg_bits(b)) <==> b < a
            &&& less(neg_bits(a), b) <==> a != 0 || b != 0
            &&& !less(a, neg_bits(b))
        },
        0x7f80_0000 < a < SIGN ==> {
            &&& !less(a, b) && !less(b, a)
            &&& !less(neg_bits(a), b) && !less(b, neg_bits(a))
        },
{
    lemma_neg_bits(a);
    lemma_neg_bits(b);
}

proof fn lemma_neg_bits(b: u32)
    ensures
        b < SIGN ==> neg_bits(b) == b + SIGN,
        b >= SIGN ==> neg_bits(b) == b - SIGN,
{
    assert(b < 0x8000_0000u32 ==> b ^ 0x8000_0000u32 == b + 0x8000_0000u32) by (bit_vector);
    assert(b >= 0x8000_0000u32 ==> b ^ 0x8000_0000u32 == b - 0x8000_0000u32) by (bit_vector);
}

/// Negating mirrors the order.
pub proof fn law_negating_mirrors_the_order(a: u32, b: u32)
    ensures
        less(a, b) <==> less(neg_bits(b), neg_bits(a)),
        is_nan(a) <==> is_nan(neg_bits(a)),
        neg_bits(a) != a,
{
    lemma_neg_bits(a);
    lemma_neg_bits(b);
}

/// Of two numbers the corners take, on each axis, one that is not less, or not
/// greater, than the other; it is the coordinate of one of the two points.
pub proof fn law_corners_bound_both_points(a: Bits3, b: Bits3, low: Bits3, high: Bits3, axis: int)
    requires
        call_ensures(lower_corner, (a, b), low),
        call_ensures(upper_corner, (a, b), high),
        0 <= axis < 3,
        !is_nan(a[axis]) && !is_nan(b[axis]),
    ensures
        low[axis] == a[axis] || low[axis] == b[axis],
        high[axis] == a[axis] || high[axis] == b[axis],
        !less(a[axis], low[axis]) && !less(b[axis], low[axis]),
        !less(high[axis], a[axis]) && !less(high[axis], b[axis]),
{
}

} // verus!
