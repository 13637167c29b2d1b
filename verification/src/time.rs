//! Times as bit patterns of IEEE-754 doubles, and their order.
//!
//! A time is a `u64` holding the sixty-four bits of a double. The order of two
//! times is the numeric order of the doubles they encode: a NaN is neither
//! below, above nor equal to anything, and the two zeros are equal.

use vstd::prelude::*;

verus! {

/// The sign bit of a double.
pub const SIGN: u64 = 0x8000_0000_0000_0000;

/// The bits of positive infinity: the greatest magnitude that is a number.
pub const INFINITY: u64 = 0x7ff0_0000_0000_0000;

/// The bits of negative infinity.
pub const NEG_INFINITY: u64 = 0xfff0_0000_0000_0000;

/// The bits of `t` without the sign bit.
pub open spec fn magnitude(t: u64) -> int {
    if t >= SIGN {
        t - SIGN
    } else {
        t as int
    }
}

/// Whether `t` encodes a NaN: an all-ones exponent with a non-zero fraction.
pub open spec fn is_nan(t: u64) -> bool {
    magnitude(t) > INFINITY
}

/// The place of `t` on the number line: magnitudes grow with the encoded
/// value, and a set sign bit mirrors them below zero. Both zeros get rank 0.
pub open spec fn rank(t: u64) -> int {
    if t >= SIGN {
        -magnitude(t)
    } else {
        magnitude(t)
    }
}

/// `a <= b` as doubles.
pub open spec fn le(a: u64, b: u64) -> bool {
    !is_nan(a) && !is_nan(b) && rank(a) <= rank(b)
}

/// `a < b` as doubles.
pub open spec fn lt(a: u64, b: u64) -> bool {
    !is_nan(a) && !is_nan(b) && rank(a) < rank(b)
}

/// `a == b` as doubles.
pub open spec fn same(a: u64, b: u64) -> bool {
    !is_nan(a) && !is_nan(b) && rank(a) == rank(b)
}

/// The lesser of `acc` and `t`, keeping `acc` unless `t` is strictly below it.
pub open spec fn lower(acc: u64, t: u64) -> u64 {
    if lt(t, acc) {
        t
    } else {
        acc
    }
}

/// The greater of `acc` and `t`, keeping `acc` unless `t` is strictly above it.
pub open spec fn upper(acc: u64, t: u64) -> u64 {
    if lt(acc, t) {
        t
    } else {
        acc
    }
}

fn strip_sign(t: u64) -> (m: u64)
    ensures
        m == magnitude(t),
{
    if t >= SIGN {
        t - SIGN
    } else {
        t
    }
}

/// Whether `t` encodes a NaN.
pub fn time_is_nan(t: u64) -> (r: bool)
    ensures
        r == is_nan(t),
{
    strip_sign(t) > INFINITY
}

/// Whether `a <= b` as doubles.
pub fn time_le(a: u64, b: u64) -> (r: bool)
    ensures
        r == le(a, b),
{
    let ma: u64 = strip_sign(a);
    let mb: u64 = strip_sign(b);
    if ma > INFINITY || mb > INFINITY {
        false
    } else if a >= SIGN {
        b < SIGN || ma >= mb
    } else {
        if b >= SIGN {
            ma == 0 && mb == 0
        } else {
            ma <= mb
        }
    }
}

/// Whether `a < b` as doubles.
pub fn time_lt(a: u64, b: u64) -> (r: bool)
    ensures
        r == lt(a, b),
{
    let ma: u64 = strip_sign(a);
    let mb: u64 = strip_sign(b);
    if ma > INFINITY || mb > INFINITY {
        false
    } else if a >= SIGN {
        if b >= SIGN {
            ma > mb
        } else {
            ma > 0 || mb > 0
        }
    } else {
        b < SIGN && ma < mb
    }
}

/// Whether `a == b` as doubles.
pub fn time_same(a: u64, b: u64) -> (r: bool)
    ensures
        r == same(a, b),
{
    let ma: u64 = strip_sign(a);
    let mb: u64 = strip_sign(b);
    if ma > INFINITY || mb > INFINITY {
        false
    } else if (a >= SIGN) == (b >= SIGN) {
        ma == mb
    } else {
        ma == 0 && mb == 0
    }
}

/// The order is transitive, and a time that is a number is equal to itself.
pub proof fn order_is_total_on_numbers(a: u64, b: u64, c: u64)
    ensures
        !is_nan(a) ==> same(a, a) && le(a, a) && !lt(a, a),
        le(a, b) && le(b, c) ==> le(a, c),
        lt(a, b) && le(b, c) ==> lt(a, c),
        le(a, b) && lt(b, c) ==> lt(a, c),
        !is_nan(a) && !is_nan(b) ==> (le(a, b) || lt(b, a)),
        le(a, b) <==> lt(a, b) || same(a, b),
        same(a, b) <==> le(a, b) && le(b, a),
{
}

} // verus!
