//! Numbers of the language as IEEE 754 binary64 bit patterns.
//!
//! Sign, order and equality of two doubles can be read off their bits, and are
//! computed here. Arithmetic that rounds is not: it is named by [`Arithmetic`]
//! and performed by an operation that the caller supplies.
use vstd::prelude::*;

verus! {

/// The pattern with only the sign bit set.
pub const SIGN_BIT: u64 = 0x8000_0000_0000_0000;

/// The pattern of positive infinity: every larger magnitude is a NaN.
pub const INFINITY_BITS: u64 = 0x7ff0_0000_0000_0000;

/// The four binary operators whose result is rounded.
#[derive(Clone, Copy, Debug, PartialEq, Eq, Structural)]
pub enum Arithmetic {
    Add,
    Subtract,
    Multiply,
    Divide,
}

/// The four ordering operators.
#[derive(Clone, Copy, Debug, PartialEq, Eq, Structural)]
pub enum Comparison {
    Greater,
    GreaterEqual,
    Less,
    LessEqual,
}

/// The pattern without its sign bit.
pub open spec fn magnitude(bits: u64) -> u64 {
    if bits >= SIGN_BIT {
        (bits - SIGN_BIT) as u64
    } else {
        bits
    }
}

/// Whether the pattern stands for a NaN.
pub open spec fn is_nan(bits: u64) -> bool {
    magnitude(bits) > INFINITY_BITS
}

/// The place of a pattern that is no NaN on the number line: patterns of one
/// sign are ordered as their magnitudes are, and both zeros share a place.
pub open spec fn rank(bits: u64) -> int {
    if bits >= SIGN_BIT {
        -(magnitude(bits) as int)
    } else {
        magnitude(bits) as int
    }
}

/// The pattern of the negated number: the sign bit flipped, also of a NaN.
pub open spec fn negated(bits: u64) -> u64 {
    if bits >= SIGN_BIT {
        (bits - SIGN_BIT) as u64
    } else {
        (bits + SIGN_BIT) as u64
    }
}

/// IEEE equality: a NaN equals nothing, the two zeros equal each other.
pub open spec fn same_number(a: u64, b: u64) -> bool {
    !is_nan(a) && !is_nan(b) && rank(a) == rank(b)
}

/// IEEE `<`: false as soon as either side is a NaN.
pub open spec fn less(a: u64, b: u64) -> bool {
    !is_nan(a) && !is_nan(b) && rank(a) < rank(b)
}

/// IEEE `<=`: false as soon as either side is a NaN.
pub open spec fn less_equal(a: u64, b: u64) -> bool {
    !is_nan(a) && !is_nan(b) && rank(a) <= rank(b)
}

/// What an ordering operator gives on two doubles.
pub open spec fn compares(comparison: Comparison, a: u64, b: u64) -> bool {
    match comparison {
        Comparison::Greater => less(b, a),
        Comparison::GreaterEqual => less_equal(b, a),
        Comparison::Less => less(a, b),
        Comparison::LessEqual => less_equal(a, b),
    }
}

/// The pattern without its sign bit.
pub fn number_magnitude(bits: u64) -> (m: u64)
    ensures
        m == magnitude(bits),
{
    if bits >= SIGN_BIT {
        bits - SIGN_BIT
    } else {
        bits
    }
}

/// Whether the pattern stands for a NaN.
pub fn number_is_nan(bits: u64) -> (r: bool)
    ensures
        r == is_nan(bits),
{
    number_magnitude(bits) > INFINITY_BITS
}

/// The pattern of the negated number.
pub fn number_negate(bits: u64) -> (r: u64)
    ensures
        r == negated(bits),
{
    if bits >= SIGN_BIT {
        bits - SIGN_BIT
    } else {
        bits + SIGN_BIT
    }
}

/// Whether two doubles are equal.
pub fn number_equals(a: u64, b: u64) -> (r: bool)
    ensures
        r == same_number(a, b),
{
    if number_is_nan(a) || number_is_nan(b) {
        false
    } else if number_magnitude(a) == 0 && number_magnitude(b) == 0 {
        true
    } else {
        a == b
    }
}

/// Whether the first double is less than the second.
pub fn number_less(a: u64, b: u64) -> (r: bool)
    ensures
        r == less(a, b),
{
    if number_is_nan(a) || number_is_nan(b) {
        false
    } else {
        let ma = number_magnitude(a);
        let mb = number_magnitude(b);
        if a >= SIGN_BIT {
            if b >= SIGN_BIT {
                mb < ma
            } else {
                ma != 0 || mb != 0
            }
        } else {
            b < SIGN_BIT && ma < mb
        }
    }
}

/// Whether the first double is less than or equal to the second.
pub fn number_less_equal(a: u64, b: u64) -> (r: bool)
    ensures
        r == less_equal(a, b),
{
    if number_is_nan(a) || number_is_nan(b) {
        false
    } else {
        let ma = number_magnitude(a);
        let mb = number_magnitude(b);
        if a >= SIGN_BIT {
            if b >= SIGN_BIT {
                mb <= ma
            } else {
                true
            }
        } else {
            if b >= SIGN_BIT {
                ma == 0 && mb == 0
            } else {
                ma <= mb
            }
        }
    }
}

/// What an ordering operator gives on two doubles.
pub fn number_compare(comparison: Comparison, a: u64, b: u64) -> (r: bool)
    ensures
        r == compares(comparison, a, b),
{
    match comparison {
        Comparison::Greater => number_less(b, a),
        Comparison::GreaterEqual => number_less_equal(b, a),
        Comparison::Less => number_less(a, b),
        Comparison::LessEqual => number_less_equal(a, b),
    }
}

} // verus!
