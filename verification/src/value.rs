//! Runtime values, and exact integer models of the IEEE 754 double
//! operations that the language needs besides arithmetic: equality,
//! ordering and sign negation, all over the 64-bit encoding of a double.

use vstd::prelude::*;

verus! {

/// Sign bit of an IEEE 754 double encoding.
pub const F64_SIGN: u64 = 0x8000_0000_0000_0000;

/// Mask for everything but the sign bit (the magnitude).
pub const F64_ABS: u64 = 0x7FFF_FFFF_FFFF_FFFF;

/// Magnitude of the two infinities; any greater magnitude is a NaN.
pub const F64_INF: u64 = 0x7FF0_0000_0000_0000;

/// The encoding is a NaN: exponent all ones and a non-zero mantissa.
pub open spec fn f64_is_nan(b: u64) -> bool {
    (b & F64_ABS) > F64_INF
}

/// The encoding is a zero (positive or negative).
pub open spec fn f64_is_zero(b: u64) -> bool {
    (b & F64_ABS) == 0
}

/// The encoding's sign bit is set.
pub open spec fn f64_is_neg(b: u64) -> bool {
    (b & F64_SIGN) != 0
}

/// Sign negation of a double flips the sign bit and nothing else,
/// for every encoding, NaNs included.
pub open spec fn f64_neg(b: u64) -> u64 {
    b ^ F64_SIGN
}

/// IEEE equality of two doubles given by their encodings: false whenever
/// either is a NaN; the two zeroes are equal; otherwise the encodings agree.
pub open spec fn f64_eq(a: u64, b: u64) -> bool {
    &&& !f64_is_nan(a)
    &&& !f64_is_nan(b)
    &&& (a == b || (f64_is_zero(a) && f64_is_zero(b)))
}

/// IEEE `<` of two doubles given by their encodings: false whenever either
/// is a NaN; otherwise sign-magnitude order. For non-negative doubles the
/// encoding order is the numeric order; for negative ones it is reversed.
pub open spec fn f64_lt(a: u64, b: u64) -> bool {
    &&& !f64_is_nan(a)
    &&& !f64_is_nan(b)
    &&& !(f64_is_zero(a) && f64_is_zero(b))
    &&& if f64_is_neg(a) != f64_is_neg(b) {
        f64_is_neg(a)
    } else if f64_is_neg(a) {
        (a & F64_ABS) > (b & F64_ABS)
    } else {
        (a & F64_ABS) < (b & F64_ABS)
    }
}

/// IEEE `>`, the mirror image of `<`.
pub open spec fn f64_gt(a: u64, b: u64) -> bool {
    f64_lt(b, a)
}

/// Whether the encoding is a NaN.
pub fn num_is_nan(b: u64) -> (r: bool)
    ensures
        r == f64_is_nan(b),
{
    (b & F64_ABS) > F64_INF
}

/// Sign negation of an encoded double.
pub fn num_neg(b: u64) -> (r: u64)
    ensures
        r == f64_neg(b),
{
    b ^ F64_SIGN
}

/// IEEE equality of two encoded doubles.
pub fn num_eq(a: u64, b: u64) -> (r: bool)
    ensures
        r == f64_eq(a, b),
{
    if (a & F64_ABS) > F64_INF || (b & F64_ABS) > F64_INF {
        false
    } else {
        a == b || ((a & F64_ABS) == 0 && (b & F64_ABS) == 0)
    }
}

/// IEEE `<` of two encoded doubles.
pub fn num_lt(a: u64, b: u64) -> (r: bool)
    ensures
        r == f64_lt(a, b),
{
    if (a & F64_ABS) > F64_INF || (b & F64_ABS) > F64_INF {
        false
    } else if (a & F64_ABS) == 0 && (b & F64_ABS) == 0 {
        false
    } else if ((a & F64_SIGN) != 0) != ((b & F64_SIGN) != 0) {
        (a & F64_SIGN) != 0
    } else if (a & F64_SIGN) != 0 {
        (a & F64_ABS) > (b & F64_ABS)
    } else {
        (a & F64_ABS) < (b & F64_ABS)
    }
}

/// IEEE `>` of two encoded doubles.
pub fn num_gt(a: u64, b: u64) -> (r: bool)
    ensures
        r == f64_gt(a, b),
{
    num_lt(b, a)
}

/// A value of the language: a tagged union with value semantics.
/// `Number` holds the 64-bit IEEE 754 encoding of a double.
#[derive(Clone, Copy, Debug, PartialEq, Eq, Structural)]
pub enum Value {
    Bool(bool),
    Nil,
    Number(u64),
}

/// The two values that count as false under logical negation: `nil` and
/// `false`. Every number, zero included, is truthy.
pub open spec fn falsey(v: Value) -> bool {
    match v {
        Value::Nil => true,
        Value::Bool(b) => !b,
        Value::Number(_) => false,
    }
}

/// Structural equality of the language: values of different variants are
/// never equal, and numbers compare by IEEE equality.
pub open spec fn val_eq(a: Value, b: Value) -> bool {
    match (a, b) {
        (Value::Bool(x), Value::Bool(y)) => x == y,
        (Value::Nil, Value::Nil) => true,
        (Value::Number(x), Value::Number(y)) => f64_eq(x, y),
        _ => false,
    }
}

/// Structural equality of two values.
pub fn value_eq(a: Value, b: Value) -> (r: bool)
    ensures
        r == val_eq(a, b),
{
    match (a, b) {
        (Value::Bool(x), Value::Bool(y)) => x == y,
        (Value::Nil, Value::Nil) => true,
        (Value::Number(x), Value::Number(y)) => num_eq(x, y),
        _ => false,
    }
}

/// The two values are of the same variant.
pub open spec fn same_variant(a: Value, b: Value) -> bool {
    match (a, b) {
        (Value::Bool(_), Value::Bool(_)) => true,
        (Value::Nil, Value::Nil) => true,
        (Value::Number(_), Value::Number(_)) => true,
        _ => false,
    }
}

/// Values of different variants never compare equal.
pub proof fn lemma_cross_variant_unequal(a: Value, b: Value)
    requires
        !same_variant(a, b),
    ensures
        !val_eq(a, b),
{
}

/// A value equals itself, except a NaN number, which equals nothing.
pub proof fn lemma_equal_payload_equal(a: Value)
    requires
        !(a matches Value::Number(n) && f64_is_nan(n)),
    ensures
        val_eq(a, a),
{
}

/// Every number is truthy, zero included.
pub proof fn lemma_numbers_truthy(bits: u64)
    ensures
        !falsey(Value::Number(bits)),
{
}

} // verus!
