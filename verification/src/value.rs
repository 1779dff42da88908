//! Runtime values of the language.
//!
//! A number is carried as the bit pattern of an IEEE-754 binary64 value. This
//! module decides what can be read off that pattern exactly: its sign, whether
//! it is a number at all, equality and order. Sums, products and quotients need
//! rounding and are left to whoever embeds the machine.

use vstd::prelude::*;

verus! {

/// The weight of the sign bit of a binary64 pattern.
pub const SIGN_WEIGHT: u64 = 0x8000_0000_0000_0000;

/// The pattern of positive infinity; every larger magnitude is not a number.
pub const INFINITY_BITS: u64 = 0x7ff0_0000_0000_0000;

/// A value of the language: a number, a boolean, nil, or a reference to an
/// object of the heap, given as the object's position in the heap.
#[derive(Clone, Copy, Debug, PartialEq, Eq, Structural)]
pub enum Value {
    Number(u64),
    Bool(bool),
    Nil,
    Obj(usize),
}

/// Whether the sign bit of the pattern is set.
pub open spec fn sign_of(bits: u64) -> bool {
    bits >= SIGN_WEIGHT
}

/// The pattern without its sign bit.
pub open spec fn magnitude_of(bits: u64) -> int {
    if bits >= SIGN_WEIGHT {
        bits - SIGN_WEIGHT
    } else {
        bits as int
    }
}

/// Whether the pattern stands for no number (any NaN).
pub open spec fn not_a_number(bits: u64) -> bool {
    magnitude_of(bits) > INFINITY_BITS
}

/// IEEE equality of two patterns: no NaN equals anything, the two zeros are
/// equal, and every other pattern equals only itself.
pub open spec fn numbers_equal(a: u64, b: u64) -> bool {
    &&& !not_a_number(a)
    &&& !not_a_number(b)
    &&& (a == b || (magnitude_of(a) == 0 && magnitude_of(b) == 0))
}

/// IEEE order of two patterns: nothing is below or above a NaN, the two zeros
/// are not below each other, a negative number is below a positive one, and
/// within one sign the magnitudes decide.
pub open spec fn number_less(a: u64, b: u64) -> bool {
    &&& !not_a_number(a)
    &&& !not_a_number(b)
    &&& if sign_of(a) {
        if sign_of(b) {
            magnitude_of(a) > magnitude_of(b)
        } else {
            magnitude_of(a) != 0 || magnitude_of(b) != 0
        }
    } else {
        !sign_of(b) && magnitude_of(a) < magnitude_of(b)
    }
}

/// The pattern with its sign bit flipped.
pub open spec fn negated(bits: u64) -> u64 {
    if bits >= SIGN_WEIGHT {
        (bits - SIGN_WEIGHT) as u64
    } else {
        (bits + SIGN_WEIGHT) as u64
    }
}

/// Equality of the language: numbers by IEEE equality, booleans and nil by
/// value, objects by identity.
pub open spec fn values_equal(a: Value, b: Value) -> bool {
    match (a, b) {
        (Value::Number(x), Value::Number(y)) => numbers_equal(x, y),
        (Value::Bool(x), Value::Bool(y)) => x == y,
        (Value::Nil, Value::Nil) => true,
        (Value::Obj(x), Value::Obj(y)) => x == y,
        _ => false,
    }
}

/// Only nil and false are falsey.
pub open spec fn falsey(v: Value) -> bool {
    v == Value::Nil || v == Value::Bool(false)
}

/// The pattern without its sign bit.
fn magnitude(bits: u64) -> (m: u64)
    ensures
        m == magnitude_of(bits),
{
    if bits >= SIGN_WEIGHT {
        bits - SIGN_WEIGHT
    } else {
        bits
    }
}

/// Whether the pattern stands for no number.
pub fn is_nan(bits: u64) -> (r: bool)
    ensures
        r == not_a_number(bits),
{
    magnitude(bits) > INFINITY_BITS
}

/// IEEE equality of two patterns.
pub fn number_eq(a: u64, b: u64) -> (r: bool)
    ensures
        r == numbers_equal(a, b),
{
    let ma: u64 = magnitude(a);
    let mb: u64 = magnitude(b);
    ma <= INFINITY_BITS && mb <= INFINITY_BITS && (a == b || (ma == 0 && mb == 0))
}

/// IEEE `<` of two patterns.
pub fn number_lt(a: u64, b: u64) -> (r: bool)
    ensures
        r == number_less(a, b),
{
    let ma: u64 = magnitude(a);
    let mb: u64 = magnitude(b);
    if ma > INFINITY_BITS || mb > INFINITY_BITS {
        false
    } else if a >= SIGN_WEIGHT {
        if b >= SIGN_WEIGHT {
            ma > mb
        } else {
            ma != 0 || mb != 0
        }
    } else {
        b < SIGN_WEIGHT && ma < mb
    }
}

/// Arithmetic negation: the same pattern with the other sign.
pub fn number_neg(bits: u64) -> (r: u64)
    ensures
        r == negated(bits),
{
    if bits >= SIGN_WEIGHT {
        bits - SIGN_WEIGHT
    } else {
        bits + SIGN_WEIGHT
    }
}

impl Value {
    /// Whether the value counts as false in a condition.
    pub fn is_falsey(&self) -> (r: bool)
        ensures
            r == falsey(*self),
    {
        match self {
            Value::Nil => true,
            Value::Bool(b) => !*b,
            _ => false,
        }
    }

    /// Equality as the language's `==` sees it.
    pub fn equals(&self, other: &Value) -> (r: bool)
        ensures
            r == values_equal(*self, *other),
    {
        match (self, other) {
            (Value::Number(x), Value::Number(y)) => number_eq(*x, *y),
            (Value::Bool(x), Value::Bool(y)) => *x == *y,
            (Value::Nil, Value::Nil) => true,
            (Value::Obj(x), Value::Obj(y)) => *x == *y,
            _ => false,
        }
    }

    /// Whether the value is a number.
    pub fn is_number(&self) -> (r: bool)
        ensures
            r == (*self is Number),
    {
        match self {
            Value::Number(_) => true,
            _ => false,
        }
    }

    /// Whether the value refers to an object.
    pub fn is_obj(&self) -> (r: bool)
        ensures
            r == (*self is Obj),
    {
        match self {
            Value::Obj(_) => true,
            _ => false,
        }
    }
}

/// A value is truthy exactly when it is neither nil nor false; in particular
/// every number, zero included, and every object, the empty string included,
/// is truthy.
pub proof fn truthiness(v: Value)
    ensures
        falsey(v) <==> (v is Nil || v == Value::Bool(false)),
        v is Number ==> !falsey(v),
        v is Obj ==> !falsey(v),
        v == Value::Bool(true) ==> !falsey(v),
{
}

/// Equality of values is symmetric, and reflexive on everything but a NaN.
pub proof fn equality_laws(a: Value, b: Value)
    ensures
        values_equal(a, b) == values_equal(b, a),
        !(a is Number) ==> values_equal(a, a),
        a is Number ==> (values_equal(a, a) <==> !not_a_number(a->Number_0)),
{
}

/// Order of numbers is irreflexive and asymmetric, and a number below another
/// is not equal to it.
pub proof fn order_laws(a: u64, b: u64)
    ensures
        !number_less(a, a),
        number_less(a, b) ==> !number_less(b, a),
        number_less(a, b) ==> !numbers_equal(a, b),
        negated(negated(a)) == a,
{
}

} // verus!
