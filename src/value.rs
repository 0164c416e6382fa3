use vstd::prelude::*;

verus! {

/// Sign bit of an IEEE-754 single-precision bit pattern.
pub const SIGN_BIT: u32 = 0x8000_0000;

/// Exponent field of an IEEE-754 single-precision bit pattern.
pub const EXPONENT_MASK: u32 = 0x7f80_0000;

/// Fraction field of an IEEE-754 single-precision bit pattern.
pub const FRACTION_MASK: u32 = 0x007f_ffff;

/// A runtime value. Numbers are single-precision floats, held as their bit pattern.
#[derive(Clone, Copy, Debug, PartialEq, Eq, Structural)]
pub enum Value {
    Bool(bool),
    Nil,
    Number(u32),
}

/// The bit pattern is a NaN: all exponent bits set and a nonzero fraction.
pub open spec fn spec_is_nan(bits: u32) -> bool {
    bits & EXPONENT_MASK == EXPONENT_MASK && bits & FRACTION_MASK != 0
}

/// The bit pattern is positive or negative zero.
pub open spec fn spec_is_zero(bits: u32) -> bool {
    bits & !SIGN_BIT == 0
}

/// IEEE equality of two single-precision numbers given by their bits:
/// NaN equals nothing, the two zeros are equal, everything else by pattern.
pub open spec fn spec_num_eq(a: u32, b: u32) -> bool {
    !spec_is_nan(a) && !spec_is_nan(b) && (a == b || (spec_is_zero(a) && spec_is_zero(b)))
}

/// Position of a non-NaN bit pattern on the number line: the magnitude bits,
/// negated when the sign bit is set (both zeros map to 0).
pub open spec fn spec_order_key(bits: u32) -> int {
    if bits & SIGN_BIT == 0 {
        (bits & !SIGN_BIT) as int
    } else {
        -((bits & !SIGN_BIT) as int)
    }
}

/// IEEE `<` on bit patterns: false when either side is NaN.
pub open spec fn spec_num_lt(a: u32, b: u32) -> bool {
    !spec_is_nan(a) && !spec_is_nan(b) && spec_order_key(a) < spec_order_key(b)
}

/// Truthiness: `nil` and `false` are falsey, everything else is truthy.
pub open spec fn spec_is_falsey(v: Value) -> bool {
    match v {
        Value::Nil => true,
        Value::Bool(b) => !b,
        Value::Number(_) => false,
    }
}

/// Language-level equality: distinct tags are never equal.
pub open spec fn spec_values_equal(a: Value, b: Value) -> bool {
    match (a, b) {
        (Value::Bool(x), Value::Bool(y)) => x == y,
        (Value::Nil, Value::Nil) => true,
        (Value::Number(x), Value::Number(y)) => spec_num_eq(x, y),
        _ => false,
    }
}

pub fn num_eq(a: u32, b: u32) -> (r: bool)
    ensures
        r == spec_num_eq(a, b),
{
    let a_nan = a & EXPONENT_MASK == EXPONENT_MASK && a & FRACTION_MASK != 0;
    let b_nan = b & EXPONENT_MASK == EXPONENT_MASK && b & FRACTION_MASK != 0;
    !a_nan && !b_nan && (a == b || (a & !SIGN_BIT == 0 && b & !SIGN_BIT == 0))
}

/// IEEE `<` on bit patterns.
pub fn num_lt(a: u32, b: u32) -> (r: bool)
    ensures
        r == spec_num_lt(a, b),
{
    let a_nan = a & EXPONENT_MASK == EXPONENT_MASK && a & FRACTION_MASK != 0;
    let b_nan = b & EXPONENT_MASK == EXPONENT_MASK && b & FRACTION_MASK != 0;
    if a_nan || b_nan {
        return false;
    }
    let a_mag = (a & !SIGN_BIT) as i64;
    let b_mag = (b & !SIGN_BIT) as i64;
    let a_key = if a & SIGN_BIT == 0 {
        a_mag
    } else {
        -a_mag
    };
    let b_key = if b & SIGN_BIT == 0 {
        b_mag
    } else {
        -b_mag
    };
    a_key < b_key
}

/// IEEE negation flips the sign bit.
pub open spec fn spec_negate(bits: u32) -> u32 {
    bits ^ SIGN_BIT
}

pub fn negate(bits: u32) -> (r: u32)
    ensures
        r == spec_negate(bits),
{
    bits ^ SIGN_BIT
}

impl Value {
    pub fn is_bool(&self) -> (r: bool)
        ensures
            r == (*self is Bool),
    {
        matches!(*self, Value::Bool(_))
    }

    pub fn is_number(&self) -> (r: bool)
        ensures
            r == (*self is Number),
    {
        matches!(*self, Value::Number(_))
    }

    pub fn is_nil(&self) -> (r: bool)
        ensures
            r == (*self is Nil),
    {
        matches!(*self, Value::Nil)
    }

    pub fn as_bool(&self) -> (r: bool)
        requires
            *self is Bool,
        ensures
            *self == Value::Bool(r),
    {
        match *self {
            Value::Bool(value) => value,
            _ => false,
        }
    }

    /// The bit pattern of a number.
    pub fn as_number(&self) -> (r: u32)
        requires
            *self is Number,
        ensures
            *self == Value::Number(r),
    {
        match *self {
            Value::Number(value) => value,
            _ => 0,
        }
    }

    pub fn is_falsey(&self) -> (r: bool)
        ensures
            r == spec_is_falsey(*self),
    {
        match *self {
            Value::Bool(value) => !value,
            Value::Nil => true,
            _ => false,
        }
    }

    pub fn is_equal(&self, other: &Value) -> (r: bool)
        ensures
            r == spec_values_equal(*self, *other),
    {
        match (*self, *other) {
            (Value::Bool(a), Value::Bool(b)) => a == b,
            (Value::Nil, Value::Nil) => true,
            (Value::Number(a), Value::Number(b)) => num_eq(a, b),
            _ => false,
        }
    }
}

} // verus!
