//! The tagged runtime value.
//!
//! `Int` is the on-stack representation of every sub-int integral category;
//! narrower values appear only in field and array storage.  `Float` and
//! `Double` hold IEEE 754 bit patterns; their arithmetic is delegated to the
//! software floating point behind `crate::floats`.  Integer arithmetic wraps,
//! shifts mask their count to the operand width, and integer division by
//! zero is an `ArithmeticException`.

use crate::descriptor::{BaseType, FieldType};
use crate::error::VmError;
use crate::floats::{
    f32_add, f32_add_bits, f32_div, f32_div_bits, f32_mul, f32_mul_bits, f32_rem, f32_rem_bits,
    f32_sub, f32_sub_bits, f64_add, f64_add_bits, f64_div, f64_div_bits, f64_mul, f64_mul_bits,
    f64_rem, f64_rem_bits, f64_sub, f64_sub_bits,
};
use crate::heap::{ArrayRef, ObjectRef};
use vstd::math::abs;
use vstd::prelude::*;
use vstd::wrapping::{i32_specs, i64_specs, u32_specs, u64_specs};

verus! {

/// A runtime value.  `Float` and `Double` hold IEEE 754 bit patterns.
#[derive(Debug, Clone, Copy, PartialEq)]
pub enum Value {
    Byte(i8),
    Char(u16),
    Double(u64),
    Float(u32),
    Int(i32),
    Long(i64),
    Short(i16),
    Boolean(bool),
    Object(Option<ObjectRef>),
    Array(Option<ArrayRef>),
}

/// Category-2 values occupy two local-variable slots and two dup-family
/// stack units.
pub open spec fn is_cat2(v: Value) -> bool {
    v matches Value::Long(_) || v matches Value::Double(_)
}

/// The zero value of a field type.
pub open spec fn default_value(ty: FieldType) -> Value {
    match ty {
        FieldType::BaseType(BaseType::B) => Value::Byte(0),
        FieldType::BaseType(BaseType::C) => Value::Char(0),
        FieldType::BaseType(BaseType::D) => Value::Double(0),
        FieldType::BaseType(BaseType::F) => Value::Float(0),
        FieldType::BaseType(BaseType::I) => Value::Int(0),
        FieldType::BaseType(BaseType::J) => Value::Long(0),
        FieldType::BaseType(BaseType::S) => Value::Short(0),
        FieldType::BaseType(BaseType::Z) => Value::Boolean(false),
        FieldType::ObjectType(_) => Value::Object(None),
        FieldType::ArrayType(_) => Value::Array(None),
    }
}

/// Widening of the sub-int integral categories to `Int`; every other value
/// passes through unchanged.
pub open spec fn extend_32_spec(v: Value) -> Value {
    match v {
        Value::Byte(x) => Value::Int(x as i32),
        Value::Short(x) => Value::Int(x as i32),
        Value::Boolean(x) => Value::Int(if x { 1 } else { 0 }),
        Value::Char(x) => Value::Int(x as i32),
        _ => v,
    }
}

/// Narrowing of an `Int` to the width a field of type `ty` stores; every
/// other value passes through unchanged.
pub open spec fn store_ty_spec(v: Value, ty: FieldType) -> Value {
    match v {
        Value::Int(x) => match ty {
            FieldType::BaseType(BaseType::I) => Value::Int(x),
            FieldType::BaseType(BaseType::B) => Value::Byte(x as i8),
            FieldType::BaseType(BaseType::S) => Value::Short(x as i16),
            FieldType::BaseType(BaseType::Z) => Value::Boolean((x & 1) == 1),
            FieldType::BaseType(BaseType::C) => Value::Char(x as u16),
            _ => v,
        },
        _ => v,
    }
}

/// Integer division truncated toward zero, with the one wrapping case
/// (`MIN / -1`) folded in.
pub open spec fn jvm_div_i32(a: i32, b: i32) -> i32 {
    if (a < 0) == (b < 0) {
        i32_specs::signed_crop(abs(a as int) as int / abs(b as int) as int)
    } else {
        i32_specs::signed_crop(-(abs(a as int) as int / abs(b as int) as int))
    }
}

pub open spec fn jvm_rem_i32(a: i32, b: i32) -> i32 {
    i32_specs::wrapping_sub(a, i32_specs::wrapping_mul(jvm_div_i32(a, b), b))
}

pub open spec fn jvm_div_i64(a: i64, b: i64) -> i64 {
    if (a < 0) == (b < 0) {
        i64_specs::signed_crop(abs(a as int) as int / abs(b as int) as int)
    } else {
        i64_specs::signed_crop(-(abs(a as int) as int / abs(b as int) as int))
    }
}

pub open spec fn jvm_rem_i64(a: i64, b: i64) -> i64 {
    i64_specs::wrapping_sub(a, i64_specs::wrapping_mul(jvm_div_i64(a, b), b))
}

/// Truncated division on `u32` magnitudes with the sign applied afterwards.
fn div_magnitude_i32(a: i32, b: i32) -> (r: i32)
    requires
        b != 0,
    ensures
        r == jvm_div_i32(a, b),
{
    let ua: u32 = if a < 0 {
        (-(a as i64)) as u32
    } else {
        a as u32
    };
    let ub: u32 = if b < 0 {
        (-(b as i64)) as u32
    } else {
        b as u32
    };
    assert(ua == abs(a as int) && ub == abs(b as int));
    let q: u32 = ua / ub;
    assert(q <= 0x8000_0000u32);
    if (a < 0) == (b < 0) {
        if q >= 0x8000_0000u32 {
            assert(i32_specs::signed_crop(q as int) == i32::MIN);
            i32::MIN
        } else {
            assert(i32_specs::signed_crop(q as int) == q as i32);
            q as i32
        }
    } else {
        assert(i32_specs::signed_crop(-(q as int)) == (-(q as i64)) as i32);
        (-(q as i64)) as i32
    }
}

fn div_magnitude_i64(a: i64, b: i64) -> (r: i64)
    requires
        b != 0,
    ensures
        r == jvm_div_i64(a, b),
{
    let ua: u64 = if a < 0 {
        (-(a as i128)) as u64
    } else {
        a as u64
    };
    let ub: u64 = if b < 0 {
        (-(b as i128)) as u64
    } else {
        b as u64
    };
    assert(ua == abs(a as int) && ub == abs(b as int));
    let q: u64 = ua / ub;
    assert(q <= 0x8000_0000_0000_0000u64);
    if (a < 0) == (b < 0) {
        if q >= 0x8000_0000_0000_0000u64 {
            assert(i64_specs::signed_crop(q as int) == i64::MIN);
            i64::MIN
        } else {
            assert(i64_specs::signed_crop(q as int) == q as i64);
            q as i64
        }
    } else {
        assert(i64_specs::signed_crop(-(q as int)) == (-(q as i128)) as i64);
        (-(q as i128)) as i64
    }
}

impl Value {
    pub fn is_cat_2(&self) -> (r: bool)
        ensures
            r == is_cat2(*self),
    {
        match self {
            Value::Long(_) => true,
            Value::Double(_) => true,
            _ => false,
        }
    }

    /// The zero value of a field type: what freshly allocated storage reads
    /// back as.
    pub fn default_for_ty(ty: &FieldType) -> (r: Value)
        ensures
            r == default_value(*ty),
    {
        match ty {
            FieldType::BaseType(BaseType::B) => Value::Byte(0),
            FieldType::BaseType(BaseType::C) => Value::Char(0),
            FieldType::BaseType(BaseType::D) => Value::Double(0),
            FieldType::BaseType(BaseType::F) => Value::Float(0),
            FieldType::BaseType(BaseType::I) => Value::Int(0),
            FieldType::BaseType(BaseType::J) => Value::Long(0),
            FieldType::BaseType(BaseType::S) => Value::Short(0),
            FieldType::BaseType(BaseType::Z) => Value::Boolean(false),
            FieldType::ObjectType(_) => Value::Object(None),
            FieldType::ArrayType(_) => Value::Array(None),
        }
    }

    /// Widen a sub-int value to `Int`, as loads from narrow storage do.
    pub fn extend_32(self) -> (r: Value)
        ensures
            r == extend_32_spec(self),
    {
        match self {
            Value::Byte(x) => Value::Int(x as i32),
            Value::Short(x) => Value::Int(x as i32),
            Value::Boolean(x) => Value::Int(if x { 1 } else { 0 }),
            Value::Char(x) => Value::Int(x as i32),
            x => x,
        }
    }

    /// Narrow an `Int` to the storage width of `ty` before writing it.
    pub fn store_ty(self, ty: &FieldType) -> (r: Value)
        ensures
            r == store_ty_spec(self, *ty),
    {
        if let Value::Int(x) = self {
            match ty {
                FieldType::BaseType(BaseType::I) => Value::Int(x),
                FieldType::BaseType(BaseType::B) => Value::Byte(x as i8),
                FieldType::BaseType(BaseType::S) => Value::Short(x as i16),
                FieldType::BaseType(BaseType::Z) => Value::Boolean((x & 1) == 1),
                FieldType::BaseType(BaseType::C) => Value::Char(x as u16),
                _ => self,
            }
        } else {
            self
        }
    }

    /// Addition: wrapping on the integer categories, IEEE 754 on the
    /// floating categories; a mixed pair of tags is an invariant violation.
    pub fn add_val(self, rhs: Value) -> (r: Result<Value, VmError>)
        ensures
            match (self, rhs) {
                (Value::Int(a), Value::Int(b)) => r == Ok::<Value, VmError>(
                    Value::Int(i32_specs::wrapping_add(a, b)),
                ),
                (Value::Long(a), Value::Long(b)) => r == Ok::<Value, VmError>(
                    Value::Long(i64_specs::wrapping_add(a, b)),
                ),
                (Value::Float(a), Value::Float(b)) => r == Ok::<Value, VmError>(
                    Value::Float(f32_add_bits(a, b)),
                ),
                (Value::Double(a), Value::Double(b)) => r == Ok::<Value, VmError>(
                    Value::Double(f64_add_bits(a, b)),
                ),
                _ => r == Err::<Value, VmError>(VmError::InvalidType),
            },
    {
        match (self, rhs) {
            (Value::Int(a), Value::Int(b)) => Ok(Value::Int(a.wrapping_add(b))),
            (Value::Long(a), Value::Long(b)) => Ok(Value::Long(a.wrapping_add(b))),
            (Value::Float(a), Value::Float(b)) => Ok(Value::Float(f32_add(a, b))),
            (Value::Double(a), Value::Double(b)) => Ok(Value::Double(f64_add(a, b))),
            _ => Err(VmError::InvalidType),
        }
    }

    pub fn sub_val(self, rhs: Value) -> (r: Result<Value, VmError>)
        ensures
            match (self, rhs) {
                (Value::Int(a), Value::Int(b)) => r == Ok::<Value, VmError>(
                    Value::Int(i32_specs::wrapping_sub(a, b)),
                ),
                (Value::Long(a), Value::Long(b)) => r == Ok::<Value, VmError>(
                    Value::Long(i64_specs::wrapping_sub(a, b)),
                ),
                (Value::Float(a), Value::Float(b)) => r == Ok::<Value, VmError>(
                    Value::Float(f32_sub_bits(a, b)),
                ),
                (Value::Double(a), Value::Double(b)) => r == Ok::<Value, VmError>(
                    Value::Double(f64_sub_bits(a, b)),
                ),
                _ => r == Err::<Value, VmError>(VmError::InvalidType),
            },
    {
        match (self, rhs) {
            (Value::Int(a), Value::Int(b)) => Ok(Value::Int(a.wrapping_sub(b))),
            (Value::Long(a), Value::Long(b)) => Ok(Value::Long(a.wrapping_sub(b))),
            (Value::Float(a), Value::Float(b)) => Ok(Value::Float(f32_sub(a, b))),
            (Value::Double(a), Value::Double(b)) => Ok(Value::Double(f64_sub(a, b))),
            _ => Err(VmError::InvalidType),
        }
    }

    pub fn mul_val(self, rhs: Value) -> (r: Result<Value, VmError>)
        ensures
            match (self, rhs) {
                (Value::Int(a), Value::Int(b)) => r == Ok::<Value, VmError>(
                    Value::Int(i32_specs::wrapping_mul(a, b)),
                ),
                (Value::Long(a), Value::Long(b)) => r == Ok::<Value, VmError>(
                    Value::Long(i64_specs::wrapping_mul(a, b)),
                ),
                (Value::Float(a), Value::Float(b)) => r == Ok::<Value, VmError>(
                    Value::Float(f32_mul_bits(a, b)),
                ),
                (Value::Double(a), Value::Double(b)) => r == Ok::<Value, VmError>(
                    Value::Double(f64_mul_bits(a, b)),
                ),
                _ => r == Err::<Value, VmError>(VmError::InvalidType),
            },
    {
        match (self, rhs) {
            (Value::Int(a), Value::Int(b)) => Ok(Value::Int(a.wrapping_mul(b))),
            (Value::Long(a), Value::Long(b)) => Ok(Value::Long(a.wrapping_mul(b))),
            (Value::Float(a), Value::Float(b)) => Ok(Value::Float(f32_mul(a, b))),
            (Value::Double(a), Value::Double(b)) => Ok(Value::Double(f64_mul(a, b))),
            _ => Err(VmError::InvalidType),
        }
    }

    /// Division.  Integer division by zero is an `ArithmeticException`;
    /// floating division never traps.
    pub fn div_val(self, rhs: Value) -> (r: Result<Value, VmError>)
        ensures
            match (self, rhs) {
                (Value::Int(a), Value::Int(b)) => if b == 0 {
                    r == Err::<Value, VmError>(VmError::ArithmeticException)
                } else {
                    r == Ok::<Value, VmError>(Value::Int(jvm_div_i32(a, b)))
                },
                (Value::Long(a), Value::Long(b)) => if b == 0 {
                    r == Err::<Value, VmError>(VmError::ArithmeticException)
                } else {
                    r == Ok::<Value, VmError>(Value::Long(jvm_div_i64(a, b)))
                },
                (Value::Float(a), Value::Float(b)) => r == Ok::<Value, VmError>(
                    Value::Float(f32_div_bits(a, b)),
                ),
                (Value::Double(a), Value::Double(b)) => r == Ok::<Value, VmError>(
                    Value::Double(f64_div_bits(a, b)),
                ),
                _ => r == Err::<Value, VmError>(VmError::InvalidType),
            },
    {
        match (self, rhs) {
            (Value::Int(a), Value::Int(b)) => {
                if b == 0 {
                    Err(VmError::ArithmeticException)
                } else {
                    Ok(Value::Int(div_magnitude_i32(a, b)))
                }
            },
            (Value::Long(a), Value::Long(b)) => {
                if b == 0 {
                    Err(VmError::ArithmeticException)
                } else {
                    Ok(Value::Long(div_magnitude_i64(a, b)))
                }
            },
            (Value::Float(a), Value::Float(b)) => Ok(Value::Float(f32_div(a, b))),
            (Value::Double(a), Value::Double(b)) => Ok(Value::Double(f64_div(a, b))),
            _ => Err(VmError::InvalidType),
        }
    }

    /// Remainder, paired with `div_val` so that `a == (a/b)*b + (a%b)` on the
    /// integer categories.
    pub fn rem_val(self, rhs: Value) -> (r: Result<Value, VmError>)
        ensures
            match (self, rhs) {
                (Value::Int(a), Value::Int(b)) => if b == 0 {
                    r == Err::<Value, VmError>(VmError::ArithmeticException)
                } else {
                    r == Ok::<Value, VmError>(Value::Int(jvm_rem_i32(a, b)))
                },
                (Value::Long(a), Value::Long(b)) => if b == 0 {
                    r == Err::<Value, VmError>(VmError::ArithmeticException)
                } else {
                    r == Ok::<Value, VmError>(Value::Long(jvm_rem_i64(a, b)))
                },
                (Value::Float(a), Value::Float(b)) => r == Ok::<Value, VmError>(
                    Value::Float(f32_rem_bits(a, b)),
                ),
                (Value::Double(a), Value::Double(b)) => r == Ok::<Value, VmError>(
                    Value::Double(f64_rem_bits(a, b)),
                ),
                _ => r == Err::<Value, VmError>(VmError::InvalidType),
            },
    {
        match (self, rhs) {
            (Value::Int(a), Value::Int(b)) => {
                if b == 0 {
                    Err(VmError::ArithmeticException)
                } else {
                    let q = div_magnitude_i32(a, b);
                    Ok(Value::Int(a.wrapping_sub(q.wrapping_mul(b))))
                }
            },
            (Value::Long(a), Value::Long(b)) => {
                if b == 0 {
                    Err(VmError::ArithmeticException)
                } else {
                    let q = div_magnitude_i64(a, b);
                    Ok(Value::Long(a.wrapping_sub(q.wrapping_mul(b))))
                }
            },
            (Value::Float(a), Value::Float(b)) => Ok(Value::Float(f32_rem(a, b))),
            (Value::Double(a), Value::Double(b)) => Ok(Value::Double(f64_rem(a, b))),
            _ => Err(VmError::InvalidType),
        }
    }

    /// Arithmetic negation: wrapping on integers, a sign-bit flip on the
    /// floating categories.
    pub fn neg_val(self) -> (r: Result<Value, VmError>)
        ensures
            match self {
                Value::Int(a) => r == Ok::<Value, VmError>(
                    Value::Int(i32_specs::wrapping_sub(0, a)),
                ),
                Value::Long(a) => r == Ok::<Value, VmError>(
                    Value::Long(i64_specs::wrapping_sub(0, a)),
                ),
                Value::Float(a) => r == Ok::<Value, VmError>(Value::Float(a ^ 0x8000_0000u32)),
                Value::Double(a) => r == Ok::<Value, VmError>(
                    Value::Double(a ^ 0x8000_0000_0000_0000u64),
                ),
                _ => r == Err::<Value, VmError>(VmError::InvalidType),
            },
    {
        match self {
            Value::Int(a) => Ok(Value::Int(0i32.wrapping_sub(a))),
            Value::Long(a) => Ok(Value::Long(0i64.wrapping_sub(a))),
            Value::Float(a) => Ok(Value::Float(a ^ 0x8000_0000u32)),
            Value::Double(a) => Ok(Value::Double(a ^ 0x8000_0000_0000_0000u64)),
            _ => Err(VmError::InvalidType),
        }
    }

    /// Left shift; the count is an `Int` and only its low bits are used
    /// (five for `Int`, six for `Long`).
    pub fn shl_val(self, rhs: Value) -> (r: Result<Value, VmError>)
        ensures
            match (self, rhs) {
                (Value::Int(a), Value::Int(b)) => r == Ok::<Value, VmError>(
                    Value::Int(i32_specs::wrapping_shl(a, b as u32)),
                ),
                (Value::Long(a), Value::Int(b)) => r == Ok::<Value, VmError>(
                    Value::Long(i64_specs::wrapping_shl(a, b as u32)),
                ),
                _ => r == Err::<Value, VmError>(VmError::InvalidType),
            },
    {
        match (self, rhs) {
            (Value::Int(a), Value::Int(b)) => Ok(Value::Int(a.wrapping_shl(b as u32))),
            (Value::Long(a), Value::Int(b)) => Ok(Value::Long(a.wrapping_shl(b as u32))),
            _ => Err(VmError::InvalidType),
        }
    }

    /// Arithmetic right shift, count masked as in `shl_val`.
    pub fn shr_val(self, rhs: Value) -> (r: Result<Value, VmError>)
        ensures
            match (self, rhs) {
                (Value::Int(a), Value::Int(b)) => r == Ok::<Value, VmError>(
                    Value::Int(i32_specs::wrapping_shr(a, b as u32)),
                ),
                (Value::Long(a), Value::Int(b)) => r == Ok::<Value, VmError>(
                    Value::Long(i64_specs::wrapping_shr(a, b as u32)),
                ),
                _ => r == Err::<Value, VmError>(VmError::InvalidType),
            },
    {
        match (self, rhs) {
            (Value::Int(a), Value::Int(b)) => Ok(Value::Int(a.wrapping_shr(b as u32))),
            (Value::Long(a), Value::Int(b)) => Ok(Value::Long(a.wrapping_shr(b as u32))),
            _ => Err(VmError::InvalidType),
        }
    }

    /// Logical (unsigned) right shift, count masked as in `shl_val`.
    pub fn ushr(self, rhs: Value) -> (r: Result<Value, VmError>)
        ensures
            match (self, rhs) {
                (Value::Int(a), Value::Int(b)) => r == Ok::<Value, VmError>(
                    Value::Int(u32_specs::wrapping_shr(a as u32, b as u32) as i32),
                ),
                (Value::Long(a), Value::Int(b)) => r == Ok::<Value, VmError>(
                    Value::Long(u64_specs::wrapping_shr(a as u64, b as u32) as i64),
                ),
                _ => r == Err::<Value, VmError>(VmError::InvalidType),
            },
    {
        match (self, rhs) {
            (Value::Int(a), Value::Int(b)) => Ok(
                Value::Int((a as u32).wrapping_shr(b as u32) as i32),
            ),
            (Value::Long(a), Value::Int(b)) => Ok(
                Value::Long((a as u64).wrapping_shr(b as u32) as i64),
            ),
            _ => Err(VmError::InvalidType),
        }
    }

    pub fn and_val(self, rhs: Value) -> (r: Result<Value, VmError>)
        ensures
            match (self, rhs) {
                (Value::Int(a), Value::Int(b)) => r == Ok::<Value, VmError>(Value::Int(a & b)),
                (Value::Long(a), Value::Long(b)) => r == Ok::<Value, VmError>(Value::Long(a & b)),
                _ => r == Err::<Value, VmError>(VmError::InvalidType),
            },
    {
        match (self, rhs) {
            (Value::Int(a), Value::Int(b)) => Ok(Value::Int(a & b)),
            (Value::Long(a), Value::Long(b)) => Ok(Value::Long(a & b)),
            _ => Err(VmError::InvalidType),
        }
    }

    pub fn or_val(self, rhs: Value) -> (r: Result<Value, VmError>)
        ensures
            match (self, rhs) {
                (Value::Int(a), Value::Int(b)) => r == Ok::<Value, VmError>(Value::Int(a | b)),
                (Value::Long(a), Value::Long(b)) => r == Ok::<Value, VmError>(Value::Long(a | b)),
                _ => r == Err::<Value, VmError>(VmError::InvalidType),
            },
    {
        match (self, rhs) {
            (Value::Int(a), Value::Int(b)) => Ok(Value::Int(a | b)),
            (Value::Long(a), Value::Long(b)) => Ok(Value::Long(a | b)),
            _ => Err(VmError::InvalidType),
        }
    }

    pub fn xor_val(self, rhs: Value) -> (r: Result<Value, VmError>)
        ensures
            match (self, rhs) {
                (Value::Int(a), Value::Int(b)) => r == Ok::<Value, VmError>(Value::Int(a ^ b)),
                (Value::Long(a), Value::Long(b)) => r == Ok::<Value, VmError>(Value::Long(a ^ b)),
                _ => r == Err::<Value, VmError>(VmError::InvalidType),
            },
    {
        match (self, rhs) {
            (Value::Int(a), Value::Int(b)) => Ok(Value::Int(a ^ b)),
            (Value::Long(a), Value::Long(b)) => Ok(Value::Long(a ^ b)),
            _ => Err(VmError::InvalidType),
        }
    }

    pub fn byte(self) -> (r: i8)
        requires
            self is Byte,
        ensures
            self == Value::Byte(r),
    {
        match self {
            Value::Byte(x) => x,
            _ => 0,
        }
    }

    pub fn char(self) -> (r: u16)
        requires
            self is Char,
        ensures
            self == Value::Char(r),
    {
        match self {
            Value::Char(x) => x,
            _ => 0,
        }
    }

    /// The bit pattern of a `Double` value.
    pub fn double(self) -> (r: u64)
        requires
            self is Double,
        ensures
            self == Value::Double(r),
    {
        match self {
            Value::Double(x) => x,
            _ => 0,
        }
    }

    /// The bit pattern of a `Float` value.
    pub fn float(self) -> (r: u32)
        requires
            self is Float,
        ensures
            self == Value::Float(r),
    {
        match self {
            Value::Float(x) => x,
            _ => 0,
        }
    }

    pub fn int_val(self) -> (r: i32)
        requires
            self is Int,
        ensures
            self == Value::Int(r),
    {
        match self {
            Value::Int(x) => x,
            _ => 0,
        }
    }

    pub fn long(self) -> (r: i64)
        requires
            self is Long,
        ensures
            self == Value::Long(r),
    {
        match self {
            Value::Long(x) => x,
            _ => 0,
        }
    }

    pub fn short(self) -> (r: i16)
        requires
            self is Short,
        ensures
            self == Value::Short(r),
    {
        match self {
            Value::Short(x) => x,
            _ => 0,
        }
    }

    pub fn boolean(self) -> (r: bool)
        requires
            self is Boolean,
        ensures
            self == Value::Boolean(r),
    {
        match self {
            Value::Boolean(x) => x,
            _ => false,
        }
    }

    /// The reference in an `Object` value; an `Array` value is accepted too,
    /// seen as an object.
    pub fn object(self) -> (r: Option<ObjectRef>)
        requires
            self is Object || self is Array,
        ensures
            match self {
                Value::Object(o) => r == o,
                Value::Array(a) => match (a, r) {
                    (Some(ar), Some(or)) => or.0 == ar.0,
                    (None, None) => true,
                    _ => false,
                },
                _ => true,
            },
    {
        match self {
            Value::Array(arr_ref) => match arr_ref {
                Some(arr) => Some(arr.cast_to_object()),
                None => None,
            },
            Value::Object(o) => o,
            _ => None,
        }
    }

    pub fn array(self) -> (r: Option<ArrayRef>)
        requires
            self is Array,
        ensures
            self == Value::Array(r),
    {
        match self {
            Value::Array(x) => x,
            _ => None,
        }
    }
}

} // verus!
