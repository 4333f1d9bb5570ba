use vstd::prelude::*;

use crate::rt::{
    add_spec, div_spec, mul_spec, neg_spec, ord_spec, same_int_kind, sub_spec, val_is_int,
    OpKind, RuntimeError, Value,
};
use crate::span::Span;
use crate::ttype::ast::Expr;

verus! {

/// What a value becomes as a typed constant expression; the synthetic
/// node carries an empty span.
pub open spec fn expr_of_value(value: Value) -> Expr {
    let sp = Span { start: 0, end: 0 };
    match value {
        Value::Unit => Expr::ConstUnit(sp),
        Value::U8(v) => Expr::ConstU8(sp, v),
        Value::I8(v) => Expr::ConstI8(sp, v),
        Value::I16(v) => Expr::ConstI16(sp, v),
        Value::U16(v) => Expr::ConstU16(sp, v),
        Value::I32(v) => Expr::ConstI32(sp, v),
        Value::U32(v) => Expr::ConstU32(sp, v),
        Value::CompInt(i) => Expr::ConstCompInteger(sp, i),
        Value::Boolean(b) => Expr::ConstBoolean(sp, b),
        Value::String(s) => Expr::ConstString(sp, s),
        Value::Null => Expr::ConstNull(sp),
    }
}

impl From<Value> for Expr {
    fn from(value: Value) -> (r: Expr) {
        let sp = Span { start: 0, end: 0 };
        match value {
            Value::Unit => Expr::ConstUnit(sp),
            Value::U8(v) => Expr::ConstU8(sp, v),
            Value::I8(v) => Expr::ConstI8(sp, v),
            Value::I16(v) => Expr::ConstI16(sp, v),
            Value::U16(v) => Expr::ConstU16(sp, v),
            Value::I32(v) => Expr::ConstI32(sp, v),
            Value::U32(v) => Expr::ConstU32(sp, v),
            Value::CompInt(i) => Expr::ConstCompInteger(sp, i),
            Value::Boolean(b) => Expr::ConstBoolean(sp, b),
            Value::String(s) => Expr::ConstString(sp, s),
            Value::Null => Expr::ConstNull(sp),
        }
    }
}

impl vstd::std_specs::convert::FromSpecImpl<Value> for Expr {
    open spec fn obeys_from_spec() -> bool {
        true
    }

    open spec fn from_spec(value: Value) -> Expr {
        expr_of_value(value)
    }
}

impl Value {
    /// Checked addition of two equally wide numeric values.
    pub fn add(self, rhs: Self) -> (r: Result<Value, RuntimeError>)
        requires
            same_int_kind(self, rhs),
        ensures
            r == add_spec(self, rhs),
    {
        match (self, rhs) {
            (Value::I8(i1), Value::I8(i2)) => match i1.checked_add(i2) {
                Some(v) => Ok(Value::I8(v)),
                None => Err(RuntimeError::IntOverflow(OpKind::Add, i1 as i128, i2 as i128)),
            },
            (Value::U8(i1), Value::U8(i2)) => match i1.checked_add(i2) {
                Some(v) => Ok(Value::U8(v)),
                None => Err(RuntimeError::IntOverflow(OpKind::Add, i1 as i128, i2 as i128)),
            },
            (Value::I16(i1), Value::I16(i2)) => match i1.checked_add(i2) {
                Some(v) => Ok(Value::I16(v)),
                None => Err(RuntimeError::IntOverflow(OpKind::Add, i1 as i128, i2 as i128)),
            },
            (Value::U16(i1), Value::U16(i2)) => match i1.checked_add(i2) {
                Some(v) => Ok(Value::U16(v)),
                None => Err(RuntimeError::IntOverflow(OpKind::Add, i1 as i128, i2 as i128)),
            },
            (Value::I32(i1), Value::I32(i2)) => match i1.checked_add(i2) {
                Some(v) => Ok(Value::I32(v)),
                None => Err(RuntimeError::IntOverflow(OpKind::Add, i1 as i128, i2 as i128)),
            },
            (Value::U32(i1), Value::U32(i2)) => match i1.checked_add(i2) {
                Some(v) => Ok(Value::U32(v)),
                None => Err(RuntimeError::IntOverflow(OpKind::Add, i1 as i128, i2 as i128)),
            },
            (Value::CompInt(i1), Value::CompInt(i2)) => match i1.checked_add(i2) {
                Some(v) => Ok(Value::CompInt(v)),
                None => Err(RuntimeError::IntOverflow(OpKind::Add, i1, i2)),
            },
            _ => {
                proof {
                    assert(false);
                }
                Err(RuntimeError::InvalidMain)
            },
        }
    }

    /// Checked negation; negating a non-zero unsigned value overflows.
    pub fn neg(self) -> (r: Result<Value, RuntimeError>)
        requires
            val_is_int(self),
        ensures
            r == neg_spec(self),
    {
        match self {
            Value::I8(i) => {
                if i == i8::MIN {
                    Err(RuntimeError::IntOverflow(OpKind::Neg, 0, i as i128))
                } else {
                    Ok(Value::I8(-i))
                }
            },
            Value::U8(i) => {
                if i == 0 {
                    Ok(Value::U8(0))
                } else {
                    Err(RuntimeError::IntOverflow(OpKind::Neg, 0, i as i128))
                }
            },
            Value::I16(i) => {
                if i == i16::MIN {
                    Err(RuntimeError::IntOverflow(OpKind::Neg, 0, i as i128))
                } else {
                    Ok(Value::I16(-i))
                }
            },
            Value::U16(i) => {
                if i == 0 {
                    Ok(Value::U16(0))
                } else {
                    Err(RuntimeError::IntOverflow(OpKind::Neg, 0, i as i128))
                }
            },
            Value::I32(i) => {
                if i == i32::MIN {
                    Err(RuntimeError::IntOverflow(OpKind::Neg, 0, i as i128))
                } else {
                    Ok(Value::I32(-i))
                }
            },
            Value::U32(i) => {
                if i == 0 {
                    Ok(Value::U32(0))
                } else {
                    Err(RuntimeError::IntOverflow(OpKind::Neg, 0, i as i128))
                }
            },
            Value::CompInt(i) => {
                if i == i128::MIN {
                    Err(RuntimeError::IntOverflow(OpKind::Neg, 0, i))
                } else {
                    Ok(Value::CompInt(-i))
                }
            },
            _ => {
                proof {
                    assert(false);
                }
                Err(RuntimeError::InvalidMain)
            },
        }
    }

    /// Checked subtraction of two equally wide numeric values.
    pub fn sub(self, rhs: Self) -> (r: Result<Value, RuntimeError>)
        requires
            same_int_kind(self, rhs),
        ensures
            r == sub_spec(self, rhs),
    {
        match (self, rhs) {
            (Value::I8(i1), Value::I8(i2)) => match i1.checked_sub(i2) {
                Some(v) => Ok(Value::I8(v)),
                None => Err(RuntimeError::IntOverflow(OpKind::Sub, i1 as i128, i2 as i128)),
            },
            (Value::U8(i1), Value::U8(i2)) => match i1.checked_sub(i2) {
                Some(v) => Ok(Value::U8(v)),
                None => Err(RuntimeError::IntOverflow(OpKind::Sub, i1 as i128, i2 as i128)),
            },
            (Value::I16(i1), Value::I16(i2)) => match i1.checked_sub(i2) {
                Some(v) => Ok(Value::I16(v)),
                None => Err(RuntimeError::IntOverflow(OpKind::Sub, i1 as i128, i2 as i128)),
            },
            (Value::U16(i1), Value::U16(i2)) => match i1.checked_sub(i2) {
                Some(v) => Ok(Value::U16(v)),
                None => Err(RuntimeError::IntOverflow(OpKind::Sub, i1 as i128, i2 as i128)),
            },
            (Value::I32(i1), Value::I32(i2)) => match i1.checked_sub(i2) {
                Some(v) => Ok(Value::I32(v)),
                None => Err(RuntimeError::IntOverflow(OpKind::Sub, i1 as i128, i2 as i128)),
            },
            (Value::U32(i1), Value::U32(i2)) => match i1.checked_sub(i2) {
                Some(v) => Ok(Value::U32(v)),
                None => Err(RuntimeError::IntOverflow(OpKind::Sub, i1 as i128, i2 as i128)),
            },
            (Value::CompInt(i1), Value::CompInt(i2)) => match i1.checked_sub(i2) {
                Some(v) => Ok(Value::CompInt(v)),
                None => Err(RuntimeError::IntOverflow(OpKind::Sub, i1, i2)),
            },
            _ => {
                proof {
                    assert(false);
                }
                Err(RuntimeError::InvalidMain)
            },
        }
    }

    /// Checked multiplication of two equally wide numeric values.
    pub fn mul(self, rhs: Self) -> (r: Result<Value, RuntimeError>)
        requires
            same_int_kind(self, rhs),
        ensures
            r == mul_spec(self, rhs),
    {
        match (self, rhs) {
            (Value::I8(i1), Value::I8(i2)) => match i1.checked_mul(i2) {
                Some(v) => Ok(Value::I8(v)),
                None => Err(RuntimeError::IntOverflow(OpKind::Mul, i1 as i128, i2 as i128)),
            },
            (Value::U8(i1), Value::U8(i2)) => match i1.checked_mul(i2) {
                Some(v) => Ok(Value::U8(v)),
                None => Err(RuntimeError::IntOverflow(OpKind::Mul, i1 as i128, i2 as i128)),
            },
            (Value::I16(i1), Value::I16(i2)) => match i1.checked_mul(i2) {
                Some(v) => Ok(Value::I16(v)),
                None => Err(RuntimeError::IntOverflow(OpKind::Mul, i1 as i128, i2 as i128)),
            },
            (Value::U16(i1), Value::U16(i2)) => match i1.checked_mul(i2) {
                Some(v) => Ok(Value::U16(v)),
                None => Err(RuntimeError::IntOverflow(OpKind::Mul, i1 as i128, i2 as i128)),
            },
            (Value::I32(i1), Value::I32(i2)) => match i1.checked_mul(i2) {
                Some(v) => Ok(Value::I32(v)),
                None => Err(RuntimeError::IntOverflow(OpKind::Mul, i1 as i128, i2 as i128)),
            },
            (Value::U32(i1), Value::U32(i2)) => match i1.checked_mul(i2) {
                Some(v) => Ok(Value::U32(v)),
                None => Err(RuntimeError::IntOverflow(OpKind::Mul, i1 as i128, i2 as i128)),
            },
            (Value::CompInt(i1), Value::CompInt(i2)) => match i1.checked_mul(i2) {
                Some(v) => Ok(Value::CompInt(v)),
                None => Err(RuntimeError::IntOverflow(OpKind::Mul, i1, i2)),
            },
            _ => {
                proof {
                    assert(false);
                }
                Err(RuntimeError::InvalidMain)
            },
        }
    }

    /// Checked division of two equally wide numeric values: a zero divisor
    /// reports `DivideByZero`; the one unrepresentable quotient overflows.
    pub fn div(self, rhs: Self) -> (r: Result<Value, RuntimeError>)
        requires
            same_int_kind(self, rhs),
        ensures
            r == div_spec(self, rhs),
    {
        match (self, rhs) {
            (Value::I8(i1), Value::I8(i2)) => {
                if i2 == 0 {
                    Err(RuntimeError::DivideByZero)
                } else {
                    match i1.checked_div(i2) {
                        Some(v) => Ok(Value::I8(v)),
                        None => Err(
                            RuntimeError::IntOverflow(OpKind::Div, i1 as i128, i2 as i128),
                        ),
                    }
                }
            },
            (Value::U8(i1), Value::U8(i2)) => {
                if i2 == 0 {
                    Err(RuntimeError::DivideByZero)
                } else {
                    match i1.checked_div(i2) {
                        Some(v) => Ok(Value::U8(v)),
                        None => Err(
                            RuntimeError::IntOverflow(OpKind::Div, i1 as i128, i2 as i128),
                        ),
                    }
                }
            },
            (Value::I16(i1), Value::I16(i2)) => {
                if i2 == 0 {
                    Err(RuntimeError::DivideByZero)
                } else {
                    match i1.checked_div(i2) {
                        Some(v) => Ok(Value::I16(v)),
                        None => Err(
                            RuntimeError::IntOverflow(OpKind::Div, i1 as i128, i2 as i128),
                        ),
                    }
                }
            },
            (Value::U16(i1), Value::U16(i2)) => {
                if i2 == 0 {
                    Err(RuntimeError::DivideByZero)
                } else {
                    match i1.checked_div(i2) {
                        Some(v) => Ok(Value::U16(v)),
                        None => Err(
                            RuntimeError::IntOverflow(OpKind::Div, i1 as i128, i2 as i128),
                        ),
                    }
                }
            },
            (Value::I32(i1), Value::I32(i2)) => {
                if i2 == 0 {
                    Err(RuntimeError::DivideByZero)
                } else {
                    match i1.checked_div(i2) {
                        Some(v) => Ok(Value::I32(v)),
                        None => Err(
                            RuntimeError::IntOverflow(OpKind::Div, i1 as i128, i2 as i128),
                        ),
                    }
                }
            },
            (Value::U32(i1), Value::U32(i2)) => {
                if i2 == 0 {
                    Err(RuntimeError::DivideByZero)
                } else {
                    match i1.checked_div(i2) {
                        Some(v) => Ok(Value::U32(v)),
                        None => Err(
                            RuntimeError::IntOverflow(OpKind::Div, i1 as i128, i2 as i128),
                        ),
                    }
                }
            },
            (Value::CompInt(i1), Value::CompInt(i2)) => {
                if i2 == 0 {
                    Err(RuntimeError::DivideByZero)
                } else {
                    match i1.checked_div(i2) {
                        Some(v) => Ok(Value::CompInt(v)),
                        None => Err(RuntimeError::IntOverflow(OpKind::Div, i1, i2)),
                    }
                }
            },
            _ => {
                proof {
                    assert(false);
                }
                Err(RuntimeError::InvalidMain)
            },
        }
    }

    /// Whether the ordering of `self` against `other` is `target_ord`,
    /// negated if asked: the one comparison primitive of the evaluator.
    pub fn cmp_op(self, other: Value, target_ord: core::cmp::Ordering, negated: bool) -> (r:
        bool)
        requires
            same_int_kind(self, other),
        ensures
            r == ((ord_spec(self, other) == target_ord) != negated),
    {
        match self.partial_cmp_value(&other) {
            None => false,
            Some(ord) => {
                let hit = match (ord, target_ord) {
                    (core::cmp::Ordering::Less, core::cmp::Ordering::Less) => true,
                    (core::cmp::Ordering::Equal, core::cmp::Ordering::Equal) => true,
                    (core::cmp::Ordering::Greater, core::cmp::Ordering::Greater) => true,
                    _ => false,
                };
                if negated {
                    !hit
                } else {
                    hit
                }
            },
        }
    }

    /// The ordering of two equally wide numeric values.
    pub fn partial_cmp_value(&self, other: &Value) -> (r: Option<core::cmp::Ordering>)
        requires
            same_int_kind(*self, *other),
        ensures
            r == Some(ord_spec(*self, *other)),
    {
        match (self, other) {
            (Value::I8(i1), Value::I8(i2)) => {
                if *i1 < *i2 {
                    Some(core::cmp::Ordering::Less)
                } else if *i1 == *i2 {
                    Some(core::cmp::Ordering::Equal)
                } else {
                    Some(core::cmp::Ordering::Greater)
                }
            },
            (Value::U8(i1), Value::U8(i2)) => {
                if *i1 < *i2 {
                    Some(core::cmp::Ordering::Less)
                } else if *i1 == *i2 {
                    Some(core::cmp::Ordering::Equal)
                } else {
                    Some(core::cmp::Ordering::Greater)
                }
            },
            (Value::I16(i1), Value::I16(i2)) => {
                if *i1 < *i2 {
                    Some(core::cmp::Ordering::Less)
                } else if *i1 == *i2 {
                    Some(core::cmp::Ordering::Equal)
                } else {
                    Some(core::cmp::Ordering::Greater)
                }
            },
            (Value::U16(i1), Value::U16(i2)) => {
                if *i1 < *i2 {
                    Some(core::cmp::Ordering::Less)
                } else if *i1 == *i2 {
                    Some(core::cmp::Ordering::Equal)
                } else {
                    Some(core::cmp::Ordering::Greater)
                }
            },
            (Value::I32(i1), Value::I32(i2)) => {
                if *i1 < *i2 {
                    Some(core::cmp::Ordering::Less)
                } else if *i1 == *i2 {
                    Some(core::cmp::Ordering::Equal)
                } else {
                    Some(core::cmp::Ordering::Greater)
                }
            },
            (Value::U32(i1), Value::U32(i2)) => {
                if *i1 < *i2 {
                    Some(core::cmp::Ordering::Less)
                } else if *i1 == *i2 {
                    Some(core::cmp::Ordering::Equal)
                } else {
                    Some(core::cmp::Ordering::Greater)
                }
            },
            (Value::CompInt(i1), Value::CompInt(i2)) => {
                if *i1 < *i2 {
                    Some(core::cmp::Ordering::Less)
                } else if *i1 == *i2 {
                    Some(core::cmp::Ordering::Equal)
                } else {
                    Some(core::cmp::Ordering::Greater)
                }
            },
            _ => {
                proof {
                    assert(false);
                }
                None
            },
        }
    }

    /// Concatenation of two string values.
    pub fn concat(self, other: Value) -> (r: Value)
        requires
            self is String,
            other is String,
        ensures
            r matches Value::String(s) && s@ == self->String_0@ + other->String_0@,
    {
        match (self, other) {
            (Value::String(s1), Value::String(s2)) => Value::String(s1.concat(s2.as_str())),
            _ => {
                proof {
                    assert(false);
                }
                Value::Unit
            },
        }
    }
}

} // verus!
