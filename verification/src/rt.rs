use vstd::prelude::*;

pub mod value_impl;

verus! {

/// The operation during which a runtime error arose.
#[derive(Debug, Clone, Copy, PartialEq, Eq, Structural, Hash)]
pub enum OpKind {
    Add,
    Sub,
    Mul,
    Div,
    Neg,
    Pow,
    Not,
    Cmp,
}

/// Why an operation was invalid for its operands.
#[derive(Debug, Clone, Copy, PartialEq, Eq, Structural, Hash)]
pub enum Reason {
    NonBoolean,
    NonNumeral,
    NegativeExponent,
}

/// An error that evaluation, or the constant folder standing in for it,
/// can prove must happen at run time.
#[derive(Debug, Clone, PartialEq)]
pub enum RuntimeError {
    DivideByZero,
    /// operation, left operand, right operand
    IntOverflow(OpKind, i128, i128),
    ZeroToTheZeroeth,
    ExpectedBooleanInCond,
    InvalidOperation(OpKind, Reason),
    UndefinedVariable,
    Panic(String),
    InvalidMain,
}

/// Mathematical model of a runtime error.
pub enum REr {
    DivideByZero,
    IntOverflow(OpKind, i128, i128),
    ZeroToTheZeroeth,
    ExpectedBooleanInCond,
    InvalidOperation(OpKind, Reason),
    UndefinedVariable,
    Panic(Seq<char>),
    InvalidMain,
}

/// The model of a runtime error.
pub open spec fn rer_of(e: RuntimeError) -> REr {
    match e {
        RuntimeError::DivideByZero => REr::DivideByZero,
        RuntimeError::IntOverflow(op, a, b) => REr::IntOverflow(op, a, b),
        RuntimeError::ZeroToTheZeroeth => REr::ZeroToTheZeroeth,
        RuntimeError::ExpectedBooleanInCond => REr::ExpectedBooleanInCond,
        RuntimeError::InvalidOperation(op, why) => REr::InvalidOperation(op, why),
        RuntimeError::UndefinedVariable => REr::UndefinedVariable,
        RuntimeError::Panic(msg) => REr::Panic(msg@),
        RuntimeError::InvalidMain => REr::InvalidMain,
    }
}

impl View for RuntimeError {
    type V = REr;

    open spec fn view(&self) -> REr {
        rer_of(*self)
    }
}

/// A value of the evaluator: a scalar of some concrete width, a
/// compile-time integer or string, a boolean, unit, or null.
#[derive(Debug, Clone, PartialEq)]
pub enum Value {
    Unit,
    U8(u8),
    I8(i8),
    I16(i16),
    U16(u16),
    I32(i32),
    U32(u32),
    CompInt(i128),
    Boolean(bool),
    String(String),
    Null,
}

/// Whether a value is an integer of some width.
pub open spec fn val_is_int(v: Value) -> bool {
    match v {
        Value::U8(_) => true,
        Value::I8(_) => true,
        Value::I16(_) => true,
        Value::U16(_) => true,
        Value::I32(_) => true,
        Value::U32(_) => true,
        Value::CompInt(_) => true,
        _ => false,
    }
}

/// Two values of the same integer width.
pub open spec fn same_int_kind(a: Value, b: Value) -> bool {
    match (a, b) {
        (Value::U8(_), Value::U8(_)) => true,
        (Value::I8(_), Value::I8(_)) => true,
        (Value::I16(_), Value::I16(_)) => true,
        (Value::U16(_), Value::U16(_)) => true,
        (Value::I32(_), Value::I32(_)) => true,
        (Value::U32(_), Value::U32(_)) => true,
        (Value::CompInt(_), Value::CompInt(_)) => true,
        _ => false,
    }
}

/// The integer a numeric value holds.
pub open spec fn val_int(v: Value) -> int {
    match v {
        Value::U8(x) => x as int,
        Value::I8(x) => x as int,
        Value::I16(x) => x as int,
        Value::U16(x) => x as int,
        Value::I32(x) => x as int,
        Value::U32(x) => x as int,
        Value::CompInt(x) => x as int,
        _ => 0,
    }
}

/// The smallest integer of the width of `v`.
pub open spec fn val_min(v: Value) -> int {
    match v {
        Value::U8(_) => 0,
        Value::I8(_) => i8::MIN as int,
        Value::I16(_) => i16::MIN as int,
        Value::U16(_) => 0,
        Value::I32(_) => i32::MIN as int,
        Value::U32(_) => 0,
        Value::CompInt(_) => i128::MIN as int,
        _ => 0,
    }
}

/// The largest integer of the width of `v`.
pub open spec fn val_max(v: Value) -> int {
    match v {
        Value::U8(_) => u8::MAX as int,
        Value::I8(_) => i8::MAX as int,
        Value::I16(_) => i16::MAX as int,
        Value::U16(_) => u16::MAX as int,
        Value::I32(_) => i32::MAX as int,
        Value::U32(_) => u32::MAX as int,
        Value::CompInt(_) => i128::MAX as int,
        _ => 0,
    }
}

/// A value of the same width as `v` holding `n`.
pub open spec fn val_with(v: Value, n: int) -> Value {
    match v {
        Value::U8(_) => Value::U8(n as u8),
        Value::I8(_) => Value::I8(n as i8),
        Value::I16(_) => Value::I16(n as i16),
        Value::U16(_) => Value::U16(n as u16),
        Value::I32(_) => Value::I32(n as i32),
        Value::U32(_) => Value::U32(n as u32),
        Value::CompInt(_) => Value::CompInt(n as i128),
        _ => Value::Unit,
    }
}

/// Integer division truncating toward zero, as the machine divides.
pub open spec fn trunc_div(x: int, d: int) -> int
    recommends
        d != 0,
{
    if x == 0 {
        0
    } else if x > 0 && d > 0 {
        x / d
    } else if x < 0 && d < 0 {
        (x * -1) / (d * -1)
    } else if x < 0 {
        ((x * -1) / d) * -1
    } else {
        (x / (d * -1)) * -1
    }
}

/// What adding two equally wide values yields: the sum in the same width,
/// or an overflow error naming both operands.
pub open spec fn add_spec(a: Value, b: Value) -> Result<Value, RuntimeError>
    recommends
        same_int_kind(a, b),
{
    let s = val_int(a) + val_int(b);
    if val_min(a) <= s <= val_max(a) {
        Ok(val_with(a, s))
    } else {
        Err(RuntimeError::IntOverflow(OpKind::Add, val_int(a) as i128, val_int(b) as i128))
    }
}

/// What subtraction yields, as `add_spec`.
pub open spec fn sub_spec(a: Value, b: Value) -> Result<Value, RuntimeError>
    recommends
        same_int_kind(a, b),
{
    let s = val_int(a) - val_int(b);
    if val_min(a) <= s <= val_max(a) {
        Ok(val_with(a, s))
    } else {
        Err(RuntimeError::IntOverflow(OpKind::Sub, val_int(a) as i128, val_int(b) as i128))
    }
}

/// What multiplication yields, as `add_spec`.
pub open spec fn mul_spec(a: Value, b: Value) -> Result<Value, RuntimeError>
    recommends
        same_int_kind(a, b),
{
    let s = val_int(a) * val_int(b);
    if val_min(a) <= s <= val_max(a) {
        Ok(val_with(a, s))
    } else {
        Err(RuntimeError::IntOverflow(OpKind::Mul, val_int(a) as i128, val_int(b) as i128))
    }
}

/// What negation yields: the negated value, or an overflow error (so for
/// an unsigned width, anything but zero overflows).
pub open spec fn neg_spec(v: Value) -> Result<Value, RuntimeError>
    recommends
        val_is_int(v),
{
    let s = -val_int(v);
    if val_min(v) <= s <= val_max(v) {
        Ok(val_with(v, s))
    } else {
        Err(RuntimeError::IntOverflow(OpKind::Neg, 0, val_int(v) as i128))
    }
}

/// What division yields: the quotient truncated toward zero; a zero
/// divisor is `DivideByZero`, and the one quotient that does not fit its
/// width (the smallest signed value divided by minus one) overflows.
pub open spec fn div_spec(a: Value, b: Value) -> Result<Value, RuntimeError>
    recommends
        same_int_kind(a, b),
{
    if val_int(b) == 0 {
        Err(RuntimeError::DivideByZero)
    } else {
        let q = trunc_div(val_int(a), val_int(b));
        if val_min(a) <= q <= val_max(a) {
            Ok(val_with(a, q))
        } else {
            Err(RuntimeError::IntOverflow(OpKind::Div, val_int(a) as i128, val_int(b) as i128))
        }
    }
}

/// The ordering of two equally wide numeric values.
pub open spec fn ord_spec(a: Value, b: Value) -> core::cmp::Ordering
    recommends
        same_int_kind(a, b),
{
    if val_int(a) < val_int(b) {
        core::cmp::Ordering::Less
    } else if val_int(a) == val_int(b) {
        core::cmp::Ordering::Equal
    } else {
        core::cmp::Ordering::Greater
    }
}

} // verus!
