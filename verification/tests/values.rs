use std::cmp::Ordering;

use edd::rt::{OpKind, RuntimeError, Value};

#[test]
fn checked_addition_per_width() {
    assert_eq!(Value::I8(100).add(Value::I8(27)), Ok(Value::I8(127)));
    assert_eq!(
        Value::I8(100).add(Value::I8(28)),
        Err(RuntimeError::IntOverflow(OpKind::Add, 100, 28))
    );
    assert_eq!(Value::U16(65535).add(Value::U16(0)), Ok(Value::U16(65535)));
    assert_eq!(
        Value::U16(65535).add(Value::U16(1)),
        Err(RuntimeError::IntOverflow(OpKind::Add, 65535, 1))
    );
}

#[test]
fn checked_subtraction_per_width() {
    assert_eq!(Value::U8(3).sub(Value::U8(2)), Ok(Value::U8(1)));
    assert_eq!(
        Value::U8(0).sub(Value::U8(1)),
        Err(RuntimeError::IntOverflow(OpKind::Sub, 0, 1))
    );
}

#[test]
fn checked_multiplication_per_width() {
    assert_eq!(Value::I32(6).mul(Value::I32(7)), Ok(Value::I32(42)));
    assert_eq!(
        Value::I8(64).mul(Value::I8(2)),
        Err(RuntimeError::IntOverflow(OpKind::Mul, 64, 2))
    );
}

#[test]
fn division_truncates_and_rejects_zero() {
    assert_eq!(Value::I16(-7).div(Value::I16(2)), Ok(Value::I16(-3)));
    assert_eq!(Value::I16(7).div(Value::I16(0)), Err(RuntimeError::DivideByZero));
    // the one unrepresentable quotient is an overflow, not a zero divisor
    assert_eq!(
        Value::I8(i8::MIN).div(Value::I8(-1)),
        Err(RuntimeError::IntOverflow(OpKind::Div, -128, -1))
    );
}

#[test]
fn negation_per_width() {
    assert_eq!(Value::I8(5).neg(), Ok(Value::I8(-5)));
    assert_eq!(
        Value::I8(i8::MIN).neg(),
        Err(RuntimeError::IntOverflow(OpKind::Neg, 0, -128))
    );
    assert_eq!(Value::U8(0).neg(), Ok(Value::U8(0)));
    assert_eq!(
        Value::U8(1).neg(),
        Err(RuntimeError::IntOverflow(OpKind::Neg, 0, 1))
    );
}

#[test]
fn cmp_op_against_target_ordering() {
    assert!(Value::I8(1).cmp_op(Value::I8(2), Ordering::Less, false));
    assert!(!Value::I8(2).cmp_op(Value::I8(2), Ordering::Less, false));
    // negation turns "equal" into "not equal"
    assert!(Value::U32(3).cmp_op(Value::U32(4), Ordering::Equal, true));
    assert!(Value::CompInt(9).cmp_op(Value::CompInt(9), Ordering::Equal, false));
    assert!(Value::I16(5).cmp_op(Value::I16(4), Ordering::Greater, false));
}

#[test]
fn concat_joins_strings() {
    let r = Value::String("foo".to_string()).concat(Value::String("bar".to_string()));
    assert_eq!(r, Value::String("foobar".to_string()));
}
