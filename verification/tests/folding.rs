use edd::ast::{BinOp, Expr, Literal, try_binop};
use edd::rt::{OpKind, Reason, RuntimeError};

fn lit(n: i128) -> Expr {
    Expr::Val(Literal::Integer(n))
}

fn empty_env() -> Vec<(String, Expr)> {
    Vec::new()
}

#[test]
fn folds_constant_addition() {
    // the arithmetic half of `let x: i8 = 2 + 3`
    let e = Expr::Add(Box::new(lit(2)), Box::new(lit(3)));
    let r = e.eval_const(&empty_env());
    assert!(r.expr_eq(&lit(5)));
}

#[test]
fn division_by_zero_raises() {
    // `let y = 1 / 0` must fold to the divide-by-zero sentinel
    let e = Expr::Div(Box::new(lit(1)), Box::new(lit(0)));
    let r = e.eval_const(&empty_env());
    assert!(r.expr_eq(&Expr::Raise(RuntimeError::DivideByZero)));
}

#[test]
fn zero_to_the_zeroeth_raises() {
    let e = Expr::Pow(Box::new(lit(0)), Box::new(lit(0)));
    let r = e.eval_const(&empty_env());
    assert!(r.expr_eq(&Expr::Raise(RuntimeError::ZeroToTheZeroeth)));
}

#[test]
fn add_zero_identity_keeps_open_term() {
    let e = Expr::Add(Box::new(lit(0)), Box::new(Expr::Ident("x".to_string())));
    let r = e.eval_const(&empty_env());
    assert!(r.expr_eq(&Expr::Ident("x".to_string())));
}

#[test]
fn mul_one_keeps_other_operand() {
    let e = Expr::Mul(Box::new(lit(1)), Box::new(Expr::Ident("x".to_string())));
    let r = e.eval_const(&empty_env());
    assert!(r.expr_eq(&Expr::Ident("x".to_string())));
    let e2 = Expr::Mul(Box::new(Expr::Ident("x".to_string())), Box::new(lit(1)));
    let r2 = e2.eval_const(&empty_env());
    assert!(r2.expr_eq(&Expr::Ident("x".to_string())));
}

#[test]
fn mul_zero_collapses_to_zero() {
    let e = Expr::Mul(Box::new(Expr::Ident("x".to_string())), Box::new(lit(0)));
    let r = e.eval_const(&empty_env());
    assert!(r.expr_eq(&lit(0)));
}

#[test]
fn env_binding_is_substituted() {
    let env = vec![("x".to_string(), lit(21))];
    let e = Expr::Add(Box::new(Expr::Ident("x".to_string())), Box::new(lit(21)));
    let r = e.eval_const(&env);
    assert!(r.expr_eq(&lit(42)));
}

#[test]
fn if_selects_branch_on_literal_condition() {
    let e = Expr::If(
        Box::new(Expr::Gt(Box::new(lit(3)), Box::new(lit(2)))),
        Box::new(lit(10)),
        Box::new(lit(20)),
    );
    let r = e.eval_const(&empty_env());
    assert!(r.expr_eq(&lit(10)));
}

#[test]
fn if_on_non_boolean_raises() {
    let e = Expr::If(Box::new(lit(7)), Box::new(lit(1)), Box::new(lit(2)));
    let r = e.eval_const(&empty_env());
    assert!(r.expr_eq(&Expr::Raise(RuntimeError::ExpectedBooleanInCond)));
}

#[test]
fn not_on_boolean_and_on_integer() {
    let t = Expr::Not(Box::new(Expr::Val(Literal::Boolean(false))));
    assert!(t.eval_const(&empty_env()).expr_eq(&Expr::Val(Literal::Boolean(true))));
    let bad = Expr::Not(Box::new(lit(1)));
    assert!(bad.eval_const(&empty_env()).expr_eq(&Expr::Raise(
        RuntimeError::InvalidOperation(OpKind::Not, Reason::NonBoolean)
    )));
}

#[test]
fn negation_of_literal() {
    let e = Expr::Neg(Box::new(lit(5)));
    assert!(e.eval_const(&empty_env()).expr_eq(&lit(-5)));
}

#[test]
fn overflow_becomes_raise() {
    let e = Expr::Add(Box::new(lit(i128::MAX)), Box::new(lit(1)));
    let r = e.eval_const(&empty_env());
    assert!(r.expr_eq(&Expr::Raise(RuntimeError::IntOverflow(
        OpKind::Add,
        i128::MAX,
        1
    ))));
}

#[test]
fn comparisons_fold_to_booleans() {
    let lt = Expr::Lt(Box::new(lit(1)), Box::new(lit(2)));
    assert!(lt.eval_const(&empty_env()).expr_eq(&Expr::Val(Literal::Boolean(true))));
    let neq = Expr::Neq(Box::new(lit(2)), Box::new(lit(2)));
    assert!(neq.eval_const(&empty_env()).expr_eq(&Expr::Val(Literal::Boolean(false))));
    let gte = Expr::Gte(Box::new(lit(2)), Box::new(lit(2)));
    assert!(gte.eval_const(&empty_env()).expr_eq(&Expr::Val(Literal::Boolean(true))));
}

#[test]
fn pow_of_literals() {
    let e = Expr::Pow(Box::new(lit(2)), Box::new(lit(10)));
    assert!(e.eval_const(&empty_env()).expr_eq(&lit(1024)));
    let neg = Expr::Pow(Box::new(lit(2)), Box::new(lit(-1)));
    assert!(neg.eval_const(&empty_env()).expr_eq(&Expr::Raise(
        RuntimeError::InvalidOperation(OpKind::Pow, Reason::NegativeExponent)
    )));
}

#[test]
fn nested_folding_runs_to_fixed_point() {
    // ((2 + 3) * (0 + 2)) / 1 folds all the way down to 10
    let e = Expr::Div(
        Box::new(Expr::Mul(
            Box::new(Expr::Add(Box::new(lit(2)), Box::new(lit(3)))),
            Box::new(Expr::Add(Box::new(lit(0)), Box::new(lit(2)))),
        )),
        Box::new(lit(1)),
    );
    assert!(e.eval_const(&empty_env()).expr_eq(&lit(10)));
}

#[test]
fn try_binop_rebuilds_open_terms() {
    let open_term = try_binop(
        BinOp::Add,
        Expr::Ident("a".to_string()),
        lit(1),
    );
    assert!(open_term.expr_eq(&Expr::Add(
        Box::new(Expr::Ident("a".to_string())),
        Box::new(lit(1))
    )));
}

#[test]
fn division_overflow_is_an_overflow() {
    // the one unrepresentable quotient
    let e = Expr::Div(Box::new(lit(i128::MIN)), Box::new(lit(-1)));
    assert!(e.eval_const(&empty_env()).expr_eq(&Expr::Raise(RuntimeError::IntOverflow(
        OpKind::Div,
        i128::MIN,
        -1
    ))));
}

#[test]
fn literal_division_truncates_toward_zero() {
    let e = Expr::Div(Box::new(lit(-7)), Box::new(lit(2)));
    assert!(e.eval_const(&empty_env()).expr_eq(&lit(-3)));
}
