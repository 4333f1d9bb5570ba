use vstd::prelude::*;

use crate::rt::{rer_of, trunc_div, REr, Reason, OpKind, RuntimeError};

pub mod literal_impl;

use crate::ast::literal_impl::{
    lemma_pow_iter_one, lemma_pow_iter_zero, lit_add_spec, lit_cmp_spec, lit_div_spec,
    lit_mul_spec, lit_pow_spec, lit_sub_spec, pow_iter, pow_spec,
};

verus! {

/// One line of input: a bare expression to evaluate, an immutable or
/// mutable binding, or a re-assignment.
#[derive(Debug)]
pub enum Query {
    Inquire(Expr),
    Let(String, Expr),
    Var(String, Expr),
    Rebind(String, Expr),
}

/// A literal value: an integer of as yet unknown width, or a boolean.
#[derive(Debug, Clone, Copy, PartialEq, Eq, Hash, Structural)]
pub enum Literal {
    Integer(i128),
    Boolean(bool),
}

/// An expression of the surface language, as the constant folder sees it.
/// `Raise` is never parsed: the folder plants it where it can prove that
/// evaluation must fail.
#[derive(Debug)]
pub enum Expr {
    Ident(String),
    Val(Literal),
    Add(Box<Expr>, Box<Expr>),
    Sub(Box<Expr>, Box<Expr>),
    Mul(Box<Expr>, Box<Expr>),
    Div(Box<Expr>, Box<Expr>),
    Pow(Box<Expr>, Box<Expr>),

    Not(Box<Expr>),
    Ref(Box<Expr>),
    Neg(Box<Expr>),
    Deref(Box<Expr>),

    If(Box<Expr>, Box<Expr>, Box<Expr>),
    Eq(Box<Expr>, Box<Expr>),
    Neq(Box<Expr>, Box<Expr>),
    Lt(Box<Expr>, Box<Expr>),
    Lte(Box<Expr>, Box<Expr>),
    Gt(Box<Expr>, Box<Expr>),
    Gte(Box<Expr>, Box<Expr>),

    /// Not parsed
    Raise(RuntimeError),
}

/// Mathematical model of an expression, with names as character
/// sequences so that equality is structural.
pub enum Exp {
    Ident(Seq<char>),
    Val(Literal),
    Add(Box<Exp>, Box<Exp>),
    Sub(Box<Exp>, Box<Exp>),
    Mul(Box<Exp>, Box<Exp>),
    Div(Box<Exp>, Box<Exp>),
    Pow(Box<Exp>, Box<Exp>),
    Not(Box<Exp>),
    Ref(Box<Exp>),
    Neg(Box<Exp>),
    Deref(Box<Exp>),
    If(Box<Exp>, Box<Exp>, Box<Exp>),
    Eq(Box<Exp>, Box<Exp>),
    Neq(Box<Exp>, Box<Exp>),
    Lt(Box<Exp>, Box<Exp>),
    Lte(Box<Exp>, Box<Exp>),
    Gt(Box<Exp>, Box<Exp>),
    Gte(Box<Exp>, Box<Exp>),
    Raise(REr),
}

/// The model of an expression.
pub open spec fn exp_of(e: Expr) -> Exp
    decreases e,
{
    match e {
        Expr::Ident(n) => Exp::Ident(n@),
        Expr::Val(l) => Exp::Val(l),
        Expr::Add(a, b) => Exp::Add(Box::new(exp_of(*a)), Box::new(exp_of(*b))),
        Expr::Sub(a, b) => Exp::Sub(Box::new(exp_of(*a)), Box::new(exp_of(*b))),
        Expr::Mul(a, b) => Exp::Mul(Box::new(exp_of(*a)), Box::new(exp_of(*b))),
        Expr::Div(a, b) => Exp::Div(Box::new(exp_of(*a)), Box::new(exp_of(*b))),
        Expr::Pow(a, b) => Exp::Pow(Box::new(exp_of(*a)), Box::new(exp_of(*b))),
        Expr::Not(a) => Exp::Not(Box::new(exp_of(*a))),
        Expr::Ref(a) => Exp::Ref(Box::new(exp_of(*a))),
        Expr::Neg(a) => Exp::Neg(Box::new(exp_of(*a))),
        Expr::Deref(a) => Exp::Deref(Box::new(exp_of(*a))),
        Expr::If(c, t, f) => Exp::If(
            Box::new(exp_of(*c)),
            Box::new(exp_of(*t)),
            Box::new(exp_of(*f)),
        ),
        Expr::Eq(a, b) => Exp::Eq(Box::new(exp_of(*a)), Box::new(exp_of(*b))),
        Expr::Neq(a, b) => Exp::Neq(Box::new(exp_of(*a)), Box::new(exp_of(*b))),
        Expr::Lt(a, b) => Exp::Lt(Box::new(exp_of(*a)), Box::new(exp_of(*b))),
        Expr::Lte(a, b) => Exp::Lte(Box::new(exp_of(*a)), Box::new(exp_of(*b))),
        Expr::Gt(a, b) => Exp::Gt(Box::new(exp_of(*a)), Box::new(exp_of(*b))),
        Expr::Gte(a, b) => Exp::Gte(Box::new(exp_of(*a)), Box::new(exp_of(*b))),
        Expr::Raise(er) => Exp::Raise(rer_of(er)),
    }
}

impl View for Expr {
    type V = Exp;

    open spec fn view(&self) -> Exp {
        exp_of(*self)
    }
}

/// A binary operator of the surface language.
#[derive(Debug, Clone, Copy, PartialEq, Eq, Structural)]
pub enum BinOp {
    Add,
    Sub,
    Mul,
    Div,
    Pow,
    Eq,
    Neq,
    Lt,
    Lte,
    Gt,
    Gte,
}

/// What applying a binary operator to two literal values yields.
pub open spec fn apply_binop_spec(op: BinOp, a: Literal, b: Literal) -> Result<
    Literal,
    RuntimeError,
> {
    match op {
        BinOp::Add => lit_add_spec(a, b),
        BinOp::Sub => lit_sub_spec(a, b),
        BinOp::Mul => lit_mul_spec(a, b),
        BinOp::Div => lit_div_spec(a, b),
        BinOp::Pow => lit_pow_spec(a, b),
        BinOp::Eq => lit_cmp_spec(a, b, core::cmp::Ordering::Equal, false),
        BinOp::Neq => lit_cmp_spec(a, b, core::cmp::Ordering::Equal, true),
        BinOp::Lt => lit_cmp_spec(a, b, core::cmp::Ordering::Less, false),
        BinOp::Lte => lit_cmp_spec(a, b, core::cmp::Ordering::Greater, true),
        BinOp::Gt => lit_cmp_spec(a, b, core::cmp::Ordering::Greater, false),
        BinOp::Gte => lit_cmp_spec(a, b, core::cmp::Ordering::Less, true),
    }
}

/// The node that a binary operator builds back when its operands are not
/// both literal.
pub open spec fn rebuild_spec(op: BinOp, a: Exp, b: Exp) -> Exp {
    match op {
        BinOp::Add => Exp::Add(Box::new(a), Box::new(b)),
        BinOp::Sub => Exp::Sub(Box::new(a), Box::new(b)),
        BinOp::Mul => Exp::Mul(Box::new(a), Box::new(b)),
        BinOp::Div => Exp::Div(Box::new(a), Box::new(b)),
        BinOp::Pow => Exp::Pow(Box::new(a), Box::new(b)),
        BinOp::Eq => Exp::Eq(Box::new(a), Box::new(b)),
        BinOp::Neq => Exp::Neq(Box::new(a), Box::new(b)),
        BinOp::Lt => Exp::Lt(Box::new(a), Box::new(b)),
        BinOp::Lte => Exp::Lte(Box::new(a), Box::new(b)),
        BinOp::Gt => Exp::Gt(Box::new(a), Box::new(b)),
        BinOp::Gte => Exp::Gte(Box::new(a), Box::new(b)),
    }
}

/// What `try_binop` yields: the operator applied when both operands are
/// literal values, with a failure planted as `Raise`; the node rebuilt
/// otherwise.
pub open spec fn try_binop_spec(op: BinOp, a: Exp, b: Exp) -> Exp {
    match (a, b) {
        (Exp::Val(x), Exp::Val(y)) => match apply_binop_spec(op, x, y) {
            Ok(l) => Exp::Val(l),
            Err(e) => Exp::Raise(rer_of(e)),
        },
        _ => rebuild_spec(op, a, b),
    }
}

/// Whether the model expression is the literal integer `n`.
pub open spec fn is_const_int(e: Exp, n: int) -> bool {
    e == Exp::Val(Literal::Integer(n as i128)) && i128::MIN <= n <= i128::MAX
}

/// The value bound to `name`, scanning from the front.
pub open spec fn env_find(env: Seq<(Seq<char>, Exp)>, name: Seq<char>) -> Option<Exp>
    decreases env.len(),
{
    if env.len() == 0 {
        None
    } else if env[0].0 == name {
        Some(env[0].1)
    } else {
        env_find(env.drop_first(), name)
    }
}

/// The model of a binding list.
pub open spec fn env_of(v: Seq<(String, Expr)>) -> Seq<(Seq<char>, Exp)> {
    Seq::new(v.len(), |i: int| (v[i].0@, v[i].1@))
}

/// One pass of the constant folder over a model expression: literal
/// arithmetic and comparisons are computed, algebraic identities are
/// applied, a branch with a literal condition is selected, and a
/// computation that must fail becomes `Raise`.
pub open spec fn fold_spec(e: Exp, env: Seq<(Seq<char>, Exp)>) -> Exp
    decreases e,
{
    match e {
        Exp::Ident(name) => match env_find(env, name) {
            Some(v) => v,
            None => Exp::Ident(name),
        },
        Exp::Val(v) => Exp::Val(v),
        Exp::Raise(er) => Exp::Raise(er),
        Exp::Add(a, b) => {
            let fa = fold_spec(*a, env);
            let fb = fold_spec(*b, env);
            if is_const_int(fa, 0) {
                fb
            } else if is_const_int(fb, 0) {
                fa
            } else {
                try_binop_spec(BinOp::Add, fa, fb)
            }
        },
        Exp::Sub(a, b) => {
            let fa = fold_spec(*a, env);
            let fb = fold_spec(*b, env);
            if is_const_int(fb, 0) {
                fa
            } else {
                try_binop_spec(BinOp::Sub, fa, fb)
            }
        },
        Exp::Mul(a, b) => {
            let fa = fold_spec(*a, env);
            let fb = fold_spec(*b, env);
            if is_const_int(fa, 0) || is_const_int(fb, 0) {
                Exp::Val(Literal::Integer(0))
            } else if is_const_int(fa, 1) {
                fb
            } else if is_const_int(fb, 1) {
                fa
            } else {
                try_binop_spec(BinOp::Mul, fa, fb)
            }
        },
        Exp::Div(a, b) => {
            let fa = fold_spec(*a, env);
            let fb = fold_spec(*b, env);
            if is_const_int(fb, 0) {
                Exp::Raise(REr::DivideByZero)
            } else if is_const_int(fb, 1) {
                fa
            } else {
                try_binop_spec(BinOp::Div, fa, fb)
            }
        },
        Exp::Pow(a, b) => {
            let fa = fold_spec(*a, env);
            let fb = fold_spec(*b, env);
            if !is_const_int(fa, 0) && !is_const_int(fb, 0) {
                if is_const_int(fa, 1) {
                    Exp::Val(Literal::Integer(1))
                } else if is_const_int(fb, 1) {
                    fa
                } else {
                    try_binop_spec(BinOp::Pow, fa, fb)
                }
            } else if is_const_int(fa, 0) && !is_const_int(fb, 0) {
                Exp::Val(Literal::Integer(0))
            } else if !is_const_int(fa, 0) && is_const_int(fb, 0) {
                Exp::Val(Literal::Integer(1))
            } else {
                Exp::Raise(REr::ZeroToTheZeroeth)
            }
        },
        Exp::If(c, t, f) => {
            let fc = fold_spec(*c, env);
            if fc == Exp::Val(Literal::Boolean(true)) {
                fold_spec(*t, env)
            } else if fc == Exp::Val(Literal::Boolean(false)) {
                fold_spec(*f, env)
            } else if fc is Val {
                Exp::Raise(REr::ExpectedBooleanInCond)
            } else {
                Exp::If(Box::new(fc), Box::new(fold_spec(*t, env)), Box::new(fold_spec(*f, env)))
            }
        },
        Exp::Not(a) => {
            let fa = fold_spec(*a, env);
            match fa {
                Exp::Val(Literal::Boolean(b)) => Exp::Val(Literal::Boolean(!b)),
                Exp::Val(_) => Exp::Raise(REr::InvalidOperation(OpKind::Not, Reason::NonBoolean)),
                _ => Exp::Not(Box::new(fa)),
            }
        },
        Exp::Ref(a) => Exp::Ref(Box::new(fold_spec(*a, env))),
        Exp::Neg(a) => {
            let fa = fold_spec(*a, env);
            match fa {
                Exp::Val(Literal::Integer(i)) => {
                    if i == i128::MIN {
                        Exp::Raise(REr::IntOverflow(OpKind::Neg, 0, i))
                    } else {
                        Exp::Val(Literal::Integer((-i) as i128))
                    }
                },
                Exp::Val(_) => Exp::Raise(REr::InvalidOperation(OpKind::Neg, Reason::NonNumeral)),
                _ => Exp::Neg(Box::new(fa)),
            }
        },
        Exp::Deref(a) => Exp::Deref(Box::new(fold_spec(*a, env))),
        Exp::Eq(a, b) => try_binop_spec(BinOp::Eq, fold_spec(*a, env), fold_spec(*b, env)),
        Exp::Neq(a, b) => try_binop_spec(BinOp::Neq, fold_spec(*a, env), fold_spec(*b, env)),
        Exp::Lt(a, b) => try_binop_spec(BinOp::Lt, fold_spec(*a, env), fold_spec(*b, env)),
        Exp::Lte(a, b) => try_binop_spec(BinOp::Lte, fold_spec(*a, env), fold_spec(*b, env)),
        Exp::Gt(a, b) => try_binop_spec(BinOp::Gt, fold_spec(*a, env), fold_spec(*b, env)),
        Exp::Gte(a, b) => try_binop_spec(BinOp::Gte, fold_spec(*a, env), fold_spec(*b, env)),
    }
}

/// The folder run to a fixed point: folding stops when a pass no longer
/// changes the expression, or after `fuel` passes.
pub open spec fn fold_fix(e: Exp, env: Seq<(Seq<char>, Exp)>, fuel: nat) -> Exp
    decreases fuel,
{
    if fuel == 0 {
        e
    } else {
        let n = fold_spec(e, env);
        if n == e {
            e
        } else {
            fold_fix(n, env, (fuel - 1) as nat)
        }
    }
}

/// The hard cap on folding passes, against pathological inputs.
pub const MAX_RECUR: usize = 256;

impl Literal {
    /// Literal equality.
    pub fn lit_eq(&self, other: &Literal) -> (r: bool)
        ensures
            r == (*self == *other),
    {
        match (self, other) {
            (Literal::Integer(a), Literal::Integer(b)) => *a == *b,
            (Literal::Boolean(a), Literal::Boolean(b)) => *a == *b,
            _ => false,
        }
    }
}

impl RuntimeError {
    /// A structural copy with the same model.
    pub fn err_clone(&self) -> (r: RuntimeError)
        ensures
            r@ == self@,
    {
        match self {
            RuntimeError::DivideByZero => RuntimeError::DivideByZero,
            RuntimeError::IntOverflow(op, a, b) => RuntimeError::IntOverflow(*op, *a, *b),
            RuntimeError::ZeroToTheZeroeth => RuntimeError::ZeroToTheZeroeth,
            RuntimeError::ExpectedBooleanInCond => RuntimeError::ExpectedBooleanInCond,
            RuntimeError::InvalidOperation(op, why) => RuntimeError::InvalidOperation(*op, *why),
            RuntimeError::UndefinedVariable => RuntimeError::UndefinedVariable,
            RuntimeError::Panic(m) => RuntimeError::Panic(m.clone()),
            RuntimeError::InvalidMain => RuntimeError::InvalidMain,
        }
    }

    /// Structural equality of two runtime errors.
    #[verifier::rlimit(50)]
    pub fn err_eq(&self, other: &RuntimeError) -> (r: bool)
        ensures
            r == (self@ == other@),
    {
        match self {
            RuntimeError::DivideByZero => matches!(other, RuntimeError::DivideByZero),
            RuntimeError::IntOverflow(op1, a1, b1) => match other {
                RuntimeError::IntOverflow(op2, a2, b2) => *op1 == *op2 && *a1 == *a2 && *b1
                    == *b2,
                _ => false,
            },
            RuntimeError::ZeroToTheZeroeth => matches!(other, RuntimeError::ZeroToTheZeroeth),
            RuntimeError::ExpectedBooleanInCond => matches!(
                other,
                RuntimeError::ExpectedBooleanInCond
            ),
            RuntimeError::InvalidOperation(op1, why1) => match other {
                RuntimeError::InvalidOperation(op2, why2) => *op1 == *op2 && *why1 == *why2,
                _ => false,
            },
            RuntimeError::UndefinedVariable => matches!(other, RuntimeError::UndefinedVariable),
            RuntimeError::Panic(m1) => match other {
                RuntimeError::Panic(m2) => *m1 == *m2,
                _ => false,
            },
            RuntimeError::InvalidMain => matches!(other, RuntimeError::InvalidMain),
        }
    }
}

/// Apply a binary operator to two literal values.
pub fn apply_binop(op: BinOp, a: Literal, b: Literal) -> (r: Result<Literal, RuntimeError>)
    ensures
        r == apply_binop_spec(op, a, b),
{
    match op {
        BinOp::Add => a.add(b),
        BinOp::Sub => a.sub(b),
        BinOp::Mul => a.mul(b),
        BinOp::Div => a.div(b),
        BinOp::Pow => a.pow(b),
        BinOp::Eq => a.cmp_op(b, core::cmp::Ordering::Equal, false),
        BinOp::Neq => a.cmp_op(b, core::cmp::Ordering::Equal, true),
        BinOp::Lt => a.cmp_op(b, core::cmp::Ordering::Less, false),
        BinOp::Lte => a.cmp_op(b, core::cmp::Ordering::Greater, true),
        BinOp::Gt => a.cmp_op(b, core::cmp::Ordering::Greater, false),
        BinOp::Gte => a.cmp_op(b, core::cmp::Ordering::Less, true),
    }
}

/// Apply a binary operator when both operands are literal values, or
/// build the operator node back.
pub fn try_binop(op: BinOp, a: Expr, b: Expr) -> (r: Expr)
    ensures
        r@ == try_binop_spec(op, a@, b@),
{
    match (a, b) {
        (Expr::Val(x), Expr::Val(y)) => match apply_binop(op, x, y) {
            Ok(l) => Expr::Val(l),
            Err(e) => Expr::Raise(e),
        },
        (a, b) => match op {
            BinOp::Add => Expr::Add(Box::new(a), Box::new(b)),
            BinOp::Sub => Expr::Sub(Box::new(a), Box::new(b)),
            BinOp::Mul => Expr::Mul(Box::new(a), Box::new(b)),
            BinOp::Div => Expr::Div(Box::new(a), Box::new(b)),
            BinOp::Pow => Expr::Pow(Box::new(a), Box::new(b)),
            BinOp::Eq => Expr::Eq(Box::new(a), Box::new(b)),
            BinOp::Neq => Expr::Neq(Box::new(a), Box::new(b)),
            BinOp::Lt => Expr::Lt(Box::new(a), Box::new(b)),
            BinOp::Lte => Expr::Lte(Box::new(a), Box::new(b)),
            BinOp::Gt => Expr::Gt(Box::new(a), Box::new(b)),
            BinOp::Gte => Expr::Gte(Box::new(a), Box::new(b)),
        },
    }
}

impl Expr {
    /// A structural copy with the same model.
    #[verifier::rlimit(100)]
    pub fn deep_clone(&self) -> (r: Expr)
        ensures
            r@ == self@,
        decreases *self,
    {
        match self {
            Expr::Ident(n) => Expr::Ident(n.clone()),
            Expr::Val(l) => Expr::Val(*l),
            Expr::Add(a, b) => Expr::Add(Box::new(a.deep_clone()), Box::new(b.deep_clone())),
            Expr::Sub(a, b) => Expr::Sub(Box::new(a.deep_clone()), Box::new(b.deep_clone())),
            Expr::Mul(a, b) => Expr::Mul(Box::new(a.deep_clone()), Box::new(b.deep_clone())),
            Expr::Div(a, b) => Expr::Div(Box::new(a.deep_clone()), Box::new(b.deep_clone())),
            Expr::Pow(a, b) => Expr::Pow(Box::new(a.deep_clone()), Box::new(b.deep_clone())),
            Expr::Not(a) => Expr::Not(Box::new(a.deep_clone())),
            Expr::Ref(a) => Expr::Ref(Box::new(a.deep_clone())),
            Expr::Neg(a) => Expr::Neg(Box::new(a.deep_clone())),
            Expr::Deref(a) => Expr::Deref(Box::new(a.deep_clone())),
            Expr::If(c, t, f) => Expr::If(
                Box::new(c.deep_clone()),
                Box::new(t.deep_clone()),
                Box::new(f.deep_clone()),
            ),
            Expr::Eq(a, b) => Expr::Eq(Box::new(a.deep_clone()), Box::new(b.deep_clone())),
            Expr::Neq(a, b) => Expr::Neq(Box::new(a.deep_clone()), Box::new(b.deep_clone())),
            Expr::Lt(a, b) => Expr::Lt(Box::new(a.deep_clone()), Box::new(b.deep_clone())),
            Expr::Lte(a, b) => Expr::Lte(Box::new(a.deep_clone()), Box::new(b.deep_clone())),
            Expr::Gt(a, b) => Expr::Gt(Box::new(a.deep_clone()), Box::new(b.deep_clone())),
            Expr::Gte(a, b) => Expr::Gte(Box::new(a.deep_clone()), Box::new(b.deep_clone())),
            Expr::Raise(er) => Expr::Raise(er.err_clone()),
        }
    }

    /// Structural equality of two expressions.
    #[verifier::rlimit(100)]
    pub fn expr_eq(&self, other: &Expr) -> (r: bool)
        ensures
            r == (self@ == other@),
        decreases *self,
    {
        match (self, other) {
            (Expr::Ident(a), Expr::Ident(b)) => *a == *b,
            (Expr::Val(a), Expr::Val(b)) => a.lit_eq(b),
            (Expr::Add(a1, b1), Expr::Add(a2, b2)) => a1.expr_eq(a2) && b1.expr_eq(b2),
            (Expr::Sub(a1, b1), Expr::Sub(a2, b2)) => a1.expr_eq(a2) && b1.expr_eq(b2),
            (Expr::Mul(a1, b1), Expr::Mul(a2, b2)) => a1.expr_eq(a2) && b1.expr_eq(b2),
            (Expr::Div(a1, b1), Expr::Div(a2, b2)) => a1.expr_eq(a2) && b1.expr_eq(b2),
            (Expr::Pow(a1, b1), Expr::Pow(a2, b2)) => a1.expr_eq(a2) && b1.expr_eq(b2),
            (Expr::Not(a1), Expr::Not(a2)) => a1.expr_eq(a2),
            (Expr::Ref(a1), Expr::Ref(a2)) => a1.expr_eq(a2),
            (Expr::Neg(a1), Expr::Neg(a2)) => a1.expr_eq(a2),
            (Expr::Deref(a1), Expr::Deref(a2)) => a1.expr_eq(a2),
            (Expr::If(c1, t1, f1), Expr::If(c2, t2, f2)) => {
                c1.expr_eq(c2) && t1.expr_eq(t2) && f1.expr_eq(f2)
            },
            (Expr::Eq(a1, b1), Expr::Eq(a2, b2)) => a1.expr_eq(a2) && b1.expr_eq(b2),
            (Expr::Neq(a1, b1), Expr::Neq(a2, b2)) => a1.expr_eq(a2) && b1.expr_eq(b2),
            (Expr::Lt(a1, b1), Expr::Lt(a2, b2)) => a1.expr_eq(a2) && b1.expr_eq(b2),
            (Expr::Lte(a1, b1), Expr::Lte(a2, b2)) => a1.expr_eq(a2) && b1.expr_eq(b2),
            (Expr::Gt(a1, b1), Expr::Gt(a2, b2)) => a1.expr_eq(a2) && b1.expr_eq(b2),
            (Expr::Gte(a1, b1), Expr::Gte(a2, b2)) => a1.expr_eq(a2) && b1.expr_eq(b2),
            (Expr::Raise(e1), Expr::Raise(e2)) => e1.err_eq(e2),
            _ => false,
        }
    }

    /// Whether the expression is the literal integer zero.
    pub fn is_const_zero(&self) -> (r: bool)
        ensures
            r == is_const_int(self@, 0),
    {
        match self {
            Expr::Val(Literal::Integer(n)) => *n == 0,
            _ => false,
        }
    }

    /// Whether the expression is the literal integer one.
    pub fn is_const_one(&self) -> (r: bool)
        ensures
            r == is_const_int(self@, 1),
    {
        match self {
            Expr::Val(Literal::Integer(n)) => *n == 1,
            _ => false,
        }
    }

    /// One pass of the constant folder, looking identifiers up in `env`.
    #[verifier::loop_isolation(false)]
    pub fn eval_const_inner(&self, env: &Vec<(String, Expr)>) -> (r: Expr)
        ensures
            r@ == fold_spec(self@, env_of(env@)),
        decreases *self,
    {
        match self {
            Expr::Ident(name) => {
                proof {
                    assert(env_of(env@).skip(0) =~= env_of(env@));
                }
                let mut i: usize = 0;
                while i < env.len()
                    invariant
                        0 <= i <= env@.len(),
                        env_find(env_of(env@), name@) == env_find(
                            env_of(env@).skip(i as int),
                            name@,
                        ),
                    decreases env@.len() - i,
                {
                    let ghost m = env_of(env@);
                    proof {
                        assert(m.skip(i as int)[0] == m[i as int]);
                        assert(m.skip(i as int).drop_first() =~= m.skip(i + 1));
                    }
                    if env[i].0 == *name {
                        return env[i].1.deep_clone();
                    }
                    i = i + 1;
                }
                proof {
                    assert(env_of(env@).skip(env@.len() as int) =~= Seq::empty());
                }
                Expr::Ident(name.clone())
            },
            Expr::Val(v) => Expr::Val(*v),
            Expr::Raise(e) => Expr::Raise(e.err_clone()),
            Expr::Add(a, b) => {
                let fa = a.eval_const_inner(env);
                let fb = b.eval_const_inner(env);
                if fa.is_const_zero() {
                    fb
                } else if fb.is_const_zero() {
                    fa
                } else {
                    try_binop(BinOp::Add, fa, fb)
                }
            },
            Expr::Sub(a, b) => {
                let fa = a.eval_const_inner(env);
                let fb = b.eval_const_inner(env);
                if fb.is_const_zero() {
                    fa
                } else {
                    try_binop(BinOp::Sub, fa, fb)
                }
            },
            Expr::Mul(a, b) => {
                let fa = a.eval_const_inner(env);
                let fb = b.eval_const_inner(env);
                if fa.is_const_zero() || fb.is_const_zero() {
                    Expr::Val(Literal::Integer(0))
                } else if fa.is_const_one() {
                    fb
                } else if fb.is_const_one() {
                    fa
                } else {
                    try_binop(BinOp::Mul, fa, fb)
                }
            },
            Expr::Div(a, b) => {
                let fa = a.eval_const_inner(env);
                let fb = b.eval_const_inner(env);
                if fb.is_const_zero() {
                    Expr::Raise(RuntimeError::DivideByZero)
                } else if fb.is_const_one() {
                    fa
                } else {
                    try_binop(BinOp::Div, fa, fb)
                }
            },
            Expr::Pow(a, b) => {
                let fa = a.eval_const_inner(env);
                let fb = b.eval_const_inner(env);
                match (fa.is_const_zero(), fb.is_const_zero()) {
                    (false, false) => {
                        if fa.is_const_one() {
                            Expr::Val(Literal::Integer(1))
                        } else if fb.is_const_one() {
                            fa
                        } else {
                            try_binop(BinOp::Pow, fa, fb)
                        }
                    },
                    (true, false) => Expr::Val(Literal::Integer(0)),
                    (false, true) => Expr::Val(Literal::Integer(1)),
                    (true, true) => Expr::Raise(RuntimeError::ZeroToTheZeroeth),
                }
            },
            Expr::If(c, t, f) => {
                let fc = c.eval_const_inner(env);
                match &fc {
                    Expr::Val(Literal::Boolean(cond)) => {
                        if *cond {
                            t.eval_const_inner(env)
                        } else {
                            f.eval_const_inner(env)
                        }
                    },
                    Expr::Val(_) => Expr::Raise(RuntimeError::ExpectedBooleanInCond),
                    _ => Expr::If(
                        Box::new(fc),
                        Box::new(t.eval_const_inner(env)),
                        Box::new(f.eval_const_inner(env)),
                    ),
                }
            },
            Expr::Not(a) => {
                let fa = a.eval_const_inner(env);
                match &fa {
                    Expr::Val(Literal::Boolean(b)) => Expr::Val(Literal::Boolean(!*b)),
                    Expr::Val(_) => Expr::Raise(
                        RuntimeError::InvalidOperation(OpKind::Not, Reason::NonBoolean),
                    ),
                    _ => Expr::Not(Box::new(fa)),
                }
            },
            Expr::Ref(a) => Expr::Ref(Box::new(a.eval_const_inner(env))),
            Expr::Neg(a) => {
                let fa = a.eval_const_inner(env);
                match &fa {
                    Expr::Val(Literal::Integer(i)) => {
                        if *i == i128::MIN {
                            Expr::Raise(RuntimeError::IntOverflow(OpKind::Neg, 0, *i))
                        } else {
                            Expr::Val(Literal::Integer(-*i))
                        }
                    },
                    Expr::Val(_) => Expr::Raise(
                        RuntimeError::InvalidOperation(OpKind::Neg, Reason::NonNumeral),
                    ),
                    _ => Expr::Neg(Box::new(fa)),
                }
            },
            Expr::Deref(a) => Expr::Deref(Box::new(a.eval_const_inner(env))),
            Expr::Eq(a, b) => try_binop(
                BinOp::Eq,
                a.eval_const_inner(env),
                b.eval_const_inner(env),
            ),
            Expr::Neq(a, b) => try_binop(
                BinOp::Neq,
                a.eval_const_inner(env),
                b.eval_const_inner(env),
            ),
            Expr::Lt(a, b) => try_binop(
                BinOp::Lt,
                a.eval_const_inner(env),
                b.eval_const_inner(env),
            ),
            Expr::Lte(a, b) => try_binop(
                BinOp::Lte,
                a.eval_const_inner(env),
                b.eval_const_inner(env),
            ),
            Expr::Gt(a, b) => try_binop(
                BinOp::Gt,
                a.eval_const_inner(env),
                b.eval_const_inner(env),
            ),
            Expr::Gte(a, b) => try_binop(
                BinOp::Gte,
                a.eval_const_inner(env),
                b.eval_const_inner(env),
            ),
        }
    }

    /// The constant folder: one pass after another until a pass changes
    /// nothing, capped at `MAX_RECUR` passes.
    #[verifier::loop_isolation(false)]
    pub fn eval_const(self, env: &Vec<(String, Expr)>) -> (r: Expr)
        ensures
            r@ == fold_fix(self@, env_of(env@), MAX_RECUR as nat),
    {
        let mut cur = self;
        let mut i: usize = 0;
        let mut done: bool = false;
        while i < MAX_RECUR && !done
            invariant
                0 <= i <= MAX_RECUR,
                fold_fix(self@, env_of(env@), MAX_RECUR as nat) == fold_fix(
                    cur@,
                    env_of(env@),
                    (MAX_RECUR - i) as nat,
                ),
                done ==> fold_spec(cur@, env_of(env@)) == cur@,
            decreases MAX_RECUR - i + (if done {
                0int
            } else {
                1int
            }),
        {
            let next = cur.eval_const_inner(env);
            if next.expr_eq(&cur) {
                done = true;
            } else {
                proof {
                    assert(fold_fix(cur@, env_of(env@), (MAX_RECUR - i) as nat) == fold_fix(
                        next@,
                        env_of(env@),
                        (MAX_RECUR - (i + 1)) as nat,
                    ));
                }
                cur = next;
                i = i + 1;
            }
        }
        proof {
            if done {
                assert(fold_fix(cur@, env_of(env@), (MAX_RECUR - i) as nat) == cur@);
            }
        }
        cur
    }
}

/// What evaluating a fully constant expression yields: its literal
/// value, the error evaluation must raise, or nothing when the
/// expression is not constant (an identifier, a reference, a
/// dereference).
pub open spec fn interp(e: Exp) -> Option<Result<Literal, RuntimeError>>
    decreases e,
{
    match e {
        Exp::Val(l) => Some(Ok(l)),
        Exp::Raise(_) => None,
        Exp::Ident(_) => None,
        Exp::Ref(_) => None,
        Exp::Deref(_) => None,
        Exp::Add(a, b) => interp_binop(BinOp::Add, interp(*a), interp(*b)),
        Exp::Sub(a, b) => interp_binop(BinOp::Sub, interp(*a), interp(*b)),
        Exp::Mul(a, b) => interp_binop(BinOp::Mul, interp(*a), interp(*b)),
        Exp::Div(a, b) => interp_binop(BinOp::Div, interp(*a), interp(*b)),
        Exp::Pow(a, b) => interp_binop(BinOp::Pow, interp(*a), interp(*b)),
        Exp::Eq(a, b) => interp_binop(BinOp::Eq, interp(*a), interp(*b)),
        Exp::Neq(a, b) => interp_binop(BinOp::Neq, interp(*a), interp(*b)),
        Exp::Lt(a, b) => interp_binop(BinOp::Lt, interp(*a), interp(*b)),
        Exp::Lte(a, b) => interp_binop(BinOp::Lte, interp(*a), interp(*b)),
        Exp::Gt(a, b) => interp_binop(BinOp::Gt, interp(*a), interp(*b)),
        Exp::Gte(a, b) => interp_binop(BinOp::Gte, interp(*a), interp(*b)),
        Exp::Not(a) => match interp(*a) {
            Some(Ok(Literal::Boolean(b))) => Some(Ok(Literal::Boolean(!b))),
            Some(Ok(_)) => Some(
                Err(RuntimeError::InvalidOperation(OpKind::Not, Reason::NonBoolean)),
            ),
            other => other,
        },
        Exp::Neg(a) => match interp(*a) {
            Some(Ok(Literal::Integer(i))) => {
                if i == i128::MIN {
                    Some(Err(RuntimeError::IntOverflow(OpKind::Neg, 0, i)))
                } else {
                    Some(Ok(Literal::Integer((-i) as i128)))
                }
            },
            Some(Ok(_)) => Some(
                Err(RuntimeError::InvalidOperation(OpKind::Neg, Reason::NonNumeral)),
            ),
            other => other,
        },
        Exp::If(c, t, f) => match interp(*c) {
            Some(Ok(Literal::Boolean(b))) => {
                if b {
                    interp(*t)
                } else {
                    interp(*f)
                }
            },
            Some(Ok(_)) => Some(Err(RuntimeError::ExpectedBooleanInCond)),
            other => other,
        },
    }
}

/// Strict left-to-right evaluation of a binary operator's operands.
pub open spec fn interp_binop(
    op: BinOp,
    ia: Option<Result<Literal, RuntimeError>>,
    ib: Option<Result<Literal, RuntimeError>>,
) -> Option<Result<Literal, RuntimeError>> {
    match (ia, ib) {
        (Some(Ok(x)), Some(Ok(y))) => Some(apply_binop_spec(op, x, y)),
        (Some(Err(e)), _) => Some(Err(e)),
        (_, Some(Err(e))) => Some(Err(e)),
        _ => None,
    }
}

/// Constant folding is sound: when a fully constant expression evaluates
/// to a literal, one folding pass yields exactly that literal.
pub proof fn lemma_fold_sound(e: Exp, env: Seq<(Seq<char>, Exp)>)
    requires
        interp(e) matches Some(r) && r is Ok,
    ensures
        fold_spec(e, env) == Exp::Val(interp(e)->Some_0->Ok_0),
    decreases e, 1int,
{
    match e {
        Exp::Add(_, _) => lemma_fold_sound_arith(e, env),
        Exp::Sub(_, _) => lemma_fold_sound_arith(e, env),
        Exp::Mul(_, _) => lemma_fold_sound_arith(e, env),
        Exp::Div(_, _) => lemma_fold_sound_arith(e, env),
        Exp::Pow(_, _) => lemma_fold_sound_pow(e, env),
        Exp::Eq(_, _) => lemma_fold_sound_cmp(e, env),
        Exp::Neq(_, _) => lemma_fold_sound_cmp(e, env),
        Exp::Lt(_, _) => lemma_fold_sound_cmp(e, env),
        Exp::Lte(_, _) => lemma_fold_sound_cmp(e, env),
        Exp::Gt(_, _) => lemma_fold_sound_cmp(e, env),
        Exp::Gte(_, _) => lemma_fold_sound_cmp(e, env),
        Exp::Not(a) => {
            lemma_fold_sound(*a, env);
        },
        Exp::Neg(a) => {
            lemma_fold_sound(*a, env);
        },
        Exp::If(c, t, f) => {
            lemma_fold_sound(*c, env);
            let vc = interp(*c)->Some_0->Ok_0;
            if vc == Literal::Boolean(true) {
                lemma_fold_sound(*t, env);
            } else {
                lemma_fold_sound(*f, env);
            }
        },
        _ => (),
    }
}

proof fn lemma_fold_sound_arith(e: Exp, env: Seq<(Seq<char>, Exp)>)
    requires
        interp(e) matches Some(r) && r is Ok,
        e is Add || e is Sub || e is Mul || e is Div,
    ensures
        fold_spec(e, env) == Exp::Val(interp(e)->Some_0->Ok_0),
    decreases e, 0int,
{
    let v = interp(e)->Some_0->Ok_0;
    match e {
        Exp::Add(a, b) => {
            lemma_fold_sound(*a, env);
            lemma_fold_sound(*b, env);
            let va = interp(*a)->Some_0->Ok_0;
            let vb = interp(*b)->Some_0->Ok_0;
            assert(apply_binop_spec(BinOp::Add, va, vb) == Ok::<Literal, RuntimeError>(v));
            assert(va is Integer && vb is Integer);
            if va == Literal::Integer(0) {
                assert(v == vb);
            } else if vb == Literal::Integer(0) {
                assert(v == va);
            }
        },
        Exp::Sub(a, b) => {
            lemma_fold_sound(*a, env);
            lemma_fold_sound(*b, env);
            let va = interp(*a)->Some_0->Ok_0;
            let vb = interp(*b)->Some_0->Ok_0;
            assert(apply_binop_spec(BinOp::Sub, va, vb) == Ok::<Literal, RuntimeError>(v));
            assert(va is Integer && vb is Integer);
            if vb == Literal::Integer(0) {
                assert(v == va);
            }
        },
        Exp::Mul(a, b) => {
            lemma_fold_sound(*a, env);
            lemma_fold_sound(*b, env);
            let va = interp(*a)->Some_0->Ok_0;
            let vb = interp(*b)->Some_0->Ok_0;
            assert(apply_binop_spec(BinOp::Mul, va, vb) == Ok::<Literal, RuntimeError>(v));
            assert(va is Integer && vb is Integer);
            let x = va->Integer_0 as int;
            let y = vb->Integer_0 as int;
            if x == 0 || y == 0 {
                assert(x * y == 0) by (nonlinear_arith)
                    requires
                        x == 0 || y == 0,
                ;
                assert(v == Literal::Integer(0));
            } else if x == 1 {
                assert(x * y == y) by (nonlinear_arith)
                    requires
                        x == 1,
                ;
                assert(v == vb);
            } else if y == 1 {
                assert(x * y == x) by (nonlinear_arith)
                    requires
                        y == 1,
                ;
                assert(v == va);
            }
        },
        Exp::Div(a, b) => {
            lemma_fold_sound(*a, env);
            lemma_fold_sound(*b, env);
            let va = interp(*a)->Some_0->Ok_0;
            let vb = interp(*b)->Some_0->Ok_0;
            assert(apply_binop_spec(BinOp::Div, va, vb) == Ok::<Literal, RuntimeError>(v));
            assert(va is Integer && vb is Integer);
            let x = va->Integer_0 as int;
            let y = vb->Integer_0 as int;
            assert(y != 0);
            if y == 1 {
                assert(trunc_div(x, 1) == x);
                assert(v == va);
            }
        },
        _ => (),
    }
}

proof fn lemma_fold_sound_pow(e: Exp, env: Seq<(Seq<char>, Exp)>)
    requires
        interp(e) matches Some(r) && r is Ok,
        e is Pow,
    ensures
        fold_spec(e, env) == Exp::Val(interp(e)->Some_0->Ok_0),
    decreases e, 0int,
{
    let v = interp(e)->Some_0->Ok_0;
    match e {
        Exp::Pow(a, b) => {
            lemma_fold_sound(*a, env);
            lemma_fold_sound(*b, env);
            let va = interp(*a)->Some_0->Ok_0;
            let vb = interp(*b)->Some_0->Ok_0;
            assert(apply_binop_spec(BinOp::Pow, va, vb) == Ok::<Literal, RuntimeError>(v));
            assert(va is Integer && vb is Integer);
            let xi = va->Integer_0 as int;
            let yi = vb->Integer_0 as int;
            assert(pow_spec(xi, yi) is Ok);
            assert(yi >= 0);
            assert(!(xi == 0 && yi == 0));
            if xi != 0 && yi != 0 {
                if xi == 1 {
                    lemma_pow_iter_one(yi as nat);
                    assert(v == Literal::Integer(1));
                } else if yi == 1 {
                    assert(pow_iter(xi, 1) == Some(xi)) by {
                        reveal_with_fuel(pow_iter, 3);
                        assert(xi * 1 == xi) by (nonlinear_arith);
                    }
                    assert(v == va);
                }
            } else if xi == 0 {
                assert(yi > 0);
                lemma_pow_iter_zero(yi as nat);
                assert(v == Literal::Integer(0));
            } else {
                assert(yi == 0 && xi != 0);
                assert(pow_iter(xi, 0) == Some(1int));
                assert(v == Literal::Integer(1));
            }
        },
        _ => (),
    }
}

proof fn lemma_fold_sound_cmp(e: Exp, env: Seq<(Seq<char>, Exp)>)
    requires
        interp(e) matches Some(r) && r is Ok,
        e is Eq || e is Neq || e is Lt || e is Lte || e is Gt || e is Gte,
    ensures
        fold_spec(e, env) == Exp::Val(interp(e)->Some_0->Ok_0),
    decreases e, 0int,
{
    match e {
        Exp::Eq(a, b) => {
            lemma_fold_sound(*a, env);
            lemma_fold_sound(*b, env);
        },
        Exp::Neq(a, b) => {
            lemma_fold_sound(*a, env);
            lemma_fold_sound(*b, env);
        },
        Exp::Lt(a, b) => {
            lemma_fold_sound(*a, env);
            lemma_fold_sound(*b, env);
        },
        Exp::Lte(a, b) => {
            lemma_fold_sound(*a, env);
            lemma_fold_sound(*b, env);
        },
        Exp::Gt(a, b) => {
            lemma_fold_sound(*a, env);
            lemma_fold_sound(*b, env);
        },
        Exp::Gte(a, b) => {
            lemma_fold_sound(*a, env);
            lemma_fold_sound(*b, env);
        },
        _ => (),
    }
}

/// Constant folding is sound at the fixed point too: with any fuel left,
/// the folder returns the value of a fully constant expression.
pub proof fn lemma_fold_fix_sound(e: Exp, env: Seq<(Seq<char>, Exp)>, fuel: nat)
    requires
        interp(e) matches Some(r) && r is Ok,
        fuel >= 1,
    ensures
        fold_fix(e, env, fuel) == Exp::Val(interp(e)->Some_0->Ok_0),
{
    lemma_fold_sound(e, env);
    let v = interp(e)->Some_0->Ok_0;
    if fold_spec(e, env) == e {
    } else {
        assert(fold_spec(Exp::Val(v), env) == Exp::Val(v));
        assert(fold_fix(Exp::Val(v), env, (fuel - 1) as nat) == Exp::Val(v));
    }
}

} // verus!
