use vstd::prelude::*;

use crate::span::Span;
use crate::ttype::Type;

verus! {

/// A type-checked program: its top-level declarations in order, by name.
#[derive(Debug)]
pub struct Program(pub Vec<(String, Decl)>);

/// A top-level declaration: a mutable global, an immutable global, or a
/// function with its parameters, return type and body.
#[derive(Debug)]
pub enum Decl {
    Static(Span, Box<(Type, Expr)>),
    Const(Span, Box<(Type, Expr)>),
    Fn(Span, Vec<(String, Type)>, Box<(Type, Expr)>),
}

/// A statement of a type-checked block.
#[derive(Debug)]
pub enum Statement {
    Express(Span, Box<Type>, Expr),
    Let(Span, String, Box<Type>, Expr),
    Var(Span, String, Box<Type>, Expr),
    Rebind(Span, PlaceExpr, Expr),
    Return(Span, Expr),
}

/// An expression that denotes a memory location and may stand as an
/// assignment target.
#[derive(Debug)]
pub enum PlaceExpr {
    Ident(Span, String),
    Deref(Span, Box<Expr>),
    Index(Span, Box<Expr>, Box<Expr>),
    FieldAccess(Span, Box<Expr>, String),
}

/// A type-checked expression; every comparison carries the type its
/// operands were resolved to.
#[derive(Debug)]
pub enum Expr {
    Ident(Span, String),
    ConstBoolean(Span, bool),
    ConstI8(Span, i8),
    ConstU8(Span, u8),
    ConstI16(Span, i16),
    ConstU16(Span, u16),
    ConstI32(Span, i32),
    ConstU32(Span, u32),
    ConstCompInteger(Span, i128),
    ConstUnit(Span),
    ConstString(Span, String),
    ConstNull(Span),

    Ref(Span, Result<PlaceExpr, Box<Expr>>),
    Array(Span, Vec<Expr>),
    StructConstructor(Span, Vec<(Option<String>, Expr)>),
    /// the first type is the original type, the second is the target
    Cast(Span, Box<Expr>, Box<Type>, Box<Type>),

    Add(Span, Box<Expr>, Box<Expr>),
    Sub(Span, Box<Expr>, Box<Expr>),
    Mul(Span, Box<Expr>, Box<Expr>),
    Div(Span, Box<Expr>, Box<Expr>),
    Concat(Span, Box<Expr>, Box<Expr>),

    Not(Span, Box<Expr>),
    Neg(Span, Box<Expr>),
    Deref(Span, Box<Expr>),

    Block(Span, Vec<Statement>),
    Lambda(Span, Vec<(String, Type)>, Type, Box<Expr>),
    Call(Span, String, Vec<Expr>),

    If(Span, Box<Expr>, Box<Expr>, Box<Expr>),
    Eq(Span, Box<Expr>, Box<Expr>, Box<Type>),
    Neq(Span, Box<Expr>, Box<Expr>, Box<Type>),
    Lt(Span, Box<Expr>, Box<Expr>, Box<Type>),
    Lte(Span, Box<Expr>, Box<Expr>, Box<Type>),
    Gt(Span, Box<Expr>, Box<Expr>, Box<Type>),
    Gte(Span, Box<Expr>, Box<Expr>, Box<Type>),
}

/// The span carried at the top of an expression.
pub open spec fn span_of(e: Expr) -> Span {
    match e {
        Expr::Ident(sp, _) => sp,
        Expr::ConstBoolean(sp, _) => sp,
        Expr::ConstI8(sp, _) => sp,
        Expr::ConstU8(sp, _) => sp,
        Expr::ConstI16(sp, _) => sp,
        Expr::ConstU16(sp, _) => sp,
        Expr::ConstI32(sp, _) => sp,
        Expr::ConstU32(sp, _) => sp,
        Expr::ConstCompInteger(sp, _) => sp,
        Expr::ConstUnit(sp) => sp,
        Expr::ConstString(sp, _) => sp,
        Expr::ConstNull(sp) => sp,
        Expr::Ref(sp, _) => sp,
        Expr::Array(sp, _) => sp,
        Expr::StructConstructor(sp, _) => sp,
        Expr::Cast(sp, _, _, _) => sp,
        Expr::Add(sp, _, _) => sp,
        Expr::Sub(sp, _, _) => sp,
        Expr::Mul(sp, _, _) => sp,
        Expr::Div(sp, _, _) => sp,
        Expr::Concat(sp, _, _) => sp,
        Expr::Not(sp, _) => sp,
        Expr::Neg(sp, _) => sp,
        Expr::Deref(sp, _) => sp,
        Expr::Block(sp, _) => sp,
        Expr::Lambda(sp, _, _, _) => sp,
        Expr::Call(sp, _, _) => sp,
        Expr::If(sp, _, _, _) => sp,
        Expr::Eq(sp, _, _, _) => sp,
        Expr::Neq(sp, _, _, _) => sp,
        Expr::Lt(sp, _, _, _) => sp,
        Expr::Lte(sp, _, _, _) => sp,
        Expr::Gt(sp, _, _, _) => sp,
        Expr::Gte(sp, _, _, _) => sp,
    }
}

/// What `spanned` yields: the same node under `span`.  The `If`, `Eq`,
/// `Lt` and `Gt` nodes keep the span they already carry.
pub open spec fn with_span_spec(e: Expr, span: Span) -> Expr {
    match e {
        Expr::Ident(_, a) => Expr::Ident(span, a),
        Expr::ConstBoolean(_, a) => Expr::ConstBoolean(span, a),
        Expr::ConstI8(_, a) => Expr::ConstI8(span, a),
        Expr::ConstU8(_, a) => Expr::ConstU8(span, a),
        Expr::ConstI16(_, a) => Expr::ConstI16(span, a),
        Expr::ConstU16(_, a) => Expr::ConstU16(span, a),
        Expr::ConstI32(_, a) => Expr::ConstI32(span, a),
        Expr::ConstU32(_, a) => Expr::ConstU32(span, a),
        Expr::ConstCompInteger(_, a) => Expr::ConstCompInteger(span, a),
        Expr::ConstUnit(_) => Expr::ConstUnit(span),
        Expr::ConstString(_, a) => Expr::ConstString(span, a),
        Expr::ConstNull(_) => Expr::ConstNull(span),
        Expr::Ref(_, a) => Expr::Ref(span, a),
        Expr::Array(_, a) => Expr::Array(span, a),
        Expr::StructConstructor(_, a) => Expr::StructConstructor(span, a),
        Expr::Cast(_, a, b, c) => Expr::Cast(span, a, b, c),
        Expr::Add(_, a, b) => Expr::Add(span, a, b),
        Expr::Sub(_, a, b) => Expr::Sub(span, a, b),
        Expr::Mul(_, a, b) => Expr::Mul(span, a, b),
        Expr::Div(_, a, b) => Expr::Div(span, a, b),
        Expr::Concat(_, a, b) => Expr::Concat(span, a, b),
        Expr::Not(_, a) => Expr::Not(span, a),
        Expr::Neg(_, a) => Expr::Neg(span, a),
        Expr::Deref(_, a) => Expr::Deref(span, a),
        Expr::Block(_, a) => Expr::Block(span, a),
        Expr::Lambda(_, a, b, c) => Expr::Lambda(span, a, b, c),
        Expr::Call(_, a, b) => Expr::Call(span, a, b),
        Expr::If(sp, a, b, c) => Expr::If(sp, a, b, c),
        Expr::Eq(sp, a, b, c) => Expr::Eq(sp, a, b, c),
        Expr::Neq(_, a, b, c) => Expr::Neq(span, a, b, c),
        Expr::Lt(sp, a, b, c) => Expr::Lt(sp, a, b, c),
        Expr::Lte(_, a, b, c) => Expr::Lte(span, a, b, c),
        Expr::Gt(sp, a, b, c) => Expr::Gt(sp, a, b, c),
        Expr::Gte(_, a, b, c) => Expr::Gte(span, a, b, c),
    }
}

/// Whether `e` is a constant integer equal to `n`.
pub open spec fn is_const_int_spec(e: Expr, n: int) -> bool {
    match e {
        Expr::ConstU8(_, v) => v == n,
        Expr::ConstI8(_, v) => v == n,
        Expr::ConstU16(_, v) => v == n,
        Expr::ConstI16(_, v) => v == n,
        Expr::ConstU32(_, v) => v == n,
        Expr::ConstI32(_, v) => v == n,
        Expr::ConstCompInteger(_, v) => v == n,
        _ => false,
    }
}

impl Expr {
    /// The same node, placed under `span`.
    pub fn spanned(self, span: Span) -> (r: Expr)
        ensures
            r == with_span_spec(self, span),
    {
        match self {
            Expr::Ident(_, a) => Expr::Ident(span, a),
            Expr::ConstBoolean(_, a) => Expr::ConstBoolean(span, a),
            Expr::ConstI8(_, a) => Expr::ConstI8(span, a),
            Expr::ConstU8(_, a) => Expr::ConstU8(span, a),
            Expr::ConstI16(_, a) => Expr::ConstI16(span, a),
            Expr::ConstU16(_, a) => Expr::ConstU16(span, a),
            Expr::ConstI32(_, a) => Expr::ConstI32(span, a),
            Expr::ConstU32(_, a) => Expr::ConstU32(span, a),
            Expr::ConstCompInteger(_, a) => Expr::ConstCompInteger(span, a),
            Expr::ConstUnit(_) => Expr::ConstUnit(span),
            Expr::ConstString(_, a) => Expr::ConstString(span, a),
            Expr::ConstNull(_) => Expr::ConstNull(span),
            Expr::Ref(_, a) => Expr::Ref(span, a),
            Expr::Array(_, a) => Expr::Array(span, a),
            Expr::StructConstructor(_, a) => Expr::StructConstructor(span, a),
            Expr::Cast(_, a, b, c) => Expr::Cast(span, a, b, c),
            Expr::Add(_, a, b) => Expr::Add(span, a, b),
            Expr::Sub(_, a, b) => Expr::Sub(span, a, b),
            Expr::Mul(_, a, b) => Expr::Mul(span, a, b),
            Expr::Div(_, a, b) => Expr::Div(span, a, b),
            Expr::Concat(_, a, b) => Expr::Concat(span, a, b),
            Expr::Not(_, a) => Expr::Not(span, a),
            Expr::Neg(_, a) => Expr::Neg(span, a),
            Expr::Deref(_, a) => Expr::Deref(span, a),
            Expr::Block(_, a) => Expr::Block(span, a),
            Expr::Lambda(_, a, b, c) => Expr::Lambda(span, a, b, c),
            Expr::Call(_, a, b) => Expr::Call(span, a, b),
            Expr::If(sp, a, b, c) => Expr::If(sp, a, b, c),
            Expr::Eq(sp, a, b, c) => Expr::Eq(sp, a, b, c),
            Expr::Neq(_, a, b, c) => Expr::Neq(span, a, b, c),
            Expr::Lt(sp, a, b, c) => Expr::Lt(sp, a, b, c),
            Expr::Lte(_, a, b, c) => Expr::Lte(span, a, b, c),
            Expr::Gt(sp, a, b, c) => Expr::Gt(sp, a, b, c),
            Expr::Gte(_, a, b, c) => Expr::Gte(span, a, b, c),
        }
    }

    /// Whether the expression is a constant integer zero.
    pub fn is_const_zero(&self) -> (r: bool)
        ensures
            r == is_const_int_spec(*self, 0),
    {
        match self {
            Expr::ConstU8(_, 0) => true,
            Expr::ConstI8(_, 0) => true,
            Expr::ConstU16(_, 0) => true,
            Expr::ConstI16(_, 0) => true,
            Expr::ConstU32(_, 0) => true,
            Expr::ConstI32(_, 0) => true,
            Expr::ConstCompInteger(_, 0) => true,
            _ => false,
        }
    }

    /// Whether the expression is a constant integer one.
    pub fn is_const_one(&self) -> (r: bool)
        ensures
            r == is_const_int_spec(*self, 1),
    {
        match self {
            Expr::ConstU8(_, 1) => true,
            Expr::ConstI8(_, 1) => true,
            Expr::ConstU16(_, 1) => true,
            Expr::ConstI16(_, 1) => true,
            Expr::ConstU32(_, 1) => true,
            Expr::ConstI32(_, 1) => true,
            Expr::ConstCompInteger(_, 1) => true,
            _ => false,
        }
    }
}

} // verus!
