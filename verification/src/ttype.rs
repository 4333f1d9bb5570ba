use vstd::prelude::*;

use collect_result::CollectResult;

use crate::ttype::typevar::{TypeVar, TypeVarStore};

pub mod ast;
pub mod stab;
pub mod typevar;

verus! {

/// Mathematical model of a source-language type. `Seq` stands for the
/// executable `Vec`, and strings are sequences of characters, so that
/// equality on `Ty` is plain structural equality.
pub enum Ty {
    Unknown(nat),
    Opaque,
    Bool,
    Byte,
    U8,
    I8,
    U16,
    I16,
    U32,
    I32,
    CompInteger,
    CompString,
    Float,
    Function(Seq<Ty>, Box<Ty>),
    Struct(Seq<(Seq<char>, Ty)>),
    Unit,
    Option(Box<Ty>),
    Pointer(Box<Ty>),
    ArrayPointer(Box<Ty>),
    Slice(Box<Ty>),
    Array(Box<Ty>, u16),
}

/// Mathematical model of a type error.
pub enum TyErr {
    TypeMismatch(Ty, Ty),
    InvalidOp(Seq<char>, Ty),
    CannotDeref(Ty),
    Undefined(Seq<char>),
    NotMutable(Seq<char>),
    CannotCall(Ty),
    UnequalArraySizes(u16, u16),
    UnequalArgLen(u16, u16),
    NotPtr(Ty),
    DisjointConstraints(Seq<Ty>, Seq<Ty>),
    NonConcreteType,
}

/// A type of the source language. `CompInteger` and `CompString` are the
/// polymorphic types of integer and string literals, waiting for unification
/// to pin them to a concrete width; `Unknown` is a type variable bound in a
/// `TypeVarStore`; `Opaque` unifies with anything and is used for the
/// built-in `print`.
#[derive(Debug, PartialEq, Eq, Hash)]
pub enum Type {
    Unknown(TypeVar),
    Opaque,

    Bool,
    Byte,
    U8,
    I8,
    U16,
    I16,
    U32,
    I32,
    CompInteger,
    CompString,

    /// limited support
    Float,

    Function(Vec<Type>, Box<Type>),
    Struct(Vec<(String, Type)>),
    Unit,

    Option(Box<Type>),
    Pointer(Box<Type>),
    ArrayPointer(Box<Type>),
    Slice(Box<Type>),
    Array(Box<Type>, u16),
}

/// The model of an executable type.
pub open spec fn ty_of(t: Type) -> Ty
    decreases t,
    via ty_of_dec
{
    match t {
        Type::Unknown(v) => Ty::Unknown(v.0 as nat),
        Type::Opaque => Ty::Opaque,
        Type::Bool => Ty::Bool,
        Type::Byte => Ty::Byte,
        Type::U8 => Ty::U8,
        Type::I8 => Ty::I8,
        Type::U16 => Ty::U16,
        Type::I16 => Ty::I16,
        Type::U32 => Ty::U32,
        Type::I32 => Ty::I32,
        Type::CompInteger => Ty::CompInteger,
        Type::CompString => Ty::CompString,
        Type::Float => Ty::Float,
        Type::Unit => Ty::Unit,
        Type::Function(args, ret) => Ty::Function(
            Seq::new(
                args@.len(),
                |i: int|
                    if 0 <= i < args@.len() {
                        ty_of(args@[i])
                    } else {
                        Ty::Unit
                    },
            ),
            Box::new(ty_of(*ret)),
        ),
        Type::Struct(fields) => Ty::Struct(
            Seq::new(
                fields@.len(),
                |i: int|
                    if 0 <= i < fields@.len() {
                        (fields@[i].0@, ty_of(fields@[i].1))
                    } else {
                        (Seq::empty(), Ty::Unit)
                    },
            ),
        ),
        Type::Option(t1) => Ty::Option(Box::new(ty_of(*t1))),
        Type::Pointer(t1) => Ty::Pointer(Box::new(ty_of(*t1))),
        Type::ArrayPointer(t1) => Ty::ArrayPointer(Box::new(ty_of(*t1))),
        Type::Slice(t1) => Ty::Slice(Box::new(ty_of(*t1))),
        Type::Array(t1, n) => Ty::Array(Box::new(ty_of(*t1)), n),
    }
}

#[via_fn]
proof fn ty_of_dec(t: Type) {
    match t {
        Type::Function(args, ret) => {
            assert(decreases_to!(t => args));
            assert forall|i: int| 0 <= i < args@.len() implies decreases_to!(t => args@[i]) by {
                assert(decreases_to!(args => args@[i]));
            }
        },
        Type::Struct(fields) => {
            assert(decreases_to!(t => fields));
            assert forall|i: int| 0 <= i < fields@.len() implies decreases_to!(
                t => fields@[i].1,
            ) by {
                assert(decreases_to!(fields => fields@[i]));
            }
        },
        _ => (),
    }
}

impl View for Type {
    type V = Ty;

    open spec fn view(&self) -> Ty {
        ty_of(*self)
    }
}

/// A type error of the checker and of unification, carrying the offending
/// types or names.
#[derive(Debug, PartialEq)]
pub enum TypeError {
    /// expected, actual
    TypeMismatch(Type, Type),
    InvalidOp(String, Type),
    CannotDeref(Type),
    Undefined(String),
    NotMutable(String),
    CannotCall(Type),
    UnequalArraySizes(u16, u16),
    UnequalArgLen(u16, u16),
    NotPtr(Type),
    DisjointConstraints(Vec<Type>, Vec<Type>),
    NonConcreteType,
}

/// The model of a sequence of executable types.
pub open spec fn tys_of(v: Seq<Type>) -> Seq<Ty> {
    Seq::new(v.len(), |i: int| ty_of(v[i]))
}

/// The model of an executable type error.
pub open spec fn terr_of(e: TypeError) -> TyErr {
    match e {
        TypeError::TypeMismatch(a, b) => TyErr::TypeMismatch(ty_of(a), ty_of(b)),
        TypeError::InvalidOp(op, t) => TyErr::InvalidOp(op@, ty_of(t)),
        TypeError::CannotDeref(t) => TyErr::CannotDeref(ty_of(t)),
        TypeError::Undefined(n) => TyErr::Undefined(n@),
        TypeError::NotMutable(n) => TyErr::NotMutable(n@),
        TypeError::CannotCall(t) => TyErr::CannotCall(ty_of(t)),
        TypeError::UnequalArraySizes(a, b) => TyErr::UnequalArraySizes(a, b),
        TypeError::UnequalArgLen(a, b) => TyErr::UnequalArgLen(a, b),
        TypeError::NotPtr(t) => TyErr::NotPtr(ty_of(t)),
        TypeError::DisjointConstraints(a, b) => TyErr::DisjointConstraints(
            tys_of(a@),
            tys_of(b@),
        ),
        TypeError::NonConcreteType => TyErr::NonConcreteType,
    }
}

impl View for TypeError {
    type V = TyErr;

    open spec fn view(&self) -> TyErr {
        terr_of(*self)
    }
}

/// The model of a unification outcome.
pub open spec fn unify_view(r: Result<Type, TypeError>) -> Result<Ty, TyErr> {
    match r {
        Ok(t) => Ok(ty_of(t)),
        Err(e) => Err(terr_of(e)),
    }
}

/// Every variable inside `t` names a slot below `n`.
pub open spec fn vars_below(t: Ty, n: int) -> bool
    decreases t,
{
    match t {
        Ty::Unknown(v) => v < n,
        Ty::Function(args, ret) => {
            &&& (forall|i: int| 0 <= i < args.len() ==> vars_below(#[trigger] args[i], n))
            &&& vars_below(*ret, n)
        },
        Ty::Struct(fields) => forall|i: int|
            0 <= i < fields.len() ==> vars_below((#[trigger] fields[i]).1, n),
        Ty::Option(t1) => vars_below(*t1, n),
        Ty::Pointer(t1) => vars_below(*t1, n),
        Ty::ArrayPointer(t1) => vars_below(*t1, n),
        Ty::Slice(t1) => vars_below(*t1, n),
        Ty::Array(t1, _) => vars_below(*t1, n),
        _ => true,
    }
}

/// A model type is variable-free when no `Unknown` occurs anywhere inside it.
pub open spec fn var_free(t: Ty) -> bool
    decreases t,
{
    match t {
        Ty::Unknown(_) => false,
        Ty::Function(args, ret) => {
            &&& (forall|i: int| 0 <= i < args.len() ==> var_free(#[trigger] args[i]))
            &&& var_free(*ret)
        },
        Ty::Struct(fields) => forall|i: int|
            0 <= i < fields.len() ==> var_free((#[trigger] fields[i]).1),
        Ty::Option(t1) => var_free(*t1),
        Ty::Pointer(t1) => var_free(*t1),
        Ty::ArrayPointer(t1) => var_free(*t1),
        Ty::Slice(t1) => var_free(*t1),
        Ty::Array(t1, _) => var_free(*t1),
        _ => true,
    }
}

impl Type {
    /// Structural equality of two types: the executable side of `==` on the
    /// models.
    #[verifier::loop_isolation(false)]
    pub fn type_eq(&self, other: &Type) -> (r: bool)
        ensures
            r == (self@ == other@),
        decreases *self,
    {
        match (self, other) {
            (Type::Unknown(v1), Type::Unknown(v2)) => v1.0 == v2.0,
            (Type::Opaque, Type::Opaque) => true,
            (Type::Bool, Type::Bool) => true,
            (Type::Byte, Type::Byte) => true,
            (Type::U8, Type::U8) => true,
            (Type::I8, Type::I8) => true,
            (Type::U16, Type::U16) => true,
            (Type::I16, Type::I16) => true,
            (Type::U32, Type::U32) => true,
            (Type::I32, Type::I32) => true,
            (Type::CompInteger, Type::CompInteger) => true,
            (Type::CompString, Type::CompString) => true,
            (Type::Float, Type::Float) => true,
            (Type::Unit, Type::Unit) => true,
            (Type::Function(args1, ret1), Type::Function(args2, ret2)) => {
                proof {
                    assert(self@->Function_0.len() == args1@.len());
                    assert(other@->Function_0.len() == args2@.len());
                }
                if args1.len() != args2.len() {
                    return false;
                }
                let mut i: usize = 0;
                while i < args1.len()
                    invariant
                        0 <= i <= args1@.len(),
                        forall|j: int| 0 <= j < i ==> args1@[j]@ == args2@[j]@,
                    decreases args1@.len() - i,
                {
                    if !args1[i].type_eq(&args2[i]) {
                        proof {
                            assert(self@->Function_0[i as int] != other@->Function_0[i as int]);
                        }
                        return false;
                    }
                    i = i + 1;
                }
                let r = ret1.type_eq(ret2);
                proof {
                    if r {
                        assert(self@->Function_0 =~= other@->Function_0);
                    }
                }
                r
            },
            (Type::Struct(fields1), Type::Struct(fields2)) => {
                proof {
                    assert(self@->Struct_0.len() == fields1@.len());
                    assert(other@->Struct_0.len() == fields2@.len());
                }
                if fields1.len() != fields2.len() {
                    return false;
                }
                let mut i: usize = 0;
                while i < fields1.len()
                    invariant
                        0 <= i <= fields1@.len(),
                        forall|j: int|
                            0 <= j < i ==> (#[trigger] fields1@[j]).0@ == fields2@[j].0@
                                && fields1@[j].1@ == fields2@[j].1@,
                    decreases fields1@.len() - i,
                {
                    if !(fields1[i].0 == fields2[i].0) {
                        proof {
                            assert(self@->Struct_0[i as int].0 != other@->Struct_0[i as int].0);
                        }
                        return false;
                    }
                    if !fields1[i].1.type_eq(&fields2[i].1) {
                        proof {
                            assert(self@->Struct_0[i as int].1 != other@->Struct_0[i as int].1);
                        }
                        return false;
                    }
                    i = i + 1;
                }
                proof {
                    assert(self@->Struct_0 =~= other@->Struct_0);
                }
                true
            },
            (Type::Option(t1), Type::Option(t2)) => t1.type_eq(t2),
            (Type::Pointer(t1), Type::Pointer(t2)) => t1.type_eq(t2),
            (Type::ArrayPointer(t1), Type::ArrayPointer(t2)) => t1.type_eq(t2),
            (Type::Slice(t1), Type::Slice(t2)) => t1.type_eq(t2),
            (Type::Array(t1, n1), Type::Array(t2, n2)) => *n1 == *n2 && t1.type_eq(t2),
            _ => false,
        }
    }

    /// True when no type variable occurs inside `self`.
    #[verifier::loop_isolation(false)]
    pub fn is_var_free(&self) -> (r: bool)
        ensures
            r == var_free(self@),
        decreases *self,
    {
        match self {
            Type::Unknown(_) => false,
            Type::Function(args, ret) => {
                let mut i: usize = 0;
                while i < args.len()
                    invariant
                        0 <= i <= args@.len(),
                        forall|j: int| 0 <= j < i ==> var_free(#[trigger] args@[j]@),
                    decreases args@.len() - i,
                {
                    if !args[i].is_var_free() {
                        proof {
                            assert(!var_free(self@->Function_0[i as int]));
                        }
                        return false;
                    }
                    i = i + 1;
                }
                proof {
                    assert forall|j: int| 0 <= j < self@->Function_0.len() implies var_free(
                        #[trigger] self@->Function_0[j],
                    ) by {
                        assert(self@->Function_0[j] == args@[j]@);
                    }
                }
                ret.is_var_free()
            },
            Type::Struct(fields) => {
                let mut i: usize = 0;
                while i < fields.len()
                    invariant
                        0 <= i <= fields@.len(),
                        forall|j: int| 0 <= j < i ==> var_free((#[trigger] fields@[j]).1@),
                    decreases fields@.len() - i,
                {
                    if !fields[i].1.is_var_free() {
                        proof {
                            assert(!var_free(self@->Struct_0[i as int].1));
                        }
                        return false;
                    }
                    i = i + 1;
                }
                proof {
                    assert forall|j: int| 0 <= j < self@->Struct_0.len() implies var_free(
                        (#[trigger] self@->Struct_0[j]).1,
                    ) by {
                        assert(self@->Struct_0[j].1 == fields@[j].1@);
                    }
                }
                true
            },
            Type::Option(t1) => t1.is_var_free(),
            Type::Pointer(t1) => t1.is_var_free(),
            Type::ArrayPointer(t1) => t1.is_var_free(),
            Type::Slice(t1) => t1.is_var_free(),
            Type::Array(t1, _) => t1.is_var_free(),
            _ => true,
        }
    }

    /// A structural copy: the result has the same model as `self`.
    #[verifier::loop_isolation(false)]
    pub fn deep_clone(&self) -> (r: Type)
        ensures
            r@ == self@,
        decreases *self,
    {
        match self {
            Type::Unknown(v) => Type::Unknown(TypeVar(v.0)),
            Type::Opaque => Type::Opaque,
            Type::Bool => Type::Bool,
            Type::Byte => Type::Byte,
            Type::U8 => Type::U8,
            Type::I8 => Type::I8,
            Type::U16 => Type::U16,
            Type::I16 => Type::I16,
            Type::U32 => Type::U32,
            Type::I32 => Type::I32,
            Type::CompInteger => Type::CompInteger,
            Type::CompString => Type::CompString,
            Type::Float => Type::Float,
            Type::Unit => Type::Unit,
            Type::Function(args, ret) => {
                let mut new_args: Vec<Type> = Vec::new();
                let mut i: usize = 0;
                while i < args.len()
                    invariant
                        0 <= i <= args@.len(),
                        new_args@.len() == i,
                        forall|j: int| 0 <= j < i ==> new_args@[j]@ == args@[j]@,
                    decreases args@.len() - i,
                {
                    new_args.push(args[i].deep_clone());
                    i = i + 1;
                }
                let r = Type::Function(new_args, Box::new(ret.deep_clone()));
                proof {
                    assert(r@->Function_0 =~= self@->Function_0);
                }
                r
            },
            Type::Struct(fields) => {
                let mut new_fields: Vec<(String, Type)> = Vec::new();
                let mut i: usize = 0;
                while i < fields.len()
                    invariant
                        0 <= i <= fields@.len(),
                        new_fields@.len() == i,
                        forall|j: int|
                            0 <= j < i ==> (#[trigger] new_fields@[j]).0@ == fields@[j].0@
                                && new_fields@[j].1@ == fields@[j].1@,
                    decreases fields@.len() - i,
                {
                    new_fields.push((fields[i].0.clone(), fields[i].1.deep_clone()));
                    i = i + 1;
                }
                let r = Type::Struct(new_fields);
                proof {
                    assert(r@->Struct_0 =~= self@->Struct_0);
                }
                r
            },
            Type::Option(t1) => Type::Option(Box::new(t1.deep_clone())),
            Type::Pointer(t1) => Type::Pointer(Box::new(t1.deep_clone())),
            Type::ArrayPointer(t1) => Type::ArrayPointer(Box::new(t1.deep_clone())),
            Type::Slice(t1) => Type::Slice(Box::new(t1.deep_clone())),
            Type::Array(t1, n) => Type::Array(Box::new(t1.deep_clone()), *n),
        }
    }
}

/// What unification of two variable-free model types yields: the unified
/// type, or the error that the mismatch raises.  `Opaque` absorbs anything;
/// `CompInteger` is pinned by any concrete integer width; composite types
/// unify componentwise; `Array` sizes and `Function` arities must agree.
pub open spec fn unify_ty(a: Ty, b: Ty) -> Result<Ty, TyErr>
    decreases a,
{
    if a == b {
        Ok(a)
    } else if a is Opaque || b is Opaque {
        Ok(Ty::Opaque)
    } else {
        match (a, b) {
            (Ty::Unknown(_), _) => Err(TyErr::NonConcreteType),
            (_, Ty::Unknown(_)) => Err(TyErr::NonConcreteType),
            (Ty::I8, Ty::CompInteger) | (Ty::CompInteger, Ty::I8) => Ok(Ty::I8),
            (Ty::U8, Ty::CompInteger) | (Ty::CompInteger, Ty::U8) => Ok(Ty::U8),
            (Ty::I16, Ty::CompInteger) | (Ty::CompInteger, Ty::I16) => Ok(Ty::I16),
            (Ty::U16, Ty::CompInteger) | (Ty::CompInteger, Ty::U16) => Ok(Ty::U16),
            (Ty::I32, Ty::CompInteger) | (Ty::CompInteger, Ty::I32) => Ok(Ty::I32),
            (Ty::U32, Ty::CompInteger) | (Ty::CompInteger, Ty::U32) => Ok(Ty::U32),
            (Ty::Array(t1, s1), Ty::Array(t2, s2)) => {
                if s1 != s2 {
                    Err(TyErr::UnequalArraySizes(s1, s2))
                } else {
                    match unify_ty(*t1, *t2) {
                        Ok(t) => Ok(Ty::Array(Box::new(t), s1)),
                        Err(e) => Err(e),
                    }
                }
            },
            (Ty::Function(args1, ret1), Ty::Function(args2, ret2)) => {
                if args1.len() != args2.len() {
                    Err(TyErr::UnequalArgLen(args1.len() as u16, args2.len() as u16))
                } else {
                    match unify_ty_seq(args1, args2) {
                        Ok(args) => match unify_ty(*ret1, *ret2) {
                            Ok(rt) => Ok(Ty::Function(args, Box::new(rt))),
                            Err(e) => Err(e),
                        },
                        Err(e) => Err(e),
                    }
                }
            },
            (Ty::ArrayPointer(t1), Ty::ArrayPointer(t2)) => {
                match unify_ty(*t1, *t2) {
                    Ok(t) => Ok(Ty::ArrayPointer(Box::new(t))),
                    Err(e) => Err(e),
                }
            },
            (Ty::Pointer(t1), Ty::Pointer(t2)) => {
                match unify_ty(*t1, *t2) {
                    Ok(t) => Ok(Ty::Pointer(Box::new(t))),
                    Err(e) => Err(e),
                }
            },
            (Ty::Option(t1), Ty::Option(t2)) => {
                match unify_ty(*t1, *t2) {
                    Ok(t) => Ok(Ty::Option(Box::new(t))),
                    Err(e) => Err(e),
                }
            },
            (Ty::Slice(t1), Ty::Slice(t2)) => {
                match unify_ty(*t1, *t2) {
                    Ok(t) => Ok(Ty::Slice(Box::new(t))),
                    Err(e) => Err(e),
                }
            },
            (Ty::Struct(f1), Ty::Struct(f2)) => {
                if f1.len() != f2.len() || !(forall|i: int|
                    0 <= i < f1.len() ==> (#[trigger] f1[i]).0 == f2[i].0) {
                    Err(TyErr::TypeMismatch(a, b))
                } else {
                    match unify_fields_seq(f1, f2) {
                        Ok(fs) => Ok(Ty::Struct(fs)),
                        Err(e) => Err(e),
                    }
                }
            },
            _ => Err(TyErr::TypeMismatch(a, b)),
        }
    }
}

/// Pairwise unification of two equally long sequences of model types:
/// all results in order, or the first error.
pub open spec fn unify_ty_seq(s1: Seq<Ty>, s2: Seq<Ty>) -> Result<Seq<Ty>, TyErr>
    recommends
        s1.len() == s2.len(),
    decreases s1,
{
    if s1.len() == 0 {
        Ok(Seq::empty())
    } else {
        match unify_ty(s1[0], s2[0]) {
            Ok(t) => match unify_ty_seq(s1.drop_first(), s2.drop_first()) {
                Ok(rest) => Ok(seq![t] + rest),
                Err(e) => Err(e),
            },
            Err(e) => Err(e),
        }
    }
}

/// Pairwise unification of the field types of two structs whose field
/// names already agree; the names of the first operand are kept.
pub open spec fn unify_fields_seq(f1: Seq<(Seq<char>, Ty)>, f2: Seq<(Seq<char>, Ty)>) -> Result<
    Seq<(Seq<char>, Ty)>,
    TyErr,
>
    recommends
        f1.len() == f2.len(),
    decreases f1,
{
    if f1.len() == 0 {
        Ok(Seq::empty())
    } else {
        match unify_ty(f1[0].1, f2[0].1) {
            Ok(t) => match unify_fields_seq(f1.drop_first(), f2.drop_first()) {
                Ok(rest) => Ok(seq![(f1[0].0, t)] + rest),
                Err(e) => Err(e),
            },
            Err(e) => Err(e),
        }
    }
}

/// When every pair unifies, the sequence unification succeeds with the
/// pairwise results in order.
proof fn lemma_unify_ty_seq_ok(s1: Seq<Ty>, s2: Seq<Ty>)
    requires
        s1.len() == s2.len(),
        forall|j: int| 0 <= j < s1.len() ==> (#[trigger] unify_ty(s1[j], s2[j])) is Ok,
    ensures
        unify_ty_seq(s1, s2) == Ok::<Seq<Ty>, TyErr>(
            Seq::new(s1.len(), |j: int| unify_ty(s1[j], s2[j])->Ok_0),
        ),
    decreases s1.len(),
{
    let want = Seq::new(s1.len(), |j: int| unify_ty(s1[j], s2[j])->Ok_0);
    if s1.len() == 0 {
        assert(want =~= Seq::empty());
    } else {
        lemma_unify_ty_seq_ok(s1.drop_first(), s2.drop_first());
        let rest = Seq::new(
            s1.drop_first().len(),
            |j: int| unify_ty(s1.drop_first()[j], s2.drop_first()[j])->Ok_0,
        );
        assert(seq![unify_ty(s1[0], s2[0])->Ok_0] + rest =~= want);
    }
}

/// When every pair before `k` unifies and the pair at `k` fails, the
/// sequence unification fails with that first error.
proof fn lemma_unify_ty_seq_err(s1: Seq<Ty>, s2: Seq<Ty>, k: int)
    requires
        s1.len() == s2.len(),
        0 <= k < s1.len(),
        forall|j: int| 0 <= j < k ==> (#[trigger] unify_ty(s1[j], s2[j])) is Ok,
        unify_ty(s1[k], s2[k]) is Err,
    ensures
        unify_ty_seq(s1, s2) == Err::<Seq<Ty>, TyErr>(unify_ty(s1[k], s2[k])->Err_0),
    decreases k,
{
    if k == 0 {
        assert(unify_ty(s1[0], s2[0]) is Err);
    } else {
        assert(unify_ty(s1[0], s2[0]) is Ok);
        assert forall|j: int|
            0 <= j < k - 1 implies (#[trigger] unify_ty(
            s1.drop_first()[j],
            s2.drop_first()[j],
        )) is Ok by {
            assert(s1.drop_first()[j] == s1[j + 1]);
            assert(s2.drop_first()[j] == s2[j + 1]);
        }
        assert(s1.drop_first()[k - 1] == s1[k]);
        assert(s2.drop_first()[k - 1] == s2[k]);
        lemma_unify_ty_seq_err(s1.drop_first(), s2.drop_first(), k - 1);
    }
}

/// `lemma_unify_ty_seq_ok` for struct fields.
proof fn lemma_unify_fields_seq_ok(f1: Seq<(Seq<char>, Ty)>, f2: Seq<(Seq<char>, Ty)>)
    requires
        f1.len() == f2.len(),
        forall|j: int| 0 <= j < f1.len() ==> (#[trigger] unify_ty(f1[j].1, f2[j].1)) is Ok,
    ensures
        unify_fields_seq(f1, f2) == Ok::<Seq<(Seq<char>, Ty)>, TyErr>(
            Seq::new(f1.len(), |j: int| (f1[j].0, unify_ty(f1[j].1, f2[j].1)->Ok_0)),
        ),
    decreases f1.len(),
{
    let want = Seq::new(f1.len(), |j: int| (f1[j].0, unify_ty(f1[j].1, f2[j].1)->Ok_0));
    if f1.len() == 0 {
        assert(want =~= Seq::empty());
    } else {
        lemma_unify_fields_seq_ok(f1.drop_first(), f2.drop_first());
        let rest = Seq::new(
            f1.drop_first().len(),
            |j: int| (f1.drop_first()[j].0, unify_ty(f1.drop_first()[j].1, f2.drop_first()[j].1)->Ok_0),
        );
        assert(seq![(f1[0].0, unify_ty(f1[0].1, f2[0].1)->Ok_0)] + rest =~= want);
    }
}

/// `lemma_unify_ty_seq_err` for struct fields.
proof fn lemma_unify_fields_seq_err(f1: Seq<(Seq<char>, Ty)>, f2: Seq<(Seq<char>, Ty)>, k: int)
    requires
        f1.len() == f2.len(),
        0 <= k < f1.len(),
        forall|j: int| 0 <= j < k ==> (#[trigger] unify_ty(f1[j].1, f2[j].1)) is Ok,
        unify_ty(f1[k].1, f2[k].1) is Err,
    ensures
        unify_fields_seq(f1, f2) == Err::<Seq<(Seq<char>, Ty)>, TyErr>(
            unify_ty(f1[k].1, f2[k].1)->Err_0,
        ),
    decreases k,
{
    if k == 0 {
        assert(unify_ty(f1[0].1, f2[0].1) is Err);
    } else {
        assert(unify_ty(f1[0].1, f2[0].1) is Ok);
        assert forall|j: int|
            0 <= j < k - 1 implies (#[trigger] unify_ty(
            f1.drop_first()[j].1,
            f2.drop_first()[j].1,
        )) is Ok by {
            assert(f1.drop_first()[j] == f1[j + 1]);
            assert(f2.drop_first()[j] == f2[j + 1]);
        }
        assert(f1.drop_first()[k - 1] == f1[k]);
        assert(f2.drop_first()[k - 1] == f2[k]);
        lemma_unify_fields_seq_err(f1.drop_first(), f2.drop_first(), k - 1);
    }
}

/// A variable-free type trivially has all its variables below any bound.
pub proof fn lemma_var_free_below(t: Ty, n: int)
    requires
        var_free(t),
    ensures
        vars_below(t, n),
    decreases t,
{
    match t {
        Ty::Function(args, ret) => {
            assert forall|i: int| 0 <= i < args.len() implies vars_below(
                #[trigger] args[i],
                n,
            ) by {
                assert(var_free(args[i]));
                lemma_var_free_below(args[i], n);
            }
            lemma_var_free_below(*ret, n);
        },
        Ty::Struct(fields) => {
            assert forall|i: int| 0 <= i < fields.len() implies vars_below(
                (#[trigger] fields[i]).1,
                n,
            ) by {
                assert(var_free(fields[i].1));
                lemma_var_free_below(fields[i].1, n);
            }
        },
        Ty::Option(t1) => lemma_var_free_below(*t1, n),
        Ty::Pointer(t1) => lemma_var_free_below(*t1, n),
        Ty::ArrayPointer(t1) => lemma_var_free_below(*t1, n),
        Ty::Slice(t1) => lemma_var_free_below(*t1, n),
        Ty::Array(t1, _) => lemma_var_free_below(*t1, n),
        _ => (),
    }
}

/// Unifying two variable-free types yields a variable-free type.
pub proof fn lemma_unify_ty_var_free(a: Ty, b: Ty)
    requires
        var_free(a),
        var_free(b),
        unify_ty(a, b) is Ok,
    ensures
        var_free(unify_ty(a, b)->Ok_0),
    decreases a,
{
    if a == b || a is Opaque || b is Opaque {
    } else {
        match (a, b) {
            (Ty::Array(t1, _), Ty::Array(t2, _)) => {
                if unify_ty(*t1, *t2) is Ok {
                    lemma_unify_ty_var_free(*t1, *t2);
                }
            },
            (Ty::Function(args1, ret1), Ty::Function(args2, ret2)) => {
                if args1.len() == args2.len() {
                    lemma_unify_ty_seq_var_free(args1, args2);
                    if unify_ty(*ret1, *ret2) is Ok {
                        lemma_unify_ty_var_free(*ret1, *ret2);
                    }
                }
            },
            (Ty::ArrayPointer(t1), Ty::ArrayPointer(t2)) => {
                if unify_ty(*t1, *t2) is Ok {
                    lemma_unify_ty_var_free(*t1, *t2);
                }
            },
            (Ty::Pointer(t1), Ty::Pointer(t2)) => {
                if unify_ty(*t1, *t2) is Ok {
                    lemma_unify_ty_var_free(*t1, *t2);
                }
            },
            (Ty::Option(t1), Ty::Option(t2)) => {
                if unify_ty(*t1, *t2) is Ok {
                    lemma_unify_ty_var_free(*t1, *t2);
                }
            },
            (Ty::Slice(t1), Ty::Slice(t2)) => {
                if unify_ty(*t1, *t2) is Ok {
                    lemma_unify_ty_var_free(*t1, *t2);
                }
            },
            (Ty::Struct(f1), Ty::Struct(f2)) => {
                if unify_ty(a, b) is Ok {
                    lemma_unify_fields_seq_var_free(f1, f2);
                }
            },
            _ => (),
        }
    }
}

proof fn lemma_unify_ty_seq_var_free(s1: Seq<Ty>, s2: Seq<Ty>)
    requires
        s1.len() == s2.len(),
        forall|i: int| 0 <= i < s1.len() ==> var_free(#[trigger] s1[i]),
        forall|i: int| 0 <= i < s2.len() ==> var_free(#[trigger] s2[i]),
        unify_ty_seq(s1, s2) is Ok,
    ensures
        forall|i: int|
            0 <= i < unify_ty_seq(s1, s2)->Ok_0.len() ==> var_free(
                #[trigger] unify_ty_seq(s1, s2)->Ok_0[i],
            ),
    decreases s1,
{
    if s1.len() > 0 {
        lemma_unify_ty_var_free(s1[0], s2[0]);
        lemma_unify_ty_seq_var_free(s1.drop_first(), s2.drop_first());
    }
}

proof fn lemma_unify_fields_seq_var_free(f1: Seq<(Seq<char>, Ty)>, f2: Seq<(Seq<char>, Ty)>)
    requires
        f1.len() == f2.len(),
        forall|i: int| 0 <= i < f1.len() ==> var_free((#[trigger] f1[i]).1),
        forall|i: int| 0 <= i < f2.len() ==> var_free((#[trigger] f2[i]).1),
        unify_fields_seq(f1, f2) is Ok,
    ensures
        forall|i: int|
            0 <= i < unify_fields_seq(f1, f2)->Ok_0.len() ==> var_free(
                (#[trigger] unify_fields_seq(f1, f2)->Ok_0[i]).1,
            ),
    decreases f1,
{
    if f1.len() > 0 {
        lemma_unify_ty_var_free(f1[0].1, f2[0].1);
        lemma_unify_fields_seq_var_free(f1.drop_first(), f2.drop_first());
    }
}

/// Relies on collect_result's `CollectResult::collect_result`: it returns
/// the `Ok` values in order when every item is `Ok`, and otherwise the
/// first `Err`, short-circuiting there.
#[verifier::external_body]
fn collect_types(items: Vec<Result<Type, TypeError>>) -> (r: Result<Vec<Type>, TypeError>)
    ensures
        r is Ok <==> (forall|i: int| 0 <= i < items@.len() ==> (#[trigger] items@[i]) is Ok),
        r matches Ok(ts) ==> ts@.len() == items@.len() && (forall|i: int|
            0 <= i < items@.len() ==> ts@[i] == (#[trigger] items@[i])->Ok_0),
        r matches Err(e) ==> (exists|i: int|
            {
                &&& 0 <= i < items@.len()
                &&& (#[trigger] items@[i]) is Err
                &&& (forall|j: int| 0 <= j < i ==> items@[j] is Ok)
                &&& e == items@[i]->Err_0
            }),
{
    items.into_iter().collect_result()
}

/// Unification of two variable-free types: the single point of truth for
/// when two concrete types are compatible and what they become.
#[verifier::loop_isolation(false)]
#[verifier::rlimit(30)]
pub fn unify_concrete(t1: &Type, t2: &Type) -> (r: Result<Type, TypeError>)
    requires
        var_free(t1@),
        var_free(t2@),
    ensures
        unify_view(r) == unify_ty(t1@, t2@),
    decreases *t1,
{
    if t1.type_eq(t2) {
        return Ok(t1.deep_clone());
    }
    match (t1, t2) {
        (Type::Opaque, _) | (_, Type::Opaque) => Ok(Type::Opaque),
        (Type::Unknown(_), _) | (_, Type::Unknown(_)) => {
            proof {
                assert(false);
            }
            Err(TypeError::NonConcreteType)
        },
        (Type::I8, Type::CompInteger) | (Type::CompInteger, Type::I8) => Ok(Type::I8),
        (Type::U8, Type::CompInteger) | (Type::CompInteger, Type::U8) => Ok(Type::U8),
        (Type::I16, Type::CompInteger) | (Type::CompInteger, Type::I16) => Ok(Type::I16),
        (Type::U16, Type::CompInteger) | (Type::CompInteger, Type::U16) => Ok(Type::U16),
        (Type::I32, Type::CompInteger) | (Type::CompInteger, Type::I32) => Ok(Type::I32),
        (Type::U32, Type::CompInteger) | (Type::CompInteger, Type::U32) => Ok(Type::U32),
        (Type::Array(e1, s1), Type::Array(e2, s2)) => {
            if *s1 != *s2 {
                return Err(TypeError::UnequalArraySizes(*s1, *s2));
            }
            match unify_concrete(e1, e2) {
                Ok(t) => Ok(Type::Array(Box::new(t), *s1)),
                Err(e) => Err(e),
            }
        },
        (Type::Function(args1, ret1), Type::Function(args2, ret2)) => {
            if args1.len() != args2.len() {
                return Err(
                    TypeError::UnequalArgLen(
                        #[verifier::truncate] (args1.len() as u16),
                        #[verifier::truncate] (args2.len() as u16),
                    ),
                );
            }
            let ghost sa = t1@->Function_0;
            let ghost sb = t2@->Function_0;
            let mut results: Vec<Result<Type, TypeError>> = Vec::new();
            let mut saw_err: bool = false;
            let mut i: usize = 0;
            while i < args1.len() && !saw_err
                invariant
                    0 <= i <= args1@.len(),
                    results@.len() == i,
                    !saw_err ==> forall|j: int|
                        0 <= j < i ==> (#[trigger] results@[j]) is Ok && unify_ty(
                            sa[j],
                            sb[j],
                        ) is Ok && results@[j]->Ok_0@ == unify_ty(sa[j], sb[j])->Ok_0,
                    saw_err ==> i >= 1 && results@[i - 1] is Err && unify_ty(
                        sa[i - 1],
                        sb[i - 1],
                    ) is Err && results@[i - 1]->Err_0@ == unify_ty(sa[i - 1], sb[i - 1])->Err_0
                        && (forall|j: int|
                        0 <= j < i - 1 ==> (#[trigger] results@[j]) is Ok && unify_ty(
                            sa[j],
                            sb[j],
                        ) is Ok),
                decreases args1@.len() - i,
            {
                proof {
                    assert(var_free(sa[i as int]));
                    assert(var_free(sb[i as int]));
                }
                let res = unify_concrete(&args1[i], &args2[i]);
                match &res {
                    Err(_) => {
                        saw_err = true;
                    },
                    _ => {},
                }
                results.push(res);
                i = i + 1;
            }
            proof {
                if saw_err {
                    assert(results@[i - 1] is Err);
                }
            }
            match collect_types(results) {
                Ok(ts) => {
                    proof {
                        assert(results@[i - 1] is Ok ==> !saw_err) by {
                            if saw_err {
                                assert(results@[i - 1] is Err);
                            }
                        }
                        assert(!saw_err && i == args1@.len());
                        assert forall|j: int| 0 <= j < sa.len() implies (#[trigger] unify_ty(
                            sa[j],
                            sb[j],
                        )) is Ok by {
                            assert(results@[j] is Ok);
                        }
                        lemma_unify_ty_seq_ok(sa, sb);
                    }
                    match unify_concrete(ret1, ret2) {
                        Ok(rt) => {
                            let ghost tsv = ts@;
                            let r = Type::Function(ts, Box::new(rt));
                            proof {
                                assert forall|j: int| 0 <= j < sa.len() implies r@->Function_0[j]
                                    == unify_ty_seq(sa, sb)->Ok_0[j] by {
                                    assert(tsv[j] == results@[j]->Ok_0);
                                    assert(results@[j]->Ok_0@ == unify_ty(sa[j], sb[j])->Ok_0);
                                }
                                assert(r@->Function_0 =~= unify_ty_seq(sa, sb)->Ok_0);
                            }
                            Ok(r)
                        },
                        Err(e) => Err(e),
                    }
                },
                Err(e) => {
                    proof {
                        assert(saw_err) by {
                            if !saw_err {
                                assert(forall|j: int|
                                    0 <= j < results@.len() ==> (#[trigger] results@[j]) is Ok);
                            }
                        }
                        let k = choose|k: int|
                            {
                                &&& 0 <= k < results@.len()
                                &&& (#[trigger] results@[k]) is Err
                                &&& (forall|j: int| 0 <= j < k ==> results@[j] is Ok)
                                &&& e == results@[k]->Err_0
                            };
                        assert(k == i - 1);
                        assert forall|j: int| 0 <= j < k implies (#[trigger] unify_ty(
                            sa[j],
                            sb[j],
                        )) is Ok by {
                            assert(results@[j] is Ok);
                        }
                        lemma_unify_ty_seq_err(sa, sb, k);
                    }
                    Err(e)
                },
            }
        },
        (Type::ArrayPointer(e1), Type::ArrayPointer(e2)) => {
            match unify_concrete(e1, e2) {
                Ok(t) => Ok(Type::ArrayPointer(Box::new(t))),
                Err(e) => Err(e),
            }
        },
        (Type::Pointer(e1), Type::Pointer(e2)) => {
            match unify_concrete(e1, e2) {
                Ok(t) => Ok(Type::Pointer(Box::new(t))),
                Err(e) => Err(e),
            }
        },
        (Type::Option(e1), Type::Option(e2)) => {
            match unify_concrete(e1, e2) {
                Ok(t) => Ok(Type::Option(Box::new(t))),
                Err(e) => Err(e),
            }
        },
        (Type::Slice(e1), Type::Slice(e2)) => {
            match unify_concrete(e1, e2) {
                Ok(t) => Ok(Type::Slice(Box::new(t))),
                Err(e) => Err(e),
            }
        },
        (Type::Struct(f1), Type::Struct(f2)) => {
            let ghost fa = t1@->Struct_0;
            let ghost fb = t2@->Struct_0;
            if f1.len() != f2.len() {
                return Err(TypeError::TypeMismatch(t1.deep_clone(), t2.deep_clone()));
            }
            let mut i: usize = 0;
            while i < f1.len()
                invariant
                    0 <= i <= f1@.len(),
                    forall|j: int| 0 <= j < i ==> (#[trigger] fa[j]).0 == fb[j].0,
                decreases f1@.len() - i,
            {
                if !(f1[i].0 == f2[i].0) {
                    proof {
                        assert(fa[i as int].0 != fb[i as int].0);
                    }
                    return Err(TypeError::TypeMismatch(t1.deep_clone(), t2.deep_clone()));
                }
                i = i + 1;
            }
            let mut results: Vec<Result<Type, TypeError>> = Vec::new();
            let mut saw_err: bool = false;
            let mut k: usize = 0;
            while k < f1.len() && !saw_err
                invariant
                    0 <= k <= f1@.len(),
                    results@.len() == k,
                    !saw_err ==> forall|j: int|
                        0 <= j < k ==> (#[trigger] results@[j]) is Ok && unify_ty(
                            fa[j].1,
                            fb[j].1,
                        ) is Ok && results@[j]->Ok_0@ == unify_ty(fa[j].1, fb[j].1)->Ok_0,
                    saw_err ==> k >= 1 && results@[k - 1] is Err && unify_ty(
                        fa[k - 1].1,
                        fb[k - 1].1,
                    ) is Err && results@[k - 1]->Err_0@ == unify_ty(fa[k - 1].1, fb[k - 1].1)->Err_0
                        && (forall|j: int|
                        0 <= j < k - 1 ==> (#[trigger] results@[j]) is Ok && unify_ty(
                            fa[j].1,
                            fb[j].1,
                        ) is Ok),
                decreases f1@.len() - k,
            {
                proof {
                    assert(var_free(fa[k as int].1));
                    assert(var_free(fb[k as int].1));
                }
                let res = unify_concrete(&f1[k].1, &f2[k].1);
                match &res {
                    Err(_) => {
                        saw_err = true;
                    },
                    _ => {},
                }
                results.push(res);
                k = k + 1;
            }
            proof {
                if saw_err {
                    assert(results@[k - 1] is Err);
                }
            }
            match collect_types(results) {
                Ok(ts) => {
                    proof {
                        assert(results@[k - 1] is Ok ==> !saw_err) by {
                            if saw_err {
                                assert(results@[k - 1] is Err);
                            }
                        }
                        assert(!saw_err && k == f1@.len());
                        assert forall|j: int| 0 <= j < fa.len() implies (#[trigger] unify_ty(
                            fa[j].1,
                            fb[j].1,
                        )) is Ok by {
                            assert(results@[j] is Ok);
                        }
                        lemma_unify_fields_seq_ok(fa, fb);
                    }
                    let mut fields: Vec<(String, Type)> = Vec::new();
                    let mut m: usize = 0;
                    while m < f1.len()
                        invariant
                            0 <= m <= f1@.len(),
                            ts@.len() == f1@.len(),
                            fields@.len() == m,
                            forall|j: int|
                                0 <= j < m ==> (#[trigger] fields@[j]).0@ == fa[j].0
                                    && fields@[j].1@ == unify_ty(fa[j].1, fb[j].1)->Ok_0,
                        decreases f1@.len() - m,
                    {
                        proof {
                            assert(ts@[m as int] == results@[m as int]->Ok_0);
                            assert(results@[m as int]->Ok_0@ == unify_ty(
                                fa[m as int].1,
                                fb[m as int].1,
                            )->Ok_0);
                        }
                        fields.push((f1[m].0.clone(), ts[m].deep_clone()));
                        m = m + 1;
                    }
                    let r = Type::Struct(fields);
                    proof {
                        assert(r@->Struct_0 =~= unify_fields_seq(fa, fb)->Ok_0);
                    }
                    Ok(r)
                },
                Err(e) => {
                    proof {
                        assert(saw_err) by {
                            if !saw_err {
                                assert(forall|j: int|
                                    0 <= j < results@.len() ==> (#[trigger] results@[j]) is Ok);
                            }
                        }
                        let w = choose|w: int|
                            {
                                &&& 0 <= w < results@.len()
                                &&& (#[trigger] results@[w]) is Err
                                &&& (forall|j: int| 0 <= j < w ==> results@[j] is Ok)
                                &&& e == results@[w]->Err_0
                            };
                        assert(w == k - 1);
                        assert forall|j: int| 0 <= j < w implies (#[trigger] unify_ty(
                            fa[j].1,
                            fb[j].1,
                        )) is Ok by {
                            assert(results@[j] is Ok);
                        }
                        lemma_unify_fields_seq_err(fa, fb, w);
                    }
                    Err(e)
                },
            }
        },
        _ => Err(TypeError::TypeMismatch(t1.deep_clone(), t2.deep_clone())),
    }
}

impl Type {
    /// A completely unconstrained type: a fresh variable that may still
    /// become anything.
    pub fn any(store: &mut TypeVarStore) -> (r: Type)
        requires
            old(store).wf(),
        ensures
            final(store).wf(),
            final(store)@.len() == old(store)@.len() + 1,
            r@ == Ty::Unknown(old(store)@.len()),
    {
        let v = store.fresh(Vec::new());
        Type::Unknown(v)
    }
}

/// Unification of two types, possibly holding type variables of `store`:
/// equal types unify with themselves (unconditionally), `Opaque` absorbs
/// anything (unconditionally), variables are merged or bound through the
/// store, and concrete types unify structurally, the one-slot
/// constructors keeping their shape.  On variable-free operands this is
/// exactly `unify_ty` and the store is untouched.
#[verifier::loop_isolation(false)]
pub fn unify_types(store: &mut TypeVarStore, t1: &Type, t2: &Type) -> (r: Result<Type, TypeError>)
    requires
        old(store).wf(),
        vars_below(t1@, old(store)@.len() as int),
        vars_below(t2@, old(store)@.len() as int),
    ensures
        final(store).wf(),
        final(store)@.len() == old(store)@.len(),
        var_free(t1@) && var_free(t2@) ==> final(store)@ == old(store)@ && unify_view(r)
            == unify_ty(t1@, t2@),
        r matches Ok(t) ==> vars_below(t@, old(store)@.len() as int),
        t1@ == t2@ ==> (r matches Ok(t) && t@ == t1@),
        t1@ is Opaque || t2@ is Opaque ==> (r matches Ok(t) && t@ == Ty::Opaque),
        t1@ is Pointer && t2@ is Pointer && r is Ok ==> r->Ok_0@ is Pointer,
        t1@ is ArrayPointer && t2@ is ArrayPointer && r is Ok ==> r->Ok_0@ is ArrayPointer,
        t1@ is Slice && t2@ is Slice && r is Ok ==> r->Ok_0@ is Slice,
        t1@ is Option && t2@ is Option && r is Ok ==> r->Ok_0@ is Option,
    decreases *t1,
{
    if t1.type_eq(t2) {
        return Ok(t1.deep_clone());
    }
    if t1.is_var_free() && t2.is_var_free() {
        let r = unify_concrete(t1, t2);
        proof {
            match r {
                Ok(ref t) => {
                    lemma_unify_ty_var_free(t1@, t2@);
                    lemma_var_free_below(t@, old(store)@.len() as int);
                },
                _ => (),
            }
        }
        return r;
    }
    match (t1, t2) {
        (Type::Opaque, _) | (_, Type::Opaque) => Ok(Type::Opaque),
        (Type::Unknown(v1), Type::Unknown(v2)) => {
            match store.merge(v1, v2) {
                Ok(v) => Ok(Type::Unknown(v)),
                Err(e) => Err(e),
            }
        },
        (Type::Unknown(v), t) | (t, Type::Unknown(v)) => store.merge_with_type(v, t),
        (Type::Array(e1, s1), Type::Array(e2, s2)) => {
            if *s1 != *s2 {
                return Err(TypeError::UnequalArraySizes(*s1, *s2));
            }
            match unify_types(store, e1, e2) {
                Ok(t) => Ok(Type::Array(Box::new(t), *s1)),
                Err(e) => Err(e),
            }
        },
        (Type::Function(args1, ret1), Type::Function(args2, ret2)) => {
            if args1.len() != args2.len() {
                return Err(
                    TypeError::UnequalArgLen(
                        #[verifier::truncate] (args1.len() as u16),
                        #[verifier::truncate] (args2.len() as u16),
                    ),
                );
            }
            let mut results: Vec<Result<Type, TypeError>> = Vec::new();
            let mut saw_err: bool = false;
            let mut i: usize = 0;
            while i < args1.len() && !saw_err
                invariant
                    store.wf(),
                    store@.len() == old(store)@.len(),
                    0 <= i <= args1@.len(),
                    results@.len() == i,
                    forall|j: int|
                        0 <= j < i && (#[trigger] results@[j]) is Ok ==> vars_below(
                            results@[j]->Ok_0@,
                            old(store)@.len() as int,
                        ),
                decreases args1@.len() - i,
            {
                proof {
                    assert(t1@->Function_0[i as int] == args1@[i as int]@);
                    assert(t2@->Function_0[i as int] == args2@[i as int]@);
                }
                let res = unify_types(store, &args1[i], &args2[i]);
                match &res {
                    Err(_) => {
                        saw_err = true;
                    },
                    _ => {},
                }
                results.push(res);
                i = i + 1;
            }
            match collect_types(results) {
                Ok(ts) => {
                    match unify_types(store, ret1, ret2) {
                        Ok(rt) => {
                            let ghost tsv = ts@;
                            let r = Type::Function(ts, Box::new(rt));
                            proof {
                                assert forall|j: int|
                                    0 <= j < r@->Function_0.len() implies vars_below(
                                    #[trigger] r@->Function_0[j],
                                    old(store)@.len() as int,
                                ) by {
                                    assert(r@->Function_0[j] == tsv[j]@);
                                    assert(tsv[j] == results@[j]->Ok_0);
                                }
                            }
                            Ok(r)
                        },
                        Err(e) => Err(e),
                    }
                },
                Err(e) => Err(e),
            }
        },
        (Type::ArrayPointer(e1), Type::ArrayPointer(e2)) => {
            match unify_types(store, e1, e2) {
                Ok(t) => Ok(Type::ArrayPointer(Box::new(t))),
                Err(e) => Err(e),
            }
        },
        (Type::Pointer(e1), Type::Pointer(e2)) => {
            match unify_types(store, e1, e2) {
                Ok(t) => Ok(Type::Pointer(Box::new(t))),
                Err(e) => Err(e),
            }
        },
        (Type::Option(e1), Type::Option(e2)) => {
            match unify_types(store, e1, e2) {
                Ok(t) => Ok(Type::Option(Box::new(t))),
                Err(e) => Err(e),
            }
        },
        (Type::Slice(e1), Type::Slice(e2)) => {
            match unify_types(store, e1, e2) {
                Ok(t) => Ok(Type::Slice(Box::new(t))),
                Err(e) => Err(e),
            }
        },
        (Type::Struct(f1), Type::Struct(f2)) => {
            if f1.len() != f2.len() {
                return Err(TypeError::TypeMismatch(t1.deep_clone(), t2.deep_clone()));
            }
            let mut i: usize = 0;
            while i < f1.len()
                invariant
                    0 <= i <= f1@.len(),
                decreases f1@.len() - i,
            {
                if !(f1[i].0 == f2[i].0) {
                    return Err(TypeError::TypeMismatch(t1.deep_clone(), t2.deep_clone()));
                }
                i = i + 1;
            }
            let mut results: Vec<Result<Type, TypeError>> = Vec::new();
            let mut saw_err: bool = false;
            let mut k: usize = 0;
            while k < f1.len() && !saw_err
                invariant
                    store.wf(),
                    store@.len() == old(store)@.len(),
                    0 <= k <= f1@.len(),
                    results@.len() == k,
                    forall|j: int|
                        0 <= j < k && (#[trigger] results@[j]) is Ok ==> vars_below(
                            results@[j]->Ok_0@,
                            old(store)@.len() as int,
                        ),
                decreases f1@.len() - k,
            {
                proof {
                    assert(t1@->Struct_0[k as int].1 == f1@[k as int].1@);
                    assert(t2@->Struct_0[k as int].1 == f2@[k as int].1@);
                }
                let res = unify_types(store, &f1[k].1, &f2[k].1);
                match &res {
                    Err(_) => {
                        saw_err = true;
                    },
                    _ => {},
                }
                results.push(res);
                k = k + 1;
            }
            match collect_types(results) {
                Ok(ts) => {
                    let mut fields: Vec<(String, Type)> = Vec::new();
                    let mut m: usize = 0;
                    while m < ts.len()
                        invariant
                            0 <= m <= ts@.len(),
                            ts@.len() <= f1@.len(),
                            ts@.len() == results@.len(),
                            fields@.len() == m,
                            forall|j: int|
                                0 <= j < m ==> vars_below(
                                    (#[trigger] fields@[j]).1@,
                                    old(store)@.len() as int,
                                ),
                        decreases ts@.len() - m,
                    {
                        proof {
                            assert(ts@[m as int] == results@[m as int]->Ok_0);
                        }
                        fields.push((f1[m].0.clone(), ts[m].deep_clone()));
                        m = m + 1;
                    }
                    let r = Type::Struct(fields);
                    proof {
                        assert forall|j: int|
                            0 <= j < r@->Struct_0.len() implies vars_below(
                            (#[trigger] r@->Struct_0[j]).1,
                            old(store)@.len() as int,
                        ) by {
                            assert(r@->Struct_0[j].1 == fields@[j].1@);
                        }
                    }
                    Ok(r)
                },
                Err(e) => Err(e),
            }
        },
        _ => Err(TypeError::TypeMismatch(t1.deep_clone(), t2.deep_clone())),
    }
}

proof fn lemma_unify_ty_seq_len(s1: Seq<Ty>, s2: Seq<Ty>)
    requires
        s1.len() == s2.len(),
        unify_ty_seq(s1, s2) is Ok,
    ensures
        unify_ty_seq(s1, s2)->Ok_0.len() == s1.len(),
    decreases s1,
{
    if s1.len() > 0 {
        lemma_unify_ty_seq_len(s1.drop_first(), s2.drop_first());
    }
}

proof fn lemma_unify_fields_seq_len(f1: Seq<(Seq<char>, Ty)>, f2: Seq<(Seq<char>, Ty)>)
    requires
        f1.len() == f2.len(),
        unify_fields_seq(f1, f2) is Ok,
    ensures
        unify_fields_seq(f1, f2)->Ok_0.len() == f1.len(),
    decreases f1,
{
    if f1.len() > 0 {
        lemma_unify_fields_seq_len(f1.drop_first(), f2.drop_first());
    }
}

/// Unification of variable-free types is commutative: both orders succeed
/// or fail together, and on success they yield the same type.  (The
/// payload of the error carries the operands in the order they were
/// passed, so only success values are compared.)
pub proof fn lemma_unify_commutative(a: Ty, b: Ty)
    requires
        var_free(a),
        var_free(b),
    ensures
        unify_ty(a, b) is Ok <==> unify_ty(b, a) is Ok,
        unify_ty(a, b) is Ok ==> unify_ty(a, b)->Ok_0 == unify_ty(b, a)->Ok_0,
    decreases a,
{
    if a == b || a is Opaque || b is Opaque {
    } else {
        match (a, b) {
            (Ty::Array(t1, s1), Ty::Array(t2, s2)) => {
                if s1 == s2 {
                    lemma_unify_commutative(*t1, *t2);
                }
            },
            (Ty::Function(args1, ret1), Ty::Function(args2, ret2)) => {
                if args1.len() == args2.len() {
                    lemma_unify_seq_commutative(args1, args2);
                    lemma_unify_commutative(*ret1, *ret2);
                }
            },
            (Ty::ArrayPointer(t1), Ty::ArrayPointer(t2)) => {
                lemma_unify_commutative(*t1, *t2);
            },
            (Ty::Pointer(t1), Ty::Pointer(t2)) => {
                lemma_unify_commutative(*t1, *t2);
            },
            (Ty::Option(t1), Ty::Option(t2)) => {
                lemma_unify_commutative(*t1, *t2);
            },
            (Ty::Slice(t1), Ty::Slice(t2)) => {
                lemma_unify_commutative(*t1, *t2);
            },
            (Ty::Struct(f1), Ty::Struct(f2)) => {
                if f1.len() == f2.len() && (forall|i: int|
                    0 <= i < f1.len() ==> (#[trigger] f1[i]).0 == f2[i].0) {
                    lemma_unify_fields_commutative(f1, f2);
                }
            },
            _ => (),
        }
    }
}

proof fn lemma_unify_seq_commutative(s1: Seq<Ty>, s2: Seq<Ty>)
    requires
        s1.len() == s2.len(),
        forall|i: int| 0 <= i < s1.len() ==> var_free(#[trigger] s1[i]),
        forall|i: int| 0 <= i < s2.len() ==> var_free(#[trigger] s2[i]),
    ensures
        unify_ty_seq(s1, s2) is Ok <==> unify_ty_seq(s2, s1) is Ok,
        unify_ty_seq(s1, s2) is Ok ==> unify_ty_seq(s1, s2)->Ok_0 == unify_ty_seq(s2, s1)->Ok_0,
    decreases s1,
{
    if s1.len() > 0 {
        lemma_unify_commutative(s1[0], s2[0]);
        lemma_unify_seq_commutative(s1.drop_first(), s2.drop_first());
    }
}

proof fn lemma_unify_fields_commutative(f1: Seq<(Seq<char>, Ty)>, f2: Seq<(Seq<char>, Ty)>)
    requires
        f1.len() == f2.len(),
        forall|i: int| 0 <= i < f1.len() ==> (#[trigger] f1[i]).0 == f2[i].0,
        forall|i: int| 0 <= i < f1.len() ==> var_free((#[trigger] f1[i]).1),
        forall|i: int| 0 <= i < f2.len() ==> var_free((#[trigger] f2[i]).1),
    ensures
        unify_fields_seq(f1, f2) is Ok <==> unify_fields_seq(f2, f1) is Ok,
        unify_fields_seq(f1, f2) is Ok ==> unify_fields_seq(f1, f2)->Ok_0 == unify_fields_seq(
            f2,
            f1,
        )->Ok_0,
    decreases f1,
{
    if f1.len() > 0 {
        lemma_unify_commutative(f1[0].1, f2[0].1);
        lemma_unify_fields_commutative(f1.drop_first(), f2.drop_first());
    }
}

/// Unification of variable-free types is idempotent: unifying an operand
/// with an already unified result changes nothing.
pub proof fn lemma_unify_idempotent(a: Ty, b: Ty)
    requires
        var_free(a),
        var_free(b),
        unify_ty(a, b) is Ok,
    ensures
        unify_ty(a, unify_ty(a, b)->Ok_0) == unify_ty(a, b),
    decreases a,
{
    let u = unify_ty(a, b)->Ok_0;
    lemma_unify_ty_var_free(a, b);
    if a == b || a is Opaque || b is Opaque {
    } else if a == u {
    } else {
        match (a, b) {
            (Ty::Array(t1, s1), Ty::Array(t2, s2)) => {
                if s1 == s2 {
                    lemma_unify_idempotent(*t1, *t2);
                }
            },
            (Ty::Function(args1, ret1), Ty::Function(args2, ret2)) => {
                if args1.len() == args2.len() {
                    lemma_unify_ty_seq_len(args1, args2);
                    lemma_unify_seq_idempotent(args1, args2);
                    lemma_unify_idempotent(*ret1, *ret2);
                }
            },
            (Ty::ArrayPointer(t1), Ty::ArrayPointer(t2)) => {
                lemma_unify_idempotent(*t1, *t2);
            },
            (Ty::Pointer(t1), Ty::Pointer(t2)) => {
                lemma_unify_idempotent(*t1, *t2);
            },
            (Ty::Option(t1), Ty::Option(t2)) => {
                lemma_unify_idempotent(*t1, *t2);
            },
            (Ty::Slice(t1), Ty::Slice(t2)) => {
                lemma_unify_idempotent(*t1, *t2);
            },
            (Ty::Struct(f1), Ty::Struct(f2)) => {
                lemma_unify_fields_seq_len(f1, f2);
                lemma_unify_fields_idempotent(f1, f2);
                let uf = unify_fields_seq(f1, f2)->Ok_0;
                assert(u == Ty::Struct(uf));
                assert forall|i: int| 0 <= i < f1.len() implies (#[trigger] f1[i]).0
                    == uf[i].0 by {
                    assert(uf[i].0 == f1[i].0);
                }
            },
            _ => (),
        }
    }
}

proof fn lemma_unify_seq_idempotent(s1: Seq<Ty>, s2: Seq<Ty>)
    requires
        s1.len() == s2.len(),
        forall|i: int| 0 <= i < s1.len() ==> var_free(#[trigger] s1[i]),
        forall|i: int| 0 <= i < s2.len() ==> var_free(#[trigger] s2[i]),
        unify_ty_seq(s1, s2) is Ok,
    ensures
        unify_ty_seq(s1, unify_ty_seq(s1, s2)->Ok_0) == unify_ty_seq(s1, s2),
    decreases s1,
{
    let u = unify_ty_seq(s1, s2)->Ok_0;
    lemma_unify_ty_seq_var_free(s1, s2);
    if s1.len() > 0 {
        lemma_unify_idempotent(s1[0], s2[0]);
        lemma_unify_seq_idempotent(s1.drop_first(), s2.drop_first());
        let rest = unify_ty_seq(s1.drop_first(), s2.drop_first())->Ok_0;
        assert(u.drop_first() =~= rest);
        assert(seq![unify_ty(s1[0], u[0])->Ok_0] + unify_ty_seq(
            s1.drop_first(),
            u.drop_first(),
        )->Ok_0 =~= u);
    } else {
        assert(u =~= Seq::empty());
    }
}

proof fn lemma_unify_fields_idempotent(f1: Seq<(Seq<char>, Ty)>, f2: Seq<(Seq<char>, Ty)>)
    requires
        f1.len() == f2.len(),
        forall|i: int| 0 <= i < f1.len() ==> var_free((#[trigger] f1[i]).1),
        forall|i: int| 0 <= i < f2.len() ==> var_free((#[trigger] f2[i]).1),
        unify_fields_seq(f1, f2) is Ok,
    ensures
        unify_fields_seq(f1, unify_fields_seq(f1, f2)->Ok_0) == unify_fields_seq(f1, f2),
        forall|i: int|
            0 <= i < f1.len() ==> (#[trigger] unify_fields_seq(f1, f2)->Ok_0[i]).0 == f1[i].0,
    decreases f1,
{
    let u = unify_fields_seq(f1, f2)->Ok_0;
    lemma_unify_fields_seq_var_free(f1, f2);
    lemma_unify_fields_seq_len(f1, f2);
    if f1.len() > 0 {
        lemma_unify_idempotent(f1[0].1, f2[0].1);
        lemma_unify_fields_idempotent(f1.drop_first(), f2.drop_first());
        let rest = unify_fields_seq(f1.drop_first(), f2.drop_first())->Ok_0;
        assert(u == seq![(f1[0].0, unify_ty(f1[0].1, f2[0].1)->Ok_0)] + rest);
        assert(u[0] == (f1[0].0, unify_ty(f1[0].1, f2[0].1)->Ok_0));
        assert(u.drop_first() =~= rest);
        assert(unify_ty(f1[0].1, u[0].1) == unify_ty(f1[0].1, f2[0].1));
        assert(unify_fields_seq(f1.drop_first(), u.drop_first()) == Ok::<
            Seq<(Seq<char>, Ty)>,
            TyErr,
        >(rest));
        assert(seq![(f1[0].0, unify_ty(f1[0].1, u[0].1)->Ok_0)] + unify_fields_seq(
            f1.drop_first(),
            u.drop_first(),
        )->Ok_0 =~= u);
        assert forall|i: int| 0 <= i < f1.len() implies (#[trigger] u[i]).0 == f1[i].0 by {
            if i > 0 {
                assert(u[i] == rest[i - 1]);
                assert(f1.drop_first()[i - 1] == f1[i]);
            }
        }
    } else {
        assert(u =~= Seq::empty());
    }
}

} // verus!
