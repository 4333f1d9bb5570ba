use edd::ttype::typevar::TypeVarStore;
use edd::ttype::{unify_types, Type, TypeError};

#[test]
fn equal_types_unify_to_themselves() {
    let mut store = TypeVarStore::new();
    assert_eq!(unify_types(&mut store, &Type::Bool, &Type::Bool), Ok(Type::Bool));
    assert_eq!(unify_types(&mut store, &Type::U16, &Type::U16), Ok(Type::U16));
}

#[test]
fn opaque_unifies_with_anything() {
    let mut store = TypeVarStore::new();
    assert_eq!(unify_types(&mut store, &Type::Opaque, &Type::I32), Ok(Type::Opaque));
    assert_eq!(unify_types(&mut store, &Type::CompString, &Type::Opaque), Ok(Type::Opaque));
}

#[test]
fn comp_integer_pins_to_width() {
    let mut store = TypeVarStore::new();
    assert_eq!(unify_types(&mut store, &Type::CompInteger, &Type::U8), Ok(Type::U8));
    assert_eq!(unify_types(&mut store, &Type::I16, &Type::CompInteger), Ok(Type::I16));
    assert_eq!(unify_types(&mut store, &Type::U32, &Type::CompInteger), Ok(Type::U32));
}

#[test]
fn disjoint_widths_mismatch() {
    let mut store = TypeVarStore::new();
    assert_eq!(
        unify_types(&mut store, &Type::I16, &Type::U8),
        Err(TypeError::TypeMismatch(Type::I16, Type::U8))
    );
}

#[test]
fn array_sizes_must_match() {
    let mut store = TypeVarStore::new();
    let a = Type::Array(Box::new(Type::U8), 3);
    let b = Type::Array(Box::new(Type::U8), 4);
    assert_eq!(unify_types(&mut store, &a, &b), Err(TypeError::UnequalArraySizes(3, 4)));
    let c = Type::Array(Box::new(Type::CompInteger), 3);
    let d = Type::Array(Box::new(Type::I8), 3);
    assert_eq!(
        unify_types(&mut store, &c, &d),
        Ok(Type::Array(Box::new(Type::I8), 3))
    );
}

#[test]
fn function_arity_and_components() {
    let mut store = TypeVarStore::new();
    let f = Type::Function(vec![Type::CompInteger, Type::Bool], Box::new(Type::Unit));
    let g = Type::Function(vec![Type::I32, Type::Bool], Box::new(Type::Unit));
    assert_eq!(
        unify_types(&mut store, &f, &g),
        Ok(Type::Function(vec![Type::I32, Type::Bool], Box::new(Type::Unit)))
    );
    let short = Type::Function(vec![Type::Bool], Box::new(Type::Unit));
    assert_eq!(
        unify_types(&mut store, &f, &short),
        Err(TypeError::UnequalArgLen(2, 1))
    );
}

#[test]
fn pointers_unify_componentwise() {
    let mut store = TypeVarStore::new();
    let p = Type::Pointer(Box::new(Type::CompInteger));
    let q = Type::Pointer(Box::new(Type::U16));
    assert_eq!(
        unify_types(&mut store, &p, &q),
        Ok(Type::Pointer(Box::new(Type::U16)))
    );
}

#[test]
fn fresh_variable_binds_to_concrete_type() {
    let mut store = TypeVarStore::new();
    let v = store.fresh(Vec::new());
    let r = unify_types(&mut store, &Type::Unknown(v), &Type::U8);
    assert_eq!(r, Ok(Type::U8));
    assert_eq!(store.resolve(&Type::Unknown(v)), Type::U8);
}

#[test]
fn constrained_variable_rejects_disjoint_type() {
    let mut store = TypeVarStore::new();
    let v = store.fresh(vec![Type::U8, Type::I8]);
    let r = unify_types(&mut store, &Type::Unknown(v), &Type::Bool);
    assert!(matches!(r, Err(TypeError::DisjointConstraints(_, _))));
}

#[test]
fn constrained_variable_narrows_to_member() {
    let mut store = TypeVarStore::new();
    let v = store.fresh(vec![Type::U8, Type::I8]);
    let r = unify_types(&mut store, &Type::Unknown(v), &Type::U8);
    assert_eq!(r, Ok(Type::U8));
    assert_eq!(store.resolve(&Type::Unknown(v)), Type::U8);
}

#[test]
fn merged_variables_share_constraints() {
    let mut store = TypeVarStore::new();
    let v = store.fresh(vec![Type::U8, Type::I8]);
    let w = store.fresh(vec![Type::I8, Type::I16]);
    let r = unify_types(&mut store, &Type::Unknown(v), &Type::Unknown(w));
    assert!(r.is_ok());
    // only I8 is left for both; binding one of them resolves them
    let r2 = unify_types(&mut store, &Type::Unknown(v), &Type::I8);
    assert_eq!(r2, Ok(Type::I8));
    assert_eq!(store.resolve(&Type::Unknown(w)), Type::I8);
}

#[test]
fn merge_with_empty_intersection_fails() {
    let mut store = TypeVarStore::new();
    let v = store.fresh(vec![Type::U8]);
    let w = store.fresh(vec![Type::I16]);
    let r = unify_types(&mut store, &Type::Unknown(v), &Type::Unknown(w));
    assert!(matches!(r, Err(TypeError::DisjointConstraints(_, _))));
}

#[test]
fn struct_fields_unify_by_name() {
    let mut store = TypeVarStore::new();
    let s1 = Type::Struct(vec![("x".to_string(), Type::CompInteger)]);
    let s2 = Type::Struct(vec![("x".to_string(), Type::I8)]);
    assert_eq!(
        unify_types(&mut store, &s1, &s2),
        Ok(Type::Struct(vec![("x".to_string(), Type::I8)]))
    );
    let s3 = Type::Struct(vec![("y".to_string(), Type::I8)]);
    let s4 = Type::Struct(vec![("x".to_string(), Type::CompInteger)]);
    assert!(matches!(
        unify_types(&mut store, &s3, &s4),
        Err(TypeError::TypeMismatch(_, _))
    ));
}

#[test]
fn unify_is_commutative_on_success() {
    let mut store = TypeVarStore::new();
    let a = Type::Pointer(Box::new(Type::CompInteger));
    let b = Type::Pointer(Box::new(Type::U16));
    let ab = unify_types(&mut store, &a, &b).unwrap();
    let a2 = Type::Pointer(Box::new(Type::CompInteger));
    let b2 = Type::Pointer(Box::new(Type::U16));
    let ba = unify_types(&mut store, &b2, &a2).unwrap();
    assert_eq!(ab, ba);
}

#[test]
fn unify_is_idempotent() {
    let mut store = TypeVarStore::new();
    let a = Type::Array(Box::new(Type::CompInteger), 2);
    let b = Type::Array(Box::new(Type::I32), 2);
    let u = unify_types(&mut store, &a, &b).unwrap();
    let a2 = Type::Array(Box::new(Type::CompInteger), 2);
    let again = unify_types(&mut store, &a2, &u).unwrap();
    assert_eq!(again, Type::Array(Box::new(Type::I32), 2));
}

#[test]
fn type_any_makes_fresh_unknown() {
    let mut store = TypeVarStore::new();
    let t = Type::any(&mut store);
    assert!(matches!(t, Type::Unknown(_)));
    let r = unify_types(&mut store, &t, &Type::CompString);
    assert_eq!(r, Ok(Type::CompString));
}
