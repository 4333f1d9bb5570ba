use edd::ttype::stab::SymbolTable;
use edd::ttype::typevar::TypeVarStore;
use edd::ttype::{Type, TypeError};

#[test]
fn lookup_finds_added_binding() {
    let mut stab = SymbolTable::new();
    assert!(!stab.add(false, "print".to_string(), Type::Opaque));
    assert_eq!(stab.lookup("print"), Ok(Type::Opaque));
}

#[test]
fn lookup_of_missing_name_is_undefined() {
    let stab = SymbolTable::new();
    assert_eq!(
        stab.lookup("nope"),
        Err(TypeError::Undefined("nope".to_string()))
    );
}

#[test]
fn add_reports_shadowing() {
    let mut stab = SymbolTable::new();
    assert!(!stab.add(false, "x".to_string(), Type::U8));
    assert!(stab.add(true, "x".to_string(), Type::I16));
    assert_eq!(stab.lookup("x"), Ok(Type::I16));
}

#[test]
fn mutate_immutable_binding_is_rejected() {
    // `let x = 1; x = 2` must answer NotMutable("x")
    let mut stab = SymbolTable::new();
    let mut store = TypeVarStore::new();
    stab.add(false, "x".to_string(), Type::CompInteger);
    let r = stab.mutate(&mut store, "x", &Type::CompInteger);
    assert_eq!(r, Err(TypeError::NotMutable("x".to_string())));
}

#[test]
fn mutate_mutable_binding_narrows_type() {
    let mut stab = SymbolTable::new();
    let mut store = TypeVarStore::new();
    stab.add(true, "x".to_string(), Type::CompInteger);
    let r = stab.mutate(&mut store, "x", &Type::U8);
    assert_eq!(r, Ok(Type::U8));
    assert_eq!(stab.lookup("x"), Ok(Type::U8));
}

#[test]
fn mutate_missing_binding_is_undefined() {
    let mut stab = SymbolTable::new();
    let mut store = TypeVarStore::new();
    let r = stab.mutate(&mut store, "y", &Type::U8);
    assert_eq!(r, Err(TypeError::Undefined("y".to_string())));
}

#[test]
fn specify_pins_a_literal_type() {
    // the inference half of `let x = 3; let y: u8 = x`
    let mut stab = SymbolTable::new();
    let mut store = TypeVarStore::new();
    stab.add(false, "x".to_string(), Type::CompInteger);
    let r = stab.specify(&mut store, "x", &Type::U8);
    assert_eq!(r, Ok(Type::U8));
    assert_eq!(stab.lookup("x"), Ok(Type::U8));
}

#[test]
fn specify_incompatible_type_is_a_mismatch() {
    // `let x: u8 = 1; let y: i16 = x`
    let mut stab = SymbolTable::new();
    let mut store = TypeVarStore::new();
    stab.add(false, "x".to_string(), Type::U8);
    let r = stab.specify(&mut store, "x", &Type::I16);
    assert_eq!(r, Err(TypeError::TypeMismatch(Type::U8, Type::I16)));
    assert_eq!(stab.lookup("x"), Ok(Type::U8));
}

#[test]
fn lookup_raw_reports_mutability() {
    let mut stab = SymbolTable::new();
    stab.add(true, "v".to_string(), Type::Bool);
    let sym = stab.lookup_raw("v").unwrap();
    assert!(sym.is_mutable());
    assert_eq!(*sym.symbol_type(), Type::Bool);
}
