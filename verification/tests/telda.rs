use edd::flat::FlatType;
use edd::telda::{
    apply_register_allocation, simple_optimisations, sizeof, Bi, Br, Ins, Wi, Wr,
};

#[test]
fn sizes_of_primitives() {
    assert_eq!(sizeof(&FlatType::Unit), 0);
    assert_eq!(sizeof(&FlatType::Bool), 1);
    assert_eq!(sizeof(&FlatType::U8), 1);
    assert_eq!(sizeof(&FlatType::I16), 2);
    assert_eq!(sizeof(&FlatType::U32), 4);
    assert_eq!(sizeof(&FlatType::Ptr(Box::new(FlatType::U32))), 2);
    assert_eq!(
        sizeof(&FlatType::FnPtr(vec![FlatType::U8], Box::new(FlatType::Unit))),
        2
    );
}

#[test]
fn sizes_of_aggregates() {
    assert_eq!(sizeof(&FlatType::Arr(Box::new(FlatType::I16), 5)), 10);
    assert_eq!(
        sizeof(&FlatType::Struct(vec![FlatType::U8, FlatType::I16, FlatType::U32])),
        7
    );
    assert_eq!(sizeof(&FlatType::Struct(Vec::new())), 0);
}

#[test]
fn aliases_expand_to_their_opcodes() {
    assert_eq!(Ins::MoveW(Wr::R1, Wr::R2), Ins::AddW(Wr::R1, Wr::R0, Wr::R2));
    assert_eq!(Ins::MoveB(Br::R1l, Br::R2l), Ins::AddB(Br::R1l, Br::R0b, Br::R2l));
    assert_eq!(Ins::Jc(Wi::Constant(4)), Ins::Jb(Wi::Constant(4)));
    assert_eq!(Ins::Jnc(Wi::Constant(4)), Ins::Jae(Wi::Constant(4)));
}

#[test]
fn byte_aliases_of_wide_registers() {
    assert_eq!(Br::try_from_wr(Wr::R1), Some(Br::R1l));
    assert_eq!(Br::try_from_wr(Wr::R10), Some(Br::R10b));
    assert_eq!(Br::try_from_wr(Wr::Rs), None);
    assert_eq!(Br::try_from_wr(Wr::Rpw(7)), Some(Br::Rpb(7)));
}

#[test]
fn peephole_comments_out_noop_moves() {
    let mut code = vec![
        Ins::AddW(Wr::R3, Wr::R0, Wr::R3),
        Ins::AddW(Wr::R3, Wr::R0, Wr::R4),
        Ins::AddB(Br::R1l, Br::R0b, Br::R1l),
    ];
    simple_optimisations(&mut code);
    assert_eq!(
        code[0],
        Ins::Comment(Box::new(Ins::AddW(Wr::R3, Wr::R0, Wr::R3)))
    );
    assert_eq!(code[1], Ins::AddW(Wr::R3, Wr::R0, Wr::R4));
    assert_eq!(
        code[2],
        Ins::Comment(Box::new(Ins::AddB(Br::R1l, Br::R0b, Br::R1l)))
    );
}

#[test]
fn peephole_narrows_byte_sized_immediate_loads() {
    let mut code = vec![
        Ins::LdiW(Wr::R6, Wi::Constant(200)),
        Ins::LdiW(Wr::R6, Wi::Constant(256)),
        Ins::LdiW(Wr::R1, Wi::Constant(5)),
    ];
    simple_optimisations(&mut code);
    assert_eq!(code[0], Ins::LdiB(Br::R6b, Bi::Constant(200)));
    assert_eq!(code[1], Ins::LdiW(Wr::R6, Wi::Constant(256)));
    assert_eq!(code[2], Ins::LdiW(Wr::R1, Wi::Constant(5)));
}

fn has_pseudo(i: &Ins) -> bool {
    let wr = |r: &Wr| matches!(r, Wr::Rpw(_));
    let br = |r: &Br| matches!(r, Br::Rpb(_));
    match i {
        Ins::Comment(inner) => has_pseudo(inner),
        Ins::PushB(a) | Ins::PopB(a) => br(a),
        Ins::PushW(a) | Ins::PopW(a) | Ins::JmpR(a) => wr(a),
        Ins::StoreBI(a, _, c) => wr(a) || br(c),
        Ins::StoreWI(a, _, c) => wr(a) || wr(c),
        Ins::StoreBR(a, b, c) => wr(a) || wr(b) || br(c),
        Ins::StoreWR(a, b, c) => wr(a) || wr(b) || wr(c),
        Ins::LoadBI(a, b, _) => br(a) || wr(b),
        Ins::LoadWI(a, b, _) => wr(a) || wr(b),
        Ins::LoadBR(a, b, c) => br(a) || wr(b) || wr(c),
        Ins::LoadWR(a, b, c) => wr(a) || wr(b) || wr(c),
        Ins::LdiB(a, _) => br(a),
        Ins::LdiW(a, _) => wr(a),
        Ins::AddB(a, b, c)
        | Ins::SubB(a, b, c)
        | Ins::AndB(a, b, c)
        | Ins::OrB(a, b, c)
        | Ins::XorB(a, b, c)
        | Ins::ShlB(a, b, c)
        | Ins::AsrB(a, b, c)
        | Ins::LsrB(a, b, c) => br(a) || br(b) || br(c),
        Ins::AddW(a, b, c)
        | Ins::SubW(a, b, c)
        | Ins::AndW(a, b, c)
        | Ins::OrW(a, b, c)
        | Ins::XorW(a, b, c)
        | Ins::ShlW(a, b, c)
        | Ins::AsrW(a, b, c)
        | Ins::LsrW(a, b, c) => wr(a) || wr(b) || wr(c),
        Ins::DivB(a, b, c, d) | Ins::MulB(a, b, c, d) => br(a) || br(b) || br(c) || br(d),
        Ins::DivW(a, b, c, d) | Ins::MulW(a, b, c, d) => wr(a) || wr(b) || wr(c) || wr(d),
        _ => false,
    }
}

#[test]
fn allocation_leaves_no_pseudo_registers() {
    let mut code = vec![
        Ins::Seg("text".to_string()),
        Ins::FunctionStartMarker,
        Ins::Label("max".to_string()),
        Ins::LdiW(Wr::Rpw(0), Wi::Constant(3)),
        Ins::LdiW(Wr::Rpw(1), Wi::Constant(4)),
        Ins::AddW(Wr::Rpw(2), Wr::Rpw(0), Wr::Rpw(1)),
        Ins::MulW(Wr::Rpw(3), Wr::Rpw(4), Wr::Rpw(2), Wr::Rpw(0)),
        Ins::AddW(Wr::R1, Wr::R0, Wr::Rpw(3)),
        Ins::Ret(Bi::Constant(0)),
        Ins::FunctionEndMarker,
        Ins::Seg("data".to_string()),
    ];
    apply_register_allocation(&mut code);
    for ins in &code {
        assert!(!has_pseudo(ins), "pseudo register left in {:?}", ins);
    }
    // the stream still holds both markers and both segments, in place
    assert_eq!(code[0], Ins::Seg("text".to_string()));
    assert_eq!(code[1], Ins::FunctionStartMarker);
    assert_eq!(code[2], Ins::Label("max".to_string()));
    assert_eq!(*code.last().unwrap(), Ins::Seg("data".to_string()));
    assert_eq!(code[code.len() - 2], Ins::FunctionEndMarker);
}

#[test]
fn allocation_spills_when_registers_run_out() {
    // five simultaneously live pseudo-registers cannot fit the pool
    let mut code = vec![
        Ins::FunctionStartMarker,
        Ins::Label("wide".to_string()),
        Ins::LdiW(Wr::Rpw(0), Wi::Constant(1)),
        Ins::LdiW(Wr::Rpw(1), Wi::Constant(2)),
        Ins::LdiW(Wr::Rpw(2), Wi::Constant(3)),
        Ins::LdiW(Wr::Rpw(3), Wi::Constant(4)),
        Ins::LdiW(Wr::Rpw(4), Wi::Constant(5)),
        Ins::AddW(Wr::Rpw(5), Wr::Rpw(0), Wr::Rpw(1)),
        Ins::AddW(Wr::Rpw(5), Wr::Rpw(5), Wr::Rpw(2)),
        Ins::AddW(Wr::Rpw(5), Wr::Rpw(5), Wr::Rpw(3)),
        Ins::AddW(Wr::Rpw(5), Wr::Rpw(5), Wr::Rpw(4)),
        Ins::AddW(Wr::R1, Wr::R0, Wr::Rpw(5)),
        Ins::Ret(Bi::Constant(0)),
        Ins::FunctionEndMarker,
    ];
    apply_register_allocation(&mut code);
    for ins in &code {
        assert!(!has_pseudo(ins), "pseudo register left in {:?}", ins);
    }
    // some spill traffic against the frame pointer must have appeared
    let spilled = code.iter().any(|i| {
        matches!(i, Ins::StoreWI(Wr::Rf, _, _)) || matches!(i, Ins::LoadWI(_, Wr::Rf, _))
    });
    assert!(spilled);
}

#[test]
fn default_register_is_the_zero_register() {
    assert_eq!(edd::telda::Reg::default(), edd::telda::Reg::WideReg(Wr::R0));
}

#[test]
fn tiny_function_compiles_to_clean_listing() {
    // the backend half of `let x: i8 = 5; print(x)`
    let mut code = vec![
        Ins::FunctionStartMarker,
        Ins::Label("entry".to_string()),
        Ins::LdiW(Wr::Rpw(0), Wi::Constant(5)),
        Ins::MoveW(Wr::R1, Wr::Rpw(0)),
        Ins::Call(Wi::Symbol("print".to_string())),
        Ins::MoveW(Wr::R1, Wr::R1),
        Ins::Ret(Bi::Constant(0)),
        Ins::FunctionEndMarker,
    ];
    apply_register_allocation(&mut code);
    simple_optimisations(&mut code);
    for ins in &code {
        assert!(!has_pseudo(ins));
    }
    // the call and the return survive, and the no-op move became a comment
    assert!(code.contains(&Ins::Call(Wi::Symbol("print".to_string()))));
    assert!(code.contains(&Ins::Ret(Bi::Constant(0))));
    assert!(code.contains(&Ins::Comment(Box::new(Ins::AddW(Wr::R1, Wr::R0, Wr::R1)))));
    // the literal still gets loaded, into a register or through its byte half
    let loads = code
        .iter()
        .any(|i| matches!(i, Ins::LdiW(_, Wi::Constant(5)) | Ins::LdiB(_, Bi::Constant(5))));
    assert!(loads);
}

#[test]
fn backward_branch_keeps_values_apart() {
    // the first value is read again after the backward jump, so it is
    // live across the second one and they must not share a register
    let mut code = vec![
        Ins::FunctionStartMarker,
        Ins::Label("f".to_string()),
        Ins::LdiW(Wr::Rpw(0), Wi::Constant(1)),
        Ins::Label("loop_top".to_string()),
        Ins::AddW(Wr::R1, Wr::R0, Wr::Rpw(0)),
        Ins::LdiW(Wr::Rpw(1), Wi::Constant(7)),
        Ins::AddW(Wr::R2, Wr::R0, Wr::Rpw(1)),
        Ins::Jez(Wi::Symbol("loop_top".to_string())),
        Ins::Ret(Bi::Constant(0)),
        Ins::FunctionEndMarker,
    ];
    apply_register_allocation(&mut code);
    for ins in &code {
        assert!(!has_pseudo(ins));
    }
    // the destinations that replaced Rpw0 and Rpw1 in the two loads
    let dests: Vec<Wr> = code
        .iter()
        .filter_map(|i| match i {
            Ins::LdiW(r, Wi::Constant(c)) if *c == 1 || *c == 7 => Some(*r),
            _ => None,
        })
        .collect();
    // a spilled operand instead shows as a scratch store to the frame
    if dests.len() == 2 {
        assert_ne!(dests[0], dests[1], "overlapping values share a register");
    }
}

#[test]
fn explicit_pool_registers_are_not_reused() {
    // the body already uses R6 and R7, so the pseudo must go elsewhere
    let mut code = vec![
        Ins::FunctionStartMarker,
        Ins::Label("g".to_string()),
        Ins::LdiW(Wr::R6, Wi::Constant(1)),
        Ins::LdiW(Wr::R7, Wi::Constant(2)),
        Ins::LdiW(Wr::Rpw(0), Wi::Constant(3)),
        Ins::AddW(Wr::R1, Wr::R6, Wr::R7),
        Ins::AddW(Wr::R1, Wr::R1, Wr::Rpw(0)),
        Ins::Ret(Bi::Constant(0)),
        Ins::FunctionEndMarker,
    ];
    apply_register_allocation(&mut code);
    for ins in &code {
        assert!(!has_pseudo(ins));
    }
    // the pseudo's load must not target the pre-empted R6 or R7: with
    // both colours taken it is spilled through a scratch
    let pseudo_load_targets: Vec<Wr> = code
        .iter()
        .filter_map(|i| match i {
            Ins::LdiW(r, Wi::Constant(3)) => Some(*r),
            _ => None,
        })
        .collect();
    for r in pseudo_load_targets {
        assert!(r != Wr::R6 && r != Wr::R7, "pre-empted colour handed out");
    }
}
