use vstd::prelude::*;

use crate::flat::{
    contains_float, size_spec, sizes_fit, sizes_sum, FlatType,
};
use crate::telda::regalloc::{live_ok, placement_ok, register_allocate, rewrite_all, rewrite_spec, Loc};

pub mod regalloc;

verus! {

/// A byte register of the target machine; `Rpb` is a pseudo-register
/// that only exists before allocation.
#[derive(Debug, Clone, Copy, PartialEq, Eq, Hash, Structural)]
pub enum Br {
    R0b,
    R1l,
    R1h,
    R2l,
    R2h,
    R3l,
    R3h,
    R4l,
    R4h,
    R5l,
    R5h,
    R6b,
    R7b,
    R8b,
    R9b,
    R10b,
    /// Pseudo byte register
    Rpb(usize),
}

/// A wide register of the target machine; `Rpw` is a pseudo-register
/// that only exists before allocation.
#[derive(Debug, Clone, Copy, PartialEq, Eq, Hash, Structural)]
pub enum Wr {
    R0,
    R1,
    R2,
    R3,
    R4,
    R5,
    R6,
    R7,
    R8,
    R9,
    R10,
    Rs,
    Rl,
    Rf,
    Rp,
    Rh,
    /// Pseudo wide register
    Rpw(usize),
}

/// A wide immediate: a symbol to relocate, or a constant.
#[derive(Debug, Clone, PartialEq, Eq)]
pub enum Wi {
    Symbol(String),
    Constant(u16),
}

/// A byte immediate.
#[derive(Debug, Clone, Copy, PartialEq, Eq, Structural)]
pub enum Bi {
    Constant(u8),
}

/// One line of target assembly: a label, a data directive, a marker for
/// the allocator, or an opcode.  A `Comment` holds an instruction taken
/// out of the stream.
#[derive(Debug, PartialEq, Eq)]
pub enum Ins {
    Null,
    Label(String),
    Byte(Bi),
    Wide(Wi),
    String(String),
    Ref(String),
    Global(String),
    FunctionStartMarker,
    FunctionEndMarker,
    StaticMarker,
    Seg(String),
    Comment(Box<Ins>),

    Nop,
    PushB(Br),
    PushW(Wr),
    PopB(Br),
    PopW(Wr),
    Call(Wi),
    Ret(Bi),
    StoreBI(Wr, Wi, Br),
    StoreWI(Wr, Wi, Wr),
    StoreBR(Wr, Wr, Br),
    StoreWR(Wr, Wr, Wr),
    LoadBI(Br, Wr, Wi),
    LoadWI(Wr, Wr, Wi),
    LoadBR(Br, Wr, Wr),
    LoadWR(Wr, Wr, Wr),

    Jez(Wi),
    Jlt(Wi),
    Jle(Wi),
    Jgt(Wi),
    Jge(Wi),
    Jnz(Wi),
    Jo(Wi),
    Jno(Wi),
    Jb(Wi),
    Jae(Wi),
    Ja(Wi),
    Jbe(Wi),

    LdiB(Br, Bi),
    LdiW(Wr, Wi),
    Jump(Wi),
    JmpR(Wr),

    AddB(Br, Br, Br),
    AddW(Wr, Wr, Wr),
    SubB(Br, Br, Br),
    SubW(Wr, Wr, Wr),
    AndB(Br, Br, Br),
    AndW(Wr, Wr, Wr),
    OrB(Br, Br, Br),
    OrW(Wr, Wr, Wr),
    XorB(Br, Br, Br),
    XorW(Wr, Wr, Wr),
    ShlB(Br, Br, Br),
    ShlW(Wr, Wr, Wr),
    AsrB(Br, Br, Br),
    AsrW(Wr, Wr, Wr),
    LsrB(Br, Br, Br),
    LsrW(Wr, Wr, Wr),

    DivB(Br, Br, Br, Br),
    DivW(Wr, Wr, Wr, Wr),
    MulB(Br, Br, Br, Br),
    MulW(Wr, Wr, Wr, Wr),
}

/// A register of either width, as the allocator handles them.
#[derive(Debug, Copy, Clone, PartialEq, Eq, Hash, Structural)]
pub enum Reg {
    ByteReg(Br),
    WideReg(Wr),
}

impl Default for Reg {
    fn default() -> (r: Reg)
        ensures
            r == Reg::WideReg(Wr::R0),
    {
        Reg::WideReg(Wr::R0)
    }
}

/// The byte alias of a wide register: its low half, or the byte half of
/// a pseudo-register.  The special registers have no byte aliases.
pub open spec fn try_from_wr_spec(wr: Wr) -> Option<Br> {
    match wr {
        Wr::R0 => Some(Br::R0b),
        Wr::R1 => Some(Br::R1l),
        Wr::R2 => Some(Br::R2l),
        Wr::R3 => Some(Br::R3l),
        Wr::R4 => Some(Br::R4l),
        Wr::R5 => Some(Br::R5l),
        Wr::R6 => Some(Br::R6b),
        Wr::R7 => Some(Br::R7b),
        Wr::R8 => Some(Br::R8b),
        Wr::R9 => Some(Br::R9b),
        Wr::R10 => Some(Br::R10b),
        Wr::Rs => None,
        Wr::Rl => None,
        Wr::Rf => None,
        Wr::Rp => None,
        Wr::Rh => None,
        Wr::Rpw(n) => Some(Br::Rpb(n)),
    }
}

impl Br {
    /// The byte alias of a wide register, when it has one.
    pub fn try_from_wr(wr: Wr) -> (r: Option<Br>)
        ensures
            r == try_from_wr_spec(wr),
    {
        match wr {
            Wr::R0 => Some(Br::R0b),
            Wr::R1 => Some(Br::R1l),
            Wr::R2 => Some(Br::R2l),
            Wr::R3 => Some(Br::R3l),
            Wr::R4 => Some(Br::R4l),
            Wr::R5 => Some(Br::R5l),
            Wr::R6 => Some(Br::R6b),
            Wr::R7 => Some(Br::R7b),
            Wr::R8 => Some(Br::R8b),
            Wr::R9 => Some(Br::R9b),
            Wr::R10 => Some(Br::R10b),
            Wr::Rs => None,
            Wr::Rl => None,
            Wr::Rf => None,
            Wr::Rp => None,
            Wr::Rh => None,
            Wr::Rpw(n) => Some(Br::Rpb(n)),
        }
    }
}

impl Ins {
    /// alias of `jb`
    #[allow(non_snake_case)]
    pub fn Jc(i: Wi) -> (r: Ins)
        ensures
            r == Ins::Jb(i),
    {
        Ins::Jb(i)
    }

    /// alias of `jae`
    #[allow(non_snake_case)]
    pub fn Jnc(i: Wi) -> (r: Ins)
        ensures
            r == Ins::Jae(i),
    {
        Ins::Jae(i)
    }

    /// alias of `add a, r0b, b`
    #[allow(non_snake_case)]
    pub fn MoveB(a: Br, b: Br) -> (r: Ins)
        ensures
            r == Ins::AddB(a, Br::R0b, b),
    {
        Ins::AddB(a, Br::R0b, b)
    }

    /// alias of `add a, r0, b`
    #[allow(non_snake_case)]
    pub fn MoveW(a: Wr, b: Wr) -> (r: Ins)
        ensures
            r == Ins::AddW(a, Wr::R0, b),
    {
        Ins::AddW(a, Wr::R0, b)
    }
}

proof fn lemma_size_nonneg(t: FlatType)
    ensures
        size_spec(t) >= 0,
    decreases t,
{
    match t {
        FlatType::Arr(e, n) => {
            lemma_size_nonneg(*e);
            assert(n * size_spec(*e) >= 0) by (nonlinear_arith)
                requires
                    n >= 0,
                    size_spec(*e) >= 0,
            ;
        },
        FlatType::Struct(fields) => {
            lemma_sizes_sum_nonneg(fields@);
        },
        _ => (),
    }
}

proof fn lemma_sizes_sum_nonneg(s: Seq<FlatType>)
    ensures
        sizes_sum(s) >= 0,
    decreases s,
{
    if s.len() > 0 {
        lemma_size_nonneg(s[0]);
        lemma_sizes_sum_nonneg(s.drop_first());
    }
}

proof fn lemma_sizes_sum_split(s: Seq<FlatType>, k: int)
    requires
        0 <= k <= s.len(),
    ensures
        sizes_sum(s) == sizes_sum(s.subrange(0, k)) + sizes_sum(s.skip(k)),
    decreases k,
{
    if k == 0 {
        assert(s.subrange(0, 0) =~= Seq::empty());
        assert(s.skip(0) =~= s);
    } else {
        lemma_sizes_sum_split(s.drop_first(), k - 1);
        assert(s.subrange(0, k).drop_first() =~= s.drop_first().subrange(0, k - 1));
        assert(s.drop_first().skip(k - 1) =~= s.skip(k));
        assert(s.subrange(0, k)[0] == s[0]);
    }
}

/// The byte size of a flat type on the target machine.
#[verifier::loop_isolation(false)]
pub fn sizeof(t: &FlatType) -> (r: u16)
    requires
        !contains_float(*t),
        sizes_fit(*t),
    ensures
        r == size_spec(*t),
    decreases *t,
{
    match t {
        FlatType::Unit => 0,
        FlatType::Bool => 1,
        FlatType::U8 => 1,
        FlatType::I8 => 1,
        FlatType::U16 => 2,
        FlatType::I16 => 2,
        FlatType::U32 => 4,
        FlatType::I32 => 4,
        FlatType::Float => {
            proof {
                assert(false);
            }
            0
        },
        FlatType::Ptr(_) => 2,
        FlatType::FnPtr(_, _) => 2,
        FlatType::Arr(e, n) => {
            let es = sizeof(e);
            proof {
                lemma_size_nonneg(**e);
            }
            let prod: u32 = (*n as u32) * (es as u32);
            proof {
                assert(prod == *n * size_spec(**e));
            }
            prod as u16
        },
        FlatType::Struct(fields) => {
            let mut acc: u16 = 0;
            let mut i: usize = 0;
            while i < fields.len()
                invariant
                    0 <= i <= fields@.len(),
                    acc == sizes_sum(fields@.subrange(0, i as int)),
                decreases fields@.len() - i,
            {
                proof {
                    lemma_sizes_sum_split(fields@, i as int);
                    lemma_sizes_sum_split(fields@, i + 1);
                    assert(fields@.subrange(0, i + 1).drop_last() =~= fields@.subrange(
                        0,
                        i as int,
                    ));
                    lemma_sizes_sum_split(fields@.subrange(0, i + 1), i as int);
                    assert(fields@.subrange(0, i + 1).subrange(0, i as int) =~= fields@.subrange(
                        0,
                        i as int,
                    ));
                    assert(fields@.subrange(0, i + 1).skip(i as int) =~= seq![fields@[i as int]]);
                    assert(sizes_sum(seq![fields@[i as int]]) == size_spec(fields@[i as int]))
                        by {
                        reveal_with_fuel(crate::flat::sizes_sum, 3);
                        assert(seq![fields@[i as int]].drop_first() =~= Seq::<FlatType>::empty());
                        assert(seq![fields@[i as int]][0] == fields@[i as int]);
                        assert(sizes_sum(Seq::<FlatType>::empty()) == 0);
                    }
                    lemma_sizes_sum_nonneg(fields@.skip(i + 1));
                    lemma_sizes_sum_nonneg(fields@.subrange(0, i as int));
                    lemma_size_nonneg(fields@[i as int]);
                }
                let fs = sizeof(&fields[i]);
                acc = acc + fs;
                i = i + 1;
            }
            proof {
                assert(fields@.subrange(0, fields@.len() as int) =~= fields@);
            }
            acc
        },
    }
}

/// Whether a wide operand is free of pseudo-registers.
pub open spec fn wr_ok(r: Wr) -> bool {
    !(r is Rpw)
}

/// Whether a byte operand is free of pseudo-registers.
pub open spec fn br_ok(r: Br) -> bool {
    !(r is Rpb)
}

/// No operand of the instruction, nor of an instruction it carries as a
/// comment, is a pseudo-register.
pub open spec fn ins_no_pseudo(i: Ins) -> bool
    decreases i,
{
    match i {
        Ins::Comment(inner) => ins_no_pseudo(*inner),
        Ins::PushB(a) => br_ok(a),
        Ins::PushW(a) => wr_ok(a),
        Ins::PopB(a) => br_ok(a),
        Ins::PopW(a) => wr_ok(a),
        Ins::StoreBI(a, _, c) => wr_ok(a) && br_ok(c),
        Ins::StoreWI(a, _, c) => wr_ok(a) && wr_ok(c),
        Ins::StoreBR(a, b, c) => wr_ok(a) && wr_ok(b) && br_ok(c),
        Ins::StoreWR(a, b, c) => wr_ok(a) && wr_ok(b) && wr_ok(c),
        Ins::LoadBI(a, b, _) => br_ok(a) && wr_ok(b),
        Ins::LoadWI(a, b, _) => wr_ok(a) && wr_ok(b),
        Ins::LoadBR(a, b, c) => br_ok(a) && wr_ok(b) && wr_ok(c),
        Ins::LoadWR(a, b, c) => wr_ok(a) && wr_ok(b) && wr_ok(c),
        Ins::LdiB(a, _) => br_ok(a),
        Ins::LdiW(a, _) => wr_ok(a),
        Ins::JmpR(a) => wr_ok(a),
        Ins::AddB(a, b, c) => br_ok(a) && br_ok(b) && br_ok(c),
        Ins::AddW(a, b, c) => wr_ok(a) && wr_ok(b) && wr_ok(c),
        Ins::SubB(a, b, c) => br_ok(a) && br_ok(b) && br_ok(c),
        Ins::SubW(a, b, c) => wr_ok(a) && wr_ok(b) && wr_ok(c),
        Ins::AndB(a, b, c) => br_ok(a) && br_ok(b) && br_ok(c),
        Ins::AndW(a, b, c) => wr_ok(a) && wr_ok(b) && wr_ok(c),
        Ins::OrB(a, b, c) => br_ok(a) && br_ok(b) && br_ok(c),
        Ins::OrW(a, b, c) => wr_ok(a) && wr_ok(b) && wr_ok(c),
        Ins::XorB(a, b, c) => br_ok(a) && br_ok(b) && br_ok(c),
        Ins::XorW(a, b, c) => wr_ok(a) && wr_ok(b) && wr_ok(c),
        Ins::ShlB(a, b, c) => br_ok(a) && br_ok(b) && br_ok(c),
        Ins::ShlW(a, b, c) => wr_ok(a) && wr_ok(b) && wr_ok(c),
        Ins::AsrB(a, b, c) => br_ok(a) && br_ok(b) && br_ok(c),
        Ins::AsrW(a, b, c) => wr_ok(a) && wr_ok(b) && wr_ok(c),
        Ins::LsrB(a, b, c) => br_ok(a) && br_ok(b) && br_ok(c),
        Ins::LsrW(a, b, c) => wr_ok(a) && wr_ok(b) && wr_ok(c),
        Ins::DivB(a, b, c, d) => br_ok(a) && br_ok(b) && br_ok(c) && br_ok(d),
        Ins::DivW(a, b, c, d) => wr_ok(a) && wr_ok(b) && wr_ok(c) && wr_ok(d),
        Ins::MulB(a, b, c, d) => br_ok(a) && br_ok(b) && br_ok(c) && br_ok(d),
        Ins::MulW(a, b, c, d) => wr_ok(a) && wr_ok(b) && wr_ok(c) && wr_ok(d),
        _ => true,
    }
}

/// What the peephole pass makes of one instruction: a no-op move becomes
/// a comment, and a small immediate load into a zero-extending register
/// narrows to its byte form.
pub open spec fn peep_spec(i: Ins) -> Ins {
    match i {
        Ins::AddW(a, Wr::R0, b) => {
            if a == b {
                Ins::Comment(Box::new(Ins::AddW(a, Wr::R0, b)))
            } else {
                i
            }
        },
        Ins::AddB(a, Br::R0b, b) => {
            if a == b {
                Ins::Comment(Box::new(Ins::AddB(a, Br::R0b, b)))
            } else {
                i
            }
        },
        Ins::LdiW(r, Wi::Constant(c)) => {
            if (r == Wr::R6 || r == Wr::R7 || r == Wr::R8 || r == Wr::R9 || r == Wr::R10) && c
                <= 255 {
                Ins::LdiB(try_from_wr_spec(r)->Some_0, Bi::Constant(c as u8))
            } else {
                i
            }
        },
        _ => i,
    }
}

/// The peephole pass: comment out no-op moves and narrow immediate loads
/// of byte-sized values into the zero-extending registers.
#[verifier::loop_isolation(false)]
pub fn simple_optimisations(code: &mut Vec<Ins>)
    ensures
        final(code)@.len() == old(code)@.len(),
        forall|j: int|
            0 <= j < old(code)@.len() ==> final(code)@[j] == peep_spec(old(code)@[j]),
{
    let mut i: usize = 0;
    while i < code.len()
        invariant
            0 <= i <= code@.len(),
            code@.len() == old(code)@.len(),
            forall|j: int| 0 <= j < i ==> code@[j] == peep_spec(old(code)@[j]),
            forall|j: int| i <= j < code@.len() ==> code@[j] == old(code)@[j],
        decreases code@.len() - i,
    {
        let replacement: Option<Ins> = match &code[i] {
            Ins::AddW(a, Wr::R0, b) => {
                if *a == *b {
                    Some(Ins::Comment(Box::new(Ins::AddW(*a, Wr::R0, *b))))
                } else {
                    None
                }
            },
            Ins::AddB(a, Br::R0b, b) => {
                if *a == *b {
                    Some(Ins::Comment(Box::new(Ins::AddB(*a, Br::R0b, *b))))
                } else {
                    None
                }
            },
            Ins::LdiW(r, Wi::Constant(c)) => {
                let zero_extending = matches!(r, Wr::R6 | Wr::R7 | Wr::R8 | Wr::R9 | Wr::R10);
                if zero_extending && *c <= 255 {
                    match Br::try_from_wr(*r) {
                        Some(br) => Some(Ins::LdiB(br, Bi::Constant(*c as u8))),
                        None => {
                            proof {
                                assert(false);
                            }
                            None
                        },
                    }
                } else {
                    None
                }
            },
            _ => None,
        };
        match replacement {
            Some(n) => {
                code[i] = n;
            },
            None => {},
        }
        i = i + 1;
    }
}

/// How the allocated stream relates to its input, scanned front to
/// back.  `in_fn` says whether the scan stands inside a function and
/// `window` holds the body collected so far: an instruction outside the
/// markers passes through `rewrite_spec` under the empty placement
/// (the identity on anything without pseudo-registers), a start marker
/// survives and opens a window, and at an end marker the collected body
/// appears rewritten in order under some placement, followed by the
/// marker.  A window that the stream never closes is rewritten as well.
pub open spec fn alloc_rel(s: Seq<Ins>, out: Seq<Ins>, in_fn: bool, window: Seq<Ins>) -> bool
    decreases s.len(),
{
    if s.len() == 0 {
        if in_fn {
            exists|m: Seq<(usize, Loc)>, l: Seq<Seq<usize>>|
                {
                    &&& out == rewrite_all(m, window)
                    &&& live_ok(l, window)
                    &&& #[trigger] placement_ok(m, l, window)
                }
        } else {
            out == Seq::<Ins>::empty()
        }
    } else if in_fn {
        if s[0] is FunctionEndMarker {
            exists|m: Seq<(usize, Loc)>, l: Seq<Seq<usize>>|
                {
                    &&& (#[trigger] rewrite_all(m, window)).len() + 1 <= out.len()
                    &&& out.subrange(0, rewrite_all(m, window).len() as int) == rewrite_all(
                        m,
                        window,
                    )
                    &&& out[rewrite_all(m, window).len() as int] == Ins::FunctionEndMarker
                    &&& live_ok(l, window)
                    &&& #[trigger] placement_ok(m, l, window)
                    &&& alloc_rel(
                        s.drop_first(),
                        out.skip(rewrite_all(m, window).len() as int + 1),
                        false,
                        Seq::empty(),
                    )
                }
        } else {
            alloc_rel(s.drop_first(), out, true, window.push(s[0]))
        }
    } else {
        if s[0] is FunctionStartMarker {
            &&& out.len() >= 1
            &&& out[0] == Ins::FunctionStartMarker
            &&& alloc_rel(s.drop_first(), out.drop_first(), true, Seq::empty())
        } else {
            let w = rewrite_spec(Seq::empty(), s[0]);
            &&& w.len() <= out.len()
            &&& out.subrange(0, w.len() as int) == w
            &&& alloc_rel(s.drop_first(), out.skip(w.len() as int), false, window)
        }
    }
}

/// Move every instruction of `src` to the end of `dst`.
#[verifier::loop_isolation(false)]
fn append_all(dst: &mut Vec<Ins>, src: Vec<Ins>)
    requires
        forall|j: int| 0 <= j < old(dst)@.len() ==> ins_no_pseudo(#[trigger] old(dst)@[j]),
        forall|j: int| 0 <= j < src@.len() ==> ins_no_pseudo(#[trigger] src@[j]),
    ensures
        final(dst)@ == old(dst)@ + src@,
        forall|j: int| 0 <= j < final(dst)@.len() ==> ins_no_pseudo(#[trigger] final(dst)@[j]),
{
    let ghost src0 = src@;
    let mut src = src;
    let mut k: usize = 0;
    while k < src.len()
        invariant
            0 <= k <= src@.len(),
            src@.len() == src0.len(),
            forall|j: int| k <= j < src@.len() ==> src@[j] == src0[j],
            dst@ == old(dst)@ + src0.subrange(0, k as int),
            forall|j: int| 0 <= j < dst@.len() ==> ins_no_pseudo(#[trigger] dst@[j]),
        decreases src@.len() - k,
    {
        let mut slot = Ins::Nop;
        core::mem::swap(&mut slot, &mut src[k]);
        dst.push(slot);
        proof {
            assert(src0.subrange(0, k + 1) =~= src0.subrange(0, k as int).push(src0[k as int]));
            assert(dst@ =~= old(dst)@ + src0.subrange(0, k + 1));
        }
        k = k + 1;
    }
    proof {
        assert(src0.subrange(0, src0.len() as int) =~= src0);
    }
}

/// Allocate registers for every function of the stream, replacing each
/// pseudo-register by a physical register or by loads and stores of a
/// spill slot.  Afterwards no instruction holds a pseudo-register, and
/// the stream is the input's: markers and everything outside them kept
/// in place, each function body rewritten in order under its placement.
#[verifier::loop_isolation(false)]
#[verifier::rlimit(60)]
pub fn apply_register_allocation(code: &mut Vec<Ins>)
    ensures
        forall|j: int|
            0 <= j < final(code)@.len() ==> ins_no_pseudo(#[trigger] final(code)@[j]),
        alloc_rel(old(code)@, final(code)@, false, Seq::empty()),
{
    let mut rest: Vec<Ins> = Vec::new();
    core::mem::swap(code, &mut rest);
    let mut window: Vec<Ins> = Vec::new();
    let mut in_fn: bool = false;
    proof {
        assert forall|tail: Seq<Ins>|
            alloc_rel(rest@, tail, in_fn, window@) implies alloc_rel(
            old(code)@,
            code@ + tail,
            false,
            Seq::empty(),
        ) by {
            assert(code@ + tail =~= tail);
        }
    }
    while rest.len() > 0
        invariant
            forall|j: int| 0 <= j < code@.len() ==> ins_no_pseudo(#[trigger] code@[j]),
            !in_fn ==> window@ == Seq::<Ins>::empty(),
            forall|tail: Seq<Ins>|
                alloc_rel(rest@, tail, in_fn, window@) ==> #[trigger] alloc_rel(
                    old(code)@,
                    code@ + tail,
                    false,
                    Seq::empty(),
                ),
        decreases rest@.len(),
    {
        let ghost rest0 = rest@;
        let ghost code0 = code@;
        let ghost window0 = window@;
        let ins = rest.remove(0);
        proof {
            assert(rest@ =~= rest0.drop_first());
            assert(ins == rest0[0]);
        }
        if in_fn {
            let is_end = matches!(&ins, Ins::FunctionEndMarker);
            if is_end {
                let mut body: Vec<Ins> = Vec::new();
                core::mem::swap(&mut window, &mut body);
                let allocated = register_allocate(body);
                let ghost alloc0 = allocated@;
                append_all(code, allocated);
                code.push(Ins::FunctionEndMarker);
                in_fn = false;
                proof {
                    let (m, l) = choose|m: Seq<(usize, Loc)>, l: Seq<Seq<usize>>|
                        {
                            &&& alloc0 == rewrite_all(m, window0)
                            &&& live_ok(l, window0)
                            &&& #[trigger] placement_ok(m, l, window0)
                        };
                    assert forall|tail: Seq<Ins>|
                        alloc_rel(rest@, tail, in_fn, window@) implies #[trigger] alloc_rel(
                        old(code)@,
                        code@ + tail,
                        false,
                        Seq::empty(),
                    ) by {
                        let big = alloc0 + seq![Ins::FunctionEndMarker] + tail;
                        assert(big.subrange(0, alloc0.len() as int) =~= alloc0);
                        assert(big[alloc0.len() as int] == Ins::FunctionEndMarker);
                        assert(big.skip(alloc0.len() as int + 1) =~= tail);
                        assert(alloc_rel(rest0, big, true, window0));
                        assert(alloc_rel(old(code)@, code0 + big, false, Seq::empty()));
                        assert(code0 + big =~= code@ + tail);
                    }
                }
            } else {
                window.push(ins);
                proof {
                    assert(window@ =~= window0.push(rest0[0]));
                    assert forall|tail: Seq<Ins>|
                        alloc_rel(rest@, tail, in_fn, window@) implies #[trigger] alloc_rel(
                        old(code)@,
                        code@ + tail,
                        false,
                        Seq::empty(),
                    ) by {
                        assert(alloc_rel(rest0, tail, true, window0));
                    }
                }
            }
        } else {
            let is_start = matches!(&ins, Ins::FunctionStartMarker);
            if is_start {
                code.push(Ins::FunctionStartMarker);
                in_fn = true;
                proof {
                    assert(window@ =~= Seq::<Ins>::empty());
                    assert forall|tail: Seq<Ins>|
                        alloc_rel(rest@, tail, in_fn, window@) implies #[trigger] alloc_rel(
                        old(code)@,
                        code@ + tail,
                        false,
                        Seq::empty(),
                    ) by {
                        let big = seq![Ins::FunctionStartMarker] + tail;
                        assert(big[0] == Ins::FunctionStartMarker);
                        assert(big.drop_first() =~= tail);
                        assert(alloc_rel(rest0, big, false, window0));
                        assert(alloc_rel(old(code)@, code0 + big, false, Seq::empty()));
                        assert(code0 + big =~= code@ + tail);
                    }
                }
            } else {
                regalloc::rewrite_free(ins, code);
                proof {
                    let w = rewrite_spec(Seq::empty(), rest0[0]);
                    assert forall|tail: Seq<Ins>|
                        alloc_rel(rest@, tail, in_fn, window@) implies #[trigger] alloc_rel(
                        old(code)@,
                        code@ + tail,
                        false,
                        Seq::empty(),
                    ) by {
                        let big = w + tail;
                        assert(big.subrange(0, w.len() as int) =~= w);
                        assert(big.skip(w.len() as int) =~= tail);
                        assert(alloc_rel(rest0, big, false, window0));
                        assert(alloc_rel(old(code)@, code0 + big, false, Seq::empty()));
                        assert(code0 + big =~= code@ + tail);
                    }
                }
            }
        }
    }
    if in_fn {
        let ghost window0 = window@;
        let ghost code0 = code@;
        let allocated = register_allocate(window);
        let ghost alloc0 = allocated@;
        append_all(code, allocated);
        proof {
            let (m, l) = choose|m: Seq<(usize, Loc)>, l: Seq<Seq<usize>>|
                {
                    &&& alloc0 == rewrite_all(m, window0)
                    &&& live_ok(l, window0)
                    &&& #[trigger] placement_ok(m, l, window0)
                };
            assert(alloc_rel(Seq::<Ins>::empty(), alloc0, true, window0));
            assert(alloc_rel(old(code)@, code0 + alloc0, false, Seq::empty()));
            assert(code0 + alloc0 =~= code@);
        }
    } else {
        proof {
            assert(alloc_rel(Seq::<Ins>::empty(), Seq::<Ins>::empty(), false, window@));
            assert(alloc_rel(old(code)@, code@ + Seq::<Ins>::empty(), false, Seq::empty()));
            assert(code@ + Seq::<Ins>::empty() =~= code@);
        }
    }
}

} // verus!
