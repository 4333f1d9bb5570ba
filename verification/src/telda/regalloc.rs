use vstd::prelude::*;

use crate::telda::{br_ok, ins_no_pseudo, wr_ok, Br, Ins, Wi, Wr};

verus! {

/// The callee-saved wide registers: the only ones the allocator hands
/// out, so that no value placed by it can be clobbered by a call.
pub open spec fn callee_saved_w(r: Wr) -> bool {
    r == Wr::R6 || r == Wr::R7 || r == Wr::R8 || r == Wr::R9 || r == Wr::R10
}

/// The byte aliases of the callee-saved registers.
pub open spec fn callee_saved_b(r: Br) -> bool {
    r == Br::R6b || r == Br::R7b || r == Br::R8b || r == Br::R9b || r == Br::R10b
}

/// Where a pseudo-register was placed: in one of the allocatable
/// callee-saved registers, or in a spill slot of the frame at the given
/// byte offset.
#[derive(Debug, Clone, Copy, PartialEq, Eq, Structural)]
pub enum Loc {
    Phys(u8),
    Spill(u16),
}

/// The allocatable wide register of a colour; the pool holds only the
/// callee-saved registers that the spill scratches (R8, R9, R10) never
/// use, so a spill load can never clobber a coloured value.
pub open spec fn pool_wr_spec(slot: u8) -> Wr {
    if slot == 0 {
        Wr::R6
    } else {
        Wr::R7
    }
}

/// The byte alias of an allocatable register.
pub open spec fn pool_br_spec(slot: u8) -> Br {
    if slot == 0 {
        Br::R6b
    } else {
        Br::R7b
    }
}

fn pool_wr(slot: u8) -> (r: Wr)
    ensures
        r == pool_wr_spec(slot),
        wr_ok(r),
        callee_saved_w(r),
{
    match slot {
        0 => Wr::R6,
        _ => Wr::R7,
    }
}

fn pool_br(slot: u8) -> (r: Br)
    ensures
        r == pool_br_spec(slot),
        br_ok(r),
        callee_saved_b(r),
{
    match slot {
        0 => Br::R6b,
        _ => Br::R7b,
    }
}

/// The placement of `id` in the map, scanning from the front.
pub open spec fn loc_spec(m: Seq<(usize, Loc)>, id: usize) -> Option<Loc>
    decreases m.len(),
{
    if m.len() == 0 {
        None
    } else if m[0].0 == id {
        Some(m[0].1)
    } else {
        loc_spec(m.drop_first(), id)
    }
}

/// The register that stands in for a wide operand: a coloured pseudo's
/// pool register, the scratch for a spilled or unplaced pseudo, and a
/// physical register itself.
pub open spec fn sub_w(m: Seq<(usize, Loc)>, r: Wr, scratch: Wr) -> Wr {
    match r {
        Wr::Rpw(n) => match loc_spec(m, n) {
            Some(Loc::Phys(s)) => pool_wr_spec(s),
            _ => scratch,
        },
        _ => r,
    }
}

/// `sub_w` for byte operands.
pub open spec fn sub_b(m: Seq<(usize, Loc)>, r: Br, scratch: Br) -> Br {
    match r {
        Br::Rpb(n) => match loc_spec(m, n) {
            Some(Loc::Phys(s)) => pool_br_spec(s),
            _ => scratch,
        },
        _ => r,
    }
}

/// The load that reading a spilled wide operand needs, if any.
pub open spec fn use_pre_w(m: Seq<(usize, Loc)>, r: Wr, scratch: Wr) -> Seq<Ins> {
    match r {
        Wr::Rpw(n) => match loc_spec(m, n) {
            Some(Loc::Spill(off)) => seq![Ins::LoadWI(scratch, Wr::Rf, Wi::Constant(off))],
            _ => Seq::empty(),
        },
        _ => Seq::empty(),
    }
}

/// `use_pre_w` for byte operands.
pub open spec fn use_pre_b(m: Seq<(usize, Loc)>, r: Br, scratch: Br) -> Seq<Ins> {
    match r {
        Br::Rpb(n) => match loc_spec(m, n) {
            Some(Loc::Spill(off)) => seq![Ins::LoadBI(scratch, Wr::Rf, Wi::Constant(off))],
            _ => Seq::empty(),
        },
        _ => Seq::empty(),
    }
}

/// The store that writing a spilled wide operand needs, if any.
pub open spec fn def_post_w(m: Seq<(usize, Loc)>, r: Wr, scratch: Wr) -> Seq<Ins> {
    match r {
        Wr::Rpw(n) => match loc_spec(m, n) {
            Some(Loc::Spill(off)) => seq![Ins::StoreWI(Wr::Rf, Wi::Constant(off), scratch)],
            _ => Seq::empty(),
        },
        _ => Seq::empty(),
    }
}

/// `def_post_w` for byte operands.
pub open spec fn def_post_b(m: Seq<(usize, Loc)>, r: Br, scratch: Br) -> Seq<Ins> {
    match r {
        Br::Rpb(n) => match loc_spec(m, n) {
            Some(Loc::Spill(off)) => seq![Ins::StoreBI(Wr::Rf, Wi::Constant(off), scratch)],
            _ => Seq::empty(),
        },
        _ => Seq::empty(),
    }
}

/// An optional instruction as a sequence.
pub open spec fn opt_seq(o: Option<Ins>) -> Seq<Ins> {
    match o {
        Some(i) => seq![i],
        None => Seq::empty(),
    }
}

/// What one instruction becomes under a placement: the loads its
/// spilled reads need, the instruction with every operand substituted,
/// and the stores its spilled writes need; a commented-out instruction
/// is rewritten inside its comment, and an instruction without register
/// operands stands unchanged.
pub open spec fn rewrite_spec(m: Seq<(usize, Loc)>, i: Ins) -> Seq<Ins>
    decreases i,
{
    match i {
        Ins::Comment(inner) => rewrite_spec(m, *inner).map_values(
            |x: Ins| Ins::Comment(Box::new(x)),
        ),
        Ins::PushB(a) => use_pre_b(m, a, Br::R9b) + seq![Ins::PushB(sub_b(m, a, Br::R9b))],
        Ins::PushW(a) => use_pre_w(m, a, Wr::R9) + seq![Ins::PushW(sub_w(m, a, Wr::R9))],
        Ins::PopB(a) => seq![Ins::PopB(sub_b(m, a, Br::R9b))] + def_post_b(m, a, Br::R9b),
        Ins::PopW(a) => seq![Ins::PopW(sub_w(m, a, Wr::R9))] + def_post_w(m, a, Wr::R9),
        Ins::StoreBI(a, i, c) => use_pre_w(m, a, Wr::R9) + use_pre_b(m, c, Br::R10b) + seq![
            Ins::StoreBI(sub_w(m, a, Wr::R9), i, sub_b(m, c, Br::R10b)),
        ],
        Ins::StoreWI(a, i, c) => use_pre_w(m, a, Wr::R9) + use_pre_w(m, c, Wr::R10) + seq![
            Ins::StoreWI(sub_w(m, a, Wr::R9), i, sub_w(m, c, Wr::R10)),
        ],
        Ins::StoreBR(a, b, c) => use_pre_w(m, a, Wr::R9) + use_pre_w(m, b, Wr::R10) + use_pre_b(
            m,
            c,
            Br::R8b,
        ) + seq![Ins::StoreBR(sub_w(m, a, Wr::R9), sub_w(m, b, Wr::R10), sub_b(m, c, Br::R8b))],
        Ins::StoreWR(a, b, c) => use_pre_w(m, a, Wr::R9) + use_pre_w(m, b, Wr::R10) + use_pre_w(
            m,
            c,
            Wr::R8,
        ) + seq![Ins::StoreWR(sub_w(m, a, Wr::R9), sub_w(m, b, Wr::R10), sub_w(m, c, Wr::R8))],
        Ins::LoadBI(a, b, i) => use_pre_w(m, b, Wr::R10) + seq![
            Ins::LoadBI(sub_b(m, a, Br::R9b), sub_w(m, b, Wr::R10), i),
        ] + def_post_b(m, a, Br::R9b),
        Ins::LoadWI(a, b, i) => use_pre_w(m, b, Wr::R10) + seq![
            Ins::LoadWI(sub_w(m, a, Wr::R9), sub_w(m, b, Wr::R10), i),
        ] + def_post_w(m, a, Wr::R9),
        Ins::LoadBR(a, b, c) => use_pre_w(m, b, Wr::R10) + use_pre_w(m, c, Wr::R8) + seq![
            Ins::LoadBR(sub_b(m, a, Br::R9b), sub_w(m, b, Wr::R10), sub_w(m, c, Wr::R8)),
        ] + def_post_b(m, a, Br::R9b),
        Ins::LoadWR(a, b, c) => use_pre_w(m, b, Wr::R10) + use_pre_w(m, c, Wr::R8) + seq![
            Ins::LoadWR(sub_w(m, a, Wr::R9), sub_w(m, b, Wr::R10), sub_w(m, c, Wr::R8)),
        ] + def_post_w(m, a, Wr::R9),
        Ins::LdiB(a, i) => seq![Ins::LdiB(sub_b(m, a, Br::R9b), i)] + def_post_b(m, a, Br::R9b),
        Ins::LdiW(a, i) => seq![Ins::LdiW(sub_w(m, a, Wr::R9), i)] + def_post_w(m, a, Wr::R9),
        Ins::JmpR(a) => use_pre_w(m, a, Wr::R9) + seq![Ins::JmpR(sub_w(m, a, Wr::R9))],
        Ins::AddB(a, b, c) => use_pre_b(m, b, Br::R9b) + use_pre_b(m, c, Br::R10b) + seq![
            Ins::AddB(sub_b(m, a, Br::R9b), sub_b(m, b, Br::R9b), sub_b(m, c, Br::R10b)),
        ] + def_post_b(m, a, Br::R9b),
        Ins::SubB(a, b, c) => use_pre_b(m, b, Br::R9b) + use_pre_b(m, c, Br::R10b) + seq![
            Ins::SubB(sub_b(m, a, Br::R9b), sub_b(m, b, Br::R9b), sub_b(m, c, Br::R10b)),
        ] + def_post_b(m, a, Br::R9b),
        Ins::AndB(a, b, c) => use_pre_b(m, b, Br::R9b) + use_pre_b(m, c, Br::R10b) + seq![
            Ins::AndB(sub_b(m, a, Br::R9b), sub_b(m, b, Br::R9b), sub_b(m, c, Br::R10b)),
        ] + def_post_b(m, a, Br::R9b),
        Ins::OrB(a, b, c) => use_pre_b(m, b, Br::R9b) + use_pre_b(m, c, Br::R10b) + seq![
            Ins::OrB(sub_b(m, a, Br::R9b), sub_b(m, b, Br::R9b), sub_b(m, c, Br::R10b)),
        ] + def_post_b(m, a, Br::R9b),
        Ins::XorB(a, b, c) => use_pre_b(m, b, Br::R9b) + use_pre_b(m, c, Br::R10b) + seq![
            Ins::XorB(sub_b(m, a, Br::R9b), sub_b(m, b, Br::R9b), sub_b(m, c, Br::R10b)),
        ] + def_post_b(m, a, Br::R9b),
        Ins::ShlB(a, b, c) => use_pre_b(m, b, Br::R9b) + use_pre_b(m, c, Br::R10b) + seq![
            Ins::ShlB(sub_b(m, a, Br::R9b), sub_b(m, b, Br::R9b), sub_b(m, c, Br::R10b)),
        ] + def_post_b(m, a, Br::R9b),
        Ins::AsrB(a, b, c) => use_pre_b(m, b, Br::R9b) + use_pre_b(m, c, Br::R10b) + seq![
            Ins::AsrB(sub_b(m, a, Br::R9b), sub_b(m, b, Br::R9b), sub_b(m, c, Br::R10b)),
        ] + def_post_b(m, a, Br::R9b),
        Ins::LsrB(a, b, c) => use_pre_b(m, b, Br::R9b) + use_pre_b(m, c, Br::R10b) + seq![
            Ins::LsrB(sub_b(m, a, Br::R9b), sub_b(m, b, Br::R9b), sub_b(m, c, Br::R10b)),
        ] + def_post_b(m, a, Br::R9b),
        Ins::AddW(a, b, c) => use_pre_w(m, b, Wr::R9) + use_pre_w(m, c, Wr::R10) + seq![
            Ins::AddW(sub_w(m, a, Wr::R9), sub_w(m, b, Wr::R9), sub_w(m, c, Wr::R10)),
        ] + def_post_w(m, a, Wr::R9),
        Ins::SubW(a, b, c) => use_pre_w(m, b, Wr::R9) + use_pre_w(m, c, Wr::R10) + seq![
            Ins::SubW(sub_w(m, a, Wr::R9), sub_w(m, b, Wr::R9), sub_w(m, c, Wr::R10)),
        ] + def_post_w(m, a, Wr::R9),
        Ins::AndW(a, b, c) => use_pre_w(m, b, Wr::R9) + use_pre_w(m, c, Wr::R10) + seq![
            Ins::AndW(sub_w(m, a, Wr::R9), sub_w(m, b, Wr::R9), sub_w(m, c, Wr::R10)),
        ] + def_post_w(m, a, Wr::R9),
        Ins::OrW(a, b, c) => use_pre_w(m, b, Wr::R9) + use_pre_w(m, c, Wr::R10) + seq![
            Ins::OrW(sub_w(m, a, Wr::R9), sub_w(m, b, Wr::R9), sub_w(m, c, Wr::R10)),
        ] + def_post_w(m, a, Wr::R9),
        Ins::XorW(a, b, c) => use_pre_w(m, b, Wr::R9) + use_pre_w(m, c, Wr::R10) + seq![
            Ins::XorW(sub_w(m, a, Wr::R9), sub_w(m, b, Wr::R9), sub_w(m, c, Wr::R10)),
        ] + def_post_w(m, a, Wr::R9),
        Ins::ShlW(a, b, c) => use_pre_w(m, b, Wr::R9) + use_pre_w(m, c, Wr::R10) + seq![
            Ins::ShlW(sub_w(m, a, Wr::R9), sub_w(m, b, Wr::R9), sub_w(m, c, Wr::R10)),
        ] + def_post_w(m, a, Wr::R9),
        Ins::AsrW(a, b, c) => use_pre_w(m, b, Wr::R9) + use_pre_w(m, c, Wr::R10) + seq![
            Ins::AsrW(sub_w(m, a, Wr::R9), sub_w(m, b, Wr::R9), sub_w(m, c, Wr::R10)),
        ] + def_post_w(m, a, Wr::R9),
        Ins::LsrW(a, b, c) => use_pre_w(m, b, Wr::R9) + use_pre_w(m, c, Wr::R10) + seq![
            Ins::LsrW(sub_w(m, a, Wr::R9), sub_w(m, b, Wr::R9), sub_w(m, c, Wr::R10)),
        ] + def_post_w(m, a, Wr::R9),
        Ins::DivB(a, b, c, d) => use_pre_b(m, c, Br::R9b) + use_pre_b(m, d, Br::R10b) + seq![
            Ins::DivB(
                sub_b(m, a, Br::R9b),
                sub_b(m, b, Br::R10b),
                sub_b(m, c, Br::R9b),
                sub_b(m, d, Br::R10b),
            ),
        ] + def_post_b(m, a, Br::R9b) + def_post_b(m, b, Br::R10b),
        Ins::MulB(a, b, c, d) => use_pre_b(m, c, Br::R9b) + use_pre_b(m, d, Br::R10b) + seq![
            Ins::MulB(
                sub_b(m, a, Br::R9b),
                sub_b(m, b, Br::R10b),
                sub_b(m, c, Br::R9b),
                sub_b(m, d, Br::R10b),
            ),
        ] + def_post_b(m, a, Br::R9b) + def_post_b(m, b, Br::R10b),
        Ins::DivW(a, b, c, d) => use_pre_w(m, c, Wr::R9) + use_pre_w(m, d, Wr::R10) + seq![
            Ins::DivW(
                sub_w(m, a, Wr::R9),
                sub_w(m, b, Wr::R10),
                sub_w(m, c, Wr::R9),
                sub_w(m, d, Wr::R10),
            ),
        ] + def_post_w(m, a, Wr::R9) + def_post_w(m, b, Wr::R10),
        Ins::MulW(a, b, c, d) => use_pre_w(m, c, Wr::R9) + use_pre_w(m, d, Wr::R10) + seq![
            Ins::MulW(
                sub_w(m, a, Wr::R9),
                sub_w(m, b, Wr::R10),
                sub_w(m, c, Wr::R9),
                sub_w(m, d, Wr::R10),
            ),
        ] + def_post_w(m, a, Wr::R9) + def_post_w(m, b, Wr::R10),
        other => seq![other],
    }
}

/// A whole instruction sequence rewritten under one placement.
pub open spec fn rewrite_all(m: Seq<(usize, Loc)>, s: Seq<Ins>) -> Seq<Ins>
    decreases s.len(),
{
    if s.len() == 0 {
        Seq::empty()
    } else {
        rewrite_all(m, s.drop_last()) + rewrite_spec(m, s.last())
    }
}

/// An instruction without pseudo-registers is its own rewriting: no
/// operand is substituted and no spill traffic is added.
pub proof fn lemma_rewrite_noop(m: Seq<(usize, Loc)>, i: Ins)
    requires
        ins_no_pseudo(i),
    ensures
        rewrite_spec(m, i) == seq![i],
    decreases i,
{
    match i {
        Ins::Comment(inner) => {
            lemma_rewrite_noop(m, *inner);
            assert(rewrite_spec(m, *inner).map_values(|x: Ins| Ins::Comment(Box::new(x)))
                =~= seq![i]);
        },
        _ => {
            assert(rewrite_spec(m, i) =~= seq![i]);
        },
    }
}

/// The register operands of an instruction, split by position: wide
/// reads, byte reads, wide writes, byte writes.  A commented-out
/// instruction is not executed and has none.
pub open spec fn opnds(i: Ins) -> (Seq<Wr>, Seq<Br>, Seq<Wr>, Seq<Br>) {
    match i {
        Ins::PushB(a) => (seq![], seq![a], seq![], seq![]),
        Ins::PushW(a) => (seq![a], seq![], seq![], seq![]),
        Ins::PopB(a) => (seq![], seq![], seq![], seq![a]),
        Ins::PopW(a) => (seq![], seq![], seq![a], seq![]),
        Ins::StoreBI(a, _, c) => (seq![a], seq![c], seq![], seq![]),
        Ins::StoreWI(a, _, c) => (seq![a, c], seq![], seq![], seq![]),
        Ins::StoreBR(a, b, c) => (seq![a, b], seq![c], seq![], seq![]),
        Ins::StoreWR(a, b, c) => (seq![a, b, c], seq![], seq![], seq![]),
        Ins::LoadBI(a, b, _) => (seq![b], seq![], seq![], seq![a]),
        Ins::LoadWI(a, b, _) => (seq![b], seq![], seq![a], seq![]),
        Ins::LoadBR(a, b, c) => (seq![b, c], seq![], seq![], seq![a]),
        Ins::LoadWR(a, b, c) => (seq![b, c], seq![], seq![a], seq![]),
        Ins::LdiB(a, _) => (seq![], seq![], seq![], seq![a]),
        Ins::LdiW(a, _) => (seq![], seq![], seq![a], seq![]),
        Ins::JmpR(a) => (seq![a], seq![], seq![], seq![]),
        Ins::AddB(a, b, c) => (seq![], seq![b, c], seq![], seq![a]),
        Ins::SubB(a, b, c) => (seq![], seq![b, c], seq![], seq![a]),
        Ins::AndB(a, b, c) => (seq![], seq![b, c], seq![], seq![a]),
        Ins::OrB(a, b, c) => (seq![], seq![b, c], seq![], seq![a]),
        Ins::XorB(a, b, c) => (seq![], seq![b, c], seq![], seq![a]),
        Ins::ShlB(a, b, c) => (seq![], seq![b, c], seq![], seq![a]),
        Ins::AsrB(a, b, c) => (seq![], seq![b, c], seq![], seq![a]),
        Ins::LsrB(a, b, c) => (seq![], seq![b, c], seq![], seq![a]),
        Ins::AddW(a, b, c) => (seq![b, c], seq![], seq![a], seq![]),
        Ins::SubW(a, b, c) => (seq![b, c], seq![], seq![a], seq![]),
        Ins::AndW(a, b, c) => (seq![b, c], seq![], seq![a], seq![]),
        Ins::OrW(a, b, c) => (seq![b, c], seq![], seq![a], seq![]),
        Ins::XorW(a, b, c) => (seq![b, c], seq![], seq![a], seq![]),
        Ins::ShlW(a, b, c) => (seq![b, c], seq![], seq![a], seq![]),
        Ins::AsrW(a, b, c) => (seq![b, c], seq![], seq![a], seq![]),
        Ins::LsrW(a, b, c) => (seq![b, c], seq![], seq![a], seq![]),
        Ins::DivB(a, b, c, d) => (seq![], seq![c, d], seq![], seq![a, b]),
        Ins::DivW(a, b, c, d) => (seq![c, d], seq![], seq![a, b], seq![]),
        Ins::MulB(a, b, c, d) => (seq![], seq![c, d], seq![], seq![a, b]),
        Ins::MulW(a, b, c, d) => (seq![c, d], seq![], seq![a, b], seq![]),
        _ => (seq![], seq![], seq![], seq![]),
    }
}

/// The pseudo-register named by a wide operand, if it is one.
pub open spec fn wids(s: Seq<Wr>) -> Seq<usize>
    decreases s.len(),
{
    if s.len() == 0 {
        Seq::empty()
    } else {
        wids(s.drop_last()) + (match s.last() {
            Wr::Rpw(n) => seq![n],
            _ => Seq::empty(),
        })
    }
}

/// The pseudo-register named by a byte operand, if it is one.
pub open spec fn bids(s: Seq<Br>) -> Seq<usize>
    decreases s.len(),
{
    if s.len() == 0 {
        Seq::empty()
    } else {
        bids(s.drop_last()) + (match s.last() {
            Br::Rpb(n) => seq![n],
            _ => Seq::empty(),
        })
    }
}

/// The pseudo-registers an instruction reads.
pub open spec fn use_ids(i: Ins) -> Seq<usize> {
    wids(opnds(i).0) + bids(opnds(i).1)
}

/// The pseudo-registers an instruction writes.
pub open spec fn def_ids(i: Ins) -> Seq<usize> {
    wids(opnds(i).2) + bids(opnds(i).3)
}

/// Whether the instruction's operands name the pool register of colour
/// `s`, in either width: such a colour is pre-empted by the body itself.
pub open spec fn clashes(i: Ins, s: u8) -> bool {
    let (uw, ub, dw, db) = opnds(i);
    ||| lmem_w(uw, pool_wr_spec(s))
    ||| lmem_w(dw, pool_wr_spec(s))
    ||| lmem_b(ub, pool_br_spec(s))
    ||| lmem_b(db, pool_br_spec(s))
}

/// Membership in a sequence of wide registers.
pub open spec fn lmem_w(s: Seq<Wr>, r: Wr) -> bool {
    exists|k: int| 0 <= k < s.len() && s[k] == r
}

/// Membership in a sequence of byte registers.
pub open spec fn lmem_b(s: Seq<Br>, r: Br) -> bool {
    exists|k: int| 0 <= k < s.len() && s[k] == r
}

/// Membership in a sequence of pseudo-register numbers.
pub open spec fn lmem(s: Seq<usize>, id: usize) -> bool {
    exists|k: int| 0 <= k < s.len() && s[k] == id
}

/// The label a jump can reach, when it names one.
pub open spec fn jump_sym(i: Ins) -> Option<Seq<char>> {
    match i {
        Ins::Jez(t) => match t {
            Wi::Symbol(sym) => Some(sym@),
            Wi::Constant(_) => None,
        },
        Ins::Jlt(t) => match t {
            Wi::Symbol(sym) => Some(sym@),
            Wi::Constant(_) => None,
        },
        Ins::Jle(t) => match t {
            Wi::Symbol(sym) => Some(sym@),
            Wi::Constant(_) => None,
        },
        Ins::Jgt(t) => match t {
            Wi::Symbol(sym) => Some(sym@),
            Wi::Constant(_) => None,
        },
        Ins::Jge(t) => match t {
            Wi::Symbol(sym) => Some(sym@),
            Wi::Constant(_) => None,
        },
        Ins::Jnz(t) => match t {
            Wi::Symbol(sym) => Some(sym@),
            Wi::Constant(_) => None,
        },
        Ins::Jo(t) => match t {
            Wi::Symbol(sym) => Some(sym@),
            Wi::Constant(_) => None,
        },
        Ins::Jno(t) => match t {
            Wi::Symbol(sym) => Some(sym@),
            Wi::Constant(_) => None,
        },
        Ins::Jb(t) => match t {
            Wi::Symbol(sym) => Some(sym@),
            Wi::Constant(_) => None,
        },
        Ins::Jae(t) => match t {
            Wi::Symbol(sym) => Some(sym@),
            Wi::Constant(_) => None,
        },
        Ins::Ja(t) => match t {
            Wi::Symbol(sym) => Some(sym@),
            Wi::Constant(_) => None,
        },
        Ins::Jbe(t) => match t {
            Wi::Symbol(sym) => Some(sym@),
            Wi::Constant(_) => None,
        },
        Ins::Jump(t) => match t {
            Wi::Symbol(sym) => Some(sym@),
            Wi::Constant(_) => None,
        },
        _ => None,
    }
}

/// The successors of instruction `i` in the body: the next instruction,
/// the label a symbolic jump names, and — for a jump through a register,
/// whose target is unknown — every label.
pub open spec fn succs_spec(body: Seq<Ins>, i: int, j: int) -> bool {
    &&& 0 <= i < body.len()
    &&& 0 <= j < body.len()
    &&& {
        ||| j == i + 1
        ||| (jump_sym(body[i]) matches Some(sym) && body[j] matches Ins::Label(l) && l@ == sym)
        ||| (body[i] is JmpR && body[j] is Label)
    }
}

/// The dataflow closure at one instruction: its reads are live there,
/// and whatever is live at a successor and not written here is live
/// here too.
pub open spec fn closure_at(l: Seq<Seq<usize>>, body: Seq<Ins>, i: int) -> bool {
    &&& (forall|k: int|
        0 <= k < use_ids(body[i]).len() ==> lmem(l[i], #[trigger] use_ids(body[i])[k]))
    &&& (forall|j: int, id: usize|
        #[trigger] succs_spec(body, i, j) && #[trigger] lmem(l[j], id) && !lmem(
            def_ids(body[i]),
            id,
        ) ==> lmem(l[i], id))
}

/// `l` is a sound liveness table for the body: the closure holds at
/// every instruction.  This is what backward dataflow reaches at its
/// fixed point; any table satisfying it over-approximates liveness.
pub open spec fn live_ok(l: Seq<Seq<usize>>, body: Seq<Ins>) -> bool {
    &&& l.len() == body.len()
    &&& (forall|i: int| 0 <= i < body.len() ==> #[trigger] closure_at(l, body, i))
}

/// The model of a liveness table.
pub open spec fn table(v: Seq<Vec<usize>>) -> Seq<Seq<usize>> {
    Seq::new(v.len(), |i: int| v[i]@)
}

/// Two pseudo-registers are simultaneously live somewhere in the table.
pub open spec fn live_overlap(l: Seq<Seq<usize>>, p: usize, q: usize) -> bool {
    exists|i: int| 0 <= i < l.len() && lmem(#[trigger] l[i], p) && lmem(l[i], q)
}

/// A well-formed placement for the body under the liveness table `l`:
/// every pseudo-register of the body is placed; no two distinct
/// pseudo-registers that are ever live together share a location (stated
/// up to the frame's spill capacity); and no colour whose register the
/// body itself names is handed out.
pub open spec fn placement_ok(m: Seq<(usize, Loc)>, l: Seq<Seq<usize>>, body: Seq<Ins>) -> bool {
    &&& (forall|i: int, k: int|
        0 <= i < body.len() && 0 <= k < use_ids(body[i]).len() ==> loc_spec(
            m,
            #[trigger] use_ids(body[i])[k],
        ) is Some)
    &&& (forall|i: int, k: int|
        0 <= i < body.len() && 0 <= k < def_ids(body[i]).len() ==> loc_spec(
            m,
            #[trigger] def_ids(body[i])[k],
        ) is Some)
    &&& (m.len() <= 32000 ==> forall|p: usize, q: usize|
        p != q && (#[trigger] loc_spec(m, p)) is Some && (#[trigger] loc_spec(m, q)) is Some
            && live_overlap(l, p, q) ==> loc_spec(m, p) != loc_spec(m, q))
    &&& (forall|p: usize|
        (#[trigger] loc_spec(m, p)) matches Some(Loc::Phys(s)) ==> !(exists|i: int|
            0 <= i < body.len() && clashes(#[trigger] body[i], s)))
}

/// A wide register of the rewritten stream is accounted for: it stood
/// in the source instruction already, is callee-saved, or is the frame
/// pointer the spill slots live behind.
pub open spec fn wr_from(r: Wr, src: Ins) -> bool {
    ||| lmem_w(opnds(src).0, r)
    ||| lmem_w(opnds(src).2, r)
    ||| callee_saved_w(r)
    ||| r == Wr::Rf
}

/// `wr_from` for byte registers.
pub open spec fn br_from(r: Br, src: Ins) -> bool {
    ||| lmem_b(opnds(src).1, r)
    ||| lmem_b(opnds(src).3, r)
    ||| callee_saved_b(r)
}

/// Every register operand of `out` is accounted for against `src`.
pub open spec fn regs_within(out: Ins, src: Ins) -> bool {
    &&& (forall|k: int|
        0 <= k < opnds(out).0.len() ==> wr_from(#[trigger] opnds(out).0[k], src))
    &&& (forall|k: int|
        0 <= k < opnds(out).1.len() ==> br_from(#[trigger] opnds(out).1[k], src))
    &&& (forall|k: int|
        0 <= k < opnds(out).2.len() ==> wr_from(#[trigger] opnds(out).2[k], src))
    &&& (forall|k: int|
        0 <= k < opnds(out).3.len() ==> br_from(#[trigger] opnds(out).3[k], src))
}

#[verifier::rlimit(100)]
#[verifier::spinoff_prover]
proof fn lemma_rcs_special(m: Seq<(usize, Loc)>, i: Ins)
    requires
        i is PushB || i is PushW || i is PopB || i is PopW || i is LdiB || i is LdiW || i is JmpR,
    ensures
        forall|k: int|
            0 <= k < rewrite_spec(m, i).len() ==> regs_within(
                #[trigger] rewrite_spec(m, i)[k],
                i,
            ),
{
    assert forall|k: int|
        0 <= k < rewrite_spec(m, i).len() implies regs_within(
        #[trigger] rewrite_spec(m, i)[k],
        i,
    ) by {
        assert(rewrite_spec(m, i)[k] == rewrite_spec(m, i)[k]);
    }
}

#[verifier::rlimit(100)]
#[verifier::spinoff_prover]
proof fn lemma_rcs_store(m: Seq<(usize, Loc)>, i: Ins)
    requires
        i is StoreBI || i is StoreWI || i is StoreBR || i is StoreWR,
    ensures
        forall|k: int|
            0 <= k < rewrite_spec(m, i).len() ==> regs_within(
                #[trigger] rewrite_spec(m, i)[k],
                i,
            ),
{
    assert forall|k: int|
        0 <= k < rewrite_spec(m, i).len() implies regs_within(
        #[trigger] rewrite_spec(m, i)[k],
        i,
    ) by {
        assert(rewrite_spec(m, i)[k] == rewrite_spec(m, i)[k]);
    }
}

#[verifier::rlimit(100)]
#[verifier::spinoff_prover]
#[verifier::rlimit(100)]
#[verifier::spinoff_prover]
proof fn lemma_rcs_load(m: Seq<(usize, Loc)>, i: Ins)
    requires
        i is LoadBI || i is LoadWI || i is LoadBR || i is LoadWR,
    ensures
        forall|k: int|
            0 <= k < rewrite_spec(m, i).len() ==> regs_within(
                #[trigger] rewrite_spec(m, i)[k],
                i,
            ),
{
    assert forall|k: int|
        0 <= k < rewrite_spec(m, i).len() implies regs_within(
        #[trigger] rewrite_spec(m, i)[k],
        i,
    ) by {
        assert(rewrite_spec(m, i)[k] == rewrite_spec(m, i)[k]);
    }
}

#[verifier::rlimit(100)]
#[verifier::spinoff_prover]
proof fn lemma_rcs_alu_b(m: Seq<(usize, Loc)>, i: Ins)
    requires
        i is AddB || i is SubB || i is AndB || i is OrB || i is XorB || i is ShlB || i is AsrB || i is LsrB,
    ensures
        forall|k: int|
            0 <= k < rewrite_spec(m, i).len() ==> regs_within(
                #[trigger] rewrite_spec(m, i)[k],
                i,
            ),
{
    assert forall|k: int|
        0 <= k < rewrite_spec(m, i).len() implies regs_within(
        #[trigger] rewrite_spec(m, i)[k],
        i,
    ) by {
        assert(rewrite_spec(m, i)[k] == rewrite_spec(m, i)[k]);
    }
}

#[verifier::rlimit(100)]
#[verifier::spinoff_prover]
proof fn lemma_rcs_alu_w(m: Seq<(usize, Loc)>, i: Ins)
    requires
        i is AddW || i is SubW || i is AndW || i is OrW || i is XorW || i is ShlW || i is AsrW || i is LsrW,
    ensures
        forall|k: int|
            0 <= k < rewrite_spec(m, i).len() ==> regs_within(
                #[trigger] rewrite_spec(m, i)[k],
                i,
            ),
{
    assert forall|k: int|
        0 <= k < rewrite_spec(m, i).len() implies regs_within(
        #[trigger] rewrite_spec(m, i)[k],
        i,
    ) by {
        assert(rewrite_spec(m, i)[k] == rewrite_spec(m, i)[k]);
    }
}

#[verifier::rlimit(100)]
#[verifier::spinoff_prover]
proof fn lemma_rcs_muldiv(m: Seq<(usize, Loc)>, i: Ins)
    requires
        i is DivB || i is MulB || i is DivW || i is MulW,
    ensures
        forall|k: int|
            0 <= k < rewrite_spec(m, i).len() ==> regs_within(
                #[trigger] rewrite_spec(m, i)[k],
                i,
            ),
{
    assert forall|k: int|
        0 <= k < rewrite_spec(m, i).len() implies regs_within(
        #[trigger] rewrite_spec(m, i)[k],
        i,
    ) by {
        assert(rewrite_spec(m, i)[k] == rewrite_spec(m, i)[k]);
    }
}

/// The rewrite respects the calling convention: every register it puts
/// into the stream either already stood in the source instruction or is
/// callee-saved (the pool and the scratches), apart from the frame
/// pointer that addresses the spill slots.  So nothing the allocator
/// places can be clobbered by a call.
#[verifier::rlimit(100)]
#[verifier::spinoff_prover]
pub proof fn lemma_rewrite_callee_saved(m: Seq<(usize, Loc)>, i: Ins)
    ensures
        forall|k: int|
            0 <= k < rewrite_spec(m, i).len() ==> regs_within(
                #[trigger] rewrite_spec(m, i)[k],
                i,
            ),
    decreases i,
{
    match i {
        Ins::Comment(inner) => {
            lemma_rewrite_callee_saved(m, *inner);
            assert forall|k: int|
                0 <= k < rewrite_spec(m, i).len() implies regs_within(
                #[trigger] rewrite_spec(m, i)[k],
                i,
            ) by {
                assert(rewrite_spec(m, i)[k] == Ins::Comment(
                    Box::new(rewrite_spec(m, *inner)[k]),
                ));
            }
        },
        Ins::PushB(..) => lemma_rcs_special(m, i),
        Ins::PushW(..) => lemma_rcs_special(m, i),
        Ins::PopB(..) => lemma_rcs_special(m, i),
        Ins::PopW(..) => lemma_rcs_special(m, i),
        Ins::LdiB(..) => lemma_rcs_special(m, i),
        Ins::LdiW(..) => lemma_rcs_special(m, i),
        Ins::JmpR(..) => lemma_rcs_special(m, i),
        Ins::StoreBI(..) => lemma_rcs_store(m, i),
        Ins::StoreWI(..) => lemma_rcs_store(m, i),
        Ins::StoreBR(..) => lemma_rcs_store(m, i),
        Ins::StoreWR(..) => lemma_rcs_store(m, i),
        Ins::LoadBI(..) => lemma_rcs_load(m, i),
        Ins::LoadWI(..) => lemma_rcs_load(m, i),
        Ins::LoadBR(..) => lemma_rcs_load(m, i),
        Ins::LoadWR(..) => lemma_rcs_load(m, i),
        Ins::AddB(..) => lemma_rcs_alu_b(m, i),
        Ins::SubB(..) => lemma_rcs_alu_b(m, i),
        Ins::AndB(..) => lemma_rcs_alu_b(m, i),
        Ins::OrB(..) => lemma_rcs_alu_b(m, i),
        Ins::XorB(..) => lemma_rcs_alu_b(m, i),
        Ins::ShlB(..) => lemma_rcs_alu_b(m, i),
        Ins::AsrB(..) => lemma_rcs_alu_b(m, i),
        Ins::LsrB(..) => lemma_rcs_alu_b(m, i),
        Ins::AddW(..) => lemma_rcs_alu_w(m, i),
        Ins::SubW(..) => lemma_rcs_alu_w(m, i),
        Ins::AndW(..) => lemma_rcs_alu_w(m, i),
        Ins::OrW(..) => lemma_rcs_alu_w(m, i),
        Ins::XorW(..) => lemma_rcs_alu_w(m, i),
        Ins::ShlW(..) => lemma_rcs_alu_w(m, i),
        Ins::AsrW(..) => lemma_rcs_alu_w(m, i),
        Ins::LsrW(..) => lemma_rcs_alu_w(m, i),
        Ins::DivB(..) => lemma_rcs_muldiv(m, i),
        Ins::MulB(..) => lemma_rcs_muldiv(m, i),
        Ins::DivW(..) => lemma_rcs_muldiv(m, i),
        Ins::MulW(..) => lemma_rcs_muldiv(m, i),
        _ => {
            assert forall|k: int|
                0 <= k < rewrite_spec(m, i).len() implies regs_within(
                #[trigger] rewrite_spec(m, i)[k],
                i,
            ) by {
                assert(rewrite_spec(m, i) == seq![i]);
            }
        },
    }
}

/// The placement of a pseudo-register, if the builder assigned one.
#[verifier::loop_isolation(false)]
fn find_loc(map: &Vec<(usize, Loc)>, id: usize) -> (r: Option<Loc>)
    ensures
        r == loc_spec(map@, id),
{
    proof {
        assert(map@.skip(0) =~= map@);
    }
    let mut i: usize = 0;
    while i < map.len()
        invariant
            0 <= i <= map@.len(),
            loc_spec(map@, id) == loc_spec(map@.skip(i as int), id),
        decreases map@.len() - i,
    {
        proof {
            assert(map@.skip(i as int)[0] == map@[i as int]);
            assert(map@.skip(i as int).drop_first() =~= map@.skip(i + 1));
        }
        if map[i].0 == id {
            return Some(map[i].1);
        }
        i = i + 1;
    }
    None
}

/// Replace a wide operand read: a coloured pseudo becomes its register,
/// a spilled one is loaded into the scratch first.
fn rw_use_w(map: &Vec<(usize, Loc)>, r: Wr, scratch: Wr, out: &mut Vec<Ins>) -> (r2: Wr)
    requires
        wr_ok(scratch),
        callee_saved_w(scratch),
        forall|j: int| 0 <= j < old(out)@.len() ==> ins_no_pseudo(#[trigger] old(out)@[j]),
    ensures
        r2 == sub_w(map@, r, scratch),
        final(out)@ == old(out)@ + use_pre_w(map@, r, scratch),
        wr_ok(r2),
        r is Rpw ==> callee_saved_w(r2),
        forall|j: int| 0 <= j < final(out)@.len() ==> ins_no_pseudo(#[trigger] final(out)@[j]),
{
    let r2 = match r {
        Wr::Rpw(n) => match find_loc(map, n) {
            Some(Loc::Phys(s)) => pool_wr(s),
            Some(Loc::Spill(off)) => {
                out.push(Ins::LoadWI(scratch, Wr::Rf, Wi::Constant(off)));
                scratch
            },
            None => scratch,
        },
        _ => r,
    };
    proof {
        assert(out@ =~= old(out)@ + use_pre_w(map@, r, scratch));
    }
    r2
}

/// Replace a wide operand write: a spilled pseudo is written through the
/// scratch, which the returned store saves to its slot.
fn rw_def_w(map: &Vec<(usize, Loc)>, r: Wr, scratch: Wr) -> (r2: (Wr, Option<Ins>))
    requires
        wr_ok(scratch),
        callee_saved_w(scratch),
    ensures
        r2.0 == sub_w(map@, r, scratch),
        opt_seq(r2.1) == def_post_w(map@, r, scratch),
        wr_ok(r2.0),
        r is Rpw ==> callee_saved_w(r2.0),
        r2.1 matches Some(st) ==> ins_no_pseudo(st),
{
    let r2 = match r {
        Wr::Rpw(n) => match find_loc(map, n) {
            Some(Loc::Phys(s)) => (pool_wr(s), None),
            Some(Loc::Spill(off)) => (
                scratch,
                Some(Ins::StoreWI(Wr::Rf, Wi::Constant(off), scratch)),
            ),
            None => (scratch, None),
        },
        _ => (r, None),
    };
    proof {
        assert(opt_seq(r2.1) =~= def_post_w(map@, r, scratch));
    }
    r2
}

/// `rw_use_w` for byte operands.
fn rw_use_b(map: &Vec<(usize, Loc)>, r: Br, scratch: Br, out: &mut Vec<Ins>) -> (r2: Br)
    requires
        br_ok(scratch),
        callee_saved_b(scratch),
        forall|j: int| 0 <= j < old(out)@.len() ==> ins_no_pseudo(#[trigger] old(out)@[j]),
    ensures
        r2 == sub_b(map@, r, scratch),
        final(out)@ == old(out)@ + use_pre_b(map@, r, scratch),
        br_ok(r2),
        r is Rpb ==> callee_saved_b(r2),
        forall|j: int| 0 <= j < final(out)@.len() ==> ins_no_pseudo(#[trigger] final(out)@[j]),
{
    let r2 = match r {
        Br::Rpb(n) => match find_loc(map, n) {
            Some(Loc::Phys(s)) => pool_br(s),
            Some(Loc::Spill(off)) => {
                out.push(Ins::LoadBI(scratch, Wr::Rf, Wi::Constant(off)));
                scratch
            },
            None => scratch,
        },
        _ => r,
    };
    proof {
        assert(out@ =~= old(out)@ + use_pre_b(map@, r, scratch));
    }
    r2
}

/// `rw_def_w` for byte operands.
fn rw_def_b(map: &Vec<(usize, Loc)>, r: Br, scratch: Br) -> (r2: (Br, Option<Ins>))
    requires
        br_ok(scratch),
        callee_saved_b(scratch),
    ensures
        r2.0 == sub_b(map@, r, scratch),
        opt_seq(r2.1) == def_post_b(map@, r, scratch),
        br_ok(r2.0),
        r is Rpb ==> callee_saved_b(r2.0),
        r2.1 matches Some(st) ==> ins_no_pseudo(st),
{
    let r2 = match r {
        Br::Rpb(n) => match find_loc(map, n) {
            Some(Loc::Phys(s)) => (pool_br(s), None),
            Some(Loc::Spill(off)) => (
                scratch,
                Some(Ins::StoreBI(Wr::Rf, Wi::Constant(off), scratch)),
            ),
            None => (scratch, None),
        },
        _ => (r, None),
    };
    proof {
        assert(opt_seq(r2.1) =~= def_post_b(map@, r, scratch));
    }
    r2
}

/// Push the stores that a rewritten instruction's spilled destinations
/// need.
fn push_post(p1: Option<Ins>, p2: Option<Ins>, out: &mut Vec<Ins>)
    requires
        p1 matches Some(st) ==> ins_no_pseudo(st),
        p2 matches Some(st) ==> ins_no_pseudo(st),
        forall|j: int| 0 <= j < old(out)@.len() ==> ins_no_pseudo(#[trigger] old(out)@[j]),
    ensures
        final(out)@ == old(out)@ + opt_seq(p1) + opt_seq(p2),
        forall|j: int| 0 <= j < final(out)@.len() ==> ins_no_pseudo(#[trigger] final(out)@[j]),
{
    match p1 {
        Some(st) => out.push(st),
        None => {},
    }
    match p2 {
        Some(st) => out.push(st),
        None => {},
    }
    proof {
        assert(out@ =~= old(out)@ + opt_seq(p1) + opt_seq(p2));
    }
}

/// Rewrite one instruction from pseudo-registers to physical ones,
/// surrounding it with the loads and stores its spilled operands need,
/// and append the result to `out`: exactly `rewrite_spec`, and
/// everything appended is free of pseudo-registers.
#[verifier::loop_isolation(false)]
#[verifier::rlimit(100)]
#[verifier::spinoff_prover]
pub fn rewrite_ins(map: &Vec<(usize, Loc)>, ins: Ins, out: &mut Vec<Ins>)
    requires
        forall|j: int| 0 <= j < old(out)@.len() ==> ins_no_pseudo(#[trigger] old(out)@[j]),
    ensures
        final(out)@ == old(out)@ + rewrite_spec(map@, ins),
        forall|j: int| 0 <= j < final(out)@.len() ==> ins_no_pseudo(#[trigger] final(out)@[j]),
    decreases ins,
{
    match ins {
        Ins::Comment(inner) => {
            let ghost inner0 = *inner;
            let mut tmp: Vec<Ins> = Vec::new();
            rewrite_ins(map, *inner, &mut tmp);
            let ghost tmp0 = tmp@;
            let mut k: usize = 0;
            while k < tmp.len()
                invariant
                    0 <= k <= tmp@.len(),
                    tmp@.len() == tmp0.len(),
                    forall|j: int| k <= j < tmp@.len() ==> tmp@[j] == tmp0[j],
                    out@ == old(out)@ + tmp0.subrange(0, k as int).map_values(
                        |x: Ins| Ins::Comment(Box::new(x)),
                    ),
                    forall|j: int| 0 <= j < tmp@.len() ==> ins_no_pseudo(#[trigger] tmp@[j]),
                    forall|j: int| 0 <= j < out@.len() ==> ins_no_pseudo(#[trigger] out@[j]),
                decreases tmp@.len() - k,
            {
                let mut slot = Ins::Nop;
                core::mem::swap(&mut slot, &mut tmp[k]);
                out.push(Ins::Comment(Box::new(slot)));
                proof {
                    assert(tmp0.subrange(0, k + 1).map_values(
                        |x: Ins| Ins::Comment(Box::new(x)),
                    ) =~= tmp0.subrange(0, k as int).map_values(
                        |x: Ins| Ins::Comment(Box::new(x)),
                    ).push(Ins::Comment(Box::new(tmp0[k as int]))));
                    assert(out@ =~= old(out)@ + tmp0.subrange(0, k + 1).map_values(
                        |x: Ins| Ins::Comment(Box::new(x)),
                    ));
                }
                k = k + 1;
            }
            proof {
                assert(tmp0.subrange(0, tmp0.len() as int) =~= tmp0);
                assert(out@ =~= old(out)@ + rewrite_spec(map@, ins));
            }
        },
        Ins::PushB(a) => {
            let na = rw_use_b(map, a, Br::R9b, out);
            out.push(Ins::PushB(na));
            proof {
                assert(out@ =~= old(out)@ + rewrite_spec(map@, Ins::PushB(a)));
            }
        },
        Ins::PushW(a) => {
            let na = rw_use_w(map, a, Wr::R9, out);
            out.push(Ins::PushW(na));
            proof {
                assert(out@ =~= old(out)@ + rewrite_spec(map@, Ins::PushW(a)));
            }
        },
        Ins::PopB(a) => {
            let (na, p) = rw_def_b(map, a, Br::R9b);
            out.push(Ins::PopB(na));
            push_post(p, None, out);
            proof {
                assert(out@ =~= old(out)@ + rewrite_spec(map@, Ins::PopB(a)));
            }
        },
        Ins::PopW(a) => {
            let (na, p) = rw_def_w(map, a, Wr::R9);
            out.push(Ins::PopW(na));
            push_post(p, None, out);
            proof {
                assert(out@ =~= old(out)@ + rewrite_spec(map@, Ins::PopW(a)));
            }
        },
        Ins::StoreBI(a, i, c) => {
            let na = rw_use_w(map, a, Wr::R9, out);
            let nc = rw_use_b(map, c, Br::R10b, out);
            out.push(Ins::StoreBI(na, i, nc));
            proof {
                assert(out@ =~= old(out)@ + rewrite_spec(map@, Ins::StoreBI(a, i, c)));
            }
        },
        Ins::StoreWI(a, i, c) => {
            let na = rw_use_w(map, a, Wr::R9, out);
            let nc = rw_use_w(map, c, Wr::R10, out);
            out.push(Ins::StoreWI(na, i, nc));
            proof {
                assert(out@ =~= old(out)@ + rewrite_spec(map@, Ins::StoreWI(a, i, c)));
            }
        },
        Ins::StoreBR(a, b, c) => {
            let na = rw_use_w(map, a, Wr::R9, out);
            let nb = rw_use_w(map, b, Wr::R10, out);
            let nc = rw_use_b(map, c, Br::R8b, out);
            out.push(Ins::StoreBR(na, nb, nc));
            proof {
                assert(out@ =~= old(out)@ + rewrite_spec(map@, Ins::StoreBR(a, b, c)));
            }
        },
        Ins::StoreWR(a, b, c) => {
            let na = rw_use_w(map, a, Wr::R9, out);
            let nb = rw_use_w(map, b, Wr::R10, out);
            let nc = rw_use_w(map, c, Wr::R8, out);
            out.push(Ins::StoreWR(na, nb, nc));
            proof {
                assert(out@ =~= old(out)@ + rewrite_spec(map@, Ins::StoreWR(a, b, c)));
            }
        },
        Ins::LoadBI(a, b, i) => {
            let nb = rw_use_w(map, b, Wr::R10, out);
            let (na, p) = rw_def_b(map, a, Br::R9b);
            out.push(Ins::LoadBI(na, nb, i));
            push_post(p, None, out);
            proof {
                assert(out@ =~= old(out)@ + rewrite_spec(map@, Ins::LoadBI(a, b, i)));
            }
        },
        Ins::LoadWI(a, b, i) => {
            let nb = rw_use_w(map, b, Wr::R10, out);
            let (na, p) = rw_def_w(map, a, Wr::R9);
            out.push(Ins::LoadWI(na, nb, i));
            push_post(p, None, out);
            proof {
                assert(out@ =~= old(out)@ + rewrite_spec(map@, Ins::LoadWI(a, b, i)));
            }
        },
        Ins::LoadBR(a, b, c) => {
            let nb = rw_use_w(map, b, Wr::R10, out);
            let nc = rw_use_w(map, c, Wr::R8, out);
            let (na, p) = rw_def_b(map, a, Br::R9b);
            out.push(Ins::LoadBR(na, nb, nc));
            push_post(p, None, out);
            proof {
                assert(out@ =~= old(out)@ + rewrite_spec(map@, Ins::LoadBR(a, b, c)));
            }
        },
        Ins::LoadWR(a, b, c) => {
            let nb = rw_use_w(map, b, Wr::R10, out);
            let nc = rw_use_w(map, c, Wr::R8, out);
            let (na, p) = rw_def_w(map, a, Wr::R9);
            out.push(Ins::LoadWR(na, nb, nc));
            push_post(p, None, out);
            proof {
                assert(out@ =~= old(out)@ + rewrite_spec(map@, Ins::LoadWR(a, b, c)));
            }
        },
        Ins::LdiB(a, i) => {
            let (na, p) = rw_def_b(map, a, Br::R9b);
            out.push(Ins::LdiB(na, i));
            push_post(p, None, out);
            proof {
                assert(out@ =~= old(out)@ + rewrite_spec(map@, Ins::LdiB(a, i)));
            }
        },
        Ins::LdiW(a, i) => {
            let (na, p) = rw_def_w(map, a, Wr::R9);
            out.push(Ins::LdiW(na, i));
            push_post(p, None, out);
            proof {
                assert(out@ =~= old(out)@ + rewrite_spec(map@, Ins::LdiW(a, i)));
            }
        },
        Ins::JmpR(a) => {
            let na = rw_use_w(map, a, Wr::R9, out);
            out.push(Ins::JmpR(na));
            proof {
                assert(out@ =~= old(out)@ + rewrite_spec(map@, Ins::JmpR(a)));
            }
        },
        other => {
            rewrite_rest(map, other, out);
        },
    }
}

/// `rewrite_ins` for everything that `rewrite_ins` does not handle
/// itself: the three-address arithmetic, the double-width multiply and
/// divide forms, and the lines without register operands.
#[verifier::spinoff_prover]
fn rewrite_rest(map: &Vec<(usize, Loc)>, ins: Ins, out: &mut Vec<Ins>)
    requires
        !(ins is Comment) && !(ins is PushB) && !(ins is PushW) && !(ins is PopB) && !(ins is PopW) && !(ins is StoreBI) && !(ins is StoreWI) && !(ins is StoreBR) && !(ins is StoreWR) && !(ins is LoadBI) && !(ins is LoadWI) && !(ins is LoadBR) && !(ins is LoadWR) && !(ins is LdiB) && !(ins is LdiW) && !(ins is JmpR),
        forall|j: int| 0 <= j < old(out)@.len() ==> ins_no_pseudo(#[trigger] old(out)@[j]),
    ensures
        final(out)@ == old(out)@ + rewrite_spec(map@, ins),
        forall|j: int| 0 <= j < final(out)@.len() ==> ins_no_pseudo(#[trigger] final(out)@[j]),
{
    if matches!(&ins, Ins::AddB(..) | Ins::SubB(..) | Ins::AndB(..) | Ins::OrB(..)) {
        rewrite_alu_b1(map, ins, out);
    } else if matches!(&ins, Ins::XorB(..) | Ins::ShlB(..) | Ins::AsrB(..) | Ins::LsrB(..)) {
        rewrite_alu_b2(map, ins, out);
    } else if matches!(&ins, Ins::AddW(..) | Ins::SubW(..) | Ins::AndW(..) | Ins::OrW(..)) {
        rewrite_alu_w1(map, ins, out);
    } else if matches!(&ins, Ins::XorW(..) | Ins::ShlW(..) | Ins::AsrW(..) | Ins::LsrW(..)) {
        rewrite_alu_w2(map, ins, out);
    } else if matches!(&ins, Ins::DivB(..) | Ins::MulB(..)) {
        rewrite_muldiv_b(map, ins, out);
    } else if matches!(&ins, Ins::DivW(..) | Ins::MulW(..)) {
        rewrite_muldiv_w(map, ins, out);
    } else {
        let ghost o = ins;
        out.push(ins);
        proof {
            assert(out@ =~= old(out)@ + rewrite_spec(map@, o));
        }
    }
}

/// `rewrite_ins` for the first half of the byte three-address forms.
#[verifier::loop_isolation(false)]
#[verifier::rlimit(100)]
#[verifier::spinoff_prover]
fn rewrite_alu_b1(map: &Vec<(usize, Loc)>, ins: Ins, out: &mut Vec<Ins>)
    requires
        ins is AddB || ins is SubB || ins is AndB || ins is OrB,
        forall|j: int| 0 <= j < old(out)@.len() ==> ins_no_pseudo(#[trigger] old(out)@[j]),
    ensures
        final(out)@ == old(out)@ + rewrite_spec(map@, ins),
        forall|j: int| 0 <= j < final(out)@.len() ==> ins_no_pseudo(#[trigger] final(out)@[j]),
{
    match ins {
        Ins::AddB(a, b, c) => {
            let nb = rw_use_b(map, b, Br::R9b, out);
            let nc = rw_use_b(map, c, Br::R10b, out);
            let (na, p) = rw_def_b(map, a, Br::R9b);
            out.push(Ins::AddB(na, nb, nc));
            push_post(p, None, out);
            proof {
                assert(out@ =~= old(out)@ + rewrite_spec(map@, Ins::AddB(a, b, c)));
            }
        },
        Ins::SubB(a, b, c) => {
            let nb = rw_use_b(map, b, Br::R9b, out);
            let nc = rw_use_b(map, c, Br::R10b, out);
            let (na, p) = rw_def_b(map, a, Br::R9b);
            out.push(Ins::SubB(na, nb, nc));
            push_post(p, None, out);
            proof {
                assert(out@ =~= old(out)@ + rewrite_spec(map@, Ins::SubB(a, b, c)));
            }
        },
        Ins::AndB(a, b, c) => {
            let nb = rw_use_b(map, b, Br::R9b, out);
            let nc = rw_use_b(map, c, Br::R10b, out);
            let (na, p) = rw_def_b(map, a, Br::R9b);
            out.push(Ins::AndB(na, nb, nc));
            push_post(p, None, out);
            proof {
                assert(out@ =~= old(out)@ + rewrite_spec(map@, Ins::AndB(a, b, c)));
            }
        },
        Ins::OrB(a, b, c) => {
            let nb = rw_use_b(map, b, Br::R9b, out);
            let nc = rw_use_b(map, c, Br::R10b, out);
            let (na, p) = rw_def_b(map, a, Br::R9b);
            out.push(Ins::OrB(na, nb, nc));
            push_post(p, None, out);
            proof {
                assert(out@ =~= old(out)@ + rewrite_spec(map@, Ins::OrB(a, b, c)));
            }
        },
        _ => {
            proof {
                assert(false);
            }
        },
    }
}

/// `rewrite_ins` for the second half of the byte three-address forms.
#[verifier::loop_isolation(false)]
#[verifier::rlimit(100)]
#[verifier::spinoff_prover]
fn rewrite_alu_b2(map: &Vec<(usize, Loc)>, ins: Ins, out: &mut Vec<Ins>)
    requires
        ins is XorB || ins is ShlB || ins is AsrB || ins is LsrB,
        forall|j: int| 0 <= j < old(out)@.len() ==> ins_no_pseudo(#[trigger] old(out)@[j]),
    ensures
        final(out)@ == old(out)@ + rewrite_spec(map@, ins),
        forall|j: int| 0 <= j < final(out)@.len() ==> ins_no_pseudo(#[trigger] final(out)@[j]),
{
    match ins {
        Ins::XorB(a, b, c) => {
            let nb = rw_use_b(map, b, Br::R9b, out);
            let nc = rw_use_b(map, c, Br::R10b, out);
            let (na, p) = rw_def_b(map, a, Br::R9b);
            out.push(Ins::XorB(na, nb, nc));
            push_post(p, None, out);
            proof {
                assert(out@ =~= old(out)@ + rewrite_spec(map@, Ins::XorB(a, b, c)));
            }
        },
        Ins::ShlB(a, b, c) => {
            let nb = rw_use_b(map, b, Br::R9b, out);
            let nc = rw_use_b(map, c, Br::R10b, out);
            let (na, p) = rw_def_b(map, a, Br::R9b);
            out.push(Ins::ShlB(na, nb, nc));
            push_post(p, None, out);
            proof {
                assert(out@ =~= old(out)@ + rewrite_spec(map@, Ins::ShlB(a, b, c)));
            }
        },
        Ins::AsrB(a, b, c) => {
            let nb = rw_use_b(map, b, Br::R9b, out);
            let nc = rw_use_b(map, c, Br::R10b, out);
            let (na, p) = rw_def_b(map, a, Br::R9b);
            out.push(Ins::AsrB(na, nb, nc));
            push_post(p, None, out);
            proof {
                assert(out@ =~= old(out)@ + rewrite_spec(map@, Ins::AsrB(a, b, c)));
            }
        },
        Ins::LsrB(a, b, c) => {
            let nb = rw_use_b(map, b, Br::R9b, out);
            let nc = rw_use_b(map, c, Br::R10b, out);
            let (na, p) = rw_def_b(map, a, Br::R9b);
            out.push(Ins::LsrB(na, nb, nc));
            push_post(p, None, out);
            proof {
                assert(out@ =~= old(out)@ + rewrite_spec(map@, Ins::LsrB(a, b, c)));
            }
        },
        _ => {
            proof {
                assert(false);
            }
        },
    }
}

/// `rewrite_ins` for the first half of the wide three-address forms.
#[verifier::loop_isolation(false)]
#[verifier::rlimit(100)]
#[verifier::spinoff_prover]
fn rewrite_alu_w1(map: &Vec<(usize, Loc)>, ins: Ins, out: &mut Vec<Ins>)
    requires
        ins is AddW || ins is SubW || ins is AndW || ins is OrW,
        forall|j: int| 0 <= j < old(out)@.len() ==> ins_no_pseudo(#[trigger] old(out)@[j]),
    ensures
        final(out)@ == old(out)@ + rewrite_spec(map@, ins),
        forall|j: int| 0 <= j < final(out)@.len() ==> ins_no_pseudo(#[trigger] final(out)@[j]),
{
    match ins {
        Ins::AddW(a, b, c) => {
            let nb = rw_use_w(map, b, Wr::R9, out);
            let nc = rw_use_w(map, c, Wr::R10, out);
            let (na, p) = rw_def_w(map, a, Wr::R9);
            out.push(Ins::AddW(na, nb, nc));
            push_post(p, None, out);
            proof {
                assert(out@ =~= old(out)@ + rewrite_spec(map@, Ins::AddW(a, b, c)));
            }
        },
        Ins::SubW(a, b, c) => {
            let nb = rw_use_w(map, b, Wr::R9, out);
            let nc = rw_use_w(map, c, Wr::R10, out);
            let (na, p) = rw_def_w(map, a, Wr::R9);
            out.push(Ins::SubW(na, nb, nc));
            push_post(p, None, out);
            proof {
                assert(out@ =~= old(out)@ + rewrite_spec(map@, Ins::SubW(a, b, c)));
            }
        },
        Ins::AndW(a, b, c) => {
            let nb = rw_use_w(map, b, Wr::R9, out);
            let nc = rw_use_w(map, c, Wr::R10, out);
            let (na, p) = rw_def_w(map, a, Wr::R9);
            out.push(Ins::AndW(na, nb, nc));
            push_post(p, None, out);
            proof {
                assert(out@ =~= old(out)@ + rewrite_spec(map@, Ins::AndW(a, b, c)));
            }
        },
        Ins::OrW(a, b, c) => {
            let nb = rw_use_w(map, b, Wr::R9, out);
            let nc = rw_use_w(map, c, Wr::R10, out);
            let (na, p) = rw_def_w(map, a, Wr::R9);
            out.push(Ins::OrW(na, nb, nc));
            push_post(p, None, out);
            proof {
                assert(out@ =~= old(out)@ + rewrite_spec(map@, Ins::OrW(a, b, c)));
            }
        },
        _ => {
            proof {
                assert(false);
            }
        },
    }
}

/// `rewrite_ins` for the second half of the wide three-address forms.
#[verifier::loop_isolation(false)]
#[verifier::rlimit(100)]
#[verifier::spinoff_prover]
fn rewrite_alu_w2(map: &Vec<(usize, Loc)>, ins: Ins, out: &mut Vec<Ins>)
    requires
        ins is XorW || ins is ShlW || ins is AsrW || ins is LsrW,
        forall|j: int| 0 <= j < old(out)@.len() ==> ins_no_pseudo(#[trigger] old(out)@[j]),
    ensures
        final(out)@ == old(out)@ + rewrite_spec(map@, ins),
        forall|j: int| 0 <= j < final(out)@.len() ==> ins_no_pseudo(#[trigger] final(out)@[j]),
{
    match ins {
        Ins::XorW(a, b, c) => {
            let nb = rw_use_w(map, b, Wr::R9, out);
            let nc = rw_use_w(map, c, Wr::R10, out);
            let (na, p) = rw_def_w(map, a, Wr::R9);
            out.push(Ins::XorW(na, nb, nc));
            push_post(p, None, out);
            proof {
                assert(out@ =~= old(out)@ + rewrite_spec(map@, Ins::XorW(a, b, c)));
            }
        },
        Ins::ShlW(a, b, c) => {
            let nb = rw_use_w(map, b, Wr::R9, out);
            let nc = rw_use_w(map, c, Wr::R10, out);
            let (na, p) = rw_def_w(map, a, Wr::R9);
            out.push(Ins::ShlW(na, nb, nc));
            push_post(p, None, out);
            proof {
                assert(out@ =~= old(out)@ + rewrite_spec(map@, Ins::ShlW(a, b, c)));
            }
        },
        Ins::AsrW(a, b, c) => {
            let nb = rw_use_w(map, b, Wr::R9, out);
            let nc = rw_use_w(map, c, Wr::R10, out);
            let (na, p) = rw_def_w(map, a, Wr::R9);
            out.push(Ins::AsrW(na, nb, nc));
            push_post(p, None, out);
            proof {
                assert(out@ =~= old(out)@ + rewrite_spec(map@, Ins::AsrW(a, b, c)));
            }
        },
        Ins::LsrW(a, b, c) => {
            let nb = rw_use_w(map, b, Wr::R9, out);
            let nc = rw_use_w(map, c, Wr::R10, out);
            let (na, p) = rw_def_w(map, a, Wr::R9);
            out.push(Ins::LsrW(na, nb, nc));
            push_post(p, None, out);
            proof {
                assert(out@ =~= old(out)@ + rewrite_spec(map@, Ins::LsrW(a, b, c)));
            }
        },
        _ => {
            proof {
                assert(false);
            }
        },
    }
}

/// `rewrite_ins` for the byte multiply and divide forms.
#[verifier::loop_isolation(false)]
#[verifier::rlimit(100)]
#[verifier::spinoff_prover]
fn rewrite_muldiv_b(map: &Vec<(usize, Loc)>, ins: Ins, out: &mut Vec<Ins>)
    requires
        ins is DivB || ins is MulB,
        forall|j: int| 0 <= j < old(out)@.len() ==> ins_no_pseudo(#[trigger] old(out)@[j]),
    ensures
        final(out)@ == old(out)@ + rewrite_spec(map@, ins),
        forall|j: int| 0 <= j < final(out)@.len() ==> ins_no_pseudo(#[trigger] final(out)@[j]),
{
    match ins {
        Ins::DivB(a, b, c, d) => {
            let nc = rw_use_b(map, c, Br::R9b, out);
            let nd = rw_use_b(map, d, Br::R10b, out);
            let (na, p1) = rw_def_b(map, a, Br::R9b);
            let (nb, p2) = rw_def_b(map, b, Br::R10b);
            out.push(Ins::DivB(na, nb, nc, nd));
            push_post(p1, p2, out);
            proof {
                assert(out@ =~= old(out)@ + rewrite_spec(map@, Ins::DivB(a, b, c, d)));
            }
        },
        Ins::MulB(a, b, c, d) => {
            let nc = rw_use_b(map, c, Br::R9b, out);
            let nd = rw_use_b(map, d, Br::R10b, out);
            let (na, p1) = rw_def_b(map, a, Br::R9b);
            let (nb, p2) = rw_def_b(map, b, Br::R10b);
            out.push(Ins::MulB(na, nb, nc, nd));
            push_post(p1, p2, out);
            proof {
                assert(out@ =~= old(out)@ + rewrite_spec(map@, Ins::MulB(a, b, c, d)));
            }
        },
        _ => {
            proof {
                assert(false);
            }
        },
    }
}

/// `rewrite_ins` for the wide multiply and divide forms.
#[verifier::loop_isolation(false)]
#[verifier::rlimit(100)]
#[verifier::spinoff_prover]
fn rewrite_muldiv_w(map: &Vec<(usize, Loc)>, ins: Ins, out: &mut Vec<Ins>)
    requires
        ins is DivW || ins is MulW,
        forall|j: int| 0 <= j < old(out)@.len() ==> ins_no_pseudo(#[trigger] old(out)@[j]),
    ensures
        final(out)@ == old(out)@ + rewrite_spec(map@, ins),
        forall|j: int| 0 <= j < final(out)@.len() ==> ins_no_pseudo(#[trigger] final(out)@[j]),
{
    match ins {
        Ins::DivW(a, b, c, d) => {
            let nc = rw_use_w(map, c, Wr::R9, out);
            let nd = rw_use_w(map, d, Wr::R10, out);
            let (na, p1) = rw_def_w(map, a, Wr::R9);
            let (nb, p2) = rw_def_w(map, b, Wr::R10);
            out.push(Ins::DivW(na, nb, nc, nd));
            push_post(p1, p2, out);
            proof {
                assert(out@ =~= old(out)@ + rewrite_spec(map@, Ins::DivW(a, b, c, d)));
            }
        },
        Ins::MulW(a, b, c, d) => {
            let nc = rw_use_w(map, c, Wr::R9, out);
            let nd = rw_use_w(map, d, Wr::R10, out);
            let (na, p1) = rw_def_w(map, a, Wr::R9);
            let (nb, p2) = rw_def_w(map, b, Wr::R10);
            out.push(Ins::MulW(na, nb, nc, nd));
            push_post(p1, p2, out);
            proof {
                assert(out@ =~= old(out)@ + rewrite_spec(map@, Ins::MulW(a, b, c, d)));
            }
        },
        _ => {
            proof {
                assert(false);
            }
        },
    }
}

/// Rewrite an instruction that stands outside any function: it passes
/// through unchanged when, as codegen guarantees there, it holds no
/// pseudo-register; a stray pseudo would be replaced by a scratch.
pub fn rewrite_free(ins: Ins, out: &mut Vec<Ins>)
    requires
        forall|j: int| 0 <= j < old(out)@.len() ==> ins_no_pseudo(#[trigger] old(out)@[j]),
    ensures
        final(out)@ == old(out)@ + rewrite_spec(Seq::empty(), ins),
        ins_no_pseudo(ins) ==> final(out)@ == old(out)@.push(ins),
        forall|j: int| 0 <= j < final(out)@.len() ==> ins_no_pseudo(#[trigger] final(out)@[j]),
{
    let empty: Vec<(usize, Loc)> = Vec::new();
    rewrite_ins(&empty, ins, out);
    proof {
        if ins_no_pseudo(ins) {
            lemma_rewrite_noop(Seq::empty(), ins);
            assert(out@ =~= old(out)@.push(ins));
        }
    }
}

/// An empty wide operand list.
fn vw0() -> (r: Vec<Wr>)
    ensures
        r@ == Seq::<Wr>::empty(),
{
    Vec::new()
}

/// One wide operand.
fn vw1(a: Wr) -> (r: Vec<Wr>)
    ensures
        r@ == seq![a],
{
    let mut v: Vec<Wr> = Vec::new();
    v.push(a);
    proof {
        assert(v@ =~= seq![a]);
    }
    v
}

/// Two wide operands.
fn vw2(a: Wr, b: Wr) -> (r: Vec<Wr>)
    ensures
        r@ == seq![a, b],
{
    let mut v: Vec<Wr> = Vec::new();
    v.push(a);
    v.push(b);
    proof {
        assert(v@ =~= seq![a, b]);
    }
    v
}

/// Three wide operands.
fn vw3(a: Wr, b: Wr, c: Wr) -> (r: Vec<Wr>)
    ensures
        r@ == seq![a, b, c],
{
    let mut v: Vec<Wr> = Vec::new();
    v.push(a);
    v.push(b);
    v.push(c);
    proof {
        assert(v@ =~= seq![a, b, c]);
    }
    v
}

/// An empty byte operand list.
fn vb0() -> (r: Vec<Br>)
    ensures
        r@ == Seq::<Br>::empty(),
{
    Vec::new()
}

/// One byte operand.
fn vb1(a: Br) -> (r: Vec<Br>)
    ensures
        r@ == seq![a],
{
    let mut v: Vec<Br> = Vec::new();
    v.push(a);
    proof {
        assert(v@ =~= seq![a]);
    }
    v
}

/// Two byte operands.
fn vb2(a: Br, b: Br) -> (r: Vec<Br>)
    ensures
        r@ == seq![a, b],
{
    let mut v: Vec<Br> = Vec::new();
    v.push(a);
    v.push(b);
    proof {
        assert(v@ =~= seq![a, b]);
    }
    v
}

/// The register operands of an instruction, split by position.
#[verifier::rlimit(100)]
#[verifier::spinoff_prover]
fn opnds_of(ins: &Ins) -> (r: (Vec<Wr>, Vec<Br>, Vec<Wr>, Vec<Br>))
    ensures
        r.0@ == opnds(*ins).0,
        r.1@ == opnds(*ins).1,
        r.2@ == opnds(*ins).2,
        r.3@ == opnds(*ins).3,
{
    match ins {
        Ins::PushB(a) => (vw0(), vb1(*a), vw0(), vb0()),
        Ins::PushW(a) => (vw1(*a), vb0(), vw0(), vb0()),
        Ins::PopB(a) => (vw0(), vb0(), vw0(), vb1(*a)),
        Ins::PopW(a) => (vw0(), vb0(), vw1(*a), vb0()),
        Ins::StoreBI(a, _, c) => (vw1(*a), vb1(*c), vw0(), vb0()),
        Ins::StoreWI(a, _, c) => (vw2(*a, *c), vb0(), vw0(), vb0()),
        Ins::StoreBR(a, b, c) => (vw2(*a, *b), vb1(*c), vw0(), vb0()),
        Ins::StoreWR(a, b, c) => (vw3(*a, *b, *c), vb0(), vw0(), vb0()),
        Ins::LoadBI(a, b, _) => (vw1(*b), vb0(), vw0(), vb1(*a)),
        Ins::LoadWI(a, b, _) => (vw1(*b), vb0(), vw1(*a), vb0()),
        Ins::LoadBR(a, b, c) => (vw2(*b, *c), vb0(), vw0(), vb1(*a)),
        Ins::LoadWR(a, b, c) => (vw2(*b, *c), vb0(), vw1(*a), vb0()),
        Ins::LdiB(a, _) => (vw0(), vb0(), vw0(), vb1(*a)),
        Ins::LdiW(a, _) => (vw0(), vb0(), vw1(*a), vb0()),
        Ins::JmpR(a) => (vw1(*a), vb0(), vw0(), vb0()),
        Ins::AddB(a, b, c) => (vw0(), vb2(*b, *c), vw0(), vb1(*a)),
        Ins::SubB(a, b, c) => (vw0(), vb2(*b, *c), vw0(), vb1(*a)),
        Ins::AndB(a, b, c) => (vw0(), vb2(*b, *c), vw0(), vb1(*a)),
        Ins::OrB(a, b, c) => (vw0(), vb2(*b, *c), vw0(), vb1(*a)),
        Ins::XorB(a, b, c) => (vw0(), vb2(*b, *c), vw0(), vb1(*a)),
        Ins::ShlB(a, b, c) => (vw0(), vb2(*b, *c), vw0(), vb1(*a)),
        Ins::AsrB(a, b, c) => (vw0(), vb2(*b, *c), vw0(), vb1(*a)),
        Ins::LsrB(a, b, c) => (vw0(), vb2(*b, *c), vw0(), vb1(*a)),
        Ins::AddW(a, b, c) => (vw2(*b, *c), vb0(), vw1(*a), vb0()),
        Ins::SubW(a, b, c) => (vw2(*b, *c), vb0(), vw1(*a), vb0()),
        Ins::AndW(a, b, c) => (vw2(*b, *c), vb0(), vw1(*a), vb0()),
        Ins::OrW(a, b, c) => (vw2(*b, *c), vb0(), vw1(*a), vb0()),
        Ins::XorW(a, b, c) => (vw2(*b, *c), vb0(), vw1(*a), vb0()),
        Ins::ShlW(a, b, c) => (vw2(*b, *c), vb0(), vw1(*a), vb0()),
        Ins::AsrW(a, b, c) => (vw2(*b, *c), vb0(), vw1(*a), vb0()),
        Ins::LsrW(a, b, c) => (vw2(*b, *c), vb0(), vw1(*a), vb0()),
        Ins::DivB(a, b, c, d) => (vw0(), vb2(*c, *d), vw0(), vb2(*a, *b)),
        Ins::DivW(a, b, c, d) => (vw2(*c, *d), vb0(), vw2(*a, *b), vb0()),
        Ins::MulB(a, b, c, d) => (vw0(), vb2(*c, *d), vw0(), vb2(*a, *b)),
        Ins::MulW(a, b, c, d) => (vw2(*c, *d), vb0(), vw2(*a, *b), vb0()),
        _ => (vw0(), vb0(), vw0(), vb0()),
    }
}

/// Append the pseudo-register numbers of the wide operands.
#[verifier::loop_isolation(false)]
fn push_wids(ws: &Vec<Wr>, acc: &mut Vec<usize>)
    ensures
        final(acc)@ == old(acc)@ + wids(ws@),
{
    let mut i: usize = 0;
    while i < ws.len()
        invariant
            0 <= i <= ws@.len(),
            acc@ == old(acc)@ + wids(ws@.subrange(0, i as int)),
        decreases ws@.len() - i,
    {
        proof {
            assert(ws@.subrange(0, i + 1).drop_last() =~= ws@.subrange(0, i as int));
            assert(ws@.subrange(0, i + 1).last() == ws@[i as int]);
        }
        match ws[i] {
            Wr::Rpw(n) => {
                acc.push(n);
                proof {
                    assert(acc@ =~= old(acc)@ + wids(ws@.subrange(0, i + 1)));
                }
            },
            _ => {
                proof {
                    assert(acc@ =~= old(acc)@ + wids(ws@.subrange(0, i + 1)));
                }
            },
        }
        i = i + 1;
    }
    proof {
        assert(ws@.subrange(0, ws@.len() as int) =~= ws@);
    }
}

/// Append the pseudo-register numbers of the byte operands.
#[verifier::loop_isolation(false)]
fn push_bids(bs: &Vec<Br>, acc: &mut Vec<usize>)
    ensures
        final(acc)@ == old(acc)@ + bids(bs@),
{
    let mut i: usize = 0;
    while i < bs.len()
        invariant
            0 <= i <= bs@.len(),
            acc@ == old(acc)@ + bids(bs@.subrange(0, i as int)),
        decreases bs@.len() - i,
    {
        proof {
            assert(bs@.subrange(0, i + 1).drop_last() =~= bs@.subrange(0, i as int));
            assert(bs@.subrange(0, i + 1).last() == bs@[i as int]);
        }
        match bs[i] {
            Br::Rpb(n) => {
                acc.push(n);
                proof {
                    assert(acc@ =~= old(acc)@ + bids(bs@.subrange(0, i + 1)));
                }
            },
            _ => {
                proof {
                    assert(acc@ =~= old(acc)@ + bids(bs@.subrange(0, i + 1)));
                }
            },
        }
        i = i + 1;
    }
    proof {
        assert(bs@.subrange(0, bs@.len() as int) =~= bs@);
    }
}

/// The pseudo-registers an instruction reads and writes.
fn ids_of(ins: &Ins) -> (r: (Vec<usize>, Vec<usize>))
    ensures
        r.0@ == use_ids(*ins),
        r.1@ == def_ids(*ins),
{
    let (uw, ub, dw, db) = opnds_of(ins);
    let mut uses: Vec<usize> = Vec::new();
    push_wids(&uw, &mut uses);
    push_bids(&ub, &mut uses);
    let mut defs: Vec<usize> = Vec::new();
    push_wids(&dw, &mut defs);
    push_bids(&db, &mut defs);
    proof {
        assert(uses@ =~= use_ids(*ins));
        assert(defs@ =~= def_ids(*ins));
    }
    (uses, defs)
}

/// Whether `id` occurs in the list.
#[verifier::loop_isolation(false)]
fn contains_id(v: &Vec<usize>, id: usize) -> (r: bool)
    ensures
        r == lmem(v@, id),
{
    let mut i: usize = 0;
    while i < v.len()
        invariant
            0 <= i <= v@.len(),
            forall|k: int| 0 <= k < i ==> v@[k] != id,
        decreases v@.len() - i,
    {
        if v[i] == id {
            return true;
        }
        i = i + 1;
    }
    false
}

/// No pseudo-register number occurs twice.
pub open spec fn distinct_ids(s: Seq<usize>) -> bool {
    forall|k1: int, k2: int| 0 <= k1 < k2 < s.len() ==> s[k1] != s[k2]
}

/// Record a pseudo-register number once.
#[verifier::loop_isolation(false)]
fn note_id(ids: &mut Vec<usize>, id: usize)
    requires
        distinct_ids(old(ids)@),
    ensures
        distinct_ids(final(ids)@),
        lmem(final(ids)@, id),
        forall|x: usize| lmem(old(ids)@, x) ==> lmem(final(ids)@, x),
        forall|x: usize| lmem(final(ids)@, x) ==> lmem(old(ids)@, x) || x == id,
{
    if !contains_id(ids, id) {
        ids.push(id);
        proof {
            assert forall|x: usize| lmem(old(ids)@, x) implies lmem(ids@, x) by {
                let k = choose|k: int| 0 <= k < old(ids)@.len() && old(ids)@[k] == x;
                assert(ids@[k] == x);
            }
            assert(ids@[old(ids)@.len() as int] == id);
        }
    }
}

/// Looking a key up after an append: an earlier binding still wins, and
/// the new pair answers only for its own key.
proof fn lemma_loc_push(m: Seq<(usize, Loc)>, x: (usize, Loc), id: usize)
    ensures
        loc_spec(m.push(x), id) == (if loc_spec(m, id) is Some {
            loc_spec(m, id)
        } else if x.0 == id {
            Some(x.1)
        } else {
            None::<Loc>
        }),
    decreases m.len(),
{
    reveal_with_fuel(loc_spec, 3);
    if m.len() == 0 {
        assert(m.push(x)[0] == x);
        assert(m.push(x).drop_first() =~= Seq::<(usize, Loc)>::empty());
        assert(loc_spec(Seq::<(usize, Loc)>::empty(), id) is None);
        assert(loc_spec(m, id) is None);
    } else {
        lemma_loc_push(m.drop_first(), x, id);
        assert(m.push(x)[0] == m[0]);
        assert(m.push(x).drop_first() =~= m.drop_first().push(x));
        if m[0].0 == id {
            assert(loc_spec(m.push(x), id) == Some(m[0].1));
            assert(loc_spec(m, id) == Some(m[0].1));
        } else {
            assert(loc_spec(m.push(x), id) == loc_spec(m.drop_first().push(x), id));
            assert(loc_spec(m, id) == loc_spec(m.drop_first(), id));
        }
    }
}

/// Whether `a` is a symbolic jump whose target is the label `b`.
#[verifier::rlimit(50)]
fn jump_matches(a: &Ins, b: &Ins) -> (r: bool)
    ensures
        r == (jump_sym(*a) matches Some(sym) && *b matches Ins::Label(l) && l@ == sym),
{
    let target: Option<&String> = match a {
        Ins::Jez(t) => match t {
            Wi::Symbol(sym) => Some(sym),
            Wi::Constant(_) => None,
        },
        Ins::Jlt(t) => match t {
            Wi::Symbol(sym) => Some(sym),
            Wi::Constant(_) => None,
        },
        Ins::Jle(t) => match t {
            Wi::Symbol(sym) => Some(sym),
            Wi::Constant(_) => None,
        },
        Ins::Jgt(t) => match t {
            Wi::Symbol(sym) => Some(sym),
            Wi::Constant(_) => None,
        },
        Ins::Jge(t) => match t {
            Wi::Symbol(sym) => Some(sym),
            Wi::Constant(_) => None,
        },
        Ins::Jnz(t) => match t {
            Wi::Symbol(sym) => Some(sym),
            Wi::Constant(_) => None,
        },
        Ins::Jo(t) => match t {
            Wi::Symbol(sym) => Some(sym),
            Wi::Constant(_) => None,
        },
        Ins::Jno(t) => match t {
            Wi::Symbol(sym) => Some(sym),
            Wi::Constant(_) => None,
        },
        Ins::Jb(t) => match t {
            Wi::Symbol(sym) => Some(sym),
            Wi::Constant(_) => None,
        },
        Ins::Jae(t) => match t {
            Wi::Symbol(sym) => Some(sym),
            Wi::Constant(_) => None,
        },
        Ins::Ja(t) => match t {
            Wi::Symbol(sym) => Some(sym),
            Wi::Constant(_) => None,
        },
        Ins::Jbe(t) => match t {
            Wi::Symbol(sym) => Some(sym),
            Wi::Constant(_) => None,
        },
        Ins::Jump(t) => match t {
            Wi::Symbol(sym) => Some(sym),
            Wi::Constant(_) => None,
        },
        _ => None,
    };
    match (target, b) {
        (Some(sym), Ins::Label(l)) => *sym == *l,
        _ => false,
    }
}

/// The successors of instruction `i`: the next instruction, every label
/// a symbolic jump from `i` can reach, and — for a register jump —
/// every label of the body.
#[verifier::loop_isolation(false)]
fn succs_of(body: &Vec<Ins>, i: usize) -> (r: Vec<usize>)
    requires
        i < body@.len(),
    ensures
        forall|j: int| succs_spec(body@, i as int, j) ==> lmem(r@, j as usize),
        forall|k: int| 0 <= k < r@.len() ==> (#[trigger] r@[k]) < body@.len(),
{
    let n = body.len();
    let mut out: Vec<usize> = Vec::new();
    if i + 1 < n {
        out.push(i + 1);
        proof {
            assert(out@[0] == i + 1);
        }
    }
    let is_jmpr = matches!(&body[i], Ins::JmpR(_));
    let mut j: usize = 0;
    while j < body.len()
        invariant
            0 <= j <= body@.len(),
            forall|k: int| 0 <= k < out@.len() ==> (#[trigger] out@[k]) < body@.len(),
            i + 1 < body@.len() ==> lmem(out@, (i + 1) as usize),
            forall|j2: int|
                0 <= j2 < j && succs_spec(body@, i as int, j2) && j2 != i + 1 ==> lmem(
                    out@,
                    j2 as usize,
                ),
        decreases body@.len() - j,
    {
        let take = if is_jmpr {
            matches!(&body[j], Ins::Label(_))
        } else {
            jump_matches(&body[i], &body[j])
        };
        if take {
            let ghost out0 = out@;
            out.push(j);
            proof {
                assert(out@[out0.len() as int] == j);
                assert forall|x: usize| lmem(out0, x) implies lmem(out@, x) by {
                    let k = choose|k: int| 0 <= k < out0.len() && out0[k] == x;
                    assert(out@[k] == x);
                }
            }
        }
        j = j + 1;
    }
    proof {
        assert forall|j2: int| succs_spec(body@, i as int, j2) implies lmem(out@, j2 as usize) by {
            if j2 != i + 1 {
                assert(0 <= j2 < body@.len());
            }
        }
    }
    out
}

/// A copy of a list of pseudo-register numbers.
#[verifier::loop_isolation(false)]
fn copy_ids(v: &Vec<usize>) -> (r: Vec<usize>)
    ensures
        r@ == v@,
{
    let mut out: Vec<usize> = Vec::new();
    let mut i: usize = 0;
    while i < v.len()
        invariant
            0 <= i <= v@.len(),
            out@ == v@.subrange(0, i as int),
        decreases v@.len() - i,
    {
        out.push(v[i]);
        proof {
            assert(out@ =~= v@.subrange(0, i + 1));
        }
        i = i + 1;
    }
    proof {
        assert(v@.subrange(0, v@.len() as int) =~= v@);
    }
    out
}

/// One backward pass of the dataflow: add to each instruction's live set
/// what its reads and its successors demand.  When a whole pass adds
/// nothing, the closure holds everywhere.
#[verifier::loop_isolation(false)]
#[verifier::rlimit(100)]
#[verifier::spinoff_prover]
fn dataflow_pass(
    body: &Vec<Ins>,
    uses: &Vec<Vec<usize>>,
    defs: &Vec<Vec<usize>>,
    succ: &Vec<Vec<usize>>,
    live: &mut Vec<Vec<usize>>,
) -> (changed: bool)
    requires
        uses@.len() == body@.len(),
        defs@.len() == body@.len(),
        succ@.len() == body@.len(),
        old(live)@.len() == body@.len(),
        forall|i: int| 0 <= i < body@.len() ==> (#[trigger] uses@[i])@ == use_ids(body@[i]),
        forall|i: int| 0 <= i < body@.len() ==> (#[trigger] defs@[i])@ == def_ids(body@[i]),
        forall|i: int, j: int|
            #[trigger] succs_spec(body@, i, j) ==> lmem(succ@[i]@, j as usize),
        forall|i: int, k: int|
            0 <= i < body@.len() && 0 <= k < succ@[i]@.len() ==> (#[trigger] succ@[i]@[k])
                < body@.len(),
    ensures
        final(live)@.len() == body@.len(),
        !changed ==> final(live)@ == old(live)@ && live_ok(table(final(live)@), body@),
{
    let n = body.len();
    let mut changed = false;
    let mut i: usize = n;
    while i > 0
        invariant
            0 <= i <= n,
            live@.len() == n,
            !changed ==> live@ == old(live)@,
            !changed ==> forall|i2: int|
                i <= i2 < n ==> #[trigger] closure_at(table(live@), body@, i2),
        decreases i,
    {
        i = i - 1;
        let mut adds: Vec<usize> = Vec::new();
        let mut k: usize = 0;
        while k < uses[i].len()
            invariant
                0 <= k <= uses@[i as int]@.len(),
                forall|k2: int|
                    0 <= k2 < k ==> lmem(live@[i as int]@, #[trigger] uses@[i as int]@[k2])
                        || lmem(adds@, uses@[i as int]@[k2]),
            decreases uses@[i as int]@.len() - k,
        {
            let id = uses[i][k];
            if !contains_id(&live[i], id) && !contains_id(&adds, id) {
                let ghost a0 = adds@;
                adds.push(id);
                proof {
                    assert(adds@[a0.len() as int] == id);
                    assert forall|x: usize| lmem(a0, x) implies lmem(adds@, x) by {
                        let w = choose|w: int| 0 <= w < a0.len() && a0[w] == x;
                        assert(adds@[w] == x);
                    }
                }
            }
            k = k + 1;
        }
        let mut t: usize = 0;
        while t < succ[i].len()
            invariant
                0 <= t <= succ@[i as int]@.len(),
                forall|k2: int|
                    0 <= k2 < uses@[i as int]@.len() ==> lmem(
                        live@[i as int]@,
                        #[trigger] uses@[i as int]@[k2],
                    ) || lmem(adds@, uses@[i as int]@[k2]),
                forall|t2: int, id: usize|
                    0 <= t2 < t && #[trigger] lmem(
                        live@[succ@[i as int]@[t2] as int]@,
                        id,
                    ) && !lmem(defs@[i as int]@, id) ==> lmem(live@[i as int]@, id) || lmem(
                        adds@,
                        id,
                    ),
            decreases succ@[i as int]@.len() - t,
        {
            let j = succ[i][t];
            let mut w: usize = 0;
            while w < live[j].len()
                invariant
                    0 <= w <= live@[j as int]@.len(),
                    j == succ@[i as int]@[t as int],
                    j < n,
                    forall|k2: int|
                        0 <= k2 < uses@[i as int]@.len() ==> lmem(
                            live@[i as int]@,
                            #[trigger] uses@[i as int]@[k2],
                        ) || lmem(adds@, uses@[i as int]@[k2]),
                    forall|t2: int, id: usize|
                        0 <= t2 < t && #[trigger] lmem(
                            live@[succ@[i as int]@[t2] as int]@,
                            id,
                        ) && !lmem(defs@[i as int]@, id) ==> lmem(live@[i as int]@, id) || lmem(
                            adds@,
                            id,
                        ),
                    forall|w2: int|
                        0 <= w2 < w && !lmem(defs@[i as int]@, #[trigger] live@[j as int]@[w2])
                            ==> lmem(live@[i as int]@, live@[j as int]@[w2]) || lmem(
                            adds@,
                            live@[j as int]@[w2],
                        ),
                decreases live@[j as int]@.len() - w,
            {
                let id = live[j][w];
                if !contains_id(&defs[i], id) && !contains_id(&live[i], id) && !contains_id(
                    &adds,
                    id,
                ) {
                    let ghost a0 = adds@;
                    adds.push(id);
                    proof {
                        assert(adds@[a0.len() as int] == id);
                        assert forall|x: usize| lmem(a0, x) implies lmem(adds@, x) by {
                            let w3 = choose|w3: int| 0 <= w3 < a0.len() && a0[w3] == x;
                            assert(adds@[w3] == x);
                        }
                    }
                }
                w = w + 1;
            }
            proof {
                assert forall|t2: int, id: usize|
                    0 <= t2 < t + 1 && lmem(live@[succ@[i as int]@[t2] as int]@, id) && !lmem(
                        defs@[i as int]@,
                        id,
                    ) implies lmem(live@[i as int]@, id) || lmem(adds@, id) by {
                    if t2 == t {
                        let w2 = choose|w2: int|
                            0 <= w2 < live@[j as int]@.len() && live@[j as int]@[w2] == id;
                        assert(!lmem(defs@[i as int]@, live@[j as int]@[w2]));
                    }
                }
            }
            t = t + 1;
        }
        if adds.len() > 0 {
            changed = true;
            let mut a: usize = 0;
            while a < adds.len()
                invariant
                    live@.len() == n,
                decreases adds@.len() - a,
            {
                let id = adds[a];
                if !contains_id(&live[i], id) {
                    live[i].push(id);
                }
                a = a + 1;
            }
        } else {
            proof {
                assert forall|j2: int, id: usize|
                    #[trigger] succs_spec(body@, i as int, j2) && #[trigger] lmem(
                        table(live@)[j2],
                        id,
                    ) && !lmem(def_ids(body@[i as int]), id) implies lmem(
                    table(live@)[i as int],
                    id,
                ) by {
                    assert(lmem(succ@[i as int]@, j2 as usize));
                    let t2 = choose|t2: int|
                        0 <= t2 < succ@[i as int]@.len() && succ@[i as int]@[t2] == j2 as usize;
                    assert(lmem(live@[succ@[i as int]@[t2] as int]@, id));
                }
                assert(closure_at(table(live@), body@, i as int));
            }
        }
    }
    changed
}

/// Backward dataflow to a fixed point: iterate passes until one adds
/// nothing.  If the fuel bound is ever exhausted, the table saturates to
/// every pseudo-register, which satisfies the closure trivially.
#[verifier::loop_isolation(false)]
fn liveness(
    body: &Vec<Ins>,
    uses: &Vec<Vec<usize>>,
    defs: &Vec<Vec<usize>>,
    succ: &Vec<Vec<usize>>,
    all_ids: &Vec<usize>,
) -> (l: Vec<Vec<usize>>)
    requires
        uses@.len() == body@.len(),
        defs@.len() == body@.len(),
        succ@.len() == body@.len(),
        forall|i: int| 0 <= i < body@.len() ==> (#[trigger] uses@[i])@ == use_ids(body@[i]),
        forall|i: int| 0 <= i < body@.len() ==> (#[trigger] defs@[i])@ == def_ids(body@[i]),
        forall|i: int, j: int|
            #[trigger] succs_spec(body@, i, j) ==> lmem(succ@[i]@, j as usize),
        forall|i: int, k: int|
            0 <= i < body@.len() && 0 <= k < succ@[i]@.len() ==> (#[trigger] succ@[i]@[k])
                < body@.len(),
        forall|i: int, k: int|
            0 <= i < body@.len() && 0 <= k < use_ids(body@[i]).len() ==> lmem(
                all_ids@,
                #[trigger] use_ids(body@[i])[k],
            ),
    ensures
        live_ok(table(l@), body@),
{
    let n = body.len();
    let mut live: Vec<Vec<usize>> = Vec::new();
    while live.len() < n
        invariant
            live@.len() <= n,
        decreases n - live@.len(),
    {
        live.push(Vec::new());
    }
    let mut fuel: usize = match n.checked_mul(all_ids.len()) {
        Some(f) => match f.checked_add(2) {
            Some(g) => g,
            None => usize::MAX,
        },
        None => usize::MAX,
    };
    let mut stable = false;
    while fuel > 0 && !stable
        invariant
            live@.len() == n,
            stable ==> live_ok(table(live@), body@),
        decreases fuel,
    {
        let ch = dataflow_pass(body, uses, defs, succ, &mut live);
        if !ch {
            stable = true;
        }
        fuel = fuel - 1;
    }
    if !stable {
        let mut i: usize = 0;
        while i < n
            invariant
                0 <= i <= n,
                live@.len() == n,
                forall|i2: int| 0 <= i2 < i ==> (#[trigger] live@[i2])@ == all_ids@,
            decreases n - i,
        {
            let c = copy_ids(all_ids);
            live[i] = c;
            i = i + 1;
        }
        proof {
            assert forall|i2: int|
                0 <= i2 < body@.len() implies #[trigger] closure_at(
                table(live@),
                body@,
                i2,
            ) by {
                assert(table(live@)[i2] == all_ids@);
            }
        }
    }
    live
}

/// Whether a wide register occurs in the list.
#[verifier::loop_isolation(false)]
fn contains_wr(v: &Vec<Wr>, r: Wr) -> (res: bool)
    ensures
        res == lmem_w(v@, r),
{
    let mut i: usize = 0;
    while i < v.len()
        invariant
            0 <= i <= v@.len(),
            forall|k: int| 0 <= k < i ==> v@[k] != r,
        decreases v@.len() - i,
    {
        if v[i] == r {
            return true;
        }
        i = i + 1;
    }
    false
}

/// Whether a byte register occurs in the list.
#[verifier::loop_isolation(false)]
fn contains_br(v: &Vec<Br>, r: Br) -> (res: bool)
    ensures
        res == lmem_b(v@, r),
{
    let mut i: usize = 0;
    while i < v.len()
        invariant
            0 <= i <= v@.len(),
            forall|k: int| 0 <= k < i ==> v@[k] != r,
        decreases v@.len() - i,
    {
        if v[i] == r {
            return true;
        }
        i = i + 1;
    }
    false
}

/// Whether the instruction names the pool register of colour `s`.
fn ins_clash(ins: &Ins, s: u8) -> (r: bool)
    ensures
        r == clashes(*ins, s),
{
    let (uw, ub, dw, db) = opnds_of(ins);
    contains_wr(&uw, pool_wr(s)) || contains_wr(&dw, pool_wr(s)) || contains_br(
        &ub,
        pool_br(s),
    ) || contains_br(&db, pool_br(s))
}

/// Whether any instruction of the body names the pool register of
/// colour `s`: such a colour is pre-empted, like a pre-coloured node.
#[verifier::loop_isolation(false)]
fn pool_used(body: &Vec<Ins>, s: u8) -> (r: bool)
    ensures
        r == exists|i: int| 0 <= i < body@.len() && clashes(#[trigger] body@[i], s),
{
    let mut i: usize = 0;
    while i < body.len()
        invariant
            0 <= i <= body@.len(),
            forall|k: int| 0 <= k < i ==> !clashes(#[trigger] body@[k], s),
        decreases body@.len() - i,
    {
        if ins_clash(&body[i], s) {
            return true;
        }
        i = i + 1;
    }
    false
}

/// Whether the two pseudo-registers are ever live at the same
/// instruction.
#[verifier::loop_isolation(false)]
fn overlaps(live: &Vec<Vec<usize>>, p: usize, q: usize) -> (r: bool)
    ensures
        r == live_overlap(table(live@), p, q),
{
    let mut i: usize = 0;
    while i < live.len()
        invariant
            0 <= i <= live@.len(),
            forall|k: int|
                0 <= k < i ==> !(lmem(#[trigger] table(live@)[k], p) && lmem(
                    table(live@)[k],
                    q,
                )),
        decreases live@.len() - i,
    {
        if contains_id(&live[i], p) && contains_id(&live[i], q) {
            proof {
                assert(lmem(table(live@)[i as int], p) && lmem(table(live@)[i as int], q));
            }
            return true;
        }
        i = i + 1;
    }
    false
}

/// Place every collected pseudo-register: greedily colour it with a pool
/// register that the body does not pre-empt and that no pseudo-register
/// live at the same time already holds, else give it a fresh frame spill
/// slot.
#[verifier::loop_isolation(false)]
#[verifier::rlimit(100)]
#[verifier::spinoff_prover]
fn build_assignment(body: &Vec<Ins>, ids: &Vec<usize>, live: &Vec<Vec<usize>>) -> (map: Vec<
    (usize, Loc),
>)
    requires
        distinct_ids(ids@),
    ensures
        map@.len() == ids@.len(),
        forall|k: int| 0 <= k < map@.len() ==> (#[trigger] map@[k]).0 == ids@[k],
        forall|k: int|
            0 <= k < map@.len() ==> loc_spec(map@, #[trigger] ids@[k]) == Some(map@[k].1),
        forall|id: usize| (#[trigger] loc_spec(map@, id)) is Some ==> lmem(ids@, id),
        ids@.len() <= 32000 ==> (forall|k1: int, k2: int|
            0 <= k1 < k2 < map@.len() && live_overlap(
                table(live@),
                ids@[k1],
                ids@[k2],
            ) ==> (#[trigger] map@[k1]).1 != (#[trigger] map@[k2]).1),
        forall|k: int|
            0 <= k < map@.len() ==> ((#[trigger] map@[k]).1 matches Loc::Phys(s) ==> !(
            exists|i: int| 0 <= i < body@.len() && clashes(#[trigger] body@[i], s))),
{
    let clash0 = pool_used(body, 0);
    let clash1 = pool_used(body, 1);
    let mut map: Vec<(usize, Loc)> = Vec::new();
    let mut spills: usize = 0;
    let mut p: usize = 0;
    while p < ids.len()
        invariant
            0 <= p <= ids@.len(),
            map@.len() == p,
            spills <= p,
            forall|k: int| 0 <= k < p ==> (#[trigger] map@[k]).0 == ids@[k],
            forall|k: int|
                0 <= k < p ==> loc_spec(map@, #[trigger] ids@[k]) == Some(map@[k].1),
            forall|id: usize|
                (#[trigger] loc_spec(map@, id)) is Some ==> lmem(
                    ids@.subrange(0, p as int),
                    id,
                ),
            ids@.len() <= 32000 ==> (forall|k1: int, k2: int|
                0 <= k1 < k2 < p && live_overlap(
                    table(live@),
                    ids@[k1],
                    ids@[k2],
                ) ==> (#[trigger] map@[k1]).1 != (#[trigger] map@[k2]).1),
            ids@.len() <= 32000 ==> (forall|k: int|
                0 <= k < p ==> ((#[trigger] map@[k]).1 matches Loc::Spill(o) ==> o
                    < 2 * spills)),
            forall|k: int|
                0 <= k < p ==> ((#[trigger] map@[k]).1 matches Loc::Phys(s) ==> !(exists|
                    i: int,
                |
                    0 <= i < body@.len() && clashes(#[trigger] body@[i], s))),
        decreases ids@.len() - p,
    {
        let id = ids[p];
        let mut chosen: Option<Loc> = None;
        let mut slot: u8 = 0;
        while slot < 2
            invariant
                p < ids@.len(),
                map@.len() == p,
                id == ids@[p as int],
                0 <= slot <= 2,
                chosen matches Some(l2) ==> (l2 matches Loc::Phys(s2) && !(exists|i: int|
                    0 <= i < body@.len() && clashes(#[trigger] body@[i], s2)) && (forall|
                    k: int,
                |
                    0 <= k < p && live_overlap(table(live@), ids@[k], id) ==> (
                    #[trigger] map@[k]).1 != Loc::Phys(s2))),
            decreases 2 - slot,
        {
            let pre = if slot == 0 {
                clash0
            } else {
                clash1
            };
            let already = matches!(chosen, Some(_));
            if !pre && !already {
                let mut ok = true;
                let mut q: usize = 0;
                while q < p
                    invariant
                        0 <= q <= p,
                        p < ids@.len(),
                        map@.len() == p,
                        id == ids@[p as int],
                        ok ==> (forall|k: int|
                            0 <= k < q && live_overlap(table(live@), ids@[k], id) ==> (
                            #[trigger] map@[k]).1 != Loc::Phys(slot)),
                    decreases p - q,
                {
                    let conflict = overlaps(live, ids[q], id);
                    let same = match map[q].1 {
                        Loc::Phys(s2) => s2 == slot,
                        _ => false,
                    };
                    if conflict && same {
                        ok = false;
                    }
                    q = q + 1;
                }
                if ok {
                    chosen = Some(Loc::Phys(slot));
                }
            }
            slot = slot + 1;
        }
        let loc = match chosen {
            Some(l) => l,
            None => {
                let capped: usize = if spills > 31999 {
                    31999
                } else {
                    spills
                };
                let off: u16 = (capped * 2) as u16;
                spills = capped + 1;
                Loc::Spill(off)
            },
        };
        let ghost m0 = map@;
        map.push((id, loc));
        proof {
            assert(loc_spec(m0, id) is None) by {
                if loc_spec(m0, id) is Some {
                    assert(lmem(ids@.subrange(0, p as int), id));
                    let w = choose|w: int|
                        0 <= w < p && ids@.subrange(0, p as int)[w] == id;
                    assert(ids@[w] == id);
                }
            }
            assert forall|k: int|
                0 <= k < p + 1 implies loc_spec(map@, #[trigger] ids@[k]) == Some(
                map@[k].1,
            ) by {
                lemma_loc_push(m0, (id, loc), ids@[k]);
                if k < p {
                    assert(loc_spec(m0, ids@[k]) == Some(m0[k].1));
                }
            }
            assert forall|id2: usize|
                (#[trigger] loc_spec(map@, id2)) is Some implies lmem(
                ids@.subrange(0, p + 1),
                id2,
            ) by {
                lemma_loc_push(m0, (id, loc), id2);
                if loc_spec(m0, id2) is Some {
                    assert(lmem(ids@.subrange(0, p as int), id2));
                    let w = choose|w: int|
                        0 <= w < p && ids@.subrange(0, p as int)[w] == id2;
                    assert(ids@.subrange(0, p + 1)[w] == id2);
                } else {
                    assert(ids@.subrange(0, p + 1)[p as int] == id2);
                }
            }
        }
        p = p + 1;
    }
    proof {
        assert(ids@.subrange(0, ids@.len() as int) =~= ids@);
    }
    map
}

/// Allocate the registers of one function body, as a graph-colouring
/// allocator over dataflow liveness: collect each instruction's reads
/// and writes, run backward dataflow over the label and jump structure
/// to a fixed point, place every pseudo-register off the colours the
/// body pre-empts and apart from everything live at the same time, then
/// rewrite each instruction in order.  The result is exactly the input
/// rewritten under a well-formed placement, and holds no
/// pseudo-register at all.
#[verifier::loop_isolation(false)]
#[verifier::rlimit(100)]
#[verifier::spinoff_prover]
pub fn register_allocate(body: Vec<Ins>) -> (r: Vec<Ins>)
    ensures
        exists|m: Seq<(usize, Loc)>, l: Seq<Seq<usize>>|
            {
                &&& r@ == rewrite_all(m, body@)
                &&& live_ok(l, body@)
                &&& #[trigger] placement_ok(m, l, body@)
            },
        forall|j: int| 0 <= j < r@.len() ==> ins_no_pseudo(#[trigger] r@[j]),
{
    let n = body.len();
    let mut uses: Vec<Vec<usize>> = Vec::new();
    let mut defs: Vec<Vec<usize>> = Vec::new();
    let mut ids: Vec<usize> = Vec::new();
    let mut i: usize = 0;
    while i < n
        invariant
            0 <= i <= n,
            n == body@.len(),
            uses@.len() == i,
            defs@.len() == i,
            distinct_ids(ids@),
            forall|i2: int| 0 <= i2 < i ==> (#[trigger] uses@[i2])@ == use_ids(body@[i2]),
            forall|i2: int| 0 <= i2 < i ==> (#[trigger] defs@[i2])@ == def_ids(body@[i2]),
            forall|i2: int, k: int|
                0 <= i2 < i && 0 <= k < use_ids(body@[i2]).len() ==> lmem(
                    ids@,
                    #[trigger] use_ids(body@[i2])[k],
                ),
            forall|i2: int, k: int|
                0 <= i2 < i && 0 <= k < def_ids(body@[i2]).len() ==> lmem(
                    ids@,
                    #[trigger] def_ids(body@[i2])[k],
                ),
        decreases n - i,
    {
        let (u, d) = ids_of(&body[i]);
        let mut k: usize = 0;
        while k < u.len()
            invariant
                0 <= k <= u@.len(),
                u@ == use_ids(body@[i as int]),
                distinct_ids(ids@),
                forall|k2: int| 0 <= k2 < k ==> lmem(ids@, #[trigger] u@[k2]),
                forall|i2: int, k2: int|
                    0 <= i2 < i && 0 <= k2 < use_ids(body@[i2]).len() ==> lmem(
                        ids@,
                        #[trigger] use_ids(body@[i2])[k2],
                    ),
                forall|i2: int, k2: int|
                    0 <= i2 < i && 0 <= k2 < def_ids(body@[i2]).len() ==> lmem(
                        ids@,
                        #[trigger] def_ids(body@[i2])[k2],
                    ),
            decreases u@.len() - k,
        {
            note_id(&mut ids, u[k]);
            k = k + 1;
        }
        let mut k2: usize = 0;
        while k2 < d.len()
            invariant
                0 <= k2 <= d@.len(),
                d@ == def_ids(body@[i as int]),
                distinct_ids(ids@),
                forall|k3: int|
                    0 <= k3 < use_ids(body@[i as int]).len() ==> lmem(
                        ids@,
                        #[trigger] use_ids(body@[i as int])[k3],
                    ),
                forall|k3: int| 0 <= k3 < k2 ==> lmem(ids@, #[trigger] d@[k3]),
                forall|i2: int, k3: int|
                    0 <= i2 < i && 0 <= k3 < use_ids(body@[i2]).len() ==> lmem(
                        ids@,
                        #[trigger] use_ids(body@[i2])[k3],
                    ),
                forall|i2: int, k3: int|
                    0 <= i2 < i && 0 <= k3 < def_ids(body@[i2]).len() ==> lmem(
                        ids@,
                        #[trigger] def_ids(body@[i2])[k3],
                    ),
            decreases d@.len() - k2,
        {
            note_id(&mut ids, d[k2]);
            k2 = k2 + 1;
        }
        uses.push(u);
        defs.push(d);
        i = i + 1;
    }
    let mut succ: Vec<Vec<usize>> = Vec::new();
    let mut i2: usize = 0;
    while i2 < n
        invariant
            0 <= i2 <= n,
            n == body@.len(),
            succ@.len() == i2,
            forall|i3: int, j: int|
                0 <= i3 < i2 && #[trigger] succs_spec(body@, i3, j) ==> lmem(
                    succ@[i3]@,
                    j as usize,
                ),
            forall|i3: int, k: int|
                0 <= i3 < i2 && 0 <= k < succ@[i3]@.len() ==> (#[trigger] succ@[i3]@[k])
                    < body@.len(),
        decreases n - i2,
    {
        let sv = succs_of(&body, i2);
        succ.push(sv);
        i2 = i2 + 1;
    }
    proof {
        assert forall|i3: int, j: int|
            #[trigger] succs_spec(body@, i3, j) implies lmem(succ@[i3]@, j as usize) by {
            assert(0 <= i3 < body@.len());
        }
    }
    let live = liveness(&body, &uses, &defs, &succ, &ids);
    let map = build_assignment(&body, &ids, &live);
    proof {
        assert forall|ii: int, k: int|
            0 <= ii < body@.len() && 0 <= k < use_ids(body@[ii]).len() implies loc_spec(
            map@,
            #[trigger] use_ids(body@[ii])[k],
        ) is Some by {
            let id = use_ids(body@[ii])[k];
            assert(lmem(ids@, id));
            let w = choose|w: int| 0 <= w < ids@.len() && ids@[w] == id;
            assert(loc_spec(map@, ids@[w]) == Some(map@[w].1));
        }
        assert forall|ii: int, k: int|
            0 <= ii < body@.len() && 0 <= k < def_ids(body@[ii]).len() implies loc_spec(
            map@,
            #[trigger] def_ids(body@[ii])[k],
        ) is Some by {
            let id = def_ids(body@[ii])[k];
            assert(lmem(ids@, id));
            let w = choose|w: int| 0 <= w < ids@.len() && ids@[w] == id;
            assert(loc_spec(map@, ids@[w]) == Some(map@[w].1));
        }
        if map@.len() <= 32000 {
            assert forall|p: usize, q: usize|
                p != q && (#[trigger] loc_spec(map@, p)) is Some && (#[trigger] loc_spec(
                    map@,
                    q,
                )) is Some && live_overlap(table(live@), p, q) implies loc_spec(map@, p)
                != loc_spec(map@, q) by {
                assert(lmem(ids@, p));
                assert(lmem(ids@, q));
                let kp = choose|kp: int| 0 <= kp < ids@.len() && ids@[kp] == p;
                let kq = choose|kq: int| 0 <= kq < ids@.len() && ids@[kq] == q;
                assert(loc_spec(map@, p) == Some(map@[kp].1));
                assert(loc_spec(map@, q) == Some(map@[kq].1));
                if kp < kq {
                    assert(map@[kp].1 != map@[kq].1);
                } else {
                    assert(kq < kp);
                    assert(live_overlap(table(live@), q, p));
                    assert(map@[kq].1 != map@[kp].1);
                }
            }
        }
        assert forall|p: usize|
            (#[trigger] loc_spec(map@, p)) is Some && loc_spec(map@, p)->Some_0 is Phys
            implies !(exists|ii: int|
            0 <= ii < body@.len() && clashes(
                #[trigger] body@[ii],
                loc_spec(map@, p)->Some_0->Phys_0,
            )) by {
            assert(lmem(ids@, p));
            let w = choose|w: int| 0 <= w < ids@.len() && ids@[w] == p;
            assert(loc_spec(map@, ids@[w]) == Some(map@[w].1));
        }
        assert(placement_ok(map@, table(live@), body@));
    }
    let ghost body0 = body@;
    let mut out: Vec<Ins> = Vec::new();
    let mut body = body;
    let mut b: usize = 0;
    while b < body.len()
        invariant
            0 <= b <= body@.len(),
            body@.len() == body0.len(),
            forall|j: int| b <= j < body@.len() ==> body@[j] == body0[j],
            out@ == rewrite_all(map@, body0.subrange(0, b as int)),
            forall|j: int| 0 <= j < out@.len() ==> ins_no_pseudo(#[trigger] out@[j]),
        decreases body@.len() - b,
    {
        let mut slot = Ins::Nop;
        core::mem::swap(&mut slot, &mut body[b]);
        rewrite_ins(&map, slot, &mut out);
        proof {
            assert(body0.subrange(0, b + 1).drop_last() =~= body0.subrange(0, b as int));
            assert(body0.subrange(0, b + 1).last() == body0[b as int]);
        }
        b = b + 1;
    }
    proof {
        assert(body0.subrange(0, body0.len() as int) =~= body0);
    }
    out
}

} // verus!
