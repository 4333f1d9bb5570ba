use vstd::prelude::*;

verus! {

/// A type of the flat three-address representation: every literal has
/// been pinned to a width, and aggregates carry their layout.
#[derive(Debug, PartialEq, Eq, Hash)]
pub enum FlatType {
    Unit,
    Bool,
    U8,
    I8,
    U16,
    I16,
    U32,
    I32,
    Float,
    Ptr(Box<FlatType>),
    FnPtr(Vec<FlatType>, Box<FlatType>),
    Arr(Box<FlatType>, u16),
    Struct(Vec<FlatType>),
}

/// Whether a `Float` occurs anywhere inside the type; floats are not yet
/// sized.
pub open spec fn contains_float(t: FlatType) -> bool
    decreases t,
    via contains_float_dec
{
    match t {
        FlatType::Float => true,
        FlatType::Ptr(_) => false,
        FlatType::FnPtr(_, _) => false,
        FlatType::Arr(e, _) => contains_float(*e),
        FlatType::Struct(fields) => exists|i: int|
            0 <= i < fields@.len() && contains_float(
                #[trigger] fields@[i],
            ) && 0 <= i < fields@.len(),
        _ => false,
    }
}

#[via_fn]
proof fn contains_float_dec(t: FlatType) {
    match t {
        FlatType::Struct(fields) => {
            assert(decreases_to!(t => fields));
            assert forall|i: int| 0 <= i < fields@.len() implies decreases_to!(
                t => fields@[i],
            ) by {
                assert(decreases_to!(fields => fields@[i]));
            }
        },
        _ => (),
    }
}

/// The byte size of a flat type: pointers are one machine word of two
/// bytes, aggregates sum their parts, and floats are not yet sized.
pub open spec fn size_spec(t: FlatType) -> int
    decreases t,
{
    match t {
        FlatType::Unit => 0,
        FlatType::Bool => 1,
        FlatType::U8 => 1,
        FlatType::I8 => 1,
        FlatType::U16 => 2,
        FlatType::I16 => 2,
        FlatType::U32 => 4,
        FlatType::I32 => 4,
        FlatType::Float => 0,
        FlatType::Ptr(_) => 2,
        FlatType::FnPtr(_, _) => 2,
        FlatType::Arr(e, n) => n * size_spec(*e),
        FlatType::Struct(fields) => sizes_sum(fields@),
    }
}

/// The summed byte sizes of a sequence of flat types.
pub open spec fn sizes_sum(s: Seq<FlatType>) -> int
    decreases s,
{
    if s.len() == 0 {
        0
    } else {
        size_spec(s[0]) + sizes_sum(s.drop_first())
    }
}

/// Every size inside `t`, including `t`'s own, fits the 16-bit address
/// space of the target machine.
pub open spec fn sizes_fit(t: FlatType) -> bool
    decreases t,
    via sizes_fit_dec
{
    size_spec(t) <= u16::MAX && match t {
        FlatType::Arr(e, _) => sizes_fit(*e),
        FlatType::Struct(fields) => forall|i: int|
            0 <= i < fields@.len() ==> sizes_fit(#[trigger] fields@[i]),
        _ => true,
    }
}

#[via_fn]
proof fn sizes_fit_dec(t: FlatType) {
    match t {
        FlatType::Struct(fields) => {
            assert(decreases_to!(t => fields));
            assert forall|i: int| 0 <= i < fields@.len() implies decreases_to!(
                t => fields@[i],
            ) by {
                assert(decreases_to!(fields => fields@[i]));
            }
        },
        _ => (),
    }
}

} // verus!
