use vstd::prelude::*;

verus! {

/// A half-open range of byte offsets into the source text, carried by
/// every node for error reporting.
#[derive(Debug, Clone, Copy, PartialEq, Eq, Hash, Structural)]
pub struct Span {
    pub start: usize,
    pub end: usize,
}

} // verus!
