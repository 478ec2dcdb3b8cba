//! The operand wrapper: a tag that lets kernels take a matrix either
//! as-is or logically transposed, without materializing the transpose.

use vstd::prelude::*;

verus! {

/// A matrix operand, used as-is (`NoOp`) or as its transpose
/// (`Transpose`).
pub enum Op<M> {
    /// Use the wrapped matrix as-is.
    NoOp(M),
    /// Use the transpose of the wrapped matrix.
    Transpose(M),
}

impl<M> Op<M> {
    /// The wrapped matrix, whichever the orientation.
    pub open spec fn inner_spec(&self) -> &M {
        match self {
            Op::NoOp(m) => m,
            Op::Transpose(m) => m,
        }
    }

    /// The operand asks for the transpose of the wrapped matrix.
    pub open spec fn is_transpose(&self) -> bool {
        self is Transpose
    }

    /// A reference to the wrapped matrix, whichever the orientation.
    pub fn inner_ref(&self) -> (r: &M)
        ensures
            r == self.inner_spec(),
    {
        match self {
            Op::NoOp(m) => m,
            Op::Transpose(m) => m,
        }
    }

    /// Unwrap to the wrapped matrix, whichever the orientation.
    pub fn into_inner(self) -> (r: M)
        ensures
            r == *self.inner_spec(),
    {
        match self {
            Op::NoOp(m) => m,
            Op::Transpose(m) => m,
        }
    }
}

} // verus!
