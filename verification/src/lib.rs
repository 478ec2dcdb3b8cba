//! Sparse and dense linear-algebra kernels over a wrapped 64-bit integer
//! scalar, with verified contracts.
//!
//! The core of the crate is the sparse-matrix subsystem: the coordinate
//! (COO) construction format, compressed column/row storage (CSC/CSR),
//! sparse arithmetic kernels (sparse-dense multiply, sparse addition,
//! sparse-sparse multiply, triangular solve), and a sparse Cholesky
//! factorization split into a reusable symbolic phase and a numeric phase.
//!
//! All numeric entries are `i64` values combined with wrapping (two's
//! complement) addition, subtraction and multiplication, and truncated
//! division; `scalar` defines that arithmetic and its algebraic laws.

pub mod scalar;
pub mod sums;
pub mod dense;
pub mod coo;
pub mod cs;
pub mod csc;
pub mod csr;
pub mod ops;
pub mod kernel_spec;
pub mod spmm_dense;
pub mod spadd;
pub mod spmm;
pub mod solve;
pub mod cholesky;
pub mod laws;
pub mod dvec;
pub mod reflection;
pub mod scale;

use vstd::prelude::*;

verus! {

/// An error in the structural data handed to a sparse-matrix constructor.
#[derive(Clone, Debug)]
pub enum SparseFormatError {
    /// The arrays describing the matrix do not form a valid structure
    /// (for example, lengths that must agree differ).
    InvalidStructure(&'static str),
    /// An index lies outside the bounds given by the matrix dimensions.
    IndexOutOfBounds(&'static str),
}

/// The kind of a failed sparse arithmetic operation.
#[derive(Clone, Copy, Debug, PartialEq, Eq, Structural)]
pub enum OperationErrorKind {
    /// The destination pattern cannot hold the result of the operation.
    InvalidPattern,
}

/// An error from a sparse arithmetic kernel.
#[derive(Clone, Debug)]
pub struct OperationError {
    pub kind: OperationErrorKind,
    pub message: &'static str,
}

impl OperationError {
    /// Wrap a kind and a message.
    pub fn from_kind_and_message(kind: OperationErrorKind, message: &'static str) -> (r:
        OperationError)
        ensures
            r.kind == kind,
            r.message == message,
    {
        OperationError { kind, message }
    }

    /// The kind of the failure.
    pub fn kind(&self) -> (r: OperationErrorKind)
        ensures
            r == self.kind,
    {
        self.kind
    }

    /// The human-readable message carried by the error.
    pub fn message(&self) -> (r: &'static str)
        ensures
            r == self.message,
    {
        self.message
    }
}

impl SparseFormatError {
    /// The human-readable message carried by the error.
    pub fn message(&self) -> (r: &'static str)
        ensures
            r == match *self {
                SparseFormatError::InvalidStructure(m) => m,
                SparseFormatError::IndexOutOfBounds(m) => m,
            },
    {
        match self {
            SparseFormatError::InvalidStructure(m) => m,
            SparseFormatError::IndexOutOfBounds(m) => m,
        }
    }
}

} // verus!
