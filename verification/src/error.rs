//! Typed failures reported synchronously to the immediate caller. An
//! operation either fully succeeds or fails as a whole; partial results are
//! never returned.

use vstd::prelude::*;

verus! {

/// Error taxonomy of the execution layer.
///
/// - `TypeError`: an operand has a logical type unsupported by the
///   requested aggregate or frame bound.
/// - `ValueError`: a structurally invalid request, such as a missing
///   partition-by list or mismatched join key lists.
/// - `SchemaMismatch`: incompatible columns between two joined tables where
///   no common supertype exists.
#[derive(Clone, Debug)]
pub enum DaftError {
    TypeError(String),
    ValueError(String),
    SchemaMismatch(String),
}

impl DaftError {
    /// The human-readable message carried by the error.
    pub fn message(&self) -> (r: &String)
        ensures
            r@ == self.spec_message(),
    {
        match self {
            DaftError::TypeError(m) => m,
            DaftError::ValueError(m) => m,
            DaftError::SchemaMismatch(m) => m,
        }
    }

    pub open spec fn spec_message(self) -> Seq<char> {
        match self {
            DaftError::TypeError(m) => m@,
            DaftError::ValueError(m) => m@,
            DaftError::SchemaMismatch(m) => m@,
        }
    }
}

pub type DaftResult<T> = Result<T, DaftError>;

} // verus!
