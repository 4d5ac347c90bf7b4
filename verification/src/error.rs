//! The error type shared by every repository operation.

use vstd::prelude::*;

verus! {

/// The ways a repository operation can fail: a lookup or a path that yielded
/// nothing, or an underlying I/O failure reported by the caller's environment.
#[derive(Debug, PartialEq, Eq)]
pub enum WorkflowError {
    NotFound(String),
    IoError(String),
}

pub type WorkflowResult<T> = Result<T, WorkflowError>;

/// A newtype wrapper, available to callers that need to tell a value apart
/// from others of the same type.
pub struct W<A>(A);

} // verus!
