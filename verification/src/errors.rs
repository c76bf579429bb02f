//! The error type shared by the core subsystems.

use vstd::prelude::*;

verus! {

/// Structural size error: an operation was attempted on a collection that
/// must be non-empty (a Merkle level, the built tree when reading the root,
/// the worker count of a pool).
#[derive(Debug, Clone, Copy)]
pub struct SizeError {
    pub msg: &'static str,
}

impl SizeError {
    /// Builds a size error carrying the human-readable cause.
    pub fn new(msg: &'static str) -> (r: SizeError)
        ensures
            r.msg@ == msg@,
    {
        SizeError { msg }
    }

    /// The human-readable cause of the error.
    pub fn message(&self) -> (r: &'static str)
        ensures
            r@ == self.msg@,
    {
        self.msg
    }
}

} // verus!
