use vstd::prelude::*;

verus! {

/// The kinds of failure the library reports.
#[derive(Clone, Copy, Debug, PartialEq, Eq, Structural)]
pub enum WeError {
    /// A record or entity that must exist is missing.
    NotFound,
    /// A link target or reference does not name a usable entity.
    InvalidReference,
    /// An entity was found, but it is not of the expected kind.
    TypeMismatch,
    /// An aggregation could not be computed (empty input, overflow).
    ComputationError,
    /// A write was refused.
    WriteFailure,
}

} // verus!
