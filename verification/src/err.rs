//! Error taxonomy of the core: recoverable encoding and uniqueness failures,
//! the internal prefix-consistency fault, and the fatal buffer-protocol
//! violation.

use vstd::prelude::*;

verus! {

#[derive(Debug, Clone, PartialEq, Eq)]
pub enum StdError {
    /// Malformed key, value, context or message bytes. Recoverable: surfaced
    /// to the caller.
    Encoding,
    /// A scanned raw key does not carry the expected namespace prefix. This
    /// implies a storage-capability bug, not a caller mistake.
    PrefixMismatch,
    /// A uniqueness-constrained collection was built from duplicate elements.
    DuplicateData,
    /// A key the caller asserted to exist does not.
    NotFound,
    /// Double consume, write past capacity or an unknown buffer handle. The
    /// binding memory invariant is broken; the call must be aborted.
    BufferProtocolViolation,
}

impl StdError {
    /// Human-readable description; the closest this crate comes to `Display`.
    pub fn message(&self) -> (r: String)
        ensures
            *self is DuplicateData ==> r@ == "duplicate data found!"@,
            *self is Encoding ==> r@ == "invalid encoding"@,
            *self is PrefixMismatch ==> r@ == "namespace prefix mismatch"@,
            *self is NotFound ==> r@ == "data not found"@,
            *self is BufferProtocolViolation ==> r@ == "buffer protocol violation"@,
    {
        match self {
            StdError::Encoding => String::from_str("invalid encoding"),
            StdError::PrefixMismatch => String::from_str("namespace prefix mismatch"),
            StdError::DuplicateData => String::from_str("duplicate data found!"),
            StdError::NotFound => String::from_str("data not found"),
            StdError::BufferProtocolViolation => String::from_str("buffer protocol violation"),
        }
    }
}

pub type StdResult<T> = Result<T, StdError>;

} // verus!
