use vstd::prelude::*;

verus! {

/// Ways in which an operation on the store can fail.
#[derive(Debug, Clone, Copy, PartialEq, Eq, Structural)]
pub enum MibError {
    /// The name or path does not resolve to a position under the root.
    NotFound,
    /// A path segment is not representable as text.
    InvalidEncoding,
    /// A leaf operation was asked of a container.
    InvalidOperation,
    /// The store refused access.
    PermissionDenied,
    /// An entry of an unhandled type was met, or the operation is not offered.
    Unsupported,
    /// Any other failure reported by the store.
    Other,
}

} // verus!
