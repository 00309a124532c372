//! The ways an operation of this library can fail.

use vstd::prelude::*;

verus! {

/// Why an operation failed.
#[derive(Debug, Clone, Copy, PartialEq, Eq, Structural)]
pub enum CoopError {
    /// A declared root is not the root that tracing the lineage finds, or the
    /// lineage passes a record that is neither a create nor an update.
    LineageMismatch,
    /// The acting agent may not make this write.
    Unauthorized,
    /// A link tag does not have the `a:b` shape, or a side is not a hash.
    MalformedTag,
    /// A referenced record or anchor is absent.
    NotFound,
    /// Following pointers came back to a record already visited.
    CycleDetected,
    /// A group would be left without admins.
    EmptyAdminSet,
}

} // verus!
