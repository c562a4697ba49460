//! Why an operation is refused.

use vstd::prelude::*;

verus! {

/// The reason for which an operation left the state as it was.
#[derive(Clone, Copy, Debug, PartialEq, Eq, Structural)]
pub enum Error {
    /// A byte string is longer than its limit.
    MetadataTooLong,
    /// A royalty is not below one hundred percent.
    RoyaltyOutOfRange,
    /// A priority list is not a permutation of the accepted resources.
    InvalidPriorityList,
    /// No class has the given identifier.
    ClassUnknown,
    /// No instance has the given identifier.
    InstanceUnknown,
    /// The instance has no resource of the given identifier.
    ResourceUnknown,
    /// The caller is neither the account that the operation asks for nor the
    /// protocol principal.
    PermissionDenied,
    /// The class is locked.
    ClassLocked,
    /// The class still has instances.
    CollectionNotEmpty,
    /// The resource has been accepted already.
    ResourceNotPending,
    /// The instance has a resource of the given identifier already.
    ResourceIdInUse,
    /// The counter cannot give another identifier.
    IdSpaceExhausted,
}

} // verus!
