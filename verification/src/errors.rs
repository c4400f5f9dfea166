//! The error taxonomy of the directory service.

use vstd::prelude::*;

verus! {

/// Every way an operation of the directory service can be rejected.
///
/// Authorization errors (`Unauthorized`) mean the caller does not own the
/// targeted record.  Capacity errors (`UserListFull`, `PartitionFull`,
/// `MaxPartitionsReached`) mean a structural ceiling was reached; the
/// operation is rejected with no partial state change.  Existence errors
/// (`ProfileAlreadyExists`, `AddressDerivationFailed`, `AlreadyInitialized`)
/// mean a precondition was violated.  `UserNotFoundInPartition` signals a
/// violated internal invariant: a record claims membership in a partition
/// that does not list its owner.
#[derive(Clone, Copy, Debug, PartialEq, Eq, Structural)]
pub enum MyError {
    /// The caller is not the owner of the record it tried to mutate.
    Unauthorized,
    /// A flat membership list is at its fixed capacity.
    UserListFull,
    /// The targeted partition's membership list is at its fixed capacity.
    PartitionFull,
    /// The partition index is at its fixed capacity; no partition can be added.
    MaxPartitionsReached,
    /// A profile record already exists for this identity.
    ProfileAlreadyExists,
    /// The backing address space rejected the derived address.
    AddressDerivationFailed,
    /// The directory was already initialized; re-initialization is refused.
    AlreadyInitialized,
    /// A record's partition does not list the record's owner as a member.
    UserNotFoundInPartition,
}

impl MyError {
    /// A short stable name for the error, for logging by unverified callers.
    pub fn name(&self) -> (r: &'static str)
        ensures
            r@.len() > 0,
    {
        proof {
            reveal_strlit("unauthorized");
            reveal_strlit("user list is full");
            reveal_strlit("partition is full");
            reveal_strlit("maximum number of partitions reached");
            reveal_strlit("profile already exists");
            reveal_strlit("address derivation failed");
            reveal_strlit("already initialized");
            reveal_strlit("user not found in partition");
        }
        match self {
            MyError::Unauthorized => "unauthorized",
            MyError::UserListFull => "user list is full",
            MyError::PartitionFull => "partition is full",
            MyError::MaxPartitionsReached => "maximum number of partitions reached",
            MyError::ProfileAlreadyExists => "profile already exists",
            MyError::AddressDerivationFailed => "address derivation failed",
            MyError::AlreadyInitialized => "already initialized",
            MyError::UserNotFoundInPartition => "user not found in partition",
        }
    }
}

} // verus!
