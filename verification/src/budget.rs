//! The storage-unit budget calculator.
//!
//! When a storage unit for a record is first allocated, it must reserve the
//! worst-case serialized byte size of that record, computed from the maximum
//! length declared for every variable-length field.  Under-reservation would
//! corrupt adjacent storage on a later write; the policy therefore always
//! rounds up to the field's declared maximum, never to an observed value.
//!
//! The wire encoding reserves, for every bounded string, a length prefix
//! plus one byte per character of the declared maximum, and for every
//! bounded collection a length prefix plus the element size times the
//! declared maximum element count.

use vstd::prelude::*;

verus! {

/// Bytes of the length prefix the wire encoding puts before every
/// variable-length field.
pub const LEN_PREFIX_BYTES: usize = 4;

/// Width in bytes of an identity (a raw public key), and so of every
/// stored address.
pub const IDENTITY_BYTES: usize = 32;

/// Width in bytes of a registration timestamp.
pub const TIMESTAMP_BYTES: usize = 8;

/// Width in bytes of a partition id.
pub const PARTITION_ID_BYTES: usize = 8;

/// Maximum length of a profile's nickname.
pub const MAX_NICKNAME_LEN: usize = 32;

/// Maximum length of a profile's description.
pub const MAX_DESCRIPTION_LEN: usize = 256;

/// Maximum length of a profile's social media link.
pub const MAX_TWITTER_LEN: usize = 64;

/// Maximum length of a profile's website link.
pub const MAX_WEBSITE_LEN: usize = 64;

/// Maximum length of a profile's contact address.
pub const MAX_EMAIL_LEN: usize = 64;

/// Maximum length of a profile's picture reference.
pub const MAX_PIC_LEN: usize = 64;

/// Maximum length of a profile's avatar reference.
pub const MAX_AVATAR_LEN: usize = 64;

/// Maximum number of identities a profile may follow.
pub const MAX_FOLLOWING_LEN: usize = 32;

/// Maximum number of members of a flat membership list.
pub const MAX_USERS: usize = 250;

/// Maximum number of members of one partition.
pub const MAX_USERS_PER_PARTITION: usize = MAX_USERS;

/// Maximum number of partitions the partition index may hold.
pub const MAX_PARTITIONS: usize = 8;

/// Byte budget of a profile record's storage unit.
pub const USER_PROFILE_MAX_SIZE: usize = IDENTITY_BYTES + TIMESTAMP_BYTES + (
    LEN_PREFIX_BYTES + MAX_NICKNAME_LEN) + (LEN_PREFIX_BYTES + MAX_DESCRIPTION_LEN) + (
    LEN_PREFIX_BYTES + MAX_TWITTER_LEN) + (LEN_PREFIX_BYTES + MAX_WEBSITE_LEN) + (LEN_PREFIX_BYTES
    + MAX_EMAIL_LEN) + (LEN_PREFIX_BYTES + MAX_PIC_LEN) + (LEN_PREFIX_BYTES + MAX_AVATAR_LEN) + (
    LEN_PREFIX_BYTES + IDENTITY_BYTES * MAX_FOLLOWING_LEN) + PARTITION_ID_BYTES;

/// Byte budget of a flat membership list's storage unit.
pub const USERS_LIST_MAX_SIZE: usize = LEN_PREFIX_BYTES + IDENTITY_BYTES * MAX_USERS;

/// Byte budget of a partition's storage unit.
pub const PARTITION_MAX_SIZE: usize = PARTITION_ID_BYTES + LEN_PREFIX_BYTES + IDENTITY_BYTES
    * MAX_USERS_PER_PARTITION;

/// Byte budget of the partition index's storage unit: a bounded list of
/// 32-byte partition addresses.
pub const PARTITION_INDEX_MAX_SIZE: usize = LEN_PREFIX_BYTES + IDENTITY_BYTES * MAX_PARTITIONS;

/// Bytes to reserve for one bounded string field of maximum length
/// `max_len`.
pub fn string_field_budget(max_len: usize) -> (r: usize)
    requires
        max_len <= usize::MAX - LEN_PREFIX_BYTES,
    ensures
        r == LEN_PREFIX_BYTES + max_len,
{
    LEN_PREFIX_BYTES + max_len
}

/// Bytes to reserve for one bounded collection field of at most
/// `max_elems` elements of `elem_bytes` bytes each.
pub fn collection_field_budget(max_elems: usize, elem_bytes: usize) -> (r: usize)
    requires
        LEN_PREFIX_BYTES + max_elems * elem_bytes <= usize::MAX,
    ensures
        r == LEN_PREFIX_BYTES + max_elems * elem_bytes,
{
    LEN_PREFIX_BYTES + max_elems * elem_bytes
}

/// The fixed byte budget a profile record's storage unit must reserve,
/// composed from the declared maxima of every field.
pub fn user_profile_space() -> (r: usize)
    ensures
        r == USER_PROFILE_MAX_SIZE,
{
    let strings = string_field_budget(MAX_NICKNAME_LEN) + string_field_budget(MAX_DESCRIPTION_LEN)
        + string_field_budget(MAX_TWITTER_LEN) + string_field_budget(MAX_WEBSITE_LEN)
        + string_field_budget(MAX_EMAIL_LEN) + string_field_budget(MAX_PIC_LEN)
        + string_field_budget(MAX_AVATAR_LEN);
    IDENTITY_BYTES + TIMESTAMP_BYTES + strings + collection_field_budget(
        MAX_FOLLOWING_LEN,
        IDENTITY_BYTES,
    ) + PARTITION_ID_BYTES
}

/// The fixed byte budget a flat membership list's storage unit must
/// reserve.
pub fn users_list_space() -> (r: usize)
    ensures
        r == USERS_LIST_MAX_SIZE,
{
    collection_field_budget(MAX_USERS, IDENTITY_BYTES)
}

/// The fixed byte budget a partition's storage unit must reserve.
pub fn partition_space() -> (r: usize)
    ensures
        r == PARTITION_MAX_SIZE,
{
    PARTITION_ID_BYTES + collection_field_budget(MAX_USERS_PER_PARTITION, IDENTITY_BYTES)
}

/// The fixed byte budget the partition index's storage unit must reserve.
pub fn partition_index_space() -> (r: usize)
    ensures
        r == PARTITION_INDEX_MAX_SIZE,
{
    collection_field_budget(MAX_PARTITIONS, IDENTITY_BYTES)
}

} // verus!
