//! A capacity-bounded, shardable directory of per-identity profile records.
//!
//! The directory stores one profile record per identity and a global
//! enumeration of which identities exist, split across fixed-capacity
//! partitions.  Only the identity that owns a record may mutate or delete
//! it, and the enumeration never silently exceeds its fixed record budget.

pub mod budget;
pub mod deriver;
pub mod directory;
pub mod errors;
pub mod identity;
pub mod laws;
pub mod model;
pub mod partition;
pub mod profile;
pub mod users_list;
