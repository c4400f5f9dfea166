//! Partitions and the partition index.
//!
//! A partition is a bounded membership list belonging to a numeric shard
//! id.  The partition index is the ordered, capacity-bounded list of all
//! partitions; partition ids are assigned monotonically from 0 and a
//! partition's id always equals its position in the index.  Partitions are
//! never removed or merged: once a member leaves, the vacated slot is
//! simply available for a future member of that same partition.

use vstd::prelude::*;
use crate::budget::{MAX_PARTITIONS, MAX_USERS_PER_PARTITION};
use crate::errors::MyError;
use crate::identity::{distinct_seq, Identity};
use crate::users_list::UsersList;

verus! {

/// The mathematical value of one partition.
pub ghost struct PartView {
    /// The shard id; equals the partition's position in the index.
    pub id: int,
    /// The members, in insertion order.
    pub members: Seq<Identity>,
}

/// A capacity-bounded shard of the directory's membership enumeration.
pub struct Partition {
    /// The shard id, assigned monotonically starting at 0.
    pub id: u64,
    /// The membership list, at most `MAX_USERS_PER_PARTITION` identities.
    pub members: UsersList,
}

impl View for Partition {
    type V = PartView;

    open spec fn view(&self) -> PartView {
        PartView { id: self.id as int, members: self.members@ }
    }
}

impl Partition {
    /// A fresh, empty partition with shard id `id`.
    pub fn new(id: u64) -> (r: Partition)
        ensures
            r@ == (PartView { id: id as int, members: Seq::<Identity>::empty() }),
    {
        Partition { id, members: UsersList::new() }
    }

    /// Whether the membership list is at its fixed capacity.
    pub fn is_full(&self) -> (r: bool)
        ensures
            r == (self@.members.len() >= MAX_USERS_PER_PARTITION),
    {
        self.members.len() >= MAX_USERS_PER_PARTITION
    }

    /// How many members the partition holds.
    pub fn member_count(&self) -> (r: usize)
        ensures
            r == self@.members.len(),
    {
        self.members.len()
    }

    /// Append `id` to the membership list, failing with `PartitionFull`
    /// when the partition is at capacity; on failure the partition is
    /// unchanged.  The partition never silently spills into another one:
    /// the caller must create a new partition and retry there.
    pub fn add_member(&mut self, id: Identity) -> (r: Result<(), MyError>)
        ensures
            r is Ok <==> old(self)@.members.len() < MAX_USERS_PER_PARTITION,
            r is Ok ==> final(self)@ == (PartView {
                id: old(self)@.id,
                members: old(self)@.members.push(id),
            }),
            r is Err ==> r->Err_0 == MyError::PartitionFull && final(self)@ == old(self)@,
    {
        match self.members.add_user(id) {
            Ok(()) => Ok(()),
            Err(_) => Err(MyError::PartitionFull),
        }
    }

    /// Remove the first occurrence of `id` from the membership list; the
    /// result says whether it was present.
    pub fn remove_member(&mut self, id: Identity) -> (r: bool)
        ensures
            r == old(self)@.members.contains(id),
            final(self)@.id == old(self)@.id,
            !r ==> final(self)@ == old(self)@,
            r ==> exists|i: int|
                0 <= i < old(self)@.members.len() && old(self)@.members[i] == id && (forall|j: int|
                    0 <= j < i ==> old(self)@.members[j] != id) && final(self)@.members == old(
                    self,
                )@.members.remove(i),
    {
        self.members.remove_user(id)
    }
}

/// The partition index is well formed when it is within its capacity,
/// every partition's id equals its position, every membership list is
/// within its capacity, and no identity appears twice — neither within one
/// partition nor across two.
pub open spec fn index_wf(parts: Seq<PartView>) -> bool {
    &&& parts.len() <= MAX_PARTITIONS
    &&& forall|i: int| 0 <= i < parts.len() ==> (#[trigger] parts[i]).id == i
    &&& forall|i: int|
        0 <= i < parts.len() ==> (#[trigger] parts[i]).members.len() <= MAX_USERS_PER_PARTITION
    &&& forall|i: int| 0 <= i < parts.len() ==> distinct_seq((#[trigger] parts[i]).members)
    &&& forall|i: int, j: int, x: Identity|
        0 <= i < parts.len() && 0 <= j < parts.len() && i != j && (
        #[trigger] parts[i].members.contains(x)) ==> !(#[trigger] parts[j].members.contains(x))
}

/// The ordered list of all partitions, itself capacity-bounded.  Created
/// once at system initialization; partitions are only ever appended.
pub struct PartitionIndex {
    /// The partitions, in shard-id order.
    pub partitions: Vec<Partition>,
}

impl View for PartitionIndex {
    type V = Seq<PartView>;

    open spec fn view(&self) -> Seq<PartView> {
        self.partitions@.map_values(|p: Partition| p@)
    }
}

impl PartitionIndex {
    /// The empty index.
    pub fn new() -> (r: PartitionIndex)
        ensures
            r@ == Seq::<PartView>::empty(),
    {
        let r = PartitionIndex { partitions: Vec::new() };
        proof {
            assert(r@ =~= Seq::<PartView>::empty());
        }
        r
    }

    /// How many partitions exist.
    pub fn partition_count(&self) -> (r: usize)
        ensures
            r == self@.len(),
    {
        self.partitions.len()
    }

    /// Allocate a new, empty partition with the next shard id and append
    /// it to the index; fails with `MaxPartitionsReached` when the index
    /// is at its fixed capacity, leaving the index unchanged.  The
    /// allocation and the append are one step: a partition that exists
    /// but is not indexed, or vice versa, can never be observed.
    pub fn create_partition(&mut self) -> (r: Result<u64, MyError>)
        ensures
            r is Ok <==> old(self)@.len() < MAX_PARTITIONS,
            r is Ok ==> r->Ok_0 == old(self)@.len() && final(self)@ == old(self)@.push(
                (PartView { id: old(self)@.len() as int, members: Seq::<Identity>::empty() }),
            ),
            r is Err ==> r->Err_0 == MyError::MaxPartitionsReached && final(self)@ == old(self)@,
    {
        if self.partitions.len() < MAX_PARTITIONS {
            let id = self.partitions.len() as u64;
            self.partitions.push(Partition::new(id));
            proof {
                assert(final(self)@ =~= old(self)@.push(
                    (PartView { id: old(self)@.len() as int, members: Seq::<Identity>::empty() }),
                ));
            }
            Ok(id)
        } else {
            Err(MyError::MaxPartitionsReached)
        }
    }

    /// Append `id` to the membership of the current (highest-id)
    /// partition, failing with `PartitionFull` when that partition is at
    /// capacity; on failure the index is unchanged.
    pub fn add_member_to_last(&mut self, id: Identity) -> (r: Result<(), MyError>)
        requires
            old(self)@.len() > 0,
        ensures
            r is Ok <==> old(self)@.last().members.len() < MAX_USERS_PER_PARTITION,
            r is Ok ==> final(self)@ == old(self)@.update(
                old(self)@.len() - 1,
                (PartView {
                    id: old(self)@.last().id,
                    members: old(self)@.last().members.push(id),
                }),
            ),
            r is Err ==> r->Err_0 == MyError::PartitionFull && final(self)@ == old(self)@,
    {
        let n = self.partitions.len();
        let mut part = self.partitions.remove(n - 1);
        let res = part.add_member(id);
        self.partitions.push(part);
        proof {
            if res is Ok {
                assert(final(self)@ =~= old(self)@.update(
                    old(self)@.len() - 1,
                    (PartView {
                        id: old(self)@.last().id,
                        members: old(self)@.last().members.push(id),
                    }),
                ));
            } else {
                assert(final(self)@ =~= old(self)@);
            }
        }
        res
    }
}

} // verus!
