//! A flat, capacity-bounded membership list.
//!
//! The list is an insertion-ordered sequence of identities stored in a
//! single storage unit whose byte budget is fixed at allocation time, so
//! exceeding the capacity is a hard, typed error, never a silent
//! truncation.

use vstd::prelude::*;
use crate::budget::MAX_USERS;
use crate::errors::MyError;
use crate::identity::{contains_identity, Identity};

verus! {

/// A bounded membership list: at most `MAX_USERS` identities, in
/// insertion order.
pub struct UsersList {
    /// The members, in insertion order.
    pub users: Vec<Identity>,
}

impl View for UsersList {
    type V = Seq<Identity>;

    open spec fn view(&self) -> Seq<Identity> {
        self.users@
    }
}

impl UsersList {
    /// The list never outgrows the byte budget its storage unit reserved.
    pub open spec fn wf(self) -> bool {
        self@.len() <= MAX_USERS
    }

    /// The empty list.
    pub fn new() -> (r: UsersList)
        ensures
            r@ == Seq::<Identity>::empty(),
    {
        UsersList { users: Vec::new() }
    }

    /// How many members the list holds.
    pub fn len(&self) -> (r: usize)
        ensures
            r == self@.len(),
    {
        self.users.len()
    }

    /// The member at position `i`.
    pub fn member_at(&self, i: usize) -> (r: Identity)
        requires
            i < self@.len(),
        ensures
            r == self@[i as int],
    {
        self.users[i]
    }

    /// Whether `id` is a member.
    pub fn contains_user(&self, id: Identity) -> (r: bool)
        ensures
            r == self@.contains(id),
    {
        contains_identity(&self.users, id)
    }

    /// Append `id`, failing with `UserListFull` when the list is at its
    /// fixed capacity; on failure the list is unchanged.
    pub fn add_user(&mut self, id: Identity) -> (r: Result<(), MyError>)
        ensures
            r is Ok <==> old(self)@.len() < MAX_USERS,
            r is Ok ==> final(self)@ == old(self)@.push(id),
            r is Err ==> r->Err_0 == MyError::UserListFull && final(self)@ == old(self)@,
    {
        if self.users.len() < MAX_USERS {
            self.users.push(id);
            Ok(())
        } else {
            Err(MyError::UserListFull)
        }
    }

    /// Remove the first (and, in a well-formed directory, only)
    /// occurrence of `id`; the result says whether it was present.
    /// Absence is not an error at this layer: the caller decides its
    /// significance.
    pub fn remove_user(&mut self, id: Identity) -> (r: bool)
        ensures
            r == old(self)@.contains(id),
            !r ==> final(self)@ == old(self)@,
            r ==> exists|i: int|
                0 <= i < old(self)@.len() && old(self)@[i] == id && (forall|j: int|
                    0 <= j < i ==> old(self)@[j] != id) && final(self)@ == old(self)@.remove(i),
    {
        let mut i: usize = 0;
        while i < self.users.len()
            invariant
                i <= self.users@.len(),
                self.users@ == old(self)@,
                forall|j: int| 0 <= j < i ==> self.users@[j] != id,
            decreases self.users@.len() - i,
        {
            if self.users[i] == id {
                assert(old(self)@[i as int] == id);
                self.users.remove(i);
                return true;
            }
            i = i + 1;
        }
        assert(!old(self)@.contains(id));
        false
    }
}

} // verus!
