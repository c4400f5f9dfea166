//! The directory service: the ownership-gated CRUD protocol over the
//! partition index and the profile record store.
//!
//! The directory is the single owned resource every operation works on.
//! Every mutating call either completes and commits, or fails and leaves
//! all state unchanged; there is no partially applied state.  The caller
//! identity each operation receives is trusted to have been authenticated
//! by the transport layer; the directory performs only the
//! ownership-equality check.

use vstd::prelude::*;
use crate::budget::{
    MAX_AVATAR_LEN, MAX_DESCRIPTION_LEN, MAX_EMAIL_LEN, MAX_FOLLOWING_LEN, MAX_NICKNAME_LEN,
    MAX_PIC_LEN, MAX_TWITTER_LEN, MAX_WEBSITE_LEN,
};
use crate::errors::MyError;
use crate::identity::Identity;
use crate::model::{
    create_step, delete_step, follow_step, has_owner, init_step, lemma_create_preserves_wf,
    lemma_delete_preserves_wf, lemma_first_index_matches, lemma_follow_preserves_wf,
    lemma_init_preserves_wf, lemma_owner_index_unique, lemma_update_preserves_wf, profile_of,
    update_step, DirView,
};
use crate::partition::{PartView, PartitionIndex};
use crate::profile::{ProfileFields, ProfileView, UpdateFields, UserProfile};

verus! {

/// The directory service's whole state: the one-time-initialized
/// partition index and the profile record store.
pub struct Directory {
    /// Whether the one-time initialization has happened.
    pub is_initialized: bool,
    /// The partition index; meaningful only once initialized.
    pub index: PartitionIndex,
    /// The profile record store, one record per identity.
    pub profiles: Vec<UserProfile>,
}

impl View for Directory {
    type V = DirView;

    open spec fn view(&self) -> DirView {
        DirView {
            initialized: self.is_initialized,
            partitions: if self.is_initialized {
                self.index@
            } else {
                Seq::empty()
            },
            profiles: self.profiles@.map_values(|p: UserProfile| p@),
        }
    }
}

/// The position of the record owned by `id`, if one exists.
fn find_profile_index(profiles: &Vec<UserProfile>, id: Identity) -> (r: Option<usize>)
    ensures
        r is Some <==> has_owner(profiles@.map_values(|p: UserProfile| p@), id),
        r matches Some(i) ==> i < profiles@.len() && profiles@[i as int].owner == id,
{
    let ghost pv = profiles@.map_values(|p: UserProfile| p@);
    let mut i: usize = 0;
    while i < profiles.len()
        invariant
            i <= profiles@.len(),
            pv == profiles@.map_values(|p: UserProfile| p@),
            forall|j: int| 0 <= j < i ==> profiles@[j].owner != id,
        decreases profiles@.len() - i,
    {
        if profiles[i].owner == id {
            proof {
                assert(pv[i as int].owner == id);
            }
            return Some(i);
        }
        i = i + 1;
    }
    proof {
        assert forall|j: int| 0 <= j < pv.len() implies (#[trigger] pv[j]).owner != id by {
            assert(pv[j] == profiles@[j]@);
        }
    }
    None
}

impl Directory {
    /// A directory that has not been initialized yet: no partitions, no
    /// records.
    pub fn new() -> (r: Directory)
        ensures
            r@ == (DirView {
                initialized: false,
                partitions: Seq::<PartView>::empty(),
                profiles: Seq::<ProfileView>::empty(),
            }),
            r@.sound(),
    {
        let r = Directory {
            is_initialized: false,
            index: PartitionIndex::new(),
            profiles: Vec::new(),
        };
        proof {
            assert(r@.profiles =~= Seq::<ProfileView>::empty());
            assert(r@ == (DirView {
                initialized: false,
                partitions: Seq::<PartView>::empty(),
                profiles: Seq::<ProfileView>::empty(),
            }));
        }
        r
    }

    /// One-time initialization: create the empty partition index.  Fails
    /// with `AlreadyInitialized` on a directory that was initialized
    /// before: re-running would reset the enumeration while records still
    /// reference the old partition ids.
    pub fn initialize(&mut self) -> (r: Result<(), MyError>)
        ensures
            final(self)@ == init_step(old(self)@).0,
            r == init_step(old(self)@).1,
            r is Ok <==> !old(self)@.initialized,
            old(self)@.sound() && !old(self)@.initialized ==> final(self)@.wf(),
            old(self)@.wf() ==> final(self)@.wf(),
    {
        if self.is_initialized {
            return Err(MyError::AlreadyInitialized);
        }
        self.index = PartitionIndex::new();
        self.is_initialized = true;
        proof {
            assert(final(self)@.partitions =~= old(self)@.partitions);
            assert(final(self)@.profiles =~= old(self)@.profiles);
            assert(final(self)@ == init_step(old(self)@).0);
            if old(self)@.sound() {
                lemma_init_preserves_wf(old(self)@);
            }
        }
        Ok(())
    }

    /// How many partitions the directory holds.
    pub fn partition_count(&self) -> (r: usize)
        ensures
            r == self@.partitions.len(),
    {
        if self.is_initialized {
            self.index.partition_count()
        } else {
            0
        }
    }

    /// How many profile records exist.
    pub fn profile_count(&self) -> (r: usize)
        ensures
            r == self@.profiles.len(),
    {
        self.profiles.len()
    }

    /// The record owned by `id`, if one exists.
    pub fn get_profile(&self, id: Identity) -> (r: Option<&UserProfile>)
        requires
            self@.sound(),
        ensures
            r is Some <==> has_owner(self@.profiles, id),
            r matches Some(p) ==> p@ == profile_of(self@.profiles, id),
    {
        match find_profile_index(&self.profiles, id) {
            Some(i) => {
                proof {
                    lemma_owner_index_unique(self@.profiles, id, i as int);
                }
                Some(&self.profiles[i])
            },
            None => None,
        }
    }

    /// Register `caller`: create its profile record and append it to the
    /// membership of the current partition, creating a new partition
    /// first when the current one is full or none exists.  Fails with
    /// `ProfileAlreadyExists` when a record for `caller` exists, and with
    /// `MaxPartitionsReached` when the partition ceiling is also hit; on
    /// failure nothing changes.
    pub fn create_profile(
        &mut self,
        caller: Identity,
        nickname: String,
        description: String,
        twitter_link: String,
        website_link: String,
        email: String,
        pic: String,
        avatar: String,
        registration_time: i64,
    ) -> (r: Result<(), MyError>)
        requires
            old(self)@.wf(),
            old(self)@.initialized,
            nickname@.len() <= MAX_NICKNAME_LEN,
            description@.len() <= MAX_DESCRIPTION_LEN,
            twitter_link@.len() <= MAX_TWITTER_LEN,
            website_link@.len() <= MAX_WEBSITE_LEN,
            email@.len() <= MAX_EMAIL_LEN,
            pic@.len() <= MAX_PIC_LEN,
            avatar@.len() <= MAX_AVATAR_LEN,
        ensures
            ({
                let f = ProfileFields {
                    nickname: nickname@,
                    description: description@,
                    twitter_link: twitter_link@,
                    website_link: website_link@,
                    email: email@,
                    pic: pic@,
                    avatar: avatar@,
                };
                &&& final(self)@ == create_step(
                    old(self)@,
                    caller,
                    f,
                    registration_time as int,
                ).0
                &&& r == create_step(old(self)@, caller, f, registration_time as int).1
            }),
            final(self)@.wf(),
            r is Ok ==> has_owner(final(self)@.profiles, caller),
    {
        let ghost f = ProfileFields {
            nickname: nickname@,
            description: description@,
            twitter_link: twitter_link@,
            website_link: website_link@,
            email: email@,
            pic: pic@,
            avatar: avatar@,
        };
        proof {
            lemma_create_preserves_wf(old(self)@, caller, f, registration_time as int);
        }
        if find_profile_index(&self.profiles, caller).is_some() {
            return Err(MyError::ProfileAlreadyExists);
        }
        // Resolve the target partition: always the one with the highest
        // id, creating a new one first when that one is full.
        let n = self.index.partition_count();
        if n == 0 || self.index.partitions[n - 1].is_full() {
            match self.index.create_partition() {
                Ok(_) => (),
                Err(e) => {
                    return Err(e);
                },
            }
        }
        let res = self.index.add_member_to_last(caller);
        if res.is_err() {
            // The resolved partition always has room: it is either fresh
            // or was checked to have a free slot.
            return Err(MyError::PartitionFull);
        }
        let pid = (self.index.partition_count() - 1) as u64;
        let profile = UserProfile::new(
            caller,
            nickname,
            description,
            twitter_link,
            website_link,
            email,
            pic,
            avatar,
            registration_time,
            pid,
        );
        self.profiles.push(profile);
        proof {
            let t = create_step(old(self)@, caller, f, registration_time as int).0;
            assert(final(self)@.partitions =~= t.partitions);
            assert(final(self)@.profiles =~= t.profiles);
            assert(final(self)@.profiles[old(self)@.profiles.len() as int].owner == caller);
        }
        Ok(())
    }

    /// Add `target_user` to the following set of the presented record.
    /// Idempotent: following an already-followed identity is a silent
    /// no-op.  The target need not itself be registered.  Fails with
    /// `Unauthorized`, changing nothing, when `caller` is not the
    /// record's stored owner.
    pub fn follow_user(
        &mut self,
        caller: Identity,
        record_owner: Identity,
        target_user: Identity,
    ) -> (r: Result<(), MyError>)
        requires
            old(self)@.wf(),
            has_owner(old(self)@.profiles, record_owner),
            profile_of(old(self)@.profiles, record_owner).following.len() < MAX_FOLLOWING_LEN
                || profile_of(old(self)@.profiles, record_owner).following.contains(target_user),
        ensures
            final(self)@ == follow_step(old(self)@, caller, record_owner, target_user).0,
            r == follow_step(old(self)@, caller, record_owner, target_user).1,
            r is Ok <==> caller == profile_of(old(self)@.profiles, record_owner).owner,
            final(self)@.wf(),
    {
        proof {
            lemma_follow_preserves_wf(old(self)@, caller, record_owner, target_user);
        }
        let i = match find_profile_index(&self.profiles, record_owner) {
            Some(i) => i,
            None => {
                return Err(MyError::Unauthorized);
            },
        };
        proof {
            lemma_owner_index_unique(old(self)@.profiles, record_owner, i as int);
        }
        let mut p = self.profiles.remove(i);
        let res = p.follow(caller, target_user);
        self.profiles.insert(i, p);
        proof {
            let t = follow_step(old(self)@, caller, record_owner, target_user).0;
            assert(final(self)@.profiles =~= t.profiles);
            assert(final(self)@.partitions =~= t.partitions);
        }
        res
    }

    /// Overwrite each field for which a new value is supplied; leave
    /// every absent field unchanged.  Fails with `Unauthorized`, changing
    /// nothing, when `caller` is not the record's stored owner.
    pub fn update_profile(
        &mut self,
        caller: Identity,
        record_owner: Identity,
        nickname: Option<String>,
        description: Option<String>,
        twitter_link: Option<String>,
        website_link: Option<String>,
        email: Option<String>,
        pic: Option<String>,
        avatar: Option<String>,
    ) -> (r: Result<(), MyError>)
        requires
            old(self)@.wf(),
            has_owner(old(self)@.profiles, record_owner),
            nickname matches Some(s) ==> s@.len() <= MAX_NICKNAME_LEN,
            description matches Some(s) ==> s@.len() <= MAX_DESCRIPTION_LEN,
            twitter_link matches Some(s) ==> s@.len() <= MAX_TWITTER_LEN,
            website_link matches Some(s) ==> s@.len() <= MAX_WEBSITE_LEN,
            email matches Some(s) ==> s@.len() <= MAX_EMAIL_LEN,
            pic matches Some(s) ==> s@.len() <= MAX_PIC_LEN,
            avatar matches Some(s) ==> s@.len() <= MAX_AVATAR_LEN,
        ensures
            ({
                let u = UpdateFields {
                    nickname: nickname.deep_view(),
                    description: description.deep_view(),
                    twitter_link: twitter_link.deep_view(),
                    website_link: website_link.deep_view(),
                    email: email.deep_view(),
                    pic: pic.deep_view(),
                    avatar: avatar.deep_view(),
                };
                &&& final(self)@ == update_step(old(self)@, caller, record_owner, u).0
                &&& r == update_step(old(self)@, caller, record_owner, u).1
            }),
            r is Ok <==> caller == profile_of(old(self)@.profiles, record_owner).owner,
            final(self)@.wf(),
    {
        let ghost u = UpdateFields {
            nickname: nickname.deep_view(),
            description: description.deep_view(),
            twitter_link: twitter_link.deep_view(),
            website_link: website_link.deep_view(),
            email: email.deep_view(),
            pic: pic.deep_view(),
            avatar: avatar.deep_view(),
        };
        proof {
            lemma_update_preserves_wf(old(self)@, caller, record_owner, u);
        }
        let i = match find_profile_index(&self.profiles, record_owner) {
            Some(i) => i,
            None => {
                return Err(MyError::Unauthorized);
            },
        };
        proof {
            lemma_owner_index_unique(old(self)@.profiles, record_owner, i as int);
        }
        let mut p = self.profiles.remove(i);
        let res = p.update(
            caller,
            nickname,
            description,
            twitter_link,
            website_link,
            email,
            pic,
            avatar,
        );
        self.profiles.insert(i, p);
        proof {
            let t = update_step(old(self)@, caller, record_owner, u).0;
            assert(final(self)@.profiles =~= t.profiles);
            assert(final(self)@.partitions =~= t.partitions);
        }
        res
    }

    /// Destroy the presented record and remove its owner from its
    /// partition's membership, both in one step; storage is reclaimed by
    /// the caller that paid for it.  Fails with `Unauthorized`, changing
    /// nothing, when `caller` is not the record's stored owner; fails
    /// with `UserNotFoundInPartition`, changing nothing, when the
    /// record's partition does not list the owner — a violated internal
    /// invariant that can never arise from the verified operations alone.
    pub fn delete_profile(&mut self, caller: Identity, record_owner: Identity) -> (r: Result<
        (),
        MyError,
    >)
        requires
            old(self)@.sound(),
            has_owner(old(self)@.profiles, record_owner),
        ensures
            final(self)@ == delete_step(old(self)@, caller, record_owner).0,
            r == delete_step(old(self)@, caller, record_owner).1,
            old(self)@.wf() ==> final(self)@.wf(),
            old(self)@.wf() ==> (r is Ok <==> caller == profile_of(
                old(self)@.profiles,
                record_owner,
            ).owner),
    {
        proof {
            if old(self)@.wf() {
                lemma_delete_preserves_wf(old(self)@, caller, record_owner);
            }
        }
        let i = match find_profile_index(&self.profiles, record_owner) {
            Some(i) => i,
            None => {
                return Err(MyError::Unauthorized);
            },
        };
        proof {
            lemma_owner_index_unique(old(self)@.profiles, record_owner, i as int);
        }
        if !(self.profiles[i].owner == caller) {
            return Err(MyError::Unauthorized);
        }
        let pid = self.profiles[i].partition_id as usize;
        // Remove the owner from the partition its record names; absence
        // there means the two structures drifted out of lockstep.
        let mut part = self.index.partitions.remove(pid);
        let was_member = part.remove_member(caller);
        self.index.partitions.insert(pid, part);
        if !was_member {
            proof {
                assert(final(self)@.partitions =~= old(self)@.partitions);
                assert(final(self)@.profiles =~= old(self)@.profiles);
            }
            return Err(MyError::UserNotFoundInPartition);
        }
        let _removed = self.profiles.remove(i);
        proof {
            let s = old(self)@;
            let members = s.partitions[s.profiles[i as int].partition_id].members;
            let k = choose|k: int|
                0 <= k < members.len() && members[k] == caller && (forall|j: int|
                    0 <= j < k ==> members[j] != caller) && part@.members == members.remove(k);
            lemma_first_index_matches(members, caller, k);
            let t = delete_step(s, caller, record_owner).0;
            assert(final(self)@.partitions =~= t.partitions);
            assert(final(self)@.profiles =~= t.profiles);
        }
        Ok(())
    }
}

} // verus!
