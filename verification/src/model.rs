//! The mathematical model of the directory service.
//!
//! A directory state is a flag saying whether the one-time initialization
//! has happened, the ordered partitions, and the profile record store.
//! Every public operation of [`crate::directory::Directory`] is specified
//! as a pure transition function over this model, and the laws of the
//! service are proved about those transitions.

use vstd::prelude::*;
use crate::budget::{MAX_FOLLOWING_LEN, MAX_PARTITIONS, MAX_USERS_PER_PARTITION};
use crate::errors::MyError;
use crate::identity::{distinct_seq, Identity};
use crate::partition::{index_wf, PartView};
use crate::profile::{
    fields_wf, follow_result, fresh_profile, updated_view, updates_wf, ProfileFields, ProfileView,
    UpdateFields,
};

verus! {

/// The mathematical value of a whole directory.
pub ghost struct DirView {
    /// Whether the one-time initialization has happened.
    pub initialized: bool,
    /// All partitions, in shard-id order.
    pub partitions: Seq<PartView>,
    /// All profile records, in creation order.
    pub profiles: Seq<ProfileView>,
}

/// No two records share an owner: exactly one record exists per identity.
pub open spec fn unique_owners(profiles: Seq<ProfileView>) -> bool {
    forall|i: int, j: int|
        0 <= i < j < profiles.len() ==> (#[trigger] profiles[i]).owner != (
        #[trigger] profiles[j]).owner
}

/// Whether a record owned by `id` exists.
pub open spec fn has_owner(profiles: Seq<ProfileView>, id: Identity) -> bool {
    exists|i: int| 0 <= i < profiles.len() && (#[trigger] profiles[i]).owner == id
}

/// The position of the record owned by `id`; meaningful only when such a
/// record exists (and then unique, since owners are).
pub open spec fn owner_index(profiles: Seq<ProfileView>, id: Identity) -> int {
    choose|i: int| 0 <= i < profiles.len() && (#[trigger] profiles[i]).owner == id
}

/// The record owned by `id`; meaningful only when such a record exists.
pub open spec fn profile_of(profiles: Seq<ProfileView>, id: Identity) -> ProfileView {
    profiles[owner_index(profiles, id)]
}

/// Whether a record owned by `id` exists and claims membership in
/// partition `pid`.
pub open spec fn record_in_partition(profiles: Seq<ProfileView>, id: Identity, pid: int) -> bool {
    exists|i: int|
        0 <= i < profiles.len() && (#[trigger] profiles[i]).owner == id && profiles[i].partition_id
            == pid
}

/// Whether `x` is listed as a member of any partition.
pub open spec fn member_somewhere(parts: Seq<PartView>, x: Identity) -> bool {
    exists|p: int| 0 <= p < parts.len() && (#[trigger] parts[p]).members.contains(x)
}

impl DirView {
    /// The basic shape of a directory: a well-formed partition index,
    /// unique record owners, well-formed records whose partition ids are
    /// in range, and nothing at all before initialization.
    pub open spec fn sound(self) -> bool {
        &&& index_wf(self.partitions)
        &&& unique_owners(self.profiles)
        &&& forall|i: int| 0 <= i < self.profiles.len() ==> (#[trigger] self.profiles[i]).wf()
        &&& forall|i: int|
            0 <= i < self.profiles.len() ==> 0 <= (#[trigger] self.profiles[i]).partition_id
                < self.partitions.len()
        &&& !self.initialized ==> self.partitions.len() == 0 && self.profiles.len() == 0
    }

    /// The record store and the membership lists agree: every record's
    /// owner is listed in the partition the record names, and every listed
    /// member has a record naming that partition.
    pub open spec fn lockstep(self) -> bool {
        &&& forall|i: int|
            0 <= i < self.profiles.len() ==> self.partitions[(
            #[trigger] self.profiles[i]).partition_id].members.contains(self.profiles[i].owner)
        &&& forall|p: int, x: Identity|
            0 <= p < self.partitions.len() && #[trigger] self.partitions[p].members.contains(x)
                ==> record_in_partition(self.profiles, x, p)
    }

    /// A directory is well formed when it is sound and its two data
    /// structures are in lockstep.
    pub open spec fn wf(self) -> bool {
        self.sound() && self.lockstep()
    }

    /// The freshly initialized directory.
    pub open spec fn fresh() -> DirView {
        DirView { initialized: true, partitions: Seq::empty(), profiles: Seq::empty() }
    }
}

/// In a well-formed directory, an identity without a record is listed in
/// no partition.
pub proof fn lemma_no_record_no_membership(s: DirView, x: Identity)
    requires
        s.wf(),
        !has_owner(s.profiles, x),
    ensures
        !member_somewhere(s.partitions, x),
{
    assert forall|p: int| 0 <= p < s.partitions.len() implies !s.partitions[p].members.contains(
        x,
    ) by {
        if s.partitions[p].members.contains(x) {
            assert(record_in_partition(s.profiles, x, p));
            let i = choose|i: int|
                0 <= i < s.profiles.len() && (#[trigger] s.profiles[i]).owner == x
                    && s.profiles[i].partition_id == p;
            assert(has_owner(s.profiles, x));
        }
    }
}

/// With unique owners, any position holding a record owned by `id` is the
/// position `owner_index` names.
pub proof fn lemma_owner_index_unique(profiles: Seq<ProfileView>, id: Identity, i: int)
    requires
        unique_owners(profiles),
        0 <= i < profiles.len(),
        profiles[i].owner == id,
    ensures
        has_owner(profiles, id),
        owner_index(profiles, id) == i,
{
    assert(has_owner(profiles, id));
    let k = owner_index(profiles, id);
    assert(0 <= k < profiles.len() && profiles[k].owner == id);
    if k < i {
        assert(profiles[k].owner != profiles[i].owner);
        assert(false);
    } else if i < k {
        assert(profiles[i].owner != profiles[k].owner);
        assert(false);
    }
}

/// The position of the first occurrence of `x` in `s`.
pub open spec fn first_index(s: Seq<Identity>, x: Identity) -> int
    decreases s.len(),
{
    if s.len() == 0 {
        0
    } else if s[0] == x {
        0
    } else {
        1 + first_index(s.drop_first(), x)
    }
}

/// When `x` occurs in `s`, `first_index` names a real occurrence and
/// nothing before it matches.
pub proof fn lemma_first_index(s: Seq<Identity>, x: Identity)
    requires
        s.contains(x),
    ensures
        0 <= first_index(s, x) < s.len(),
        s[first_index(s, x)] == x,
        forall|j: int| 0 <= j < first_index(s, x) ==> s[j] != x,
    decreases s.len(),
{
    if s[0] == x {
    } else {
        let w = choose|w: int| 0 <= w < s.len() && s[w] == x;
        assert(s.drop_first()[w - 1] == x);
        assert(s.drop_first().contains(x));
        lemma_first_index(s.drop_first(), x);
        let i = first_index(s, x);
        assert(s[i] == s.drop_first()[i - 1]);
        assert forall|j: int| 0 <= j < i implies s[j] != x by {
            if j > 0 {
                assert(s[j] == s.drop_first()[j - 1]);
            }
        }
    }
}

/// Any position that matches `x` with no earlier match is the first
/// occurrence.
pub proof fn lemma_first_index_matches(s: Seq<Identity>, x: Identity, i: int)
    requires
        0 <= i < s.len(),
        s[i] == x,
        forall|j: int| 0 <= j < i ==> s[j] != x,
    ensures
        s.contains(x),
        first_index(s, x) == i,
{
    assert(s.contains(x));
    lemma_first_index(s, x);
    let f = first_index(s, x);
    if f < i {
        assert(s[f] != x);
        assert(false);
    } else if i < f {
        assert(s[i] != x);
        assert(false);
    }
}

/// `s` with the first occurrence of `x` removed; `s` itself when `x` does
/// not occur.
pub open spec fn remove_first(s: Seq<Identity>, x: Identity) -> Seq<Identity> {
    if s.contains(x) {
        s.remove(first_index(s, x))
    } else {
        s
    }
}

/// Membership in a pushed sequence: the old members plus the new one.
pub proof fn lemma_push_contains(s: Seq<Identity>, c: Identity, x: Identity)
    ensures
        s.push(c).contains(x) <==> (s.contains(x) || x == c),
{
    if s.push(c).contains(x) {
        let k = choose|k: int| 0 <= k < s.push(c).len() && s.push(c)[k] == x;
        if k < s.len() {
            assert(s[k] == x);
        }
    }
    if s.contains(x) {
        let k = choose|k: int| 0 <= k < s.len() && s[k] == x;
        assert(s.push(c)[k] == x);
    }
    if x == c {
        assert(s.push(c)[s.len() as int] == x);
    }
}

/// Pushing a fresh identity keeps a distinct sequence distinct.
pub proof fn lemma_push_distinct(s: Seq<Identity>, c: Identity)
    requires
        distinct_seq(s),
        !s.contains(c),
    ensures
        distinct_seq(s.push(c)),
{
    assert forall|i: int, j: int| 0 <= i < j < s.push(c).len() implies s.push(c)[i] != s.push(
        c,
    )[j] by {
        if j == s.len() {
            assert(s[i] == s.push(c)[i]);
            if s[i] == c {
                assert(s.contains(c));
            }
        }
    }
}

/// Removing the first occurrence of `x` from a distinct sequence removes
/// exactly `x` and nothing else, and keeps the sequence distinct.
pub proof fn lemma_remove_first_distinct(s: Seq<Identity>, x: Identity)
    requires
        distinct_seq(s),
        s.contains(x),
    ensures
        remove_first(s, x).len() == s.len() - 1,
        !remove_first(s, x).contains(x),
        forall|y: Identity| y != x ==> (remove_first(s, x).contains(y) <==> s.contains(y)),
        distinct_seq(remove_first(s, x)),
{
    lemma_first_index(s, x);
    let fi = first_index(s, x);
    let t = s.remove(fi);
    assert forall|k: int| 0 <= k < t.len() implies t[k] == (if k < fi {
        s[k]
    } else {
        s[k + 1]
    }) by {}
    if t.contains(x) {
        let k = choose|k: int| 0 <= k < t.len() && t[k] == x;
        if k < fi {
            assert(s[k] == x && s[fi] == x);
        } else {
            assert(s[k + 1] == x && s[fi] == x);
        }
        assert(false);
    }
    assert forall|y: Identity| y != x && s.contains(y) implies t.contains(y) by {
        let k = choose|k: int| 0 <= k < s.len() && s[k] == y;
        if k < fi {
            assert(t[k] == y);
        } else {
            assert(k != fi);
            assert(t[k - 1] == y);
        }
    }
    assert forall|y: Identity| y != x && t.contains(y) implies s.contains(y) by {
        let k = choose|k: int| 0 <= k < t.len() && t[k] == y;
        if k < fi {
            assert(s[k] == y);
        } else {
            assert(s[k + 1] == y);
        }
    }
    assert forall|i: int, j: int| 0 <= i < j < t.len() implies t[i] != t[j] by {
        let si: int = if i < fi {
            i
        } else {
            i + 1
        };
        let sj: int = if j < fi {
            j
        } else {
            j + 1
        };
        assert(t[i] == s[si] && t[j] == s[sj]);
        assert(si < sj);
    }
}

/// The membership entries of all partitions together.
pub open spec fn total_members(parts: Seq<PartView>) -> nat
    decreases parts.len(),
{
    if parts.len() == 0 {
        0
    } else {
        parts.last().members.len() + total_members(parts.drop_last())
    }
}

/// Replacing one partition changes the total membership by the change in
/// that partition alone.
pub proof fn lemma_total_members_update(parts: Seq<PartView>, k: int, p2: PartView)
    requires
        0 <= k < parts.len(),
    ensures
        total_members(parts.update(k, p2)) == total_members(parts) + p2.members.len()
            - parts[k].members.len(),
    decreases parts.len(),
{
    let u = parts.update(k, p2);
    if k == parts.len() - 1 {
        assert(u.drop_last() =~= parts.drop_last());
        assert(u.last() == p2);
    } else {
        assert(u.drop_last() =~= parts.drop_last().update(k, p2));
        assert(u.last() == parts.last());
        lemma_total_members_update(parts.drop_last(), k, p2);
        assert(parts.drop_last()[k] == parts[k]);
    }
}

/// With membership lists bounded by the per-partition capacity, the total
/// membership is bounded by the capacity of the whole index.
pub proof fn lemma_total_members_bound(parts: Seq<PartView>)
    requires
        forall|i: int|
            0 <= i < parts.len() ==> (#[trigger] parts[i]).members.len()
                <= MAX_USERS_PER_PARTITION,
    ensures
        total_members(parts) <= parts.len() * MAX_USERS_PER_PARTITION,
    decreases parts.len(),
{
    if parts.len() > 0 {
        assert forall|i: int| 0 <= i < parts.drop_last().len() implies (
        #[trigger] parts.drop_last()[i]).members.len() <= MAX_USERS_PER_PARTITION by {
            assert(parts.drop_last()[i] == parts[i]);
        }
        lemma_total_members_bound(parts.drop_last());
        assert(parts.last() == parts[parts.len() - 1]);
        assert((parts.len() - 1) * MAX_USERS_PER_PARTITION + MAX_USERS_PER_PARTITION == parts.len()
            * MAX_USERS_PER_PARTITION) by (nonlinear_arith);
    }
}

/// Each record's owner occupies a membership slot of its own partition,
/// and no two records share one, so there are never more records than
/// membership entries.
pub proof fn lemma_profile_count_bound(parts: Seq<PartView>, profiles: Seq<ProfileView>)
    requires
        unique_owners(profiles),
        forall|i: int| 0 <= i < parts.len() ==> distinct_seq((#[trigger] parts[i]).members),
        forall|i: int|
            0 <= i < profiles.len() ==> 0 <= (#[trigger] profiles[i]).partition_id < parts.len(),
        forall|i: int|
            0 <= i < profiles.len() ==> parts[(#[trigger] profiles[i]).partition_id].members.contains(
                profiles[i].owner,
            ),
    ensures
        profiles.len() <= total_members(parts),
    decreases profiles.len(),
{
    if profiles.len() > 0 {
        let q = profiles.last();
        let pid = q.partition_id;
        let members = parts[pid].members;
        assert(members.contains(q.owner));
        lemma_remove_first_distinct(members, q.owner);
        let p2 = PartView { id: parts[pid].id, members: remove_first(members, q.owner) };
        let parts2 = parts.update(pid, p2);
        lemma_total_members_update(parts, pid, p2);
        let rest = profiles.drop_last();
        assert forall|i: int, j: int| 0 <= i < j < rest.len() implies (
        #[trigger] rest[i]).owner != (#[trigger] rest[j]).owner by {
            assert(rest[i] == profiles[i] && rest[j] == profiles[j]);
        }
        assert forall|i: int| 0 <= i < parts2.len() implies distinct_seq(
            (#[trigger] parts2[i]).members,
        ) by {
            if i != pid {
                assert(parts2[i] == parts[i]);
            }
        }
        assert forall|i: int| 0 <= i < rest.len() implies 0 <= (
        #[trigger] rest[i]).partition_id < parts2.len() by {
            assert(rest[i] == profiles[i]);
        }
        assert forall|i: int| 0 <= i < rest.len() implies parts2[(
        #[trigger] rest[i]).partition_id].members.contains(rest[i].owner) by {
            assert(rest[i] == profiles[i]);
            assert(profiles[i].owner != q.owner);
            if profiles[i].partition_id == pid {
                assert(parts[pid].members.contains(profiles[i].owner));
            } else {
                assert(parts2[profiles[i].partition_id] == parts[profiles[i].partition_id]);
            }
        }
        lemma_profile_count_bound(parts2, rest);
        assert(total_members(parts2) == total_members(parts) - 1);
    }
}

/// The one-time initialization: creates the empty partition index.
/// Re-initialization is refused, because per-identity records may already
/// reference partition ids the reset would orphan.
pub open spec fn init_step(s: DirView) -> (DirView, Result<(), MyError>) {
    if s.initialized {
        (s, Err(MyError::AlreadyInitialized))
    } else {
        (DirView { initialized: true, ..s }, Ok(()))
    }
}

/// Whether one more registration can be placed: the current (highest-id)
/// partition has room, or a new partition can still be created.
pub open spec fn can_place(parts: Seq<PartView>) -> bool {
    if parts.len() == 0 {
        0 < MAX_PARTITIONS
    } else if parts.last().members.len() < MAX_USERS_PER_PARTITION {
        true
    } else {
        parts.len() < MAX_PARTITIONS
    }
}

/// The shard id that receives the next registration under the selection
/// policy: always the partition with the highest id, creating a new one
/// first when that one is full or none exists.  Older partitions are
/// never backfilled.
pub open spec fn place_target(parts: Seq<PartView>) -> int {
    if parts.len() == 0 {
        0
    } else if parts.last().members.len() >= MAX_USERS_PER_PARTITION {
        parts.len() as int
    } else {
        parts.len() - 1
    }
}

/// The partitions after `id` is placed under the selection policy.
pub open spec fn place_member(parts: Seq<PartView>, id: Identity) -> Seq<PartView> {
    if parts.len() == 0 || parts.last().members.len() >= MAX_USERS_PER_PARTITION {
        parts.push((PartView { id: parts.len() as int, members: seq![id] }))
    } else {
        parts.update(
            parts.len() - 1,
            (PartView { id: parts.last().id, members: parts.last().members.push(id) }),
        )
    }
}

/// Registration: refused when a record for `caller` already exists or
/// when every placement ceiling is hit; otherwise the record is created
/// and `caller` is appended to the resolved partition, both in one step.
pub open spec fn create_step(s: DirView, caller: Identity, f: ProfileFields, now: int) -> (
    DirView,
    Result<(), MyError>,
) {
    if has_owner(s.profiles, caller) {
        (s, Err(MyError::ProfileAlreadyExists))
    } else if !can_place(s.partitions) {
        (s, Err(MyError::MaxPartitionsReached))
    } else {
        (
            DirView {
                partitions: place_member(s.partitions, caller),
                profiles: s.profiles.push(
                    fresh_profile(caller, f, now, place_target(s.partitions)),
                ),
                ..s
            },
            Ok(()),
        )
    }
}

/// Following: refused with `Unauthorized` unless the caller is the stored
/// owner of the presented record; otherwise the target is added to the
/// record's following set if absent.  Meaningful when a record owned by
/// `record_owner` exists.
pub open spec fn follow_step(
    s: DirView,
    caller: Identity,
    record_owner: Identity,
    target_user: Identity,
) -> (DirView, Result<(), MyError>) {
    let i = owner_index(s.profiles, record_owner);
    let p = s.profiles[i];
    if caller != p.owner {
        (s, Err(MyError::Unauthorized))
    } else {
        (
            DirView {
                profiles: s.profiles.update(
                    i,
                    (ProfileView { following: follow_result(p.following, target_user), ..p }),
                ),
                ..s
            },
            Ok(()),
        )
    }
}

/// Partial update: refused with `Unauthorized` unless the caller is the
/// stored owner; otherwise each present field overwrites and each absent
/// field stays.  Meaningful when a record owned by `record_owner` exists.
pub open spec fn update_step(
    s: DirView,
    caller: Identity,
    record_owner: Identity,
    u: UpdateFields,
) -> (DirView, Result<(), MyError>) {
    let i = owner_index(s.profiles, record_owner);
    let p = s.profiles[i];
    if caller != p.owner {
        (s, Err(MyError::Unauthorized))
    } else {
        (DirView { profiles: s.profiles.update(i, updated_view(p, u)), ..s }, Ok(()))
    }
}

/// Deletion: refused with `Unauthorized` unless the caller is the stored
/// owner; refused with `UserNotFoundInPartition` when the record's own
/// partition does not list the owner (a violated internal invariant, not
/// caller error); otherwise the owner leaves the partition's membership
/// and the record is destroyed, both in one step.  Meaningful when a
/// record owned by `record_owner` exists.
pub open spec fn delete_step(s: DirView, caller: Identity, record_owner: Identity) -> (
    DirView,
    Result<(), MyError>,
) {
    let i = owner_index(s.profiles, record_owner);
    let p = s.profiles[i];
    if caller != p.owner {
        (s, Err(MyError::Unauthorized))
    } else if !(0 <= p.partition_id < s.partitions.len() && s.partitions[p.partition_id].members.contains(
        p.owner,
    )) {
        (s, Err(MyError::UserNotFoundInPartition))
    } else {
        (
            DirView {
                partitions: s.partitions.update(
                    p.partition_id,
                    (PartView {
                        id: s.partitions[p.partition_id].id,
                        members: remove_first(s.partitions[p.partition_id].members, p.owner),
                    }),
                ),
                profiles: s.profiles.remove(i),
                ..s
            },
            Ok(()),
        )
    }
}

/// Ownership in a pushed record store: the old owners plus the new one.
pub proof fn lemma_has_owner_push(profiles: Seq<ProfileView>, p: ProfileView, x: Identity)
    ensures
        has_owner(profiles.push(p), x) <==> (has_owner(profiles, x) || p.owner == x),
{
    let t = profiles.push(p);
    if has_owner(t, x) {
        let k = choose|k: int| 0 <= k < t.len() && (#[trigger] t[k]).owner == x;
        if k < profiles.len() {
            assert(profiles[k].owner == x);
        }
    }
    if has_owner(profiles, x) {
        let k = choose|k: int| 0 <= k < profiles.len() && (#[trigger] profiles[k]).owner == x;
        assert(t[k].owner == x);
    }
    if p.owner == x {
        assert(t[profiles.len() as int].owner == x);
    }
}

/// One call of the mutating protocol, as the inputs the host would hand
/// to it.
pub ghost enum DirOp {
    /// The one-time initialization.
    Initialize,
    /// A registration.
    Create { caller: Identity, fields: ProfileFields, now: int },
    /// A follow on the record owned by `record_owner`.
    Follow { caller: Identity, record_owner: Identity, target_user: Identity },
    /// A partial update of the record owned by `record_owner`.
    Update { caller: Identity, record_owner: Identity, updates: UpdateFields },
    /// A deletion of the record owned by `record_owner`.
    Delete { caller: Identity, record_owner: Identity },
}

/// Whether the host would deliver the call at all: the presented record
/// exists, the supplied fields are within their schema bounds, and a
/// follow has room unless it is a repeat.
pub open spec fn op_admitted(s: DirView, op: DirOp) -> bool {
    match op {
        DirOp::Initialize => true,
        DirOp::Create { fields, .. } => s.initialized && fields_wf(fields),
        DirOp::Follow { record_owner, target_user, .. } => has_owner(s.profiles, record_owner) && (
        profile_of(s.profiles, record_owner).following.len() < MAX_FOLLOWING_LEN || profile_of(
            s.profiles,
            record_owner,
        ).following.contains(target_user)),
        DirOp::Update { record_owner, updates, .. } => has_owner(s.profiles, record_owner)
            && updates_wf(updates),
        DirOp::Delete { record_owner, .. } => has_owner(s.profiles, record_owner),
    }
}

/// The state after one call; a call the host would not deliver leaves
/// the state as it is.
pub open spec fn dir_step(s: DirView, op: DirOp) -> DirView {
    if op_admitted(s, op) {
        match op {
            DirOp::Initialize => init_step(s).0,
            DirOp::Create { caller, fields, now } => create_step(s, caller, fields, now).0,
            DirOp::Follow { caller, record_owner, target_user } => follow_step(
                s,
                caller,
                record_owner,
                target_user,
            ).0,
            DirOp::Update { caller, record_owner, updates } => update_step(
                s,
                caller,
                record_owner,
                updates,
            ).0,
            DirOp::Delete { caller, record_owner } => delete_step(s, caller, record_owner).0,
        }
    } else {
        s
    }
}

/// The state after a whole sequence of calls, first to last.
pub open spec fn dir_run(s: DirView, ops: Seq<DirOp>) -> DirView
    decreases ops.len(),
{
    if ops.len() == 0 {
        s
    } else {
        dir_run(dir_step(s, ops[0]), ops.drop_first())
    }
}

/// Every single call keeps the directory well formed.
pub proof fn lemma_step_preserves_wf(s: DirView, op: DirOp)
    requires
        s.wf(),
    ensures
        dir_step(s, op).wf(),
{
    if op_admitted(s, op) {
        match op {
            DirOp::Initialize => {
                lemma_init_preserves_wf(s);
            },
            DirOp::Create { caller, fields, now } => {
                lemma_create_preserves_wf(s, caller, fields, now);
            },
            DirOp::Follow { caller, record_owner, target_user } => {
                lemma_follow_preserves_wf(s, caller, record_owner, target_user);
            },
            DirOp::Update { caller, record_owner, updates } => {
                lemma_update_preserves_wf(s, caller, record_owner, updates);
            },
            DirOp::Delete { caller, record_owner } => {
                lemma_delete_preserves_wf(s, caller, record_owner);
            },
        }
    }
}

/// Every sequence of calls keeps the directory well formed.
pub proof fn lemma_run_preserves_wf(s: DirView, ops: Seq<DirOp>)
    requires
        s.wf(),
    ensures
        dir_run(s, ops).wf(),
    decreases ops.len(),
{
    if ops.len() > 0 {
        lemma_step_preserves_wf(s, ops[0]);
        lemma_run_preserves_wf(dir_step(s, ops[0]), ops.drop_first());
    }
}

/// Initialization keeps the directory well formed: before it, nothing
/// exists; after it, the empty directory is well formed; a refused
/// re-initialization changes nothing.
pub proof fn lemma_init_preserves_wf(s: DirView)
    requires
        s.sound(),
    ensures
        init_step(s).0.sound(),
        s.wf() ==> init_step(s).0.wf(),
        !s.initialized ==> init_step(s).0.wf(),
{
}

/// Registration keeps the directory well formed.
pub proof fn lemma_create_preserves_wf(s: DirView, caller: Identity, f: ProfileFields, now: int)
    requires
        s.wf(),
        s.initialized,
        fields_wf(f),
    ensures
        create_step(s, caller, f, now).0.wf(),
{
    if has_owner(s.profiles, caller) || !can_place(s.partitions) {
    } else {
        lemma_no_record_no_membership(s, caller);
        let parts = s.partitions;
        let target = place_target(parts);
        let parts2 = place_member(parts, caller);
        let np = fresh_profile(caller, f, now, target);
        let profs2 = s.profiles.push(np);
        let t = create_step(s, caller, f, now).0;
        assert(t.partitions == parts2 && t.profiles == profs2);

        // The record store: one fresh, well-formed record appended.
        assert forall|i: int, j: int| 0 <= i < j < profs2.len() implies (
        #[trigger] profs2[i]).owner != (#[trigger] profs2[j]).owner by {
            if j == s.profiles.len() {
                if profs2[i].owner == caller {
                    assert(s.profiles[i].owner == caller);
                    assert(has_owner(s.profiles, caller));
                }
            }
        }
        assert(np.wf());

        if parts.len() == 0 || parts.last().members.len() >= MAX_USERS_PER_PARTITION {
            // A new partition is created; the caller is its sole member.
            let fresh_part = PartView { id: parts.len() as int, members: seq![caller] };
            assert(parts2 == parts.push(fresh_part));
            assert(seq![caller].len() == 1);
            assert(seq![caller][0] == caller);
            assert forall|p: int, x: Identity|
                0 <= p < parts2.len() && #[trigger] parts2[p].members.contains(x)
                    && p != parts.len() implies parts[p].members.contains(x) by {}
            assert forall|x: Identity| #[trigger] fresh_part.members.contains(x) implies x
                == caller by {
                let k = choose|k: int| 0 <= k < 1 && seq![caller][k] == x;
            }
            assert(index_wf(parts2));
            // Lockstep, record to member.
            assert forall|i: int| 0 <= i < profs2.len() implies parts2[(
            #[trigger] profs2[i]).partition_id].members.contains(profs2[i].owner) by {
                if i < s.profiles.len() {
                    assert(parts2[profs2[i].partition_id] == parts[s.profiles[i].partition_id]);
                } else {
                    assert(fresh_part.members[0] == caller);
                }
            }
            // Lockstep, member to record.
            assert forall|p: int, x: Identity|
                0 <= p < parts2.len() && #[trigger] parts2[p].members.contains(
                    x,
                ) implies record_in_partition(profs2, x, p) by {
                if p < parts.len() {
                    assert(parts[p].members.contains(x));
                    assert(record_in_partition(s.profiles, x, p));
                    let i = choose|i: int|
                        0 <= i < s.profiles.len() && (#[trigger] s.profiles[i]).owner == x
                            && s.profiles[i].partition_id == p;
                    assert(profs2[i].owner == x && profs2[i].partition_id == p);
                } else {
                    assert(x == caller);
                    assert(profs2[s.profiles.len() as int].owner == x);
                }
            }
            assert(t.wf());
        } else {
            // The current partition has room; the caller joins it.
            let li = parts.len() - 1;
            let old_last = parts.last();
            let new_last = PartView { id: old_last.id, members: old_last.members.push(caller) };
            assert(parts2 == parts.update(li, new_last));
            assert(old_last == parts[li]);
            assert(!old_last.members.contains(caller));
            lemma_push_distinct(old_last.members, caller);
            assert forall|x: Identity| #[trigger] new_last.members.contains(x) implies (
            old_last.members.contains(x) || x == caller) by {
                lemma_push_contains(old_last.members, caller, x);
            }
            assert forall|i: int, j: int, x: Identity|
                0 <= i < parts2.len() && 0 <= j < parts2.len() && i != j && (
                #[trigger] parts2[i].members.contains(x)) implies !(
                #[trigger] parts2[j].members.contains(x)) by {
                if i == li {
                    lemma_push_contains(old_last.members, caller, x);
                    if x == caller {
                        assert(!parts[j].members.contains(x));
                    } else {
                        assert(parts[li].members.contains(x));
                    }
                } else if j == li {
                    assert(parts[i].members.contains(x));
                    assert(!parts[li].members.contains(x));
                    lemma_push_contains(old_last.members, caller, x);
                    assert(x != caller);
                }
            }
            assert(index_wf(parts2));
            // Lockstep, record to member.
            assert forall|i: int| 0 <= i < profs2.len() implies parts2[(
            #[trigger] profs2[i]).partition_id].members.contains(profs2[i].owner) by {
                if i < s.profiles.len() {
                    let pid = s.profiles[i].partition_id;
                    if pid == li {
                        lemma_push_contains(old_last.members, caller, s.profiles[i].owner);
                    } else {
                        assert(parts2[pid] == parts[pid]);
                    }
                } else {
                    lemma_push_contains(old_last.members, caller, caller);
                }
            }
            // Lockstep, member to record.
            assert forall|p: int, x: Identity|
                0 <= p < parts2.len() && #[trigger] parts2[p].members.contains(
                    x,
                ) implies record_in_partition(profs2, x, p) by {
                if p == li {
                    lemma_push_contains(old_last.members, caller, x);
                    if x == caller {
                        assert(profs2[s.profiles.len() as int].owner == x);
                        assert(profs2[s.profiles.len() as int].partition_id == li);
                    } else {
                        assert(parts[p].members.contains(x));
                        assert(record_in_partition(s.profiles, x, p));
                        let i = choose|i: int|
                            0 <= i < s.profiles.len() && (#[trigger] s.profiles[i]).owner == x
                                && s.profiles[i].partition_id == p;
                        assert(profs2[i].owner == x && profs2[i].partition_id == p);
                    }
                } else {
                    assert(parts[p].members.contains(x));
                    assert(record_in_partition(s.profiles, x, p));
                    let i = choose|i: int|
                        0 <= i < s.profiles.len() && (#[trigger] s.profiles[i]).owner == x
                            && s.profiles[i].partition_id == p;
                    assert(profs2[i].owner == x && profs2[i].partition_id == p);
                }
            }
            assert(t.wf());
        }
    }
}

/// Replacing one record with another that keeps its owner and partition
/// keeps the directory well formed.
pub proof fn lemma_replace_record_preserves_wf(s: DirView, i: int, p2: ProfileView)
    requires
        s.wf(),
        0 <= i < s.profiles.len(),
        p2.owner == s.profiles[i].owner,
        p2.partition_id == s.profiles[i].partition_id,
        p2.wf(),
    ensures
        (DirView { profiles: s.profiles.update(i, p2), ..s }).wf(),
{
    let profs2 = s.profiles.update(i, p2);
    let t = DirView { profiles: profs2, ..s };
    assert forall|a: int, b: int| 0 <= a < b < profs2.len() implies (#[trigger] profs2[a]).owner
        != (#[trigger] profs2[b]).owner by {
        assert(profs2[a].owner == s.profiles[a].owner);
        assert(profs2[b].owner == s.profiles[b].owner);
    }
    assert forall|k: int| 0 <= k < profs2.len() implies (#[trigger] profs2[k]).wf() by {
        if k != i {
            assert(profs2[k] == s.profiles[k]);
        }
    }
    assert forall|k: int| 0 <= k < profs2.len() implies t.partitions[(
    #[trigger] profs2[k]).partition_id].members.contains(profs2[k].owner) by {
        assert(profs2[k].owner == s.profiles[k].owner);
        assert(profs2[k].partition_id == s.profiles[k].partition_id);
    }
    assert forall|p: int, x: Identity|
        0 <= p < t.partitions.len() && #[trigger] t.partitions[p].members.contains(
            x,
        ) implies record_in_partition(profs2, x, p) by {
        assert(record_in_partition(s.profiles, x, p));
        let k = choose|k: int|
            0 <= k < s.profiles.len() && (#[trigger] s.profiles[k]).owner == x
                && s.profiles[k].partition_id == p;
        assert(profs2[k].owner == x && profs2[k].partition_id == p);
    }
}

/// Following keeps the directory well formed.
pub proof fn lemma_follow_preserves_wf(
    s: DirView,
    caller: Identity,
    record_owner: Identity,
    target_user: Identity,
)
    requires
        s.wf(),
        has_owner(s.profiles, record_owner),
        profile_of(s.profiles, record_owner).following.len() < MAX_FOLLOWING_LEN || profile_of(
            s.profiles,
            record_owner,
        ).following.contains(target_user),
    ensures
        follow_step(s, caller, record_owner, target_user).0.wf(),
{
    let i = owner_index(s.profiles, record_owner);
    let p = s.profiles[i];
    if caller != p.owner {
    } else {
        let p2 = ProfileView { following: follow_result(p.following, target_user), ..p };
        if !p.following.contains(target_user) {
            lemma_push_distinct(p.following, target_user);
        }
        assert(p2.wf());
        lemma_replace_record_preserves_wf(s, i, p2);
    }
}

/// Partial update keeps the directory well formed.
pub proof fn lemma_update_preserves_wf(
    s: DirView,
    caller: Identity,
    record_owner: Identity,
    u: UpdateFields,
)
    requires
        s.wf(),
        has_owner(s.profiles, record_owner),
        updates_wf(u),
    ensures
        update_step(s, caller, record_owner, u).0.wf(),
{
    let i = owner_index(s.profiles, record_owner);
    let p = s.profiles[i];
    if caller != p.owner {
    } else {
        assert(updated_view(p, u).wf());
        lemma_replace_record_preserves_wf(s, i, updated_view(p, u));
    }
}

/// Deletion keeps the directory well formed.
pub proof fn lemma_delete_preserves_wf(s: DirView, caller: Identity, record_owner: Identity)
    requires
        s.wf(),
        has_owner(s.profiles, record_owner),
    ensures
        delete_step(s, caller, record_owner).0.wf(),
{
    let i = owner_index(s.profiles, record_owner);
    let p = s.profiles[i];
    let pid = p.partition_id;
    if caller != p.owner {
    } else if !(0 <= pid < s.partitions.len() && s.partitions[pid].members.contains(p.owner)) {
    } else {
        let members = s.partitions[pid].members;
        let m2 = remove_first(members, p.owner);
        let part2 = PartView { id: s.partitions[pid].id, members: m2 };
        let parts2 = s.partitions.update(pid, part2);
        let profs2 = s.profiles.remove(i);
        let t = delete_step(s, caller, record_owner).0;
        assert(t.partitions == parts2 && t.profiles == profs2);
        lemma_remove_first_distinct(members, p.owner);

        assert forall|a: int, b: int, x: Identity|
            0 <= a < parts2.len() && 0 <= b < parts2.len() && a != b && (
            #[trigger] parts2[a].members.contains(x)) implies !(#[trigger] parts2[b].members.contains(
            x,
        )) by {
            if a == pid {
                assert(members.contains(x));
                assert(!parts2[b].members.contains(x));
            } else if b == pid {
                assert(parts2[a].members.contains(x) == s.partitions[a].members.contains(x));
                assert(!members.contains(x));
                if x == p.owner {
                } else {
                    assert(!m2.contains(x));
                }
            }
        }
        assert(index_wf(parts2));

        // Every surviving record's index in the new store.
        assert forall|k: int| 0 <= k < profs2.len() implies (#[trigger] profs2[k]) == (if k < i {
            s.profiles[k]
        } else {
            s.profiles[k + 1]
        }) by {}

        assert forall|a: int, b: int| 0 <= a < b < profs2.len() implies (
        #[trigger] profs2[a]).owner != (#[trigger] profs2[b]).owner by {
            let sa: int = if a < i {
                a
            } else {
                a + 1
            };
            let sb: int = if b < i {
                b
            } else {
                b + 1
            };
            assert(profs2[a] == s.profiles[sa] && profs2[b] == s.profiles[sb]);
            assert(sa < sb);
        }

        // Lockstep, record to member: a surviving record's owner differs
        // from the deleted one, so its membership entry survives too.
        assert forall|k: int| 0 <= k < profs2.len() implies parts2[(
        #[trigger] profs2[k]).partition_id].members.contains(profs2[k].owner) by {
            let sk: int = if k < i {
                k
            } else {
                k + 1
            };
            assert(profs2[k] == s.profiles[sk]);
            let q = s.profiles[sk];
            assert(q.owner != p.owner);
            if q.partition_id == pid {
                assert(members.contains(q.owner));
                assert(m2.contains(q.owner));
            } else {
                assert(parts2[q.partition_id] == s.partitions[q.partition_id]);
            }
        }

        // Lockstep, member to record: a surviving member is not the
        // deleted owner, so its record survives at a shifted position.
        assert forall|q: int, x: Identity|
            0 <= q < parts2.len() && #[trigger] parts2[q].members.contains(
                x,
            ) implies record_in_partition(profs2, x, q) by {
            if q == pid {
                assert(m2.contains(x));
                assert(x != p.owner);
                assert(members.contains(x));
            } else {
                assert(s.partitions[q].members.contains(x));
            }
            assert(record_in_partition(s.profiles, x, q));
            let k = choose|k: int|
                0 <= k < s.profiles.len() && (#[trigger] s.profiles[k]).owner == x
                    && s.profiles[k].partition_id == q;
            if x == p.owner {
                lemma_owner_index_unique(s.profiles, p.owner, k);
                assert(k == i);
                assert(q == pid);
                assert(!m2.contains(x));
                assert(false);
            }
            assert(k != i);
            if k < i {
                assert(profs2[k].owner == x && profs2[k].partition_id == q);
            } else {
                assert(profs2[k - 1].owner == x && profs2[k - 1].partition_id == q);
            }
        }
        assert(t.wf());
    }
}

} // verus!
