//! The laws of the directory service, proved over its model.
//!
//! Each law is stated over the transition functions of [`crate::model`],
//! which the executable operations of [`crate::directory::Directory`] are
//! proved to implement exactly.

use vstd::prelude::*;
use crate::budget::{MAX_PARTITIONS, MAX_USERS_PER_PARTITION};
use crate::errors::MyError;
use crate::identity::{distinct_seq, Identity};
use crate::model::{
    can_place, create_step, delete_step, dir_run, follow_step, has_owner,
    lemma_create_preserves_wf, lemma_delete_preserves_wf, lemma_has_owner_push,
    lemma_owner_index_unique, lemma_profile_count_bound, lemma_run_preserves_wf,
    lemma_total_members_bound, owner_index, profile_of, update_step, DirOp, DirView,
};
use crate::profile::{
    fields_wf, follow_result, fresh_profile, updated_view, ProfileFields, ProfileView,
    UpdateFields,
};

verus! {

/// The state and success record of a sequence of registrations, applied
/// first to last.
pub open spec fn run_creates(s: DirView, ids: Seq<Identity>, f: ProfileFields, now: int) -> DirView
    decreases ids.len(),
{
    if ids.len() == 0 {
        s
    } else {
        run_creates(create_step(s, ids[0], f, now).0, ids.drop_first(), f, now)
    }
}

/// Whether every registration of the sequence succeeded.
pub open spec fn creates_all_ok(s: DirView, ids: Seq<Identity>, f: ProfileFields, now: int) -> bool
    decreases ids.len(),
{
    if ids.len() == 0 {
        true
    } else {
        create_step(s, ids[0], f, now).1 is Ok && creates_all_ok(
            create_step(s, ids[0], f, now).0,
            ids.drop_first(),
            f,
            now,
        )
    }
}

/// While the directory has one partition with enough room, registrations
/// from distinct, unregistered identities all land in that partition, in
/// order, and all succeed.
pub proof fn lemma_fill_single_partition(s: DirView, ids: Seq<Identity>, f: ProfileFields, now: int)
    requires
        s.wf(),
        s.initialized,
        fields_wf(f),
        s.partitions.len() == 1,
        distinct_seq(ids),
        forall|k: int| 0 <= k < ids.len() ==> !has_owner(s.profiles, ids[k]),
        s.partitions[0].members.len() + ids.len() <= MAX_USERS_PER_PARTITION,
    ensures
        run_creates(s, ids, f, now).wf(),
        run_creates(s, ids, f, now).partitions.len() == 1,
        run_creates(s, ids, f, now).partitions[0].members == s.partitions[0].members + ids,
        creates_all_ok(s, ids, f, now),
        run_creates(s, ids, f, now).profiles == s.profiles + Seq::new(
            ids.len(),
            |k: int| fresh_profile(ids[k], f, now, 0),
        ),
    decreases ids.len(),
{
    let t = run_creates(s, ids, f, now);
    if ids.len() == 0 {
        assert(t.partitions[0].members =~= s.partitions[0].members + ids);
        assert(t.profiles =~= s.profiles + Seq::new(
            ids.len(),
            |k: int| fresh_profile(ids[k], f, now, 0),
        ));
    } else {
        let c = ids[0];
        let (s1, r1) = create_step(s, c, f, now);
        assert(!has_owner(s.profiles, c));
        assert(can_place(s.partitions));
        assert(r1 is Ok);
        lemma_create_preserves_wf(s, c, f, now);
        assert(s1.partitions.len() == 1);
        assert(s1.partitions[0].members == s.partitions[0].members.push(c));
        let rest = ids.drop_first();
        assert forall|k: int| 0 <= k < rest.len() implies !has_owner(s1.profiles, rest[k]) by {
            assert(rest[k] == ids[k + 1]);
            lemma_has_owner_push(s.profiles, fresh_profile(c, f, now, 0), rest[k]);
            assert(ids[k + 1] != ids[0]);
        }
        lemma_fill_single_partition(s1, rest, f, now);
        assert(t.partitions[0].members =~= s.partitions[0].members + ids) by {
            assert(t.partitions[0].members == s1.partitions[0].members + rest);
        }
        assert(t.profiles =~= s.profiles + Seq::new(
            ids.len(),
            |k: int| fresh_profile(ids[k], f, now, 0),
        )) by {
            assert(t.profiles == s1.profiles + Seq::new(
                rest.len(),
                |k: int| fresh_profile(rest[k], f, now, 0),
            ));
            assert(s1.profiles == s.profiles.push(fresh_profile(c, f, now, 0)));
            assert forall|k: int| 0 <= k < rest.len() implies fresh_profile(rest[k], f, now, 0)
                == fresh_profile(ids[k + 1], f, now, 0) by {
                assert(rest[k] == ids[k + 1]);
            }
        }
    }
}

/// Registrations from distinct identities all land in partition 0 until
/// it holds `MAX_USERS_PER_PARTITION` members; the next registration
/// creates partition 1 and becomes its sole member.
pub proof fn lemma_first_partition_fills_then_splits(
    ids: Seq<Identity>,
    extra: Identity,
    f: ProfileFields,
    now: int,
)
    requires
        distinct_seq(ids.push(extra)),
        0 < ids.len() <= MAX_USERS_PER_PARTITION,
        fields_wf(f),
    ensures
        ({
            let s1 = run_creates(DirView::fresh(), ids, f, now);
            &&& creates_all_ok(DirView::fresh(), ids, f, now)
            &&& s1.partitions.len() == 1
            &&& s1.partitions[0].members == ids
            &&& (ids.len() == MAX_USERS_PER_PARTITION ==> {
                let (s2, r2) = create_step(s1, extra, f, now);
                &&& r2 is Ok
                &&& s2.partitions.len() == 2
                &&& s2.partitions[1].members == seq![extra]
                &&& s2.partitions[0].members == ids
            })
        }),
{
    let s0 = DirView::fresh();
    assert(s0.wf());
    let c = ids[0];
    assert forall|i: int, j: int| 0 <= i < j < ids.len() implies ids[i] != ids[j] by {
        assert(ids.push(extra)[i] == ids[i] && ids.push(extra)[j] == ids[j]);
    }
    assert forall|k: int| 0 <= k < ids.len() implies ids[k] != extra by {
        assert(ids.push(extra)[k] == ids[k]);
        assert(ids.push(extra)[ids.len() as int] == extra);
    }
    let (sa, ra) = create_step(s0, c, f, now);
    assert(!has_owner(s0.profiles, c));
    assert(ra is Ok);
    lemma_create_preserves_wf(s0, c, f, now);
    assert(sa.partitions.len() == 1);
    assert(sa.partitions[0].members =~= seq![c]);
    let rest = ids.drop_first();
    assert forall|k: int| 0 <= k < rest.len() implies !has_owner(sa.profiles, rest[k]) by {
        assert(rest[k] == ids[k + 1]);
        lemma_has_owner_push(s0.profiles, fresh_profile(c, f, now, 0), rest[k]);
    }
    lemma_fill_single_partition(sa, rest, f, now);
    let s1 = run_creates(s0, ids, f, now);
    assert(s1 == run_creates(sa, rest, f, now));
    assert(s1.partitions[0].members =~= ids) by {
        assert(s1.partitions[0].members == sa.partitions[0].members + rest);
    }
    if ids.len() == MAX_USERS_PER_PARTITION {
        assert(s1.partitions.last().members.len() >= MAX_USERS_PER_PARTITION);
        assert(s1.profiles == sa.profiles + Seq::new(
            rest.len(),
            |k: int| fresh_profile(rest[k], f, now, 0),
        ));
        assert forall|i: int| 0 <= i < s1.profiles.len() implies (#[trigger] s1.profiles[i]).owner
            != extra by {
            if i < sa.profiles.len() {
                assert(sa.profiles == s0.profiles.push(fresh_profile(c, f, now, 0)));
                assert(s1.profiles[i].owner == c);
            } else {
                let k = i - sa.profiles.len();
                assert(s1.profiles[i] == fresh_profile(rest[k], f, now, 0));
                assert(rest[k] == ids[k + 1]);
            }
        }
        assert(!has_owner(s1.profiles, extra));
        let (s2, r2) = create_step(s1, extra, f, now);
        assert(s1.partitions.len() < MAX_PARTITIONS);
        assert(r2 is Ok);
        assert(s2.partitions.len() == 2);
        assert(s2.partitions[1].members =~= seq![extra]);
        assert(s2.partitions[0].members == ids);
    }
}

/// Following is idempotent: following the same target twice leaves the
/// same following set as following it once.
pub proof fn lemma_follow_result_idempotent(following: Seq<Identity>, target: Identity)
    ensures
        follow_result(follow_result(following, target), target) == follow_result(
            following,
            target,
        ),
{
    if !following.contains(target) {
        assert(following.push(target)[following.len() as int] == target);
        assert(following.push(target).contains(target));
    }
}

/// Following is idempotent at the level of whole directory states: a
/// second follow of the same target by the same caller changes nothing.
pub proof fn lemma_follow_step_idempotent(
    s: DirView,
    caller: Identity,
    record_owner: Identity,
    target_user: Identity,
)
    requires
        s.wf(),
        has_owner(s.profiles, record_owner),
    ensures
        follow_step(follow_step(s, caller, record_owner, target_user).0, caller, record_owner,
            target_user).0 == follow_step(s, caller, record_owner, target_user).0,
{
    let i = owner_index(s.profiles, record_owner);
    let p = s.profiles[i];
    if caller != p.owner {
    } else {
        let p2 = ProfileView { following: follow_result(p.following, target_user), ..p };
        let s1 = follow_step(s, caller, record_owner, target_user).0;
        assert(s1.profiles == s.profiles.update(i, p2));
        lemma_owner_index_unique(s1.profiles, record_owner, i);
        assert(owner_index(s1.profiles, record_owner) == i);
        lemma_follow_result_idempotent(p.following, target_user);
        let p3 = ProfileView { following: follow_result(p2.following, target_user), ..p2 };
        assert(p3 == p2);
        assert(s1.profiles.update(i, p3) =~= s1.profiles);
        let s2 = follow_step(s1, caller, record_owner, target_user).0;
        assert(s2 == s1);
    }
}

/// A partial update with every field absent is a no-op: the record, and
/// the whole directory, are left exactly as they were.
pub proof fn lemma_update_all_absent_noop(s: DirView, caller: Identity, record_owner: Identity)
    requires
        s.wf(),
        has_owner(s.profiles, record_owner),
        caller == profile_of(s.profiles, record_owner).owner,
    ensures
        update_step(
            s,
            caller,
            record_owner,
            (UpdateFields {
                nickname: None,
                description: None,
                twitter_link: None,
                website_link: None,
                email: None,
                pic: None,
                avatar: None,
            }),
        ) == (s, Ok::<(), MyError>(())),
{
    let u = UpdateFields {
        nickname: None,
        description: None,
        twitter_link: None,
        website_link: None,
        email: None,
        pic: None,
        avatar: None,
    };
    let i = owner_index(s.profiles, record_owner);
    let p = s.profiles[i];
    assert(updated_view(p, u) == p);
    assert(s.profiles.update(i, p) =~= s.profiles);
    assert(update_step(s, caller, record_owner, u).0 == s);
}

/// Deleting a profile and then re-registering the same identity
/// succeeds, and yields a fresh record: an empty following set and the
/// new registration time.  (On a fully saturated directory whose freed
/// slot lies in a partition that is no longer current, re-registration
/// is instead refused, since older partitions are never backfilled;
/// the placement premise excludes exactly that situation.)
pub proof fn lemma_delete_then_recreate(s: DirView, id: Identity, f: ProfileFields, now: int)
    requires
        s.wf(),
        s.initialized,
        fields_wf(f),
        has_owner(s.profiles, id),
        can_place(delete_step(s, id, id).0.partitions),
    ensures
        ({
            let s1 = delete_step(s, id, id).0;
            let (s2, r2) = create_step(s1, id, f, now);
            &&& delete_step(s, id, id).1 is Ok
            &&& r2 is Ok
            &&& has_owner(s2.profiles, id)
            &&& profile_of(s2.profiles, id).following == Seq::<Identity>::empty()
            &&& profile_of(s2.profiles, id).registration_time == now
        }),
{
    let i = owner_index(s.profiles, id);
    let p = s.profiles[i];
    assert(p.owner == id);
    assert(s.partitions[p.partition_id].members.contains(p.owner));
    let s1 = delete_step(s, id, id).0;
    lemma_delete_preserves_wf(s, id, id);
    assert(s1.profiles == s.profiles.remove(i));
    assert forall|k: int| 0 <= k < s1.profiles.len() implies (#[trigger] s1.profiles[k]).owner
        != id by {
        let sk: int = if k < i {
            k
        } else {
            k + 1
        };
        assert(s1.profiles[k] == s.profiles[sk]);
        if s.profiles[sk].owner == id {
            lemma_owner_index_unique(s.profiles, id, sk);
        }
    }
    assert(!has_owner(s1.profiles, id));
    lemma_create_preserves_wf(s1, id, f, now);
    let (s2, r2) = create_step(s1, id, f, now);
    assert(r2 is Ok);
    let np = fresh_profile(id, f, now, crate::model::place_target(s1.partitions));
    assert(s2.profiles == s1.profiles.push(np));
    assert(s2.profiles[s1.profiles.len() as int] == np);
    lemma_owner_index_unique(s2.profiles, id, s1.profiles.len() as int);
    assert(profile_of(s2.profiles, id) == np);
}

/// Any mutating call from an identity that is not the record's stored
/// owner fails with `Unauthorized` and leaves the directory, the record,
/// and its partition unchanged.
pub proof fn lemma_non_owner_rejected(
    s: DirView,
    caller: Identity,
    record_owner: Identity,
    target_user: Identity,
    u: UpdateFields,
)
    requires
        has_owner(s.profiles, record_owner),
        caller != profile_of(s.profiles, record_owner).owner,
    ensures
        follow_step(s, caller, record_owner, target_user) == (
            s,
            Err::<(), MyError>(MyError::Unauthorized),
        ),
        update_step(s, caller, record_owner, u) == (s, Err::<(), MyError>(MyError::Unauthorized)),
        delete_step(s, caller, record_owner) == (s, Err::<(), MyError>(MyError::Unauthorized)),
{
}

/// A well-formed directory never holds more records than its declared
/// total capacity: every record's owner occupies a membership slot of its
/// own partition, slots are never shared, and both the partition count
/// and every membership list are bounded.
pub proof fn lemma_records_within_capacity(s: DirView)
    requires
        s.wf(),
    ensures
        s.profiles.len() <= MAX_PARTITIONS * MAX_USERS_PER_PARTITION,
{
    lemma_profile_count_bound(s.partitions, s.profiles);
    lemma_total_members_bound(s.partitions);
}

/// Registration on a directory already holding its full capacity of
/// records always fails and changes nothing — success would put a
/// well-formed directory past a bound it can never exceed — and for an
/// identity without a record the error is `MaxPartitionsReached`.
pub proof fn lemma_create_past_capacity_fails(
    s: DirView,
    caller: Identity,
    f: ProfileFields,
    now: int,
)
    requires
        s.wf(),
        s.initialized,
        fields_wf(f),
        s.profiles.len() >= MAX_PARTITIONS * MAX_USERS_PER_PARTITION,
    ensures
        create_step(s, caller, f, now).1 is Err,
        create_step(s, caller, f, now).0 == s,
        !has_owner(s.profiles, caller) ==> create_step(s, caller, f, now).1 == Err::<(), MyError>(
            MyError::MaxPartitionsReached,
        ),
{
    lemma_create_preserves_wf(s, caller, f, now);
    let r = create_step(s, caller, f, now).1;
    if r is Ok {
        lemma_records_within_capacity(create_step(s, caller, f, now).0);
        assert(false);
    }
}

/// Under any sequence of calls on the freshly initialized directory the
/// partition index stays within its declared bound, as does every
/// partition's membership list: the enumeration never silently exceeds
/// its storage budget.
pub proof fn lemma_bounds_under_any_run(ops: Seq<DirOp>)
    ensures
        dir_run(DirView::fresh(), ops).wf(),
        dir_run(DirView::fresh(), ops).partitions.len() <= MAX_PARTITIONS,
        forall|p: int|
            0 <= p < dir_run(DirView::fresh(), ops).partitions.len() ==> (#[trigger] dir_run(
                DirView::fresh(),
                ops,
            ).partitions[p]).members.len() <= MAX_USERS_PER_PARTITION,
{
    assert(DirView::fresh().wf());
    lemma_run_preserves_wf(DirView::fresh(), ops);
}

} // verus!
