//! Profile records and their ownership-gated mutations.
//!
//! One profile record exists per identity; its `owner` field is immutable
//! after creation and is the sole authority permitted to mutate the record.

use vstd::prelude::*;
use crate::budget::{
    IDENTITY_BYTES, LEN_PREFIX_BYTES, MAX_AVATAR_LEN, MAX_DESCRIPTION_LEN, MAX_EMAIL_LEN,
    MAX_FOLLOWING_LEN, MAX_NICKNAME_LEN, MAX_PIC_LEN, MAX_TWITTER_LEN, MAX_WEBSITE_LEN,
    PARTITION_ID_BYTES, TIMESTAMP_BYTES, USER_PROFILE_MAX_SIZE,
};
use crate::errors::MyError;
use crate::identity::{contains_identity, distinct_seq, Identity};

verus! {

/// The mathematical value of a profile record.
pub ghost struct ProfileView {
    /// The identity that owns, and alone may mutate, this record.
    pub owner: Identity,
    pub nickname: Seq<char>,
    pub description: Seq<char>,
    pub twitter_link: Seq<char>,
    pub website_link: Seq<char>,
    pub email: Seq<char>,
    /// Set once at creation, never mutated.
    pub registration_time: int,
    /// Identities this owner follows, in insertion order.
    pub following: Seq<Identity>,
    pub pic: Seq<char>,
    pub avatar: Seq<char>,
    /// The partition whose membership list contains this owner.
    pub partition_id: int,
}

/// The field values supplied when a profile is created.
pub ghost struct ProfileFields {
    pub nickname: Seq<char>,
    pub description: Seq<char>,
    pub twitter_link: Seq<char>,
    pub website_link: Seq<char>,
    pub email: Seq<char>,
    pub pic: Seq<char>,
    pub avatar: Seq<char>,
}

/// A partial update: a present field overwrites, an absent one leaves the
/// record unchanged.
pub ghost struct UpdateFields {
    pub nickname: Option<Seq<char>>,
    pub description: Option<Seq<char>>,
    pub twitter_link: Option<Seq<char>>,
    pub website_link: Option<Seq<char>>,
    pub email: Option<Seq<char>>,
    pub pic: Option<Seq<char>>,
    pub avatar: Option<Seq<char>>,
}

/// Every supplied field is within the length bound declared for it at
/// schema-definition time.
pub open spec fn fields_wf(f: ProfileFields) -> bool {
    &&& f.nickname.len() <= MAX_NICKNAME_LEN
    &&& f.description.len() <= MAX_DESCRIPTION_LEN
    &&& f.twitter_link.len() <= MAX_TWITTER_LEN
    &&& f.website_link.len() <= MAX_WEBSITE_LEN
    &&& f.email.len() <= MAX_EMAIL_LEN
    &&& f.pic.len() <= MAX_PIC_LEN
    &&& f.avatar.len() <= MAX_AVATAR_LEN
}

/// Every present field of a partial update is within its length bound.
pub open spec fn updates_wf(u: UpdateFields) -> bool {
    &&& (u.nickname matches Some(s) ==> s.len() <= MAX_NICKNAME_LEN)
    &&& (u.description matches Some(s) ==> s.len() <= MAX_DESCRIPTION_LEN)
    &&& (u.twitter_link matches Some(s) ==> s.len() <= MAX_TWITTER_LEN)
    &&& (u.website_link matches Some(s) ==> s.len() <= MAX_WEBSITE_LEN)
    &&& (u.email matches Some(s) ==> s.len() <= MAX_EMAIL_LEN)
    &&& (u.pic matches Some(s) ==> s.len() <= MAX_PIC_LEN)
    &&& (u.avatar matches Some(s) ==> s.len() <= MAX_AVATAR_LEN)
}

impl ProfileView {
    /// A record is well formed when every field is within its declared
    /// bound and the following set holds no identity twice.
    pub open spec fn wf(self) -> bool {
        &&& fields_wf(self.fields())
        &&& self.following.len() <= MAX_FOLLOWING_LEN
        &&& distinct_seq(self.following)
    }

    /// The supplied-field part of the record.
    pub open spec fn fields(self) -> ProfileFields {
        ProfileFields {
            nickname: self.nickname,
            description: self.description,
            twitter_link: self.twitter_link,
            website_link: self.website_link,
            email: self.email,
            pic: self.pic,
            avatar: self.avatar,
        }
    }
}

/// The record a creation call produces: supplied fields copied verbatim,
/// empty following set, registration time set once.
pub open spec fn fresh_profile(
    owner: Identity,
    f: ProfileFields,
    now: int,
    partition_id: int,
) -> ProfileView {
    ProfileView {
        owner,
        nickname: f.nickname,
        description: f.description,
        twitter_link: f.twitter_link,
        website_link: f.website_link,
        email: f.email,
        registration_time: now,
        following: Seq::empty(),
        pic: f.pic,
        avatar: f.avatar,
        partition_id,
    }
}

/// The following set after one follow call: unchanged when `target` is
/// already present, otherwise `target` appended.
pub open spec fn follow_result(following: Seq<Identity>, target: Identity) -> Seq<Identity> {
    if following.contains(target) {
        following
    } else {
        following.push(target)
    }
}

/// A present update overwrites the current value; an absent one keeps it.
pub open spec fn pick(update: Option<Seq<char>>, current: Seq<char>) -> Seq<char> {
    match update {
        Some(s) => s,
        None => current,
    }
}

/// The record after a partial update is applied to `p`.
pub open spec fn updated_view(p: ProfileView, u: UpdateFields) -> ProfileView {
    ProfileView {
        nickname: pick(u.nickname, p.nickname),
        description: pick(u.description, p.description),
        twitter_link: pick(u.twitter_link, p.twitter_link),
        website_link: pick(u.website_link, p.website_link),
        email: pick(u.email, p.email),
        pic: pick(u.pic, p.pic),
        avatar: pick(u.avatar, p.avatar),
        ..p
    }
}

/// Worst-case bytes of the wire form of `p`.  The schema reserves one byte
/// per character of each bounded string, a length prefix per
/// variable-length field, and a full identity per following entry.
pub open spec fn profile_serialized_size(p: ProfileView) -> int {
    IDENTITY_BYTES + TIMESTAMP_BYTES + PARTITION_ID_BYTES + (LEN_PREFIX_BYTES + p.nickname.len())
        + (LEN_PREFIX_BYTES + p.description.len()) + (LEN_PREFIX_BYTES + p.twitter_link.len()) + (
    LEN_PREFIX_BYTES + p.website_link.len()) + (LEN_PREFIX_BYTES + p.email.len()) + (
    LEN_PREFIX_BYTES + p.pic.len()) + (LEN_PREFIX_BYTES + p.avatar.len()) + (LEN_PREFIX_BYTES
        + IDENTITY_BYTES * p.following.len())
}

/// A well-formed record always fits the fixed budget its storage unit
/// reserved, so a write can never corrupt adjacent storage.
pub proof fn lemma_wf_profile_fits_budget(p: ProfileView)
    requires
        p.wf(),
    ensures
        profile_serialized_size(p) <= USER_PROFILE_MAX_SIZE as int,
{
}

/// One profile record.  Supplied fields are copied verbatim at creation;
/// empty strings are valid.
#[derive(Debug)]
pub struct UserProfile {
    /// Immutable after creation; the sole authority over this record.
    pub owner: Identity,
    pub nickname: String,
    pub description: String,
    pub twitter_link: String,
    pub website_link: String,
    pub email: String,
    /// Set once at creation, never mutated.
    pub registration_time: i64,
    /// Identities this owner follows, in insertion order.
    pub following: Vec<Identity>,
    pub pic: String,
    pub avatar: String,
    /// The partition whose membership list contains this owner.
    pub partition_id: u64,
}

impl View for UserProfile {
    type V = ProfileView;

    open spec fn view(&self) -> ProfileView {
        ProfileView {
            owner: self.owner,
            nickname: self.nickname@,
            description: self.description@,
            twitter_link: self.twitter_link@,
            website_link: self.website_link@,
            email: self.email@,
            registration_time: self.registration_time as int,
            following: self.following@,
            pic: self.pic@,
            avatar: self.avatar@,
            partition_id: self.partition_id as int,
        }
    }
}

impl UserProfile {
    /// Allocate and populate a fresh record owned by `owner`.
    pub fn new(
        owner: Identity,
        nickname: String,
        description: String,
        twitter_link: String,
        website_link: String,
        email: String,
        pic: String,
        avatar: String,
        registration_time: i64,
        partition_id: u64,
    ) -> (r: UserProfile)
        ensures
            r@ == fresh_profile(
                owner,
                (ProfileFields {
                    nickname: nickname@,
                    description: description@,
                    twitter_link: twitter_link@,
                    website_link: website_link@,
                    email: email@,
                    pic: pic@,
                    avatar: avatar@,
                }),
                registration_time as int,
                partition_id as int,
            ),
    {
        UserProfile {
            owner,
            nickname,
            description,
            twitter_link,
            website_link,
            email,
            registration_time,
            following: Vec::new(),
            pic,
            avatar,
            partition_id,
        }
    }

    /// Add `target_user` to this record's following set if it is absent;
    /// following an already-followed identity is a silent no-op.  Only the
    /// owner may mutate the record; any other caller gets `Unauthorized`
    /// and the record is left unchanged.
    pub fn follow(&mut self, caller: Identity, target_user: Identity) -> (r: Result<(), MyError>)
        requires
            old(self)@.following.len() < MAX_FOLLOWING_LEN || old(self)@.following.contains(
                target_user,
            ),
        ensures
            caller == old(self)@.owner ==> r == Ok::<(), MyError>(()) && final(self)@ == (
            ProfileView {
                following: follow_result(old(self)@.following, target_user),
                ..old(self)@
            }),
            caller != old(self)@.owner ==> r == Err::<(), MyError>(MyError::Unauthorized)
                && final(self)@ == old(self)@,
    {
        if !(self.owner == caller) {
            return Err(MyError::Unauthorized);
        }
        if !contains_identity(&self.following, target_user) {
            self.following.push(target_user);
        }
        Ok(())
    }

    /// Overwrite each field for which a new value is present; leave every
    /// absent field unchanged.  Partial updates are first-class: a caller
    /// never has to resend unchanged fields.  Only the owner may mutate
    /// the record; any other caller gets `Unauthorized` and the record is
    /// left unchanged.
    pub fn update(
        &mut self,
        caller: Identity,
        nickname: Option<String>,
        description: Option<String>,
        twitter_link: Option<String>,
        website_link: Option<String>,
        email: Option<String>,
        pic: Option<String>,
        avatar: Option<String>,
    ) -> (r: Result<(), MyError>)
        ensures
            caller == old(self)@.owner ==> r == Ok::<(), MyError>(()),
            caller != old(self)@.owner ==> r == Err::<(), MyError>(MyError::Unauthorized)
                && final(self)@ == old(self)@,
            r is Ok ==> final(self)@ == updated_view(
                old(self)@,
                (UpdateFields {
                    nickname: nickname.deep_view(),
                    description: description.deep_view(),
                    twitter_link: twitter_link.deep_view(),
                    website_link: website_link.deep_view(),
                    email: email.deep_view(),
                    pic: pic.deep_view(),
                    avatar: avatar.deep_view(),
                }),
            ),
    {
        if !(self.owner == caller) {
            return Err(MyError::Unauthorized);
        }
        if let Some(new_nickname) = nickname {
            self.nickname = new_nickname;
        }
        if let Some(new_description) = description {
            self.description = new_description;
        }
        if let Some(new_twitter_link) = twitter_link {
            self.twitter_link = new_twitter_link;
        }
        if let Some(new_website_link) = website_link {
            self.website_link = new_website_link;
        }
        if let Some(new_email) = email {
            self.email = new_email;
        }
        if let Some(new_pic) = pic {
            self.pic = new_pic;
        }
        if let Some(new_avatar) = avatar {
            self.avatar = new_avatar;
        }
        Ok(())
    }
}

} // verus!
