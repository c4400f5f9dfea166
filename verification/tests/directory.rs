use user_profiles::budget::{MAX_PARTITIONS, MAX_USERS_PER_PARTITION};
use user_profiles::directory::Directory;
use user_profiles::errors::MyError;
use user_profiles::identity::Identity;

fn id(n: u128) -> Identity {
    Identity { lo: n, hi: 0 }
}

fn new_directory() -> Directory {
    let mut d = Directory::new();
    assert!(d.initialize().is_ok());
    d
}

fn create(d: &mut Directory, who: Identity, now: i64) -> Result<(), MyError> {
    d.create_profile(
        who,
        String::from("alice"),
        String::from("a profile"),
        String::from("https://social.example/alice"),
        String::from("https://alice.example"),
        String::from("alice@mail.example"),
        String::from("picture-ref"),
        String::from("avatar-ref"),
        now,
    )
}

#[test]
fn initialize_is_one_time() {
    let mut d = Directory::new();
    assert!(d.initialize().is_ok());
    assert_eq!(d.initialize(), Err(MyError::AlreadyInitialized));
}

#[test]
fn create_populates_a_fresh_record() {
    let mut d = new_directory();
    assert!(create(&mut d, id(1), 1700000000).is_ok());
    let p = d.get_profile(id(1)).expect("record must exist");
    assert_eq!(p.owner, id(1));
    assert_eq!(p.nickname, "alice");
    assert_eq!(p.description, "a profile");
    assert_eq!(p.twitter_link, "https://social.example/alice");
    assert_eq!(p.website_link, "https://alice.example");
    assert_eq!(p.email, "alice@mail.example");
    assert_eq!(p.pic, "picture-ref");
    assert_eq!(p.avatar, "avatar-ref");
    assert_eq!(p.registration_time, 1700000000);
    assert_eq!(p.partition_id, 0);
    assert!(p.following.is_empty());
    assert_eq!(d.partition_count(), 1);
    assert_eq!(d.profile_count(), 1);
}

#[test]
fn create_twice_is_rejected() {
    let mut d = new_directory();
    assert!(create(&mut d, id(1), 10).is_ok());
    assert_eq!(create(&mut d, id(1), 20), Err(MyError::ProfileAlreadyExists));
    assert_eq!(d.profile_count(), 1);
}

#[test]
fn follow_user_is_idempotent() {
    let mut d = new_directory();
    assert!(create(&mut d, id(1), 10).is_ok());
    assert!(d.follow_user(id(1), id(1), id(9)).is_ok());
    let once = d.get_profile(id(1)).unwrap().following.clone();
    assert!(d.follow_user(id(1), id(1), id(9)).is_ok());
    let twice = d.get_profile(id(1)).unwrap().following.clone();
    assert_eq!(once, twice);
    assert_eq!(twice, vec![id(9)]);
}

#[test]
fn follow_user_keeps_insertion_order_and_allows_dangling_targets() {
    let mut d = new_directory();
    assert!(create(&mut d, id(1), 10).is_ok());
    // Neither target is registered; dangling follow references are fine.
    assert!(d.follow_user(id(1), id(1), id(7)).is_ok());
    assert!(d.follow_user(id(1), id(1), id(5)).is_ok());
    assert_eq!(d.get_profile(id(1)).unwrap().following, vec![id(7), id(5)]);
}

#[test]
fn follow_user_by_non_owner_is_unauthorized() {
    let mut d = new_directory();
    assert!(create(&mut d, id(1), 10).is_ok());
    let before = d.get_profile(id(1)).unwrap().following.clone();
    assert_eq!(d.follow_user(id(2), id(1), id(9)), Err(MyError::Unauthorized));
    assert_eq!(d.get_profile(id(1)).unwrap().following, before);
}

#[test]
fn update_overwrites_present_fields_only() {
    let mut d = new_directory();
    assert!(create(&mut d, id(1), 10).is_ok());
    let r = d.update_profile(
        id(1),
        id(1),
        Some(String::from("bob")),
        None,
        None,
        None,
        Some(String::from("bob@mail.example")),
        None,
        None,
    );
    assert!(r.is_ok());
    let p = d.get_profile(id(1)).unwrap();
    assert_eq!(p.nickname, "bob");
    assert_eq!(p.email, "bob@mail.example");
    assert_eq!(p.description, "a profile");
    assert_eq!(p.twitter_link, "https://social.example/alice");
    assert_eq!(p.website_link, "https://alice.example");
    assert_eq!(p.pic, "picture-ref");
    assert_eq!(p.avatar, "avatar-ref");
    assert_eq!(p.registration_time, 10);
}

#[test]
fn update_with_all_fields_absent_is_a_noop() {
    let mut d = new_directory();
    assert!(create(&mut d, id(1), 10).is_ok());
    assert!(d.follow_user(id(1), id(1), id(9)).is_ok());
    let before = format!("{:?}", d.get_profile(id(1)).unwrap());
    let r = d.update_profile(id(1), id(1), None, None, None, None, None, None, None);
    assert!(r.is_ok());
    let after = format!("{:?}", d.get_profile(id(1)).unwrap());
    assert_eq!(before, after);
}

#[test]
fn update_by_non_owner_is_unauthorized() {
    let mut d = new_directory();
    assert!(create(&mut d, id(1), 10).is_ok());
    let before = format!("{:?}", d.get_profile(id(1)).unwrap());
    let r = d.update_profile(
        id(2),
        id(1),
        Some(String::from("mallory")),
        None,
        None,
        None,
        None,
        None,
        None,
    );
    assert_eq!(r, Err(MyError::Unauthorized));
    assert_eq!(format!("{:?}", d.get_profile(id(1)).unwrap()), before);
}

#[test]
fn delete_by_non_owner_is_unauthorized() {
    let mut d = new_directory();
    assert!(create(&mut d, id(1), 10).is_ok());
    assert_eq!(d.delete_profile(id(2), id(1)), Err(MyError::Unauthorized));
    assert!(d.get_profile(id(1)).is_some());
    assert_eq!(d.index.partitions[0].members.users, vec![id(1)]);
}

#[test]
fn delete_removes_record_and_membership() {
    let mut d = new_directory();
    assert!(create(&mut d, id(1), 10).is_ok());
    assert!(create(&mut d, id(2), 11).is_ok());
    assert!(d.delete_profile(id(1), id(1)).is_ok());
    assert!(d.get_profile(id(1)).is_none());
    assert!(d.get_profile(id(2)).is_some());
    assert_eq!(d.index.partitions[0].members.users, vec![id(2)]);
    assert_eq!(d.profile_count(), 1);
}

#[test]
fn delete_then_recreate_yields_a_fresh_record() {
    let mut d = new_directory();
    assert!(create(&mut d, id(1), 10).is_ok());
    assert!(d.follow_user(id(1), id(1), id(9)).is_ok());
    assert!(d.delete_profile(id(1), id(1)).is_ok());
    assert!(create(&mut d, id(1), 777).is_ok());
    let p = d.get_profile(id(1)).unwrap();
    assert!(p.following.is_empty());
    assert_eq!(p.registration_time, 777);
}

#[test]
fn registrations_fill_partition_zero_then_split() {
    assert_eq!(MAX_USERS_PER_PARTITION, 250);
    let mut d = new_directory();
    for n in 1..=251u128 {
        assert!(create(&mut d, id(n), n as i64).is_ok());
    }
    assert_eq!(d.partition_count(), 2);
    assert_eq!(d.index.partitions[0].members.users.len(), 250);
    assert_eq!(d.index.partitions[1].members.users.len(), 1);
    assert_eq!(d.index.partitions[1].members.users[0], id(251));
    assert_eq!(d.get_profile(id(251)).unwrap().partition_id, 1);
    assert_eq!(d.get_profile(id(250)).unwrap().partition_id, 0);
}

#[test]
fn registration_past_total_capacity_is_rejected() {
    let total = (MAX_PARTITIONS * MAX_USERS_PER_PARTITION) as u128;
    let mut d = new_directory();
    for n in 1..=total {
        assert!(create(&mut d, id(n), 1).is_ok());
        assert!(d.partition_count() <= MAX_PARTITIONS);
    }
    assert_eq!(d.partition_count(), MAX_PARTITIONS);
    assert_eq!(
        create(&mut d, id(total + 1), 1),
        Err(MyError::MaxPartitionsReached)
    );
    assert_eq!(d.profile_count(), total as usize);
    assert_eq!(d.partition_count(), MAX_PARTITIONS);
}

#[test]
fn delete_detects_membership_drift() {
    let mut d = new_directory();
    assert!(create(&mut d, id(1), 10).is_ok());
    // Fault injection on the storage boundary: the membership entry
    // vanishes while the record stays.
    d.index.partitions[0].members.users.clear();
    assert_eq!(
        d.delete_profile(id(1), id(1)),
        Err(MyError::UserNotFoundInPartition)
    );
    assert!(d.get_profile(id(1)).is_some());
}
