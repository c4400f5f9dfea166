use user_profiles::budget;
use user_profiles::deriver;
use user_profiles::errors::MyError;
use user_profiles::identity::Identity;
use user_profiles::partition::{Partition, PartitionIndex};
use user_profiles::users_list::UsersList;

fn id(n: u128) -> Identity {
    Identity { lo: n, hi: 0 }
}

#[test]
fn users_list_capacity_is_a_hard_error() {
    let mut l = UsersList::new();
    for n in 1..=budget::MAX_USERS as u128 {
        assert!(l.add_user(id(n)).is_ok());
    }
    assert_eq!(l.len(), budget::MAX_USERS);
    assert_eq!(l.add_user(id(9999)), Err(MyError::UserListFull));
    assert_eq!(l.len(), budget::MAX_USERS);
}

#[test]
fn users_list_remove_reports_presence() {
    let mut l = UsersList::new();
    assert!(l.add_user(id(1)).is_ok());
    assert!(l.add_user(id(2)).is_ok());
    assert!(!l.remove_user(id(3)));
    assert!(l.remove_user(id(1)));
    assert!(!l.remove_user(id(1)));
    assert_eq!(l.users, vec![id(2)]);
}

#[test]
fn partition_capacity_is_a_hard_error() {
    let mut p = Partition::new(0);
    for n in 1..=budget::MAX_USERS_PER_PARTITION as u128 {
        assert!(p.add_member(id(n)).is_ok());
    }
    assert!(p.is_full());
    assert_eq!(p.add_member(id(9999)), Err(MyError::PartitionFull));
    assert_eq!(p.member_count(), budget::MAX_USERS_PER_PARTITION);
}

#[test]
fn partition_index_assigns_monotonic_ids_up_to_the_ceiling() {
    let mut ix = PartitionIndex::new();
    for expected in 0..budget::MAX_PARTITIONS as u64 {
        assert_eq!(ix.create_partition(), Ok(expected));
    }
    assert_eq!(ix.create_partition(), Err(MyError::MaxPartitionsReached));
    assert_eq!(ix.partition_count(), budget::MAX_PARTITIONS);
    for (pos, p) in ix.partitions.iter().enumerate() {
        assert_eq!(p.id, pos as u64);
        assert_eq!(p.member_count(), 0);
    }
}

#[test]
fn error_names_are_stable() {
    assert_eq!(MyError::Unauthorized.name(), "unauthorized");
    assert_eq!(MyError::UserListFull.name(), "user list is full");
    assert_eq!(
        MyError::MaxPartitionsReached.name(),
        "maximum number of partitions reached"
    );
    assert_eq!(
        MyError::UserNotFoundInPartition.name(),
        "user not found in partition"
    );
}

#[test]
fn budgets_match_the_declared_field_maxima() {
    assert_eq!(budget::string_field_budget(5), 9);
    assert_eq!(budget::collection_field_budget(3, 7), 25);
    assert_eq!(budget::user_profile_space(), 1712);
    assert_eq!(budget::users_list_space(), 8004);
    assert_eq!(budget::partition_space(), 8012);
    assert_eq!(budget::partition_index_space(), 260);
}

#[test]
fn identity_bytes_are_little_endian_lo_then_hi() {
    let b = Identity { lo: 0x0201, hi: 0x0403 }.to_le_bytes();
    assert_eq!(b.len(), 32);
    assert_eq!(b[0], 0x01);
    assert_eq!(b[1], 0x02);
    assert_eq!(&b[2..16], &[0u8; 14]);
    assert_eq!(b[16], 0x03);
    assert_eq!(b[17], 0x04);
    assert_eq!(&b[18..32], &[0u8; 14]);
}

#[test]
fn derived_addresses_are_deterministic_and_fresh() {
    let program_id = vec![7u8; 32];
    let (a1, bump1) = deriver::derive_users_list_address(&program_id).unwrap();
    let (a2, bump2) = deriver::derive_users_list_address(&program_id).unwrap();
    assert_eq!(a1, a2);
    assert_eq!(bump1, bump2);
    assert_eq!(a1.len(), 32);
    // The derived address is not any of the inputs handed in.
    assert_ne!(a1, program_id);
    assert_ne!(a1, b"users_list".to_vec());
}

#[test]
fn derived_addresses_match_the_platform_derivation() {
    let program_id = vec![7u8; 32];
    let pk = anchor_lang::prelude::Pubkey::new_from_array([7u8; 32]);

    let (a, bump) = deriver::derive_users_list_address(&program_id).unwrap();
    let (expect, expect_bump) =
        anchor_lang::prelude::Pubkey::find_program_address(&[b"users_list", &[7u8; 32]], &pk);
    assert_eq!(a, expect.to_bytes().to_vec());
    assert_eq!(bump, expect_bump);

    let owner = Identity { lo: 5, hi: 0 };
    let mut owner_bytes = [0u8; 32];
    owner_bytes[0] = 5;
    let (a, bump) = deriver::derive_user_profile_address(&program_id, &owner).unwrap();
    let (expect, expect_bump) =
        anchor_lang::prelude::Pubkey::find_program_address(&[b"user_profile", &owner_bytes], &pk);
    assert_eq!(a, expect.to_bytes().to_vec());
    assert_eq!(bump, expect_bump);

    let (a, bump) = deriver::derive_partition_address(&program_id, 3).unwrap();
    let (expect, expect_bump) = anchor_lang::prelude::Pubkey::find_program_address(
        &[b"partition", &3u64.to_le_bytes()],
        &pk,
    );
    assert_eq!(a, expect.to_bytes().to_vec());
    assert_eq!(bump, expect_bump);
}

#[test]
fn distinct_discriminators_give_distinct_addresses() {
    let program_id = vec![7u8; 32];
    let (list_addr, _) = deriver::derive_users_list_address(&program_id).unwrap();
    let (p0, _) = deriver::derive_partition_address(&program_id, 0).unwrap();
    let (p1, _) = deriver::derive_partition_address(&program_id, 1).unwrap();
    let (alice, _) =
        deriver::derive_user_profile_address(&program_id, &Identity { lo: 1, hi: 0 }).unwrap();
    let (bob, _) =
        deriver::derive_user_profile_address(&program_id, &Identity { lo: 2, hi: 0 }).unwrap();
    assert_ne!(p0, p1);
    assert_ne!(alice, bob);
    assert_ne!(list_addr, p0);
    assert_ne!(list_addr, alice);
}
