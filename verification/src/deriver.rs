//! The deterministic address deriver.
//!
//! Every storage unit of the directory lives at an address computable
//! purely from a namespace tag and a discriminator, so a record can be
//! located from its owner's identity without any lookup structure: the
//! global users list from its tag and the program id, a partition from
//! its tag and the shard id (little-endian, fixed width), and a profile
//! record from its tag and the owning identity's raw bytes.  The
//! underlying derivation hashes the seeds together with the program id
//! and a bump seed, so the same inputs always yield the same address;
//! distinct discriminators colliding is delegated to the underlying
//! address space.

use vstd::prelude::*;
use crate::errors::MyError;
use crate::identity::Identity;

verus! {

/// What the platform's address derivation returns for the given seeds
/// and program id: the 32-byte address and the bump seed, or nothing
/// when no bump seed yields a valid address or an input limit is
/// exceeded.  The result depends on the arguments alone.
pub uninterp spec fn derived_address(seeds: Seq<Seq<u8>>, program_id: Seq<u8>) -> Option<
    (Seq<u8>, u8),
>;

/// The namespace tag of the global users list: the bytes of
/// `users_list`.
pub open spec fn users_list_tag() -> Seq<u8> {
    seq![117u8, 115u8, 101u8, 114u8, 115u8, 95u8, 108u8, 105u8, 115u8, 116u8]
}

/// The namespace tag of a profile record: the bytes of `user_profile`.
pub open spec fn user_profile_tag() -> Seq<u8> {
    seq![117u8, 115u8, 101u8, 114u8, 95u8, 112u8, 114u8, 111u8, 102u8, 105u8, 108u8, 101u8]
}

/// The namespace tag of a partition: the bytes of `partition`.
pub open spec fn partition_tag() -> Seq<u8> {
    seq![112u8, 97u8, 114u8, 116u8, 105u8, 116u8, 105u8, 111u8, 110u8]
}

/// Byte `k` of the 8-byte little-endian encoding of `x`.
pub open spec fn u64_le_byte(x: u64, k: int) -> u8 {
    ((x >> ((8 * k) as u64)) & 0xff) as u8
}

/// The 8-byte little-endian encoding of `x`.
pub open spec fn u64_le_bytes(x: u64) -> Seq<u8> {
    Seq::new(8, |k: int| u64_le_byte(x, k))
}

/// Relies on `anchor_lang`'s re-exported
/// `Pubkey::try_find_program_address`: run off-chain, it derives the
/// address by hashing the seeds, the program id, a bump seed and a fixed
/// marker, trying bump seeds from 255 downward, so the result is a pure
/// function of the seeds and the program id alone; it returns `None`
/// only when no bump seed yields a valid address, when there are too
/// many seeds, or when a seed is over the platform's length limit.
#[verifier::external_body]
fn find_derived_address(seeds: &Vec<Vec<u8>>, program_id: &Vec<u8>) -> (r: Option<(Vec<u8>, u8)>)
    requires
        program_id@.len() == 32,
    ensures
        match r {
            Some((a, bump)) => derived_address(seeds.deep_view(), program_id@) == Some((a@, bump))
                && a@.len() == 32,
            None => derived_address(seeds.deep_view(), program_id@) is None,
        },
{
    let refs: Vec<&[u8]> = seeds.iter().map(|s| s.as_slice()).collect();
    let mut pid = [0u8; 32];
    pid.copy_from_slice(program_id.as_slice());
    let pk = anchor_lang::prelude::Pubkey::new_from_array(pid);
    anchor_lang::prelude::Pubkey::try_find_program_address(&refs, &pk).map(
        |(a, bump)| (a.to_bytes().to_vec(), bump),
    )
}

/// The bytes of the users-list namespace tag.
fn users_list_tag_bytes() -> (r: Vec<u8>)
    ensures
        r@ == users_list_tag(),
{
    let mut v: Vec<u8> = Vec::new();
    v.push(117);
    v.push(115);
    v.push(101);
    v.push(114);
    v.push(115);
    v.push(95);
    v.push(108);
    v.push(105);
    v.push(115);
    v.push(116);
    proof {
        assert(v@ =~= users_list_tag());
    }
    v
}

/// The bytes of the profile-record namespace tag.
fn user_profile_tag_bytes() -> (r: Vec<u8>)
    ensures
        r@ == user_profile_tag(),
{
    let mut v: Vec<u8> = Vec::new();
    v.push(117);
    v.push(115);
    v.push(101);
    v.push(114);
    v.push(95);
    v.push(112);
    v.push(114);
    v.push(111);
    v.push(102);
    v.push(105);
    v.push(108);
    v.push(101);
    proof {
        assert(v@ =~= user_profile_tag());
    }
    v
}

/// The bytes of the partition namespace tag.
fn partition_tag_bytes() -> (r: Vec<u8>)
    ensures
        r@ == partition_tag(),
{
    let mut v: Vec<u8> = Vec::new();
    v.push(112);
    v.push(97);
    v.push(114);
    v.push(116);
    v.push(105);
    v.push(116);
    v.push(105);
    v.push(111);
    v.push(110);
    proof {
        assert(v@ =~= partition_tag());
    }
    v
}

/// The 8-byte little-endian form of a shard id.
fn u64_to_le_bytes(x: u64) -> (r: Vec<u8>)
    ensures
        r@ == u64_le_bytes(x),
{
    let mut v: Vec<u8> = Vec::new();
    let mut k: usize = 0;
    while k < 8
        invariant
            k <= 8,
            v@.len() == k,
            forall|j: int| 0 <= j < k ==> v@[j] == u64_le_byte(x, j),
        decreases 8 - k,
    {
        let b: u8 = ((x >> ((8 * k) as u64)) & 0xff) as u8;
        v.push(b);
        k = k + 1;
    }
    proof {
        assert(v@ =~= u64_le_bytes(x));
    }
    v
}

/// A copy of a byte vector.
fn copy_bytes(v: &Vec<u8>) -> (r: Vec<u8>)
    ensures
        r@ == v@,
{
    let mut r: Vec<u8> = Vec::new();
    let mut i: usize = 0;
    while i < v.len()
        invariant
            i <= v@.len(),
            r@ == v@.subrange(0, i as int),
        decreases v@.len() - i,
    {
        r.push(v[i]);
        proof {
            assert(r@ =~= v@.subrange(0, i + 1));
        }
        i = i + 1;
    }
    proof {
        assert(r@ =~= v@);
    }
    r
}

/// The storage address of the one global users list: derived from its
/// namespace tag and the program id.  Fails only when the backing
/// address space rejects the derivation.
pub fn derive_users_list_address(program_id: &Vec<u8>) -> (r: Result<(Vec<u8>, u8), MyError>)
    requires
        program_id@.len() == 32,
    ensures
        match r {
            Ok((a, bump)) => derived_address(seq![users_list_tag(), program_id@], program_id@)
                == Some((a@, bump)) && a@.len() == 32,
            Err(e) => e == MyError::AddressDerivationFailed && derived_address(
                seq![users_list_tag(), program_id@],
                program_id@,
            ) is None,
        },
{
    let mut seeds: Vec<Vec<u8>> = Vec::new();
    seeds.push(users_list_tag_bytes());
    seeds.push(copy_bytes(program_id));
    proof {
        assert(seeds.deep_view() =~~= seq![users_list_tag(), program_id@]);
    }
    match find_derived_address(&seeds, program_id) {
        Some(p) => Ok(p),
        None => Err(MyError::AddressDerivationFailed),
    }
}

/// The storage address of the profile record owned by `owner`: derived
/// from the profile namespace tag and the identity's raw bytes, so a
/// record is located from its owner alone.
pub fn derive_user_profile_address(program_id: &Vec<u8>, owner: &Identity) -> (r: Result<
    (Vec<u8>, u8),
    MyError,
>)
    requires
        program_id@.len() == 32,
    ensures
        match r {
            Ok((a, bump)) => derived_address(
                seq![user_profile_tag(), owner.byte_seq()],
                program_id@,
            ) == Some((a@, bump)) && a@.len() == 32,
            Err(e) => e == MyError::AddressDerivationFailed && derived_address(
                seq![user_profile_tag(), owner.byte_seq()],
                program_id@,
            ) is None,
        },
{
    let mut seeds: Vec<Vec<u8>> = Vec::new();
    seeds.push(user_profile_tag_bytes());
    seeds.push(owner.to_le_bytes());
    proof {
        assert(seeds.deep_view() =~~= seq![user_profile_tag(), owner.byte_seq()]);
    }
    match find_derived_address(&seeds, program_id) {
        Some(p) => Ok(p),
        None => Err(MyError::AddressDerivationFailed),
    }
}

/// The storage address of the partition with shard id `partition_id`:
/// derived from the partition namespace tag and the id in fixed-width
/// little-endian form.
pub fn derive_partition_address(program_id: &Vec<u8>, partition_id: u64) -> (r: Result<
    (Vec<u8>, u8),
    MyError,
>)
    requires
        program_id@.len() == 32,
    ensures
        match r {
            Ok((a, bump)) => derived_address(
                seq![partition_tag(), u64_le_bytes(partition_id)],
                program_id@,
            ) == Some((a@, bump)) && a@.len() == 32,
            Err(e) => e == MyError::AddressDerivationFailed && derived_address(
                seq![partition_tag(), u64_le_bytes(partition_id)],
                program_id@,
            ) is None,
        },
{
    let mut seeds: Vec<Vec<u8>> = Vec::new();
    seeds.push(partition_tag_bytes());
    seeds.push(u64_to_le_bytes(partition_id));
    proof {
        assert(seeds.deep_view() =~~= seq![partition_tag(), u64_le_bytes(partition_id)]);
    }
    match find_derived_address(&seeds, program_id) {
        Some(p) => Ok(p),
        None => Err(MyError::AddressDerivationFailed),
    }
}

} // verus!
