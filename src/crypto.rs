//! Hashing and merkle commitments, provided by outside crates.
use vstd::prelude::*;

verus! {

/// The 32-byte BLAKE2b digest of a byte string.
pub uninterp spec fn blake2_256_of(data: Seq<u8>) -> Seq<u8>;

/// The merkle root over the given leaves, in their order.
pub uninterp spec fn merkle_root_of(leaves: Seq<Seq<u8>>) -> Seq<u8>;

/// The sibling hashes proving the leaf at `index` against the root over `leaves`.
pub uninterp spec fn merkle_proof_of(leaves: Seq<Seq<u8>>, index: nat) -> Seq<Seq<u8>>;

/// Whether `proof` recomputes `root` from `leaf` at `index` of `n` leaves.
pub uninterp spec fn merkle_verify_of(
    root: Seq<u8>,
    proof: Seq<Seq<u8>>,
    n: nat,
    index: nat,
    leaf: Seq<u8>,
) -> bool;

pub open spec fn views(v: Seq<Vec<u8>>) -> Seq<Seq<u8>> {
    v.map_values(|l: Vec<u8>| l@)
}

pub open spec fn hash_views(v: Seq<[u8; 32]>) -> Seq<Seq<u8>> {
    v.map_values(|l: [u8; 32]| l@)
}

/// Relies on `sp_core::Blake2Hasher` (`hash_db::Hasher::hash`): the BLAKE2b-256
/// digest of the bytes, which depends on the bytes alone.
#[verifier::external_body]
pub(crate) fn blake2_256(data: &Vec<u8>) -> (r: [u8; 32])
    ensures
        r@ == blake2_256_of(data@),
{
    <sp_core::Blake2Hasher as sp_core::Hasher>::hash(data.as_slice()).0
}

/// Relies on `binary_merkle_tree::merkle_root` over `sp_core::Blake2Hasher`:
/// the root of the binary tree whose leaves are the hashes of `leaves`, in order.
#[verifier::external_body]
pub(crate) fn merkle_root(leaves: &Vec<Vec<u8>>) -> (r: [u8; 32])
    ensures
        r@ == merkle_root_of(views(leaves@)),
{
    binary_merkle_tree::merkle_root::<sp_core::Blake2Hasher, _>(leaves.iter()).0
}

/// Relies on `binary_merkle_tree::merkle_proof` over `sp_core::Blake2Hasher`:
/// the sibling hashes for the leaf at `index`, collected in the same pass that
/// computes the root, so `verify_proof` accepts them against that root. It
/// panics when `index` is not below the number of leaves, which `requires`
/// rules out.
#[verifier::external_body]
pub(crate) fn merkle_proof(leaves: &Vec<Vec<u8>>, index: u32) -> (r: Vec<[u8; 32]>)
    requires
        (index as int) < leaves@.len(),
        leaves@.len() <= u32::MAX,
    ensures
        hash_views(r@) == merkle_proof_of(views(leaves@), index as nat),
        merkle_verify_of(
            merkle_root_of(views(leaves@)),
            hash_views(r@),
            leaves@.len() as nat,
            index as nat,
            leaves@[index as int]@,
        ),
{
    let proof = binary_merkle_tree::merkle_proof::<sp_core::Blake2Hasher, _, _>(leaves.iter(), index);
    proof.proof.into_iter().map(|h| h.0).collect()
}

/// Relies on `binary_merkle_tree::verify_proof` over `sp_core::Blake2Hasher`:
/// whether the proof recomputes `root` from the hash of `leaf`. It returns
/// false at once when `index` is not below `n`.
#[verifier::external_body]
pub(crate) fn merkle_verify(root: &[u8; 32], proof: &Vec<[u8; 32]>, n: u32, index: u32, leaf: &Vec<u8>) -> (r: bool)
    ensures
        r == merkle_verify_of(root@, hash_views(proof@), n as nat, index as nat, leaf@),
        index >= n ==> !r,
{
    binary_merkle_tree::verify_proof::<sp_core::Blake2Hasher, _, _>(
        &sp_core::H256(*root),
        proof.iter().map(|h| sp_core::H256(*h)),
        n,
        index,
        leaf,
    )
}

} // verus!
