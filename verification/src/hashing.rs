//! The hasher: a pure, deterministic combiner of byte strings into a
//! fixed-width 32-byte digest, with domain separation between leaf
//! digests and internal-node digests.

use vstd::prelude::*;

verus! {

/// The SHA-256 digest of a byte sequence. The digest is a function of the
/// bytes alone; the trusted wrapper below states what the outside hasher
/// returns in terms of this name.
pub uninterp spec fn sha256_of(data: Seq<u8>) -> Seq<u8>;

/// Relies on solana_program::hash::hashv: the SHA-256 digest of the
/// concatenation of the given byte strings, 32 bytes wide.
#[verifier::external_body]
fn hashv_digest(a: &Vec<u8>, b: &Vec<u8>, c: &Vec<u8>) -> (r: Vec<u8>)
    ensures
        r@ == sha256_of(a@ + b@ + c@),
        r@.len() == 32,
{
    let digest = solana_program::hash::hashv(&[a.as_slice(), b.as_slice(), c.as_slice()]);
    digest.to_bytes().to_vec()
}

/// The digest of one leaf: the leaf bytes hashed under the leaf tag, so
/// that a leaf digest can never stand for an internal digest.
pub open spec fn leaf_digest(leaf: Seq<u8>) -> Seq<u8> {
    sha256_of(seq![0u8] + leaf)
}

/// The digest of an internal node: the two child digests hashed under
/// the internal tag.
pub open spec fn node_digest(left: Seq<u8>, right: Seq<u8>) -> Seq<u8> {
    sha256_of(seq![1u8] + left + right)
}

/// Hash one leaf's bytes into its tagged leaf digest.
pub fn hash_leaf(leaf: &Vec<u8>) -> (r: Vec<u8>)
    ensures
        r@ == leaf_digest(leaf@),
        r@.len() == 32,
{
    let mut tag: Vec<u8> = Vec::new();
    tag.push(0u8);
    let rest: Vec<u8> = Vec::new();
    let r = hashv_digest(&tag, leaf, &rest);
    proof {
        assert(tag@ + leaf@ + rest@ =~= seq![0u8] + leaf@);
    }
    r
}

/// Hash two child digests into their tagged internal-node digest.
pub fn hash_node(left: &Vec<u8>, right: &Vec<u8>) -> (r: Vec<u8>)
    ensures
        r@ == node_digest(left@, right@),
        r@.len() == 32,
{
    let mut tag: Vec<u8> = Vec::new();
    tag.push(1u8);
    let r = hashv_digest(&tag, left, right);
    proof {
        assert(tag@ + left@ + right@ =~= seq![1u8] + left@ + right@);
    }
    r
}

} // verus!
