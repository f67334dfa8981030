//! The invocation router: decodes a request, checks the caller-asserted
//! storage address against the derived one, and maps the two request
//! kinds onto the tree and the storage-region manager. Every mutation is
//! read-decode-mutate-encode-write, performed once per invocation; every
//! failure leaves the region and the funding source untouched.

use vstd::prelude::*;

use crate::codec::{decode, decode_tree, encode, encode_tree, le_val, lemma_le_round_trip, u32_le};
use crate::errors::TreeError;
use crate::region::{create_pda_space, update_pda_space, Region, RentSchedule};
use crate::tree::{root_of, MerkleTree};
use vstd::slice::{slice_subrange, slice_to_vec};

verus! {

/// The two request kinds a caller can submit.
pub enum TreeInstruction {
    /// Commit one more leaf into the tree, provisioning the region on
    /// first use.
    Insert { value: Vec<u8> },
    /// Report the tree's leaf count and root without changing anything.
    GetInfo,
}

/// What a completed request reports back.
#[derive(Debug, PartialEq, Eq, Clone)]
pub enum Response {
    /// The region was never provisioned: an empty tree, zero leaves, no
    /// root. A defined observation, not an error.
    Uninitialized,
    /// The tree's leaf count and its root digest; the root is absent
    /// exactly when the tree holds no leaves.
    TreeInfo { leaf_count: usize, root: Option<Vec<u8>> },
}

/// Whether bytes are a well-formed request: an insert tag followed by a
/// length-prefixed value consuming the rest exactly, or the bare info
/// tag. Anything else is malformed.
pub open spec fn instruction_bytes_valid(b: Seq<u8>) -> bool {
    ||| (b.len() >= 5 && b[0] == 0 && le_val(b.subrange(1, 5)) as int == b.len() - 5)
    ||| (b.len() == 1 && b[0] == 1)
}

/// Decode request bytes into a request. Succeeds exactly on well-formed
/// requests; rejected bytes cause no region access.
pub fn decode_instruction(input: &Vec<u8>) -> (r: Result<TreeInstruction, TreeError>)
    ensures
        match r {
            Result::Ok(insn) => {
                &&& instruction_bytes_valid(input@)
                &&& match insn {
                    TreeInstruction::Insert { value } => {
                        &&& input@[0] == 0
                        &&& value@ == input@.skip(5)
                        &&& value@.len() <= u32::MAX
                    },
                    TreeInstruction::GetInfo => input@.len() == 1 && input@[0] == 1,
                }
            },
            Result::Err(e) => e == TreeError::MalformedRequest && !instruction_bytes_valid(input@),
        },
{
    let n = input.len();
    if n == 0 {
        return Result::Err(TreeError::MalformedRequest);
    }
    let tag = input[0];
    if tag == 0 {
        if n < 5 {
            return Result::Err(TreeError::MalformedRequest);
        }
        let b0 = input[1] as u32;
        let b1 = input[2] as u32;
        let b2 = input[3] as u32;
        let b3 = input[4] as u32;
        let l = b0 | (b1 << 8u32) | (b2 << 16u32) | (b3 << 24u32);
        if l as usize != n - 5 {
            return Result::Err(TreeError::MalformedRequest);
        }
        let value = slice_to_vec(slice_subrange(input.as_slice(), 5, n));
        proof {
            assert(value@ =~= input@.skip(5));
        }
        Result::Ok(TreeInstruction::Insert { value })
    } else if tag == 1 {
        if n != 1 {
            return Result::Err(TreeError::MalformedRequest);
        }
        Result::Ok(TreeInstruction::GetInfo)
    } else {
        Result::Err(TreeError::MalformedRequest)
    }
}

/// Encode a request into its canonical bytes, the same length-prefixed
/// discipline the tree codec uses; what `decode_instruction` accepts.
pub fn encode_instruction(insn: &TreeInstruction) -> (r: Vec<u8>)
    requires
        match insn {
            TreeInstruction::Insert { value } => value@.len() <= u32::MAX,
            TreeInstruction::GetInfo => true,
        },
    ensures
        instruction_bytes_valid(r@),
        match insn {
            TreeInstruction::Insert { value } => r@ == seq![0u8] + u32_le(value@.len() as u32)
                + value@,
            TreeInstruction::GetInfo => r@ == seq![1u8],
        },
{
    match insn {
        TreeInstruction::Insert { value } => {
            let n = value.len() as u32;
            let mut out: Vec<u8> = Vec::new();
            out.push(0u8);
            out.push((n & 0xff) as u8);
            out.push(((n >> 8) & 0xff) as u8);
            out.push(((n >> 16) & 0xff) as u8);
            out.push(((n >> 24) & 0xff) as u8);
            out.extend_from_slice(value.as_slice());
            proof {
                assert(out@ =~= seq![0u8] + u32_le(n) + value@);
                lemma_le_round_trip(n);
                assert(out@.subrange(1, 5) =~= u32_le(n));
            }
            out
        },
        TreeInstruction::GetInfo => {
            let mut out: Vec<u8> = Vec::new();
            out.push(1u8);
            proof {
                assert(out@ =~= seq![1u8]);
            }
            out
        },
    }
}

/// Whether a response reports exactly a given tree state: its leaf count,
/// and its root digest, absent exactly when it has no leaves.
pub open spec fn reports_tree(resp: Response, leaves: Seq<Seq<u8>>) -> bool {
    match resp {
        Response::TreeInfo { leaf_count, root } => {
            &&& leaf_count == leaves.len()
            &&& match root {
                Option::Some(d) => leaves.len() > 0 && d@ == root_of(leaves) && d@.len() == 32,
                Option::None => leaves.len() == 0,
            }
        },
        Response::Uninitialized => false,
    }
}

/// A successful first-time provision: the region holds exactly the
/// encoding of the one-leaf tree, funded with the minimum deposit for
/// that length, paid by the funding source; the response reports the new
/// tree.
pub open spec fn provision_ok(
    old_region: Region,
    old_payer: u64,
    rent: RentSchedule,
    value: Seq<u8>,
    new_region: Region,
    new_payer: u64,
    resp: Response,
) -> bool {
    let bytes = encode_tree(seq![value]);
    let deposit = rent.spec_minimum_balance(bytes.len());
    &&& old_region.data@.len() == 0
    &&& old_region.lamports == 0
    &&& old_payer >= deposit
    &&& new_payer == old_payer - deposit
    &&& new_region.lamports == deposit
    &&& new_region.data@ == bytes
    &&& new_region.data@.len() == bytes.len()
    &&& reports_tree(resp, seq![value])
}

/// Why a first-time provision fails: the region already held data or
/// funding, or else the funding source could not cover the deposit.
pub open spec fn provision_err(
    old_region: Region,
    old_payer: u64,
    rent: RentSchedule,
    value: Seq<u8>,
    e: TreeError,
) -> bool {
    if old_region.data@.len() > 0 || old_region.lamports > 0 {
        e == TreeError::AlreadyProvisioned
    } else {
        e == TreeError::InsufficientFunds && old_payer < rent.spec_minimum_balance(
            encode_tree(seq![value]).len(),
        )
    }
}

/// A successful append to an existing region: the stored tree gains the
/// one leaf, the region holds exactly the new encoding, a grow was funded
/// by exactly the shortfall, and the response reports the new tree.
pub open spec fn append_ok(
    old_region: Region,
    old_payer: u64,
    rent: RentSchedule,
    value: Seq<u8>,
    new_region: Region,
    new_payer: u64,
    resp: Response,
) -> bool {
    match decode_tree(old_region.data@) {
        Option::Some(old_leaves) => {
            let new_leaves = old_leaves.push(value);
            let bytes = encode_tree(new_leaves);
            let need = rent.spec_minimum_balance(bytes.len());
            let diff = if need > old_region.lamports {
                (need - old_region.lamports) as u64
            } else {
                0u64
            };
            &&& old_leaves.len() < u32::MAX
            &&& new_region.data@ == bytes
            &&& new_region.data@.len() == bytes.len()
            &&& if old_region.data@.len() >= bytes.len() {
                new_payer == old_payer && new_region.lamports == old_region.lamports
            } else {
                &&& old_payer >= diff
                &&& new_payer == old_payer - diff
                &&& new_region.lamports == old_region.lamports + diff
            }
            &&& reports_tree(resp, new_leaves)
        },
        Option::None => false,
    }
}

/// Why an append fails: the stored bytes do not decode; or the tree is at
/// the encoding's capacity; or the region must grow and the funding
/// source cannot cover the shortfall.
pub open spec fn append_err(
    old_region: Region,
    old_payer: u64,
    rent: RentSchedule,
    value: Seq<u8>,
    e: TreeError,
) -> bool {
    match decode_tree(old_region.data@) {
        Option::None => e == TreeError::DecodeFailure,
        Option::Some(old_leaves) => {
            if old_leaves.len() >= u32::MAX {
                e == TreeError::CapacityExceeded
            } else {
                let bytes = encode_tree(old_leaves.push(value));
                let need = rent.spec_minimum_balance(bytes.len());
                let diff = if need > old_region.lamports {
                    (need - old_region.lamports) as u64
                } else {
                    0u64
                };
                &&& e == TreeError::InsufficientFunds
                &&& old_region.data@.len() < bytes.len()
                &&& old_payer < diff
            }
        },
    }
}

/// First insert: build the one-leaf tree, provision the region at exactly
/// its encoded length, and write the encoding.
pub fn insert_init(
    region: &mut Region,
    payer: &mut u64,
    rent: &RentSchedule,
    value: Vec<u8>,
) -> (r: Result<Response, TreeError>)
    requires
        value@.len() <= u32::MAX,
    ensures
        match r {
            Result::Ok(resp) => provision_ok(
                *old(region),
                *old(payer),
                *rent,
                value@,
                *final(region),
                *final(payer),
                resp,
            ),
            Result::Err(e) => {
                &&& provision_err(*old(region), *old(payer), *rent, value@, e)
                &&& *final(region) == *old(region)
                &&& *final(payer) == *old(payer)
            },
        },
{
    let mut batch: Vec<Vec<u8>> = Vec::new();
    batch.push(value);
    let tree = MerkleTree::new(batch);
    proof {
        assert(tree@ =~= seq![value@]);
    }
    let bytes = encode(&tree);
    match create_pda_space(region, payer, rent, bytes.len()) {
        Result::Ok(_) => {},
        Result::Err(e) => {
            return Result::Err(e);
        },
    }
    region.data = bytes;
    let leaf_count = tree.leaf_count();
    match tree.get_root() {
        Option::Some(d) => Result::Ok(
            Response::TreeInfo { leaf_count, root: Option::Some(d) },
        ),
        Option::None => {
            // Unreachable: the tree just built holds at least one leaf.
            proof {
                assert(false);
            }
            Result::Err(TreeError::DecodeFailure)
        },
    }
}

/// Later insert: decode the stored tree, append the leaf, grow the region
/// to exactly the new encoded length, and overwrite it in full.
pub fn insert_update(
    region: &mut Region,
    payer: &mut u64,
    rent: &RentSchedule,
    value: Vec<u8>,
) -> (r: Result<Response, TreeError>)
    requires
        value@.len() <= u32::MAX,
    ensures
        match r {
            Result::Ok(resp) => append_ok(
                *old(region),
                *old(payer),
                *rent,
                value@,
                *final(region),
                *final(payer),
                resp,
            ),
            Result::Err(e) => {
                &&& append_err(*old(region), *old(payer), *rent, value@, e)
                &&& *final(region) == *old(region)
                &&& *final(payer) == *old(payer)
            },
        },
{
    let old_tree = match decode(&region.data) {
        Result::Ok(t) => t,
        Result::Err(e) => {
            return Result::Err(e);
        },
    };
    let count = old_tree.leaf_count();
    if count >= u32::MAX as usize {
        return Result::Err(TreeError::CapacityExceeded);
    }
    let ghost old_leaves = old_tree@;
    let mut batch: Vec<Vec<u8>> = Vec::new();
    batch.push(value);
    let tree = MerkleTree::from_tree(old_tree, batch);
    proof {
        assert(tree@ =~= old_leaves.push(value@));
    }
    let bytes = encode(&tree);
    match update_pda_space(region, payer, rent, bytes.len()) {
        Result::Ok(_) => {},
        Result::Err(e) => {
            return Result::Err(e);
        },
    }
    region.data = bytes;
    let leaf_count = tree.leaf_count();
    match tree.get_root() {
        Option::Some(d) => Result::Ok(
            Response::TreeInfo { leaf_count, root: Option::Some(d) },
        ),
        Option::None => {
            // Unreachable: the tree just built holds at least one leaf.
            proof {
                assert(false);
            }
            Result::Err(TreeError::DecodeFailure)
        },
    }
}

/// Report the tree a region holds: its leaf count and root, read-only.
/// Stored bytes that do not decode are a hard failure, never an empty
/// tree.
pub fn get_tree_info(region: &Region) -> (r: Result<Response, TreeError>)
    ensures
        match r {
            Result::Ok(resp) => match decode_tree(region.data@) {
                Option::Some(leaves) => reports_tree(resp, leaves),
                Option::None => false,
            },
            Result::Err(e) => e == TreeError::DecodeFailure && decode_tree(region.data@) is None,
        },
{
    let tree = match decode(&region.data) {
        Result::Ok(t) => t,
        Result::Err(e) => {
            return Result::Err(e);
        },
    };
    let leaf_count = tree.leaf_count();
    let root = tree.get_root();
    Result::Ok(Response::TreeInfo { leaf_count, root })
}

/// Whether two byte strings are equal.
fn bytes_equal(a: &Vec<u8>, b: &Vec<u8>) -> (r: bool)
    ensures
        r == (a@ == b@),
{
    if a.len() != b.len() {
        return false;
    }
    let mut i: usize = 0;
    while i < a.len()
        invariant
            a@.len() == b@.len(),
            i <= a@.len(),
            forall|k: int| 0 <= k < i ==> a@[k] == b@[k],
        decreases a@.len() - i,
    {
        if a[i] != b[i] {
            return false;
        }
        i += 1;
    }
    proof {
        assert(a@ =~= b@);
    }
    true
}

/// Dispatch one request against the one region that backs the caller's
/// tree. The request is decoded first; a malformed one is rejected before
/// any region access. The caller-asserted address must equal the derived
/// one. An insert provisions the region on first use and appends
/// afterwards; an info request on a never-provisioned region reports
/// uninitialized. Every failure leaves region and funding unchanged.
pub fn process_instruction(
    provided_address: &Vec<u8>,
    derived_address: &Vec<u8>,
    input: &Vec<u8>,
    region: &mut Region,
    payer: &mut u64,
    rent: &RentSchedule,
) -> (r: Result<Response, TreeError>)
    ensures
        match r {
            Result::Ok(resp) => {
                &&& instruction_bytes_valid(input@)
                &&& provided_address@ == derived_address@
                &&& if input@[0] == 1 {
                    &&& *final(region) == *old(region)
                    &&& *final(payer) == *old(payer)
                    &&& if old(region).is_uninitialized() {
                        resp == Response::Uninitialized
                    } else {
                        match decode_tree(old(region).data@) {
                            Option::Some(leaves) => reports_tree(resp, leaves),
                            Option::None => false,
                        }
                    }
                } else {
                    if old(region).is_uninitialized() {
                        provision_ok(
                            *old(region),
                            *old(payer),
                            *rent,
                            input@.skip(5),
                            *final(region),
                            *final(payer),
                            resp,
                        )
                    } else {
                        append_ok(
                            *old(region),
                            *old(payer),
                            *rent,
                            input@.skip(5),
                            *final(region),
                            *final(payer),
                            resp,
                        )
                    }
                }
            },
            Result::Err(e) => {
                &&& *final(region) == *old(region)
                &&& *final(payer) == *old(payer)
                &&& if !instruction_bytes_valid(input@) {
                    e == TreeError::MalformedRequest
                } else if provided_address@ != derived_address@ {
                    e == TreeError::AddressMismatch
                } else if input@[0] == 1 {
                    &&& !old(region).is_uninitialized()
                    &&& e == TreeError::DecodeFailure
                    &&& decode_tree(old(region).data@) is None
                } else {
                    if old(region).is_uninitialized() {
                        provision_err(*old(region), *old(payer), *rent, input@.skip(5), e)
                    } else {
                        append_err(*old(region), *old(payer), *rent, input@.skip(5), e)
                    }
                }
            },
        },
{
    let insn = match decode_instruction(input) {
        Result::Ok(i) => i,
        Result::Err(e) => {
            return Result::Err(e);
        },
    };
    if !bytes_equal(provided_address, derived_address) {
        return Result::Err(TreeError::AddressMismatch);
    }
    match insn {
        TreeInstruction::Insert { value } => {
            if region.data.len() == 0 || region.lamports == 0 {
                insert_init(region, payer, rent, value)
            } else {
                insert_update(region, payer, rent, value)
            }
        },
        TreeInstruction::GetInfo => {
            if region.data.len() == 0 || region.lamports == 0 {
                Result::Ok(Response::Uninitialized)
            } else {
                get_tree_info(region)
            }
        },
    }
}

} // verus!
