use tree_lib::codec::{decode, encode};
use tree_lib::errors::TreeError;
use tree_lib::region::{Region, RentSchedule};
use tree_lib::router::{
    encode_instruction, process_instruction, Response, TreeInstruction,
};
use tree_lib::tree::MerkleTree;

const RENT: RentSchedule = RentSchedule { base: 890_880, lamports_per_byte: 6_960 };

fn addr(b: u8) -> Vec<u8> {
    vec![b; 32]
}

fn insert(value: &[u8]) -> Vec<u8> {
    encode_instruction(&TreeInstruction::Insert { value: value.to_vec() })
}

fn get_info() -> Vec<u8> {
    encode_instruction(&TreeInstruction::GetInfo)
}

fn run(
    input: &Vec<u8>,
    region: &mut Region,
    payer: &mut u64,
) -> Result<Response, TreeError> {
    process_instruction(&addr(9), &addr(9), input, region, payer, &RENT)
}

/// The full flow: info on a fresh address, a first
/// insert creating the region, a second insert appending, and info again.
#[test]
fn test_tree() {
    let mut region = Region::fresh();
    let mut payer: u64 = 10_000_000;

    // #1 getting info: should not fail, region still does not exist.
    let resp = run(&get_info(), &mut region, &mut payer).unwrap();
    assert_eq!(resp, Response::Uninitialized);
    assert_eq!(region.data.len(), 0);

    // #2 inserting a node creates the region.
    let resp = run(&insert(&[1, 1, 1]), &mut region, &mut payer).unwrap();
    let tree_check = MerkleTree::new(vec![vec![1, 1, 1]]);
    let tree = decode(&region.data).unwrap();
    assert_eq!(tree.get_root(), tree_check.get_root());
    assert_eq!(
        resp,
        Response::TreeInfo { leaf_count: 1, root: tree_check.get_root() }
    );

    // #3 appending a node to the existing region.
    let resp = run(&insert(&[2, 2, 2]), &mut region, &mut payer).unwrap();
    let tree_check = MerkleTree::new(vec![vec![1, 1, 1], vec![2, 2, 2]]);
    let tree = decode(&region.data).unwrap();
    assert_eq!(tree.get_root(), tree_check.get_root());
    assert_eq!(
        resp,
        Response::TreeInfo { leaf_count: 2, root: tree_check.get_root() }
    );

    // #4 getting info from the existing region: should not fail.
    let resp = run(&get_info(), &mut region, &mut payer).unwrap();
    assert_eq!(
        resp,
        Response::TreeInfo { leaf_count: 2, root: tree_check.get_root() }
    );
}

/// Scenario: describe on a fresh address reports uninitialized.
#[test]
fn describe_fresh_address_reports_uninitialized() {
    let mut region = Region::fresh();
    let mut payer: u64 = 1_000_000;
    let resp = run(&get_info(), &mut region, &mut payer).unwrap();
    assert_eq!(resp, Response::Uninitialized);
    // Nothing changed.
    assert_eq!(region.data.len(), 0);
    assert_eq!(region.lamports, 0);
    assert_eq!(payer, 1_000_000);
}

/// Scenario: a first insert provisions the region at exactly the encoded
/// length, funded with exactly the minimum deposit, and reports the
/// tagged leaf digest as root.
#[test]
fn first_insert_provisions_exactly() {
    let mut region = Region::fresh();
    let mut payer: u64 = 10_000_000;
    let resp = run(&insert(&[1, 1, 1]), &mut region, &mut payer).unwrap();

    let tree = MerkleTree::new(vec![vec![1, 1, 1]]);
    let bytes = encode(&tree);
    assert_eq!(region.data, bytes);
    assert_eq!(region.data.len(), bytes.len());

    let deposit = RENT.minimum_balance(bytes.len());
    assert_eq!(region.lamports, deposit);
    assert_eq!(payer, 10_000_000 - deposit);

    let expected_root = solana_program::hash::hashv(&[&[0u8], &[1, 1, 1]]).to_bytes().to_vec();
    assert_eq!(
        resp,
        Response::TreeInfo { leaf_count: 1, root: Some(expected_root) }
    );
}

/// Scenario: a second insert appends; the root pairs the two tagged leaf
/// digests and matches a full rebuild.
#[test]
fn second_insert_appends() {
    let mut region = Region::fresh();
    let mut payer: u64 = 10_000_000;
    run(&insert(&[1, 1, 1]), &mut region, &mut payer).unwrap();
    let resp = run(&insert(&[2, 2, 2]), &mut region, &mut payer).unwrap();

    let l0 = solana_program::hash::hashv(&[&[0u8], &[1, 1, 1]]).to_bytes().to_vec();
    let l1 = solana_program::hash::hashv(&[&[0u8], &[2, 2, 2]]).to_bytes().to_vec();
    let expected_root =
        solana_program::hash::hashv(&[&[1u8], &l0, &l1]).to_bytes().to_vec();
    assert_eq!(
        resp,
        Response::TreeInfo { leaf_count: 2, root: Some(expected_root.clone()) }
    );
    let rebuilt = MerkleTree::new(vec![vec![1, 1, 1], vec![2, 2, 2]]);
    assert_eq!(rebuilt.get_root(), Some(expected_root));
}

/// Scenario: a third insert uses the odd-leaf duplication rule and
/// matches a full rebuild.
#[test]
fn third_insert_uses_odd_duplication() {
    let mut region = Region::fresh();
    let mut payer: u64 = 20_000_000;
    run(&insert(&[1, 1, 1]), &mut region, &mut payer).unwrap();
    run(&insert(&[2, 2, 2]), &mut region, &mut payer).unwrap();
    let resp = run(&insert(&[3, 3, 3]), &mut region, &mut payer).unwrap();

    let rebuilt = MerkleTree::new(vec![vec![1, 1, 1], vec![2, 2, 2], vec![3, 3, 3]]);
    assert_eq!(
        resp,
        Response::TreeInfo { leaf_count: 3, root: rebuilt.get_root() }
    );
}

/// Scenario: a grow past the current region length transfers exactly the
/// funding shortfall, resizes to exactly the new encoded length, and the
/// rewritten region decodes to the new tree.
#[test]
fn grow_transfers_shortfall_and_resizes_exactly() {
    let mut region = Region::fresh();
    let mut payer: u64 = 100_000_000;
    run(&insert(&[1, 1, 1]), &mut region, &mut payer).unwrap();

    let old_len = region.data.len();
    let old_lamports = region.lamports;
    let payer_before = payer;

    let big = vec![7u8; 100];
    run(&insert(&big), &mut region, &mut payer).unwrap();

    let new_tree = MerkleTree::new(vec![vec![1, 1, 1], big.clone()]);
    let new_bytes = encode(&new_tree);
    assert!(new_bytes.len() > old_len);
    // Region length equals the encoded length exactly, never larger.
    assert_eq!(region.data.len(), new_bytes.len());
    assert_eq!(region.data, new_bytes);
    // The shortfall was transferred before the resize; the balance now
    // covers the larger size exactly.
    let need = RENT.minimum_balance(new_bytes.len());
    let diff = need - old_lamports;
    assert_eq!(region.lamports, need);
    assert_eq!(payer, payer_before - diff);
    // The rewritten region reproduces the new tree exactly.
    assert_eq!(decode(&region.data).unwrap(), new_tree);
}

/// A shrink or equal fit never transfers funding.
#[test]
fn insert_without_growth_transfers_nothing() {
    let mut region = Region::fresh();
    let mut payer: u64 = 100_000_000;
    run(&insert(&vec![9u8; 200]), &mut region, &mut payer).unwrap();

    // Pre-pay nothing further: an append always grows this encoding, so
    // check instead that funding moves only when length grows.
    let lamports_before = region.lamports;
    let payer_before = payer;
    run(&insert(&[1]), &mut region, &mut payer).unwrap();
    let grew = RENT.minimum_balance(region.data.len()) > lamports_before;
    assert!(grew);
    assert_eq!(region.lamports, RENT.minimum_balance(region.data.len()));
    assert_eq!(payer_before - payer, region.lamports - lamports_before);
}

#[test]
fn malformed_requests_are_rejected_before_any_access() {
    let mut region = Region::fresh();
    let mut payer: u64 = 1_000_000;
    for bad in [
        vec![],
        vec![2],
        vec![0, 1, 0, 0],             // insert, truncated length
        vec![0, 2, 0, 0, 0, 5],       // insert, missing value bytes
        vec![0, 1, 0, 0, 0, 5, 6],    // insert, trailing bytes
        vec![1, 1],                   // info with trailing byte
    ] {
        let r = run(&bad, &mut region, &mut payer);
        assert_eq!(r, Err(TreeError::MalformedRequest));
    }
    assert_eq!(region.data.len(), 0);
    assert_eq!(payer, 1_000_000);
}

#[test]
fn address_mismatch_is_rejected() {
    let mut region = Region::fresh();
    let mut payer: u64 = 1_000_000;
    let r = process_instruction(&addr(1), &addr(2), &get_info(), &mut region, &mut payer, &RENT);
    assert_eq!(r, Err(TreeError::AddressMismatch));
}

#[test]
fn insufficient_funds_fail_a_provision_untouched() {
    let mut region = Region::fresh();
    let mut payer: u64 = 10;
    let r = run(&insert(&[1, 1, 1]), &mut region, &mut payer);
    assert_eq!(r, Err(TreeError::InsufficientFunds));
    assert_eq!(region.data.len(), 0);
    assert_eq!(region.lamports, 0);
    assert_eq!(payer, 10);
}

#[test]
fn insufficient_funds_fail_a_grow_untouched() {
    let mut region = Region::fresh();
    let mut payer: u64 = 10_000_000;
    run(&insert(&[1, 1, 1]), &mut region, &mut payer).unwrap();
    let snapshot_data = region.data.clone();
    let snapshot_lamports = region.lamports;
    payer = 0;
    let r = run(&insert(&vec![7u8; 500]), &mut region, &mut payer);
    assert_eq!(r, Err(TreeError::InsufficientFunds));
    assert_eq!(region.data, snapshot_data);
    assert_eq!(region.lamports, snapshot_lamports);
    assert_eq!(payer, 0);
}

#[test]
fn funded_but_empty_region_cannot_be_provisioned_again() {
    // Funding without data: the init path finds the address occupied.
    let mut region = Region { data: Vec::new(), lamports: 5 };
    let mut payer: u64 = 10_000_000;
    let r = run(&insert(&[1, 1, 1]), &mut region, &mut payer);
    assert_eq!(r, Err(TreeError::AlreadyProvisioned));
    assert_eq!(region.lamports, 5);
    assert_eq!(payer, 10_000_000);
}

#[test]
fn corrupt_region_bytes_are_a_hard_failure() {
    let mut region = Region { data: vec![9, 0, 0, 0, 1], lamports: 100 };
    let mut payer: u64 = 10_000_000;
    let r = run(&get_info(), &mut region, &mut payer);
    assert_eq!(r, Err(TreeError::DecodeFailure));
    let r = run(&insert(&[1]), &mut region, &mut payer);
    assert_eq!(r, Err(TreeError::DecodeFailure));
    assert_eq!(region.data, vec![9, 0, 0, 0, 1]);
    assert_eq!(payer, 10_000_000);
}

#[test]
fn instruction_encoding_matches_borsh_layout() {
    // Insert is tag 0 then the borsh bytes of the value.
    let value = vec![1u8, 1, 1];
    let insn = encode_instruction(&TreeInstruction::Insert { value: value.clone() });
    assert_eq!(insn, borsh::to_vec(&(0u8, value)).unwrap());
    // GetInfo is the bare tag 1.
    assert_eq!(encode_instruction(&TreeInstruction::GetInfo), vec![1u8]);
}
