use tree_lib::codec::{decode, encode};
use tree_lib::errors::TreeError;
use tree_lib::tree::MerkleTree;

#[test]
fn encoding_layout_is_exact() {
    let tree = MerkleTree::new(vec![vec![7, 8], vec![9]]);
    let bytes = encode(&tree);
    assert_eq!(
        bytes,
        vec![
            2, 0, 0, 0, // leaf count
            2, 0, 0, 0, 7, 8, // first leaf
            1, 0, 0, 0, 9, // second leaf
        ]
    );
}

#[test]
fn encoding_matches_borsh_layout() {
    // The persisted layout equals borsh's encoding of the leaf sequence.
    let leaves = vec![vec![1u8, 1, 1], vec![2, 2], vec![], vec![255; 300]];
    let tree = MerkleTree::new(leaves.clone());
    assert_eq!(encode(&tree), borsh::to_vec(&leaves).unwrap());
}

#[test]
fn round_trip_all_small_sizes() {
    for n in 1usize..=9 {
        let leaves: Vec<Vec<u8>> = (0..n).map(|i| vec![i as u8; 3 * i]).collect();
        let tree = MerkleTree::new(leaves);
        let bytes = encode(&tree);
        let back = decode(&bytes).unwrap();
        assert_eq!(back.leaf_count(), n);
        assert_eq!(back.get_root(), tree.get_root());
        assert_eq!(encode(&back), bytes);
    }
}

#[test]
fn decode_rejects_truncated_header() {
    assert_eq!(decode(&vec![]), Err(TreeError::DecodeFailure));
    assert_eq!(decode(&vec![1, 0, 0]), Err(TreeError::DecodeFailure));
}

#[test]
fn decode_rejects_missing_leaf_bytes() {
    // One leaf declared 4 bytes long, only 2 present.
    assert_eq!(decode(&vec![1, 0, 0, 0, 4, 0, 0, 0, 5, 5]), Err(TreeError::DecodeFailure));
    // Two leaves declared, one present.
    assert_eq!(decode(&vec![2, 0, 0, 0, 1, 0, 0, 0, 5]), Err(TreeError::DecodeFailure));
}

#[test]
fn decode_rejects_trailing_bytes() {
    let tree = MerkleTree::new(vec![vec![7]]);
    let mut bytes = encode(&tree);
    bytes.push(0);
    assert_eq!(decode(&bytes), Err(TreeError::DecodeFailure));
}

#[test]
fn decode_accepts_the_empty_tree_encoding() {
    let empty = decode(&vec![0, 0, 0, 0]).unwrap();
    assert_eq!(empty.leaf_count(), 0);
    assert_eq!(empty.get_root(), None);
}

#[test]
fn decode_never_reads_corrupt_bytes_as_empty() {
    // A huge declared count with no leaf bytes must fail, not decode.
    assert_eq!(decode(&vec![255, 255, 255, 255, 1]), Err(TreeError::DecodeFailure));
}
