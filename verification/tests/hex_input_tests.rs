use tree_lib::errors::TreeError;
use tree_lib::hex_input::parse_hex_leaf;

#[test]
fn parses_hex_digits_of_either_case() {
    assert_eq!(parse_hex_leaf(&b"010101".to_vec()), Ok(vec![1, 1, 1]));
    assert_eq!(parse_hex_leaf(&b"deadBEEF".to_vec()), Ok(vec![0xde, 0xad, 0xbe, 0xef]));
    assert_eq!(parse_hex_leaf(&b"".to_vec()), Ok(vec![]));
}

#[test]
fn rejects_odd_length_and_other_characters() {
    assert_eq!(parse_hex_leaf(&b"abc".to_vec()), Err(TreeError::MalformedRequest));
    assert_eq!(parse_hex_leaf(&b"zz".to_vec()), Err(TreeError::MalformedRequest));
    assert_eq!(parse_hex_leaf(&b"0x01".to_vec()), Err(TreeError::MalformedRequest));
}
