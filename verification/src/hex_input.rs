//! Parsing a caller-supplied hexadecimal string into leaf bytes: the
//! form tooling submits leaf values in.

use vstd::prelude::*;

use crate::errors::TreeError;

verus! {

/// Whether a byte is an ASCII hexadecimal digit, either case.
pub open spec fn is_hex_digit(c: u8) -> bool {
    (48 <= c <= 57) || (65 <= c <= 70) || (97 <= c <= 102)
}

/// The value of one hexadecimal digit.
pub open spec fn hex_nibble(c: u8) -> u8
    recommends
        is_hex_digit(c),
{
    if 48 <= c <= 57 {
        (c - 48) as u8
    } else if 65 <= c <= 70 {
        (c - 65 + 10) as u8
    } else {
        (c - 97 + 10) as u8
    }
}

/// The bytes an even-length hexadecimal digit string denotes: each pair
/// of digits, high nibble first, is one byte.
pub open spec fn hex_bytes(s: Seq<u8>) -> Seq<u8> {
    Seq::new(
        s.len() / 2,
        |i: int| ((hex_nibble(s[2 * i]) as int) * 16 + (hex_nibble(s[2 * i + 1]) as int)) as u8,
    )
}

/// Relies on hex::decode: an even-length string of hexadecimal digits
/// decodes to its bytes, two digits per byte, either case; an odd length
/// or any other character is rejected.
#[verifier::external_body]
fn hex_decode(s: &Vec<u8>) -> (r: Option<Vec<u8>>)
    ensures
        r is Some <==> (s@.len() % 2 == 0 && (forall|i: int|
            0 <= i < s@.len() ==> is_hex_digit(#[trigger] s@[i]))),
        r matches Option::Some(v) ==> v@ == hex_bytes(s@),
{
    hex::decode(s.as_slice()).ok()
}

/// Parse the hexadecimal text of a leaf value into its bytes. Succeeds
/// exactly on even-length strings of hexadecimal digits.
pub fn parse_hex_leaf(s: &Vec<u8>) -> (r: Result<Vec<u8>, TreeError>)
    ensures
        match r {
            Result::Ok(v) => {
                &&& s@.len() % 2 == 0
                &&& forall|i: int| 0 <= i < s@.len() ==> is_hex_digit(#[trigger] s@[i])
                &&& v@ == hex_bytes(s@)
                &&& v@.len() == s@.len() / 2
            },
            Result::Err(e) => {
                &&& e == TreeError::MalformedRequest
                &&& !(s@.len() % 2 == 0 && (forall|i: int|
                    0 <= i < s@.len() ==> is_hex_digit(#[trigger] s@[i])))
            },
        },
{
    match hex_decode(s) {
        Option::Some(v) => Result::Ok(v),
        Option::None => Result::Err(TreeError::MalformedRequest),
    }
}

} // verus!
