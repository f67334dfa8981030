//! The error taxonomy: every failing step names its condition; all
//! failures leave the persisted state untouched.

use vstd::prelude::*;

verus! {

/// Why a step failed. Each variant is returned exactly on the inputs its
/// doc comment names, and never otherwise.
#[derive(Clone, Copy, PartialEq, Eq, Structural, Debug)]
pub enum TreeError {
    /// The request bytes do not decode to a known request kind.
    MalformedRequest,
    /// The caller-asserted storage address differs from the derived one.
    AddressMismatch,
    /// The persisted region bytes do not decode to a valid tree.
    DecodeFailure,
    /// A region already holds data or funding where a fresh one was to be
    /// provisioned.
    AlreadyProvisioned,
    /// The funding source cannot cover the deposit a provision or grow
    /// step needs.
    InsufficientFunds,
    /// The tree already holds as many leaves as the canonical encoding
    /// can count.
    CapacityExceeded,
}

} // verus!
