//! An incrementally appendable Merkle hash tree, its canonical byte
//! encoding, and the storage-region lifecycle that keeps a persistent
//! byte region sized and funded to hold exactly the tree's encoded form.

pub mod codec;
pub mod errors;
pub mod hashing;
pub mod hex_input;
pub mod region;
pub mod router;
pub mod tree;
