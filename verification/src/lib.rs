//! An ordered, cryptographically authenticated key/value store: a
//! height-balanced binary search tree whose terminals hold the entries and
//! whose nodes compose into a single Merkle root digest.
//!
//! Keys are 64-bit integers: the one key order the verifier reasons about
//! directly. A caller that identifies entries by wider identifiers (a
//! 32-byte public key, say) derives a 64-bit key for them, as the adapter
//! around this library does.

pub mod balance;
pub mod digest;
pub mod insert;
pub mod laws;
pub mod model;
pub mod node;
pub mod search;
pub mod tree;

pub use model::Tree;
pub use node::Node;
pub use tree::IAVL;
