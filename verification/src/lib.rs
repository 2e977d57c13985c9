//! A tamper-evident ledger engine for civic opportunity listings: hash
//! chaining of listing versions, batch Merkle trees for anchoring, Cuckoo
//! shard placement, Ed25519 institutional signatures and the explainable
//! trust rules that flag scams.

pub mod hashing;
pub mod merkle_chain;
pub mod merkle_tree;
pub mod cuckoo;
pub mod signature;
pub mod models;
pub mod text;
pub mod trust;
pub mod assessment;
pub mod anchor;
pub mod onboarding;
