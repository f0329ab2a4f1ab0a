//! State-transition checks of the PIVX Name Service: domain and address
//! rules, signed messages, leaf hashing and sparse Merkle tree updates, and
//! the batch driver that folds them over a payload of transactions.
//!
//! - `crypto`: SHA-256, Ed25519 and Bech32, each behind one trusted wrapper.
//! - `encoding`: hexadecimal, decimal and little-endian encodings.
//! - `domain`: the domain-name and target-address rules.
//! - `smt`: leaf hashing and the checked update of the sparse Merkle tree.
//! - `transaction`: the per-operation rules, signed messages and the batch.
//! - `report`: the result record of a proved batch.

pub mod crypto;
pub mod encoding;
pub mod smt;
pub mod domain;
pub mod transaction;
pub mod report;
