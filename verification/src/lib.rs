//! A single-node ledger: an append-only chain of hash-linked blocks, a pool of
//! pending transactions, proof-of-work mining, a peer registry, and a
//! longest-valid-chain consensus rule.

pub mod block;
pub mod blockchain;
pub mod consensus;
pub mod hashing;
pub mod miner;
pub mod registry;
pub mod transaction;
