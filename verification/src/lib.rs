//! A small proof-of-authority ledger: signed transactions are pooled by a
//! peer, packed into hash-linked signed blocks, and folded into per-address
//! asset balances.

pub mod blockchain;
pub mod client;
pub mod crypto;
pub mod encoding;
pub mod network;
pub mod peer;
pub mod state;
pub mod storage;
