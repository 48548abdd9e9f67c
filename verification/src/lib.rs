//! A fixed-supply fungible-token ledger over a byte-oriented key-value store.
//!
//! Account balances and owner-to-spender allowances live in one flat store:
//! balances under raw 20-byte address keys, allowances under 40-byte
//! owner-then-spender keys, token metadata and the total supply under short
//! ASCII keys. Every stored amount is a 128-bit unsigned integer encoded as
//! exactly 16 big-endian bytes. The engines expose one-shot initialization,
//! transfer, approve, and allowance-backed transfer; each call either applies
//! its whole effect or leaves the store untouched.

pub mod amount;
pub mod codec;
pub mod contract;
pub mod error;
pub mod laws;
pub mod ledger;
pub mod storage;
