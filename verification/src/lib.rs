//! A minimal proof-of-work ledger: blocks chained by SHA-256, a pending-transaction
//! pool, balance accounting by full scan, and P-256 wallets whose Base58 addresses
//! are derived from their public keys.
pub mod apiserver;
pub mod binary64;
pub mod blockchain;
pub mod bytes;
pub mod crypto;
pub mod encoding;
pub mod error;
pub mod wallet;
