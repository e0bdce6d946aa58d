//! Persistence core of a non-custodial Bitcoin/Lightning wallet.
//!
//! The crate offers one storage interface that every backend implements,
//! encrypts exactly the records whose key marks them as secret, re-encrypts
//! those records when the passphrase changes, and keeps the accumulated
//! chain-sync changeset by merging each new one into what is stored.

pub mod text;
pub mod error;
pub mod document;
pub mod json;
pub mod utils;
pub mod lock;
pub mod encrypt;
pub mod mnemonic;
pub mod nodemanager;
pub mod fees;
pub mod storage;
pub mod table;
pub mod memory;
pub mod onchain;
pub mod node;

pub use crate::error::{MutinyError, MutinyStorageError};
