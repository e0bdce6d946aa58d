//! The errors that storage operations report.

use vstd::prelude::*;

verus! {

/// Why a backend could not carry out a read or a write.
#[derive(Debug, Clone, Copy, PartialEq, Eq, Structural)]
pub enum MutinyStorageError {
    /// A document could not be encoded or decoded.
    SerdeError,
    /// The lock that guards the records is held by someone else.
    LockError,
}

/// What a storage operation reports when it fails.
#[derive(Debug, Clone, Copy, PartialEq, Eq, Structural)]
pub enum MutinyError {
    /// The passphrase given as the current one is not the configured one.
    IncorrectPassword,
    /// A stored or decrypted value does not have the form that was asked for.
    SerializationFailed,
    /// The cipher could not encrypt.
    EncryptionFailed,
    /// The cipher could not decrypt: wrong passphrase or damaged ciphertext.
    DecryptionFailed,
    /// The backend could not read.
    ReadError { source: MutinyStorageError },
    /// The backend could not write.
    WriteError { source: MutinyStorageError },
    /// The backend refused to keep the data.
    PersistenceFailed { source: MutinyStorageError },
}

impl MutinyError {
    /// A read that failed for the given cause.
    pub fn read_err(source: MutinyStorageError) -> (r: MutinyError)
        ensures
            r == (MutinyError::ReadError { source }),
    {
        MutinyError::ReadError { source }
    }

    /// A write that failed for the given cause.
    pub fn write_err(source: MutinyStorageError) -> (r: MutinyError)
        ensures
            r == (MutinyError::WriteError { source }),
    {
        MutinyError::WriteError { source }
    }
}

} // verus!
