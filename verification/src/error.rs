//! Runtime error codes of the key-value-storage.

use vstd::prelude::*;

verus! {

/// Runtime error codes
///
/// Every public operation of the storage reports failure through one of
/// these codes; no operation panics.
#[derive(Debug, Clone, Copy, PartialEq, Eq, Structural)]
pub enum ErrorCode {
    /// Error that was not yet mapped
    UnmappedError,
    /// File not found
    FileNotFound,
    /// KVS file read error
    KvsFileReadError,
    /// KVS hash file read error
    KvsHashFileReadError,
    /// JSON parser error
    JsonParserError,
    /// JSON generator error
    JsonGeneratorError,
    /// Physical storage failure
    PhysicalStorageFailure,
    /// Integrity corrupted
    IntegrityCorrupted,
    /// Validation failed
    ValidationFailed,
    /// Encryption failed
    EncryptionFailed,
    /// Resource is busy
    ResourceBusy,
    /// Out of storage space
    OutOfStorageSpace,
    /// Quota exceeded
    QuotaExceeded,
    /// Authentication failed
    AuthenticationFailed,
    /// Key not found
    KeyNotFound,
    /// Serialization failed
    SerializationFailed,
    /// Invalid snapshot ID
    InvalidSnapshotId,
    /// Conversion failed
    ConversionFailed,
    /// Mutex failed
    MutexLockFailed,
}

} // verus!
