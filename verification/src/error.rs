//! The failures a volume or a namespace store reports to its host.

use vstd::prelude::*;

verus! {

/// Why an operation was refused or could not complete.
#[derive(Clone, Copy, Debug, PartialEq, Eq, Structural)]
pub enum StorageError {
    /// A connection descriptor or a namespace configuration is malformed.
    ConfigError,
    /// Every pooled connection is in use.
    PoolExhausted,
    /// The persistence engine could not be reached or dropped the connection.
    ConnectionError,
    /// The table behind a namespace is missing or incompatible.
    SchemaError,
    /// The arguments do not describe a valid operation.
    InvalidArgument,
    /// The persisted state contradicts a conflict-resolution decision.
    StorageConsistencyViolation,
}

impl StorageError {
    /// The failures that may succeed when the same call is made again.
    pub open spec fn retryable(self) -> bool {
        self is PoolExhausted || self is ConnectionError
    }

    /// Whether the host may retry the call that failed with this error.
    pub fn is_retryable(&self) -> (b: bool)
        ensures
            b == self.retryable(),
    {
        match self {
            StorageError::PoolExhausted => true,
            StorageError::ConnectionError => true,
            _ => false,
        }
    }

    /// A short description of the failure.
    pub fn message(&self) -> (text: &'static str)
        ensures
            text@ == match *self {
                StorageError::ConfigError => "malformed configuration"@,
                StorageError::PoolExhausted => "connection pool exhausted"@,
                StorageError::ConnectionError => "connection failed"@,
                StorageError::SchemaError => "missing or incompatible table"@,
                StorageError::InvalidArgument => "invalid argument"@,
                StorageError::StorageConsistencyViolation => "storage consistency violation"@,
            },
    {
        match self {
            StorageError::ConfigError => "malformed configuration",
            StorageError::PoolExhausted => "connection pool exhausted",
            StorageError::ConnectionError => "connection failed",
            StorageError::SchemaError => "missing or incompatible table",
            StorageError::InvalidArgument => "invalid argument",
            StorageError::StorageConsistencyViolation => "storage consistency violation",
        }
    }
}

} // verus!
