//! Failures of the persistence engine, and what the host is told of them.

use vstd::prelude::*;
use crate::backend::SchemaStatus;
use crate::error::StorageError;

verus! {

/// The kinds of engine failure that the backend tells apart. They are the
/// kinds of error that the engine's driver reports; `Other` stands for
/// every kind that is not named here.
#[derive(Clone, Copy, Debug, PartialEq, Eq, Structural)]
pub enum EngineFailure {
    /// The connection descriptor could not be parsed.
    Configuration,
    /// An argument of the call was invalid.
    InvalidArgument,
    /// The database answered with an error.
    Database,
    /// The connection to the database failed.
    Io,
    /// A secure connection could not be established.
    Tls,
    /// The database sent unexpected or invalid data.
    Protocol,
    /// No connection became available in time.
    PoolTimedOut,
    /// The pool was closed while a connection was awaited.
    PoolClosed,
    /// A background worker of the driver has crashed.
    WorkerCrashed,
    /// Any other failure.
    Other,
}

impl EngineFailure {
    /// What the host is told of a failure of this kind.
    ///
    /// A descriptor that does not parse is a configuration error. A pool
    /// that has no connection to give is exhausted, and a connection that
    /// fails is a connection error: both may be retried. An error returned
    /// by the database means that the table is not what the backend
    /// expects. Anything else is a failure that should not occur.
    pub open spec fn storage_error(self) -> StorageError {
        match self {
            EngineFailure::Configuration => StorageError::ConfigError,
            EngineFailure::InvalidArgument => StorageError::InvalidArgument,
            EngineFailure::Database => StorageError::SchemaError,
            EngineFailure::Io => StorageError::ConnectionError,
            EngineFailure::Tls => StorageError::ConnectionError,
            EngineFailure::Protocol => StorageError::ConnectionError,
            EngineFailure::PoolTimedOut => StorageError::PoolExhausted,
            EngineFailure::PoolClosed => StorageError::ConnectionError,
            EngineFailure::WorkerCrashed => StorageError::ConnectionError,
            EngineFailure::Other => StorageError::StorageConsistencyViolation,
        }
    }

    /// What the host is told of a failure of this kind.
    pub fn to_storage_error(self) -> (error: StorageError)
        ensures
            error == self.storage_error(),
            error.retryable() <==> !(self is Configuration || self is InvalidArgument
                || self is Database || self is Other),
    {
        match self {
            EngineFailure::Configuration => StorageError::ConfigError,
            EngineFailure::InvalidArgument => StorageError::InvalidArgument,
            EngineFailure::Database => StorageError::SchemaError,
            EngineFailure::PoolTimedOut => StorageError::PoolExhausted,
            EngineFailure::Other => StorageError::StorageConsistencyViolation,
            _ => StorageError::ConnectionError,
        }
    }

    /// What a failure met while the table of a namespace was prepared says
    /// of that table. An error returned by the database means that the
    /// table is not usable. Any other failure says nothing of the table and
    /// is reported as it is.
    pub fn schema_status(self) -> (status: Option<SchemaStatus>)
        ensures
            status == if self is Database {
                Some(SchemaStatus::Unusable)
            } else {
                None::<SchemaStatus>
            },
            status is Some <==> self.storage_error() == StorageError::SchemaError,
    {
        match self {
            EngineFailure::Database => Some(SchemaStatus::Unusable),
            _ => None,
        }
    }
}

} // verus!
