use postgres_backend::backend::{
    is_valid_name, PgBackend, SchemaStatus, StorageConfig, MAX_NAME_LENGTH,
};
use postgres_backend::bridge::{route, Route, MAX_BLOCK_THREAD_NUM, WORKER_THREAD_NUM};
use postgres_backend::capability::{Capability, History, Persistence};
use postgres_backend::engine::EngineFailure;
use postgres_backend::error::StorageError;
use postgres_backend::key::Key;
use postgres_backend::record::InsertionResult;
use postgres_backend::timestamp::Timestamp;

fn config(name: &str) -> StorageConfig {
    StorageConfig { name: name.to_string() }
}

#[test]
fn capability_is_what_was_declared() {
    let latest = PgBackend::new(History::Latest);
    assert_eq!(
        latest.get_capability(),
        Capability { persistence: Persistence::Durable, history: History::Latest }
    );
    let all = PgBackend::new(History::All);
    assert_eq!(
        all.get_capability(),
        Capability { persistence: Persistence::Durable, history: History::All }
    );
    assert_eq!(all.get_capability(), all.get_capability());
}

#[test]
fn backend_does_not_start_without_connection() {
    let started = PgBackend::start(History::All, Ok(())).unwrap();
    assert_eq!(
        started.get_capability(),
        Capability { persistence: Persistence::Durable, history: History::All }
    );
    assert!(started.check_config(&config("demo")).is_ok());
    for error in [
        StorageError::ConfigError,
        StorageError::ConnectionError,
        StorageError::PoolExhausted,
    ] {
        assert!(matches!(PgBackend::start(History::Latest, Err(error)), Err(e) if e == error));
    }
    let refused = EngineFailure::Configuration.to_storage_error();
    assert!(matches!(
        PgBackend::start(History::Latest, Err(refused)),
        Err(StorageError::ConfigError)
    ));
}

#[test]
fn created_storage_retains_what_the_volume_declares() {
    for history in [History::Latest, History::All] {
        let mut backend = PgBackend::new(history);
        let mut storage = backend.create_storage(config("demo"), SchemaStatus::Ready).unwrap();
        assert_eq!(storage.history(), backend.get_capability().history);
        assert!(storage.get_all_entries().unwrap().is_empty());
        for time in [1u64, 2, 3] {
            let result = storage.put(
                Key::new("k".to_string()),
                vec![time as u8],
                "raw".to_string(),
                Timestamp::new(time, 1),
            );
            assert!(matches!(
                result,
                Ok(InsertionResult::Inserted) | Ok(InsertionResult::Updated)
            ));
        }
        let found = storage.get(Key::new("k".to_string()), "").unwrap();
        match history {
            History::Latest => assert_eq!(found.len(), 1),
            History::All => assert_eq!(found.len(), 3),
        }
    }
}

#[test]
fn second_storage_for_one_namespace_is_refused() {
    let mut backend = PgBackend::new(History::Latest);
    assert!(backend.check_config(&config("demo")).is_ok());
    assert!(backend.create_storage(config("demo"), SchemaStatus::Ready).is_ok());
    assert_eq!(backend.check_config(&config("demo")), Err(StorageError::ConfigError));
    let again = backend.create_storage(config("demo"), SchemaStatus::Ready);
    assert!(matches!(again, Err(StorageError::ConfigError)));
    assert!(backend.create_storage(config("other"), SchemaStatus::Ready).is_ok());
}

#[test]
fn removed_storage_can_be_created_again() {
    let mut backend = PgBackend::new(History::Latest);
    assert!(!backend.remove_storage("demo"));
    assert!(backend.create_storage(config("demo"), SchemaStatus::Ready).is_ok());
    assert!(backend.create_storage(config("other"), SchemaStatus::Ready).is_ok());
    assert!(backend.remove_storage("demo"));
    assert!(!backend.remove_storage("demo"));
    assert!(backend.create_storage(config("demo"), SchemaStatus::Ready).is_ok());
    assert!(matches!(
        backend.create_storage(config("other"), SchemaStatus::Ready),
        Err(StorageError::ConfigError)
    ));
}

#[test]
fn unusable_schema_gives_schema_error() {
    let mut backend = PgBackend::new(History::All);
    let failed = backend.create_storage(config("demo"), SchemaStatus::Unusable);
    assert!(matches!(failed, Err(StorageError::SchemaError)));
    assert!(backend.check_config(&config("demo")).is_ok());
    assert!(backend.create_storage(config("demo"), SchemaStatus::Ready).is_ok());
}

#[test]
fn malformed_name_gives_config_error() {
    let mut backend = PgBackend::new(History::All);
    for name in ["", "a b", "a'b", "a/b", "tab\"le", "caf\u{e9}", "x;drop"] {
        assert!(!is_valid_name(name));
        assert_eq!(backend.check_config(&config(name)), Err(StorageError::ConfigError));
        assert!(matches!(
            backend.create_storage(config(name), SchemaStatus::Ready),
            Err(StorageError::ConfigError)
        ));
        assert!(matches!(
            backend.create_storage(config(name), SchemaStatus::Unusable),
            Err(StorageError::ConfigError)
        ));
    }
}

#[test]
fn name_rules() {
    assert!(is_valid_name("a"));
    assert!(is_valid_name("_"));
    assert!(is_valid_name("Zenoh_storage_01"));
    assert!(is_valid_name("0123456789"));
    assert!(is_valid_name("demo-storage"));
    assert!(is_valid_name("demo.v2"));
    assert!(is_valid_name("-"));
    assert!(is_valid_name("."));
    assert!(!is_valid_name(","));
    assert!(!is_valid_name("+"));
    assert!(!is_valid_name("\""));
    assert!(!is_valid_name("\\"));
    assert_eq!(MAX_NAME_LENGTH, 63);
    assert!(is_valid_name(&"a".repeat(63)));
    assert!(!is_valid_name(&"a".repeat(64)));
    assert!(!is_valid_name("`"));
    assert!(!is_valid_name("{"));
    assert!(!is_valid_name("@"));
    assert!(!is_valid_name("["));
    assert!(!is_valid_name("/"));
    assert!(!is_valid_name(":"));
}

#[test]
fn backend_status_is_json_null() {
    let backend = PgBackend::new(History::Latest);
    let status = backend.get_admin_status();
    assert_eq!(status, "null");
    let parsed: serde_json::Value = serde_json::from_str(&status).unwrap();
    assert_eq!(parsed, serde_json::Value::Null);
}

#[test]
fn retryable_errors() {
    assert!(StorageError::PoolExhausted.is_retryable());
    assert!(StorageError::ConnectionError.is_retryable());
    assert!(!StorageError::ConfigError.is_retryable());
    assert!(!StorageError::SchemaError.is_retryable());
    assert!(!StorageError::InvalidArgument.is_retryable());
    assert!(!StorageError::StorageConsistencyViolation.is_retryable());
}

#[test]
fn error_messages() {
    assert_eq!(StorageError::ConfigError.message(), "malformed configuration");
    assert_eq!(StorageError::PoolExhausted.message(), "connection pool exhausted");
    assert_eq!(StorageError::ConnectionError.message(), "connection failed");
    assert_eq!(StorageError::SchemaError.message(), "missing or incompatible table");
    assert_eq!(StorageError::InvalidArgument.message(), "invalid argument");
    assert_eq!(
        StorageError::StorageConsistencyViolation.message(),
        "storage consistency violation"
    );
}

#[test]
fn engine_failures_map_to_storage_errors() {
    assert_eq!(EngineFailure::Configuration.to_storage_error(), StorageError::ConfigError);
    assert_eq!(EngineFailure::InvalidArgument.to_storage_error(), StorageError::InvalidArgument);
    assert_eq!(EngineFailure::Database.to_storage_error(), StorageError::SchemaError);
    assert_eq!(EngineFailure::Io.to_storage_error(), StorageError::ConnectionError);
    assert_eq!(EngineFailure::Tls.to_storage_error(), StorageError::ConnectionError);
    assert_eq!(EngineFailure::Protocol.to_storage_error(), StorageError::ConnectionError);
    assert_eq!(EngineFailure::PoolTimedOut.to_storage_error(), StorageError::PoolExhausted);
    assert_eq!(EngineFailure::PoolClosed.to_storage_error(), StorageError::ConnectionError);
    assert_eq!(EngineFailure::WorkerCrashed.to_storage_error(), StorageError::ConnectionError);
    assert_eq!(
        EngineFailure::Other.to_storage_error(),
        StorageError::StorageConsistencyViolation
    );
}

#[test]
fn only_database_errors_speak_of_the_table() {
    assert_eq!(EngineFailure::Database.schema_status(), Some(SchemaStatus::Unusable));
    for failure in [
        EngineFailure::Configuration,
        EngineFailure::InvalidArgument,
        EngineFailure::Io,
        EngineFailure::Tls,
        EngineFailure::Protocol,
        EngineFailure::PoolTimedOut,
        EngineFailure::PoolClosed,
        EngineFailure::WorkerCrashed,
        EngineFailure::Other,
    ] {
        assert_eq!(failure.schema_status(), None);
        assert_ne!(failure.to_storage_error(), StorageError::SchemaError);
    }
}

#[test]
fn retryable_engine_failures() {
    for failure in [
        EngineFailure::Io,
        EngineFailure::Tls,
        EngineFailure::Protocol,
        EngineFailure::PoolTimedOut,
        EngineFailure::PoolClosed,
        EngineFailure::WorkerCrashed,
    ] {
        assert!(failure.to_storage_error().is_retryable());
    }
    for failure in [
        EngineFailure::Configuration,
        EngineFailure::InvalidArgument,
        EngineFailure::Database,
        EngineFailure::Other,
    ] {
        assert!(!failure.to_storage_error().is_retryable());
    }
}

#[test]
fn reentrant_calls_go_to_the_blocking_pool() {
    assert_eq!(route(true), Route::BlockingPool);
    assert_eq!(route(false), Route::Workers);
    assert_eq!(WORKER_THREAD_NUM, 3);
    assert_eq!(MAX_BLOCK_THREAD_NUM, 50);
}
