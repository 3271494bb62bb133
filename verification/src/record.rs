//! The persisted unit: a payload or a tombstone, tagged with its encoding
//! and the timestamp of the operation that wrote it.

use vstd::prelude::*;
use crate::timestamp::Timestamp;

verus! {

/// The encoding that a tombstone carries. Where a version is handed to a
/// reader that has no way to say "no payload", this encoding tells a
/// tombstone from a value that is empty.
pub const TOMBSTONE_ENCODING: &'static str = "application/x-tombstone";

/// One version of a key's value. A version without payload is a tombstone:
/// the mark that a delete leaves behind.
#[derive(Debug)]
pub struct StoredData {
    pub payload: Option<Vec<u8>>,
    pub encoding: String,
    pub timestamp: Timestamp,
}

/// The mathematical content of a `StoredData`.
pub ghost struct Version {
    pub payload: Option<Seq<u8>>,
    pub encoding: Seq<char>,
    pub timestamp: Timestamp,
}

impl Version {
    /// The version that a put writes.
    pub open spec fn value(payload: Seq<u8>, encoding: Seq<char>, timestamp: Timestamp) -> Version {
        Version { payload: Some(payload), encoding, timestamp }
    }

    /// The version that a delete writes.
    pub open spec fn tombstone(timestamp: Timestamp) -> Version {
        Version { payload: None, encoding: TOMBSTONE_ENCODING@, timestamp }
    }

    /// Whether this version carries a payload.
    pub open spec fn live(self) -> bool {
        self.payload is Some
    }
}

impl View for StoredData {
    type V = Version;

    open spec fn view(&self) -> Version {
        Version {
            payload: match self.payload {
                Some(bytes) => Some(bytes@),
                None => None,
            },
            encoding: self.encoding@,
            timestamp: self.timestamp,
        }
    }
}

impl StoredData {
    /// A version that carries `payload`.
    pub fn value(payload: Vec<u8>, encoding: String, timestamp: Timestamp) -> (data: StoredData)
        ensures
            data@ == Version::value(payload@, encoding@, timestamp),
    {
        StoredData { payload: Some(payload), encoding, timestamp }
    }

    /// The mark of a delete made at `timestamp`.
    pub fn tombstone(timestamp: Timestamp) -> (data: StoredData)
        ensures
            data@ == Version::tombstone(timestamp),
    {
        StoredData { payload: None, encoding: TOMBSTONE_ENCODING.to_owned(), timestamp }
    }

    /// Whether this version carries a payload.
    pub fn is_live(&self) -> (b: bool)
        ensures
            b == self@.live(),
    {
        self.payload.is_some()
    }
}

impl Clone for StoredData {
    fn clone(&self) -> (data: StoredData)
        ensures
            data@ == self@,
    {
        let payload = match &self.payload {
            Some(bytes) => Some(bytes.clone()),
            None => None,
        };
        StoredData { payload, encoding: self.encoding.clone(), timestamp: self.timestamp }
    }
}

/// The mathematical content of a sequence of stored versions.
pub open spec fn versions(data: Seq<StoredData>) -> Seq<Version> {
    data.map_values(|item: StoredData| item@)
}

/// How a put or a delete changed the store.
#[derive(Clone, Copy, Debug, PartialEq, Eq, Structural)]
pub enum InsertionResult {
    /// The operation carried a timestamp no newer than the record already
    /// held for its key, and was left out.
    Outdated,
    /// A payload was written where no live record stood.
    Inserted,
    /// A payload replaced a live record.
    Updated,
    /// A tombstone was written.
    Deleted,
}

impl InsertionResult {
    /// Whether the operation was applied, so that the store has changed and
    /// the change is to be persisted.
    pub fn is_applied(&self) -> (applied: bool)
        ensures
            applied == !(*self is Outdated),
    {
        match self {
            InsertionResult::Outdated => false,
            _ => true,
        }
    }
}

} // verus!
