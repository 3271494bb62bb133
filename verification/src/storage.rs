//! The store behind one namespace: puts, deletes and reads, with conflicts
//! between writes to one key settled by their timestamps.

use vstd::prelude::*;
use crate::capability::History;
use crate::error::StorageError;
use crate::key::Key;
use crate::model::{
    accepts, apply, current, descending, is_live, lemma_new_head, live_keys, outcome, read,
    retained, sweep, well_formed, State,
};
use crate::record::{versions, InsertionResult, StoredData, Version};
use crate::timestamp::Timestamp;

verus! {

/// Everything held for one key.
struct Entry {
    key: Key,
    /// Newest first, never empty.
    versions: Vec<StoredData>,
}

spec fn versions_of(entry: Entry) -> Seq<Version> {
    entry.versions@.map_values(|data: StoredData| data@)
}

spec fn keys_of(entries: Seq<Entry>) -> Seq<Seq<char>> {
    entries.map_values(|entry: Entry| entry.key@)
}

spec fn state_of(entries: Seq<Entry>) -> State {
    Map::new(
        |key: Seq<char>| keys_of(entries).contains(key),
        |key: Seq<char>| versions_of(entries[keys_of(entries).index_of(key)]),
    )
}

/// The versions of an entry that stay behind a newly written one.
spec fn retained_of(entry: Entry, history: History) -> Seq<Version> {
    if history is All {
        versions_of(entry)
    } else {
        Seq::empty()
    }
}

/// The versions of an entry after a delete of the whole namespace.
spec fn swept_of(entry: Entry, timestamp: Timestamp, history: History) -> Seq<Version> {
    if versions_of(entry)[0].timestamp.before(timestamp) {
        seq![Version::tombstone(timestamp)] + retained_of(entry, history)
    } else {
        versions_of(entry)
    }
}

spec fn entry_ok(entry: Entry, history: History) -> bool {
    &&& entry.key@.len() > 0
    &&& entry.versions@.len() > 0
    &&& descending(versions_of(entry))
    &&& history is Latest ==> entry.versions@.len() == 1
}

spec fn entries_ok(entries: Seq<Entry>, history: History) -> bool {
    &&& keys_of(entries).no_duplicates()
    &&& forall|i: int| 0 <= i < entries.len() ==> entry_ok(#[trigger] entries[i], history)
}

/// The keys of a listing of entries, in the order of the listing.
pub open spec fn listed_keys(listing: Seq<(Option<Key>, Timestamp)>) -> Seq<Seq<char>> {
    listing.map_values(
        |item: (Option<Key>, Timestamp)|
            match item.0 {
                Some(key) => key@,
                None => Seq::empty(),
            },
    )
}

/// With distinct keys, the state maps the key of each entry to that entry's
/// versions, and holds no other key.
proof fn lemma_state_of(entries: Seq<Entry>)
    requires
        keys_of(entries).no_duplicates(),
    ensures
        forall|i: int|
            0 <= i < entries.len() ==> {
                &&& state_of(entries).dom().contains(#[trigger] entries[i].key@)
                &&& state_of(entries)[entries[i].key@] == versions_of(entries[i])
            },
        forall|key: Seq<char>| #[trigger]
            state_of(entries).dom().contains(key) ==> exists|i: int|
                0 <= i < entries.len() && (#[trigger] entries[i]).key@ == key,
        state_of(entries).dom() == keys_of(entries).to_set(),
        state_of(entries).dom().finite(),
{
    let keys = keys_of(entries);
    assert forall|i: int| 0 <= i < entries.len() implies {
        &&& state_of(entries).dom().contains(#[trigger] entries[i].key@)
        &&& state_of(entries)[entries[i].key@] == versions_of(entries[i])
    } by {
        assert(keys[keys.index_of(entries[i].key@)] == keys[i]);
    }
    assert forall|key: Seq<char>| #[trigger]
        state_of(entries).dom().contains(key) implies exists|i: int|
        0 <= i < entries.len() && (#[trigger] entries[i]).key@ == key by {
        assert(entries[keys.index_of(key)].key@ == key);
    }
    vstd::seq_lib::seq_to_set_is_finite(keys);
}

/// Entries that are in order make a well-formed state.
proof fn lemma_well_formed(entries: Seq<Entry>, history: History)
    requires
        entries_ok(entries, history),
    ensures
        well_formed(state_of(entries), history),
{
    lemma_state_of(entries);
    assert forall|key: Seq<char>| #[trigger]
        state_of(entries).dom().contains(key) implies {
        &&& key.len() > 0
        &&& state_of(entries)[key].len() > 0
        &&& descending(state_of(entries)[key])
        &&& history is Latest ==> state_of(entries)[key].len() == 1
    } by {
        let i = choose|i: int| 0 <= i < entries.len() && (#[trigger] entries[i]).key@ == key;
        assert(entry_ok(entries[i], history));
    }
}

/// Adding an entry for a key that is not held yields the state that `apply`
/// describes.
proof fn lemma_added(before: Seq<Entry>, entry: Entry, history: History)
    requires
        entries_ok(before, history),
        !keys_of(before).contains(entry.key@),
        entry.key@.len() > 0,
        entry.versions@.len() == 1,
    ensures
        entries_ok(before.push(entry), history),
        state_of(before.push(entry)) == apply(
            state_of(before),
            entry.key@,
            entry.versions@[0]@,
            history,
        ),
{
    let after = before.push(entry);
    let key = entry.key@;
    let version = entry.versions@[0]@;
    lemma_state_of(before);
    assert(keys_of(after).no_duplicates()) by {
        assert forall|a: int, b: int|
            0 <= a < keys_of(after).len() && 0 <= b < keys_of(after).len() && a != b implies keys_of(
            after,
        )[a] != keys_of(after)[b] by {
            if a < before.len() && b < before.len() {
                assert(keys_of(before)[a] != keys_of(before)[b]);
            }
        }
    }
    lemma_state_of(after);
    assert forall|j: int| 0 <= j < after.len() implies entry_ok(#[trigger] after[j], history) by {
        if j < before.len() {
            assert(entry_ok(before[j], history));
        }
    }
    let target = apply(state_of(before), key, version, history);
    assert(state_of(after).dom() =~= target.dom()) by {
        assert forall|k: Seq<char>| state_of(after).dom().contains(k) <==> target.dom().contains(
            k,
        ) by {
            if keys_of(after).contains(k) {
                let j = choose|j: int| 0 <= j < keys_of(after).len() && keys_of(after)[j] == k;
                if j < before.len() {
                    assert(keys_of(before)[j] == k);
                }
            }
            if keys_of(before).contains(k) {
                let j = choose|j: int| 0 <= j < keys_of(before).len() && keys_of(before)[j] == k;
                assert(keys_of(after)[j] == k);
            }
            if k == key {
                assert(keys_of(after)[before.len() as int] == k);
            }
        }
    }
    assert forall|k: Seq<char>| state_of(after).dom().contains(k) implies #[trigger] state_of(after)[k]
        == target[k] by {
        let j = choose|j: int| 0 <= j < after.len() && (#[trigger] after[j]).key@ == k;
        if j < before.len() {
            assert(after[j] == before[j]);
        }
    }
}

/// Writing a version at the head of a key's versions yields the state that
/// `apply` describes, provided the version wins.
proof fn lemma_replaced(
    before: Seq<Entry>,
    after: Seq<Entry>,
    i: int,
    version: Version,
    history: History,
)
    requires
        entries_ok(before, history),
        0 <= i < before.len(),
        after.len() == before.len(),
        forall|j: int| 0 <= j < before.len() ==> (#[trigger] after[j]).key@ == before[j].key@,
        forall|j: int| 0 <= j < before.len() && j != i ==> #[trigger] after[j] == before[j],
        accepts(state_of(before), before[i].key@, version.timestamp),
        versions_of(after[i]) == seq![version] + retained_of(before[i], history),
    ensures
        entries_ok(after, history),
        state_of(after) == apply(state_of(before), before[i].key@, version, history),
{
    let key = before[i].key@;
    lemma_state_of(before);
    assert(keys_of(after) =~= keys_of(before));
    lemma_state_of(after);
    lemma_new_head(retained_of(before[i], history), version);
    assert(entry_ok(after[i], history));
    assert forall|j: int| 0 <= j < after.len() implies entry_ok(#[trigger] after[j], history) by {
        if j != i {
            assert(entry_ok(before[j], history));
        }
    }
    let target = apply(state_of(before), key, version, history);
    assert forall|k: Seq<char>| state_of(after).dom().contains(k) implies #[trigger] state_of(after)[k]
        == target[k] by {
        let j = choose|j: int| 0 <= j < after.len() && (#[trigger] after[j]).key@ == k;
        if j != i {
            assert(after[j] == before[j]);
        }
    }
}

/// Sweeping every entry yields the state that `sweep` describes.
proof fn lemma_swept(before: Seq<Entry>, after: Seq<Entry>, timestamp: Timestamp, history: History)
    requires
        entries_ok(before, history),
        after.len() == before.len(),
        forall|j: int| 0 <= j < before.len() ==> (#[trigger] after[j]).key@ == before[j].key@,
        forall|j: int|
            0 <= j < before.len() ==> versions_of(#[trigger] after[j]) == swept_of(
                before[j],
                timestamp,
                history,
            ),
    ensures
        entries_ok(after, history),
        state_of(after) == sweep(state_of(before), timestamp, history),
{
    lemma_state_of(before);
    assert(keys_of(after) =~= keys_of(before));
    lemma_state_of(after);
    assert forall|j: int| 0 <= j < after.len() implies entry_ok(#[trigger] after[j], history) by {
        if versions_of(before[j])[0].timestamp.before(timestamp) {
            lemma_new_head(retained_of(before[j], history), Version::tombstone(timestamp));
        }
    }
    let target = sweep(state_of(before), timestamp, history);
    assert forall|k: Seq<char>| state_of(after).dom().contains(k) implies #[trigger] state_of(after)[k]
        == target[k] by {
        let j = choose|j: int| 0 <= j < after.len() && (#[trigger] after[j]).key@ == k;
        assert(state_of(before)[k] == versions_of(before[j]));
    }
}

/// The place of `key` among the entries.
fn position(entries: &Vec<Entry>, key: &Key) -> (found: Option<usize>)
    ensures
        match found {
            Some(i) => i < entries.len() && entries[i as int].key@ == key@,
            None => !keys_of(entries@).contains(key@),
        },
{
    let mut i: usize = 0;
    while i < entries.len()
        invariant
            i <= entries.len(),
            forall|j: int| 0 <= j < i ==> (#[trigger] entries[j]).key@ != key@,
        decreases entries.len() - i,
    {
        if entries[i].key.same_as(key) {
            return Some(i);
        }
        i += 1;
    }
    assert forall|j: int| 0 <= j < keys_of(entries@).len() implies keys_of(entries@)[j] != key@ by {
        assert(entries[j].key@ != key@);
    }
    None
}

/// Writes `data` for `key` unless a version with the same or a newer
/// timestamp is held for that key.
fn store(entries: &mut Vec<Entry>, history: History, key: Key, data: StoredData) -> (result:
    InsertionResult)
    requires
        entries_ok(old(entries)@, history),
    ensures
        entries_ok(final(entries)@, history),
        state_of(final(entries)@) == apply(state_of(old(entries)@), key@, data@, history),
        result == outcome(state_of(old(entries)@), key@, data@),
{
    let ghost before = entries@;
    let ghost version = data@;
    proof {
        lemma_state_of(before);
        use_type_invariant(&key);
        key.lemma_not_empty();
    }
    let live = data.is_live();
    match position(entries, &key) {
        None => {
            let mut versions: Vec<StoredData> = Vec::new();
            versions.push(data);
            let entry = Entry { key, versions };
            proof {
                lemma_added(before, entry, history);
            }
            entries.push(entry);
            if live {
                InsertionResult::Inserted
            } else {
                InsertionResult::Deleted
            }
        },
        Some(i) => {
            let held_time = entries[i].versions[0].timestamp;
            let was_live = entries[i].versions[0].is_live();
            if !held_time.is_before(&data.timestamp) {
                return InsertionResult::Outdated;
            }
            match history {
                History::All => {
                    entries[i].versions.insert(0, data);
                },
                History::Latest => {
                    entries[i].versions.set(0, data);
                },
            }
            proof {
                let after = entries@;
                assert(versions_of(after[i as int]) =~= seq![version] + retained_of(
                    before[i as int],
                    history,
                ));
                lemma_replaced(before, after, i as int, version, history);
            }
            if !live {
                InsertionResult::Deleted
            } else if was_live {
                InsertionResult::Updated
            } else {
                InsertionResult::Inserted
            }
        },
    }
}

/// Puts a tombstone stamped `timestamp` on every key whose newest version is
/// older.
fn store_all(entries: &mut Vec<Entry>, history: History, timestamp: Timestamp)
    requires
        entries_ok(old(entries)@, history),
    ensures
        entries_ok(final(entries)@, history),
        state_of(final(entries)@) == sweep(state_of(old(entries)@), timestamp, history),
{
    let ghost before = entries@;
    let mut i: usize = 0;
    while i < entries.len()
        invariant
            entries_ok(before, history),
            entries.len() == before.len(),
            i <= entries.len(),
            forall|j: int| 0 <= j < before.len() ==> (#[trigger] entries[j]).key@ == before[j].key@,
            forall|j: int| i <= j < before.len() ==> #[trigger] entries[j] == before[j],
            forall|j: int|
                0 <= j < i ==> versions_of(#[trigger] entries[j]) == swept_of(
                    before[j],
                    timestamp,
                    history,
                ),
        decreases entries.len() - i,
    {
        if entries[i].versions[0].timestamp.is_before(&timestamp) {
            let mark = StoredData::tombstone(timestamp);
            match history {
                History::All => {
                    entries[i].versions.insert(0, mark);
                },
                History::Latest => {
                    entries[i].versions.set(0, mark);
                },
            }
        }
        i += 1;
    }
    proof {
        lemma_swept(before, entries@, timestamp, history);
    }
}

/// A copy of every version, in the same order.
fn copy_versions(held: &Vec<StoredData>) -> (copy: Vec<StoredData>)
    ensures
        versions(copy@) == versions(held@),
{
    let mut copy: Vec<StoredData> = Vec::new();
    let mut i: usize = 0;
    while i < held.len()
        invariant
            i <= held.len(),
            copy.len() == i,
            forall|j: int| 0 <= j < i ==> (#[trigger] copy[j])@ == held[j]@,
        decreases held.len() - i,
    {
        copy.push(held[i].clone());
        i += 1;
    }
    copy
}

/// The store of one namespace.
///
/// It holds, for every key that was ever written, the versions retained for
/// it. Of two operations on one key the one with the higher timestamp
/// prevails, in whatever order they arrive.
pub struct PgStorage {
    history: History,
    entries: Vec<Entry>,
}

impl View for PgStorage {
    type V = State;

    closed spec fn view(&self) -> State {
        state_of(self.entries@)
    }
}

impl PgStorage {
    #[verifier::type_invariant]
    spec fn inv(self) -> bool {
        entries_ok(self.entries@, self.history)
    }

    /// What the store retains of a key's past.
    pub closed spec fn retention(&self) -> History {
        self.history
    }

    /// An empty store that retains `history`.
    pub fn new(history: History) -> (storage: PgStorage)
        ensures
            storage@ == Map::<Seq<char>, Seq<Version>>::empty(),
            storage.retention() == history,
            well_formed(storage@, history),
    {
        let storage = PgStorage { history, entries: Vec::new() };
        proof {
            lemma_well_formed(storage.entries@, history);
        }
        storage
    }

    /// What the store retains of a key's past.
    pub fn history(&self) -> (history: History)
        ensures
            history == self.retention(),
            well_formed(self@, history),
    {
        proof {
            use_type_invariant(self);
            lemma_well_formed(self.entries@, self.history);
        }
        self.history
    }

    /// The status document of the store: the JSON text `null`.
    pub fn get_admin_status(&self) -> (status: String)
        ensures
            status@ == "null"@,
    {
        "null".to_owned()
    }

    /// What a put for `key` stamped `timestamp` would report, whatever it
    /// carries. The store is only read, so that the caller can persist a
    /// write before the store takes it.
    pub fn would_put(&self, key: &Key, timestamp: Timestamp) -> (result: InsertionResult)
        ensures
            forall|payload: Seq<u8>, encoding: Seq<char>|
                result == #[trigger] outcome(
                    self@,
                    key@,
                    Version::value(payload, encoding, timestamp),
                ),
            result is Outdated <==> !accepts(self@, key@, timestamp),
            !(result is Deleted),
    {
        proof {
            use_type_invariant(self);
            lemma_state_of(self.entries@);
        }
        match position(&self.entries, key) {
            None => InsertionResult::Inserted,
            Some(i) => {
                proof {
                    assert(entry_ok(self.entries@[i as int], self.history));
                }
                let held = &self.entries[i].versions[0];
                if !held.timestamp.is_before(&timestamp) {
                    InsertionResult::Outdated
                } else if held.is_live() {
                    InsertionResult::Updated
                } else {
                    InsertionResult::Inserted
                }
            },
        }
    }

    /// What a delete of `key` stamped `timestamp` would report. The store
    /// is only read.
    pub fn would_delete(&self, key: &Key, timestamp: Timestamp) -> (result: InsertionResult)
        ensures
            result == outcome(self@, key@, Version::tombstone(timestamp)),
            result is Outdated <==> !accepts(self@, key@, timestamp),
            result is Outdated || result is Deleted,
    {
        proof {
            use_type_invariant(self);
            lemma_state_of(self.entries@);
        }
        match position(&self.entries, key) {
            None => InsertionResult::Deleted,
            Some(i) => {
                proof {
                    assert(entry_ok(self.entries@[i as int], self.history));
                }
                if self.entries[i].versions[0].timestamp.is_before(&timestamp) {
                    InsertionResult::Deleted
                } else {
                    InsertionResult::Outdated
                }
            },
        }
    }

    /// Writes `payload` for `key` unless the store holds a version of that
    /// key, live or tombstone, with the same or a newer timestamp.
    ///
    /// Reports `Inserted` where the key had no live record, `Updated` where a
    /// live record was replaced, and `Outdated` where the write was left out
    /// and the store stays as it was. A put without a key is refused.
    pub fn put(
        &mut self,
        key: Option<Key>,
        payload: Vec<u8>,
        encoding: String,
        timestamp: Timestamp,
    ) -> (result: Result<InsertionResult, StorageError>)
        ensures
            final(self).retention() == old(self).retention(),
            well_formed(final(self)@, old(self).retention()),
            match key {
                None => {
                    &&& result == Err::<InsertionResult, StorageError>(
                        StorageError::InvalidArgument,
                    )
                    &&& final(self)@ == old(self)@
                },
                Some(k) => {
                    &&& result == Ok::<InsertionResult, StorageError>(
                        outcome(old(self)@, k@, Version::value(payload@, encoding@, timestamp)),
                    )
                    &&& final(self)@ == apply(
                        old(self)@,
                        k@,
                        Version::value(payload@, encoding@, timestamp),
                        old(self).retention(),
                    )
                    &&& !accepts(old(self)@, k@, timestamp) ==> final(self)@ == old(self)@
                        && result == Ok::<InsertionResult, StorageError>(InsertionResult::Outdated)
                },
            },
    {
        proof {
            use_type_invariant(&*self);
            lemma_well_formed(self.entries@, self.history);
        }
        match key {
            None => Err(StorageError::InvalidArgument),
            Some(k) => {
                let data = StoredData::value(payload, encoding, timestamp);
                let history = self.history;
                let mut entries: Vec<Entry> = Vec::new();
                std::mem::swap(&mut entries, &mut self.entries);
                let result = store(&mut entries, history, k, data);
                proof {
                    lemma_well_formed(entries@, history);
                }
                self.entries = entries;
                Ok(result)
            },
        }
    }

    /// Writes a tombstone stamped `timestamp`.
    ///
    /// With a key, the tombstone replaces what the store holds for that key
    /// unless that is as new or newer; the result is `Deleted`, or `Outdated`
    /// where the delete was left out. A key that was never written gets the
    /// tombstone too, so that an older put arriving later is left out.
    ///
    /// Without a key, every key whose newest version is older than
    /// `timestamp` gets the tombstone, every other key stays untouched, and
    /// the result is `Deleted`.
    pub fn delete(&mut self, key: Option<Key>, timestamp: Timestamp) -> (result: Result<
        InsertionResult,
        StorageError,
    >)
        ensures
            final(self).retention() == old(self).retention(),
            well_formed(final(self)@, old(self).retention()),
            match key {
                None => {
                    &&& result == Ok::<InsertionResult, StorageError>(InsertionResult::Deleted)
                    &&& final(self)@ == sweep(old(self)@, timestamp, old(self).retention())
                },
                Some(k) => {
                    &&& result == Ok::<InsertionResult, StorageError>(
                        outcome(old(self)@, k@, Version::tombstone(timestamp)),
                    )
                    &&& final(self)@ == apply(
                        old(self)@,
                        k@,
                        Version::tombstone(timestamp),
                        old(self).retention(),
                    )
                },
            },
    {
        proof {
            use_type_invariant(&*self);
        }
        let history = self.history;
        let mut entries: Vec<Entry> = Vec::new();
        std::mem::swap(&mut entries, &mut self.entries);
        let result = match key {
            None => {
                store_all(&mut entries, history, timestamp);
                InsertionResult::Deleted
            },
            Some(k) => store(&mut entries, history, k, StoredData::tombstone(timestamp)),
        };
        proof {
            lemma_well_formed(entries@, history);
        }
        self.entries = entries;
        Ok(result)
    }

    /// Reads what the store holds for `key`.
    ///
    /// A store that retains only the latest version returns the current
    /// record of the key if it is live and nothing otherwise. A store that
    /// retains all returns every version of the key, tombstones among them,
    /// newest first. A read without a key returns nothing. `parameters` is
    /// not interpreted: no filtering is done beyond the key.
    pub fn get(&mut self, key: Option<Key>, parameters: &str) -> (result: Result<
        Vec<StoredData>,
        StorageError,
    >)
        ensures
            *final(self) == *old(self),
            well_formed(old(self)@, old(self).retention()),
            result matches Ok(found) && {
                &&& versions(found@) == match key {
                    Some(k) => read(old(self)@, k@, old(self).retention()),
                    None => Seq::<Version>::empty(),
                }
                &&& descending(versions(found@))
                &&& old(self).retention() is Latest ==> found@.len() <= 1
            },
    {
        proof {
            use_type_invariant(&*self);
            lemma_well_formed(self.entries@, self.history);
            lemma_state_of(self.entries@);
        }
        let found: Vec<StoredData> = match &key {
            None => Vec::new(),
            Some(k) => match position(&self.entries, k) {
                None => Vec::new(),
                Some(i) => match self.history {
                    History::All => copy_versions(&self.entries[i].versions),
                    History::Latest => {
                        let mut one: Vec<StoredData> = Vec::new();
                        if self.entries[i].versions[0].is_live() {
                            one.push(self.entries[i].versions[0].clone());
                        }
                        one
                    },
                },
            },
        };
        Ok(found)
    }

    /// Lists every key that has a live record, each once, with the timestamp
    /// of that record.
    pub fn get_all_entries(&self) -> (result: Result<Vec<(Option<Key>, Timestamp)>, StorageError>)
        ensures
            well_formed(self@, self.retention()),
            result matches Ok(listing) && {
                &&& forall|i: int| 0 <= i < listing@.len() ==> (#[trigger] listing@[i]).0 is Some
                &&& listed_keys(listing@).no_duplicates()
                &&& listed_keys(listing@).to_set() == live_keys(self@)
                &&& forall|i: int|
                    0 <= i < listing@.len() ==> (current(
                        self@,
                        #[trigger] listed_keys(listing@)[i],
                    ) matches Some(held) && held.timestamp == listing@[i].1)
                &&& listing@.len() == live_keys(self@).len()
            },
    {
        proof {
            use_type_invariant(self);
            lemma_well_formed(self.entries@, self.history);
            lemma_state_of(self.entries@);
        }
        let mut listing: Vec<(Option<Key>, Timestamp)> = Vec::new();
        let ghost mut source: Seq<int> = Seq::empty();
        let mut i: usize = 0;
        while i < self.entries.len()
            invariant
                entries_ok(self.entries@, self.history),
                i <= self.entries.len(),
                source.len() == listing@.len(),
                forall|a: int| 0 <= a < source.len() ==> 0 <= #[trigger] source[a] < i,
                forall|a: int, b: int|
                    0 <= a < b < source.len() ==> #[trigger] source[a] < #[trigger] source[b],
                forall|a: int|
                    0 <= a < source.len() ==> {
                        &&& (#[trigger] listing@[a]).0 matches Some(key)
                        &&& key@ == self.entries@[source[a]].key@
                        &&& versions_of(self.entries@[source[a]])[0].live()
                        &&& versions_of(self.entries@[source[a]])[0].timestamp == listing@[a].1
                    },
                forall|j: int|
                    0 <= j < i && versions_of(#[trigger] self.entries@[j])[0].live()
                        ==> source.contains(j),
            decreases self.entries.len() - i,
        {
            if self.entries[i].versions[0].is_live() {
                let key = self.entries[i].key.clone();
                let timestamp = self.entries[i].versions[0].timestamp;
                listing.push((Some(key), timestamp));
                proof {
                    let ghost earlier = source;
                    source = source.push(i as int);
                    assert forall|j: int|
                        0 <= j < i + 1 && versions_of(
                            #[trigger] self.entries@[j],
                        )[0].live() implies source.contains(j) by {
                        if j < i {
                            let a = choose|a: int| 0 <= a < earlier.len() && earlier[a] == j;
                            assert(source[a] == j);
                        } else {
                            assert(source[earlier.len() as int] == j);
                        }
                    }
                }
            }
            i += 1;
        }
        proof {
            let keys = listed_keys(listing@);
            let all = keys_of(self.entries@);
            assert forall|a: int| 0 <= a < keys.len() implies #[trigger] keys[a]
                == self.entries@[source[a]].key@ by {
                assert(listing@[a].0 is Some);
            }
            assert(keys.no_duplicates()) by {
                assert forall|a: int, b: int|
                    0 <= a < keys.len() && 0 <= b < keys.len() && a != b implies keys[a]
                    != keys[b] by {
                    assert(source[a] != source[b]) by {
                        if a < b {
                            assert(source[a] < source[b]);
                        } else {
                            assert(source[b] < source[a]);
                        }
                    }
                    assert(all[source[a]] == keys[a]);
                    assert(all[source[b]] == keys[b]);
                }
            }
            assert forall|a: int| 0 <= a < listing@.len() implies (current(
                self@,
                #[trigger] keys[a],
            ) matches Some(held) && held.timestamp == listing@[a].1 && held.live()) by {
                assert(entry_ok(self.entries@[source[a]], self.history));
            }
            assert(keys.to_set() =~= live_keys(self@)) by {
                assert forall|k: Seq<char>| keys.to_set().contains(k) <==> live_keys(
                    self@,
                ).contains(k) by {
                    if keys.to_set().contains(k) {
                        let a = choose|a: int| 0 <= a < keys.len() && keys[a] == k;
                        assert(is_live(self@, keys[a]));
                    }
                    if is_live(self@, k) {
                        let j = choose|j: int|
                            0 <= j < self.entries@.len() && (#[trigger] self.entries@[j]).key@
                                == k;
                        let a = choose|a: int| 0 <= a < source.len() && source[a] == j;
                        assert(keys[a] == k);
                    }
                }
            }
            keys.unique_seq_to_set();
        }
        Ok(listing)
    }
}

} // verus!
