//! The mathematical model of a namespace: for every key that was ever
//! written, the versions retained for it, newest first.

use vstd::prelude::*;
use crate::capability::History;
use crate::record::{InsertionResult, Version};
use crate::timestamp::Timestamp;

verus! {

/// The content of a namespace: key text to retained versions, newest first.
pub type State = Map<Seq<char>, Seq<Version>>;

/// The newest version held for `key`, live or tombstone.
pub open spec fn current(state: State, key: Seq<char>) -> Option<Version> {
    if state.dom().contains(key) && state[key].len() > 0 {
        Some(state[key][0])
    } else {
        None
    }
}

/// Whether an operation stamped `timestamp` wins over what is held for `key`:
/// it does unless a version with the same or a newer timestamp is there.
pub open spec fn accepts(state: State, key: Seq<char>, timestamp: Timestamp) -> bool {
    match current(state, key) {
        Some(held) => held.timestamp.before(timestamp),
        None => true,
    }
}

/// The versions of `key` that stay behind a newly written one.
pub open spec fn retained(state: State, key: Seq<char>, history: History) -> Seq<Version> {
    if history is All && state.dom().contains(key) {
        state[key]
    } else {
        Seq::empty()
    }
}

/// The state after an attempt to write `version` for `key`: the version
/// becomes the newest one of the key if it wins, and nothing changes if not.
pub open spec fn apply(state: State, key: Seq<char>, version: Version, history: History) -> State {
    if accepts(state, key, version.timestamp) {
        state.insert(key, seq![version] + retained(state, key, history))
    } else {
        state
    }
}

/// What an attempt to write `version` for `key` reports.
pub open spec fn outcome(state: State, key: Seq<char>, version: Version) -> InsertionResult {
    if !accepts(state, key, version.timestamp) {
        InsertionResult::Outdated
    } else if !version.live() {
        InsertionResult::Deleted
    } else if current(state, key) matches Some(held) && held.live() {
        InsertionResult::Updated
    } else {
        InsertionResult::Inserted
    }
}

/// The state after a delete of the whole namespace stamped `timestamp`:
/// every key whose newest version is older gets a tombstone, every other key
/// stays as it is, and no key appears or disappears.
pub open spec fn sweep(state: State, timestamp: Timestamp, history: History) -> State {
    Map::new(
        |key: Seq<char>| state.dom().contains(key),
        |key: Seq<char>| apply(state, key, Version::tombstone(timestamp), history)[key],
    )
}

/// What a read of `key` returns: under `Latest` the current version if it is
/// live, under `All` every retained version, newest first.
pub open spec fn read(state: State, key: Seq<char>, history: History) -> Seq<Version> {
    match history {
        History::Latest => match current(state, key) {
            Some(held) => if held.live() {
                seq![held]
            } else {
                Seq::empty()
            },
            None => Seq::empty(),
        },
        History::All => if state.dom().contains(key) {
            state[key]
        } else {
            Seq::empty()
        },
    }
}

/// Whether `key` currently has a live record.
pub open spec fn is_live(state: State, key: Seq<char>) -> bool {
    current(state, key) matches Some(held) && held.live()
}

/// The keys that currently have a live record.
pub open spec fn live_keys(state: State) -> Set<Seq<char>> {
    Set::new(|key: Seq<char>| is_live(state, key))
}

/// Versions in strictly descending order of timestamp.
pub open spec fn descending(versions: Seq<Version>) -> bool {
    forall|i: int, j: int|
        0 <= i < j < versions.len() ==> (#[trigger] versions[j]).timestamp.before(
            (#[trigger] versions[i]).timestamp,
        )
}

/// What holds of every state a store can reach: finitely many keys, none of
/// them empty, each with at least one version, newest first, and exactly one
/// version where only the latest is retained.
pub open spec fn well_formed(state: State, history: History) -> bool {
    &&& state.dom().finite()
    &&& forall|key: Seq<char>| #[trigger]
        state.dom().contains(key) ==> {
            &&& key.len() > 0
            &&& state[key].len() > 0
            &&& descending(state[key])
            &&& history is Latest ==> state[key].len() == 1
        }
}

/// A version newer than the first of a descending sequence may be put in
/// front of it.
pub proof fn lemma_new_head(held: Seq<Version>, version: Version)
    requires
        descending(held),
        held.len() > 0 ==> held[0].timestamp.before(version.timestamp),
    ensures
        descending(seq![version] + held),
{
    let fresh = seq![version] + held;
    assert forall|a: int, b: int| 0 <= a < b < fresh.len() implies (#[trigger] fresh[b]).timestamp.before(
        (#[trigger] fresh[a]).timestamp,
    ) by {
        assert(fresh[b] == held[b - 1]);
        if a == 0 {
            if b - 1 > 0 {
                assert(held[b - 1].timestamp.before(held[0].timestamp));
            }
        } else {
            assert(fresh[a] == held[a - 1]);
            assert(held[b - 1].timestamp.before(held[a - 1].timestamp));
        }
    }
}

} // verus!
