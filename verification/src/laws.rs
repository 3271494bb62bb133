//! What holds of every namespace state, proved over the model.

use vstd::prelude::*;
use crate::capability::History;
use crate::model::{
    accepts, apply, current, descending, is_live, lemma_new_head, live_keys, read, retained, sweep,
    well_formed, State,
};
use crate::record::Version;
use crate::timestamp::Timestamp;

verus! {

/// One write to one key: a put writes a live version, a delete a tombstone.
pub ghost struct Operation {
    pub key: Seq<char>,
    pub version: Version,
}

/// The state after the operations of `ops` were applied to `state`, first
/// to last.
pub open spec fn run(state: State, ops: Seq<Operation>, history: History) -> State
    decreases ops.len(),
{
    if ops.len() == 0 {
        state
    } else {
        apply(run(state, ops.drop_last(), history), ops.last().key, ops.last().version, history)
    }
}

/// The keys of `ops`, in order.
pub open spec fn keys_of(ops: Seq<Operation>) -> Seq<Seq<char>> {
    ops.map_values(|op: Operation| op.key)
}

/// A write to one key leaves every other key as it was.
pub proof fn lemma_apply_is_local(
    state: State,
    key: Seq<char>,
    version: Version,
    history: History,
    other: Seq<char>,
)
    requires
        other != key,
    ensures
        apply(state, key, version, history).dom().contains(other) == state.dom().contains(other),
        apply(state, key, version, history)[other] == state[other],
        current(apply(state, key, version, history), other) == current(state, other),
{
}

/// No write takes a key away: a key that was written stays in the
/// namespace, as a live record or as a tombstone.
pub proof fn lemma_keys_never_leave(
    state: State,
    key: Seq<char>,
    version: Version,
    history: History,
    other: Seq<char>,
)
    requires
        state.dom().contains(other),
    ensures
        apply(state, key, version, history).dom().contains(other),
        sweep(state, version.timestamp, history).dom().contains(other),
{
}

/// A write that wins becomes the current version of its key; one that does
/// not changes nothing.
pub proof fn lemma_apply_sets_current(
    state: State,
    key: Seq<char>,
    version: Version,
    history: History,
)
    ensures
        accepts(state, key, version.timestamp) ==> current(
            apply(state, key, version, history),
            key,
        ) == Some(version),
        !accepts(state, key, version.timestamp) ==> apply(state, key, version, history) == state,
{
}

/// A timestamp newer than what is held for a key and newer than every
/// operation on that key is still newer than what is held after them.
proof fn lemma_run_stays_older(
    state: State,
    ops: Seq<Operation>,
    history: History,
    key: Seq<char>,
    timestamp: Timestamp,
)
    requires
        accepts(state, key, timestamp),
        forall|i: int|
            0 <= i < ops.len() && (#[trigger] ops[i]).key == key ==> ops[i].version.timestamp.before(
                timestamp,
            ),
    ensures
        accepts(run(state, ops, history), key, timestamp),
    decreases ops.len(),
{
    if ops.len() > 0 {
        let earlier = ops.drop_last();
        let last = ops.last();
        assert forall|i: int| 0 <= i < earlier.len() && (#[trigger] earlier[i]).key == key implies earlier[i].version.timestamp.before(
            timestamp,
        ) by {
            assert(earlier[i] == ops[i]);
        }
        lemma_run_stays_older(state, earlier, history, key, timestamp);
        let middle = run(state, earlier, history);
        if last.key == key {
            lemma_apply_sets_current(middle, key, last.version, history);
        } else {
            lemma_apply_is_local(middle, last.key, last.version, history, key);
        }
    }
}

/// Last writer wins: after any sequence of puts and deletes, in whatever
/// order they were applied, a key holds the version written by the
/// operation with the highest timestamp among those on that key, provided
/// that timestamp is also newer than what the key held before.
pub proof fn lemma_last_writer_wins(
    state: State,
    ops: Seq<Operation>,
    history: History,
    winner: int,
)
    requires
        0 <= winner < ops.len(),
        accepts(state, ops[winner].key, ops[winner].version.timestamp),
        forall|i: int|
            0 <= i < ops.len() && i != winner && (#[trigger] ops[i]).key == ops[winner].key
                ==> ops[i].version.timestamp.before(ops[winner].version.timestamp),
    ensures
        current(run(state, ops, history), ops[winner].key) == Some(ops[winner].version),
    decreases ops.len(),
{
    let key = ops[winner].key;
    let version = ops[winner].version;
    let earlier = ops.drop_last();
    let last = ops.last();
    let middle = run(state, earlier, history);
    if winner == ops.len() - 1 {
        assert forall|i: int| 0 <= i < earlier.len() && (#[trigger] earlier[i]).key == key implies earlier[i].version.timestamp.before(
            version.timestamp,
        ) by {
            assert(earlier[i] == ops[i]);
        }
        lemma_run_stays_older(state, earlier, history, key, version.timestamp);
        lemma_apply_sets_current(middle, key, version, history);
    } else {
        assert(earlier[winner] == ops[winner]);
        assert forall|i: int|
            0 <= i < earlier.len() && i != winner && (#[trigger] earlier[i]).key
                == key implies earlier[i].version.timestamp.before(version.timestamp) by {
            assert(earlier[i] == ops[i]);
        }
        lemma_last_writer_wins(state, earlier, history, winner);
        if last.key == key {
            assert(last.version.timestamp.before(version.timestamp));
            lemma_apply_sets_current(middle, key, last.version, history);
        } else {
            lemma_apply_is_local(middle, last.key, last.version, history, key);
        }
    }
}

/// A put that wins is what a read of its key returns next: alone where only
/// the latest version is retained, and in first place where all are.
pub proof fn lemma_put_then_get(
    state: State,
    key: Seq<char>,
    payload: Seq<u8>,
    encoding: Seq<char>,
    timestamp: Timestamp,
    history: History,
)
    requires
        accepts(state, key, timestamp),
    ensures
        history is Latest ==> read(
            apply(state, key, Version::value(payload, encoding, timestamp), history),
            key,
            history,
        ) == seq![Version::value(payload, encoding, timestamp)],
        read(
            apply(state, key, Version::value(payload, encoding, timestamp), history),
            key,
            history,
        ).len() > 0,
        read(
            apply(state, key, Version::value(payload, encoding, timestamp), history),
            key,
            history,
        )[0] == Version::value(payload, encoding, timestamp),
{
    lemma_apply_sets_current(
        state,
        key,
        Version::value(payload, encoding, timestamp),
        history,
    );
}

/// After a delete that wins, a read of its key returns nothing where only
/// the latest version is retained, and the tombstone in first place where
/// all are.
pub proof fn lemma_delete_then_get(
    state: State,
    key: Seq<char>,
    timestamp: Timestamp,
    history: History,
)
    requires
        accepts(state, key, timestamp),
    ensures
        history is Latest ==> read(
            apply(state, key, Version::tombstone(timestamp), history),
            key,
            history,
        ) == Seq::<Version>::empty(),
        history is All ==> {
            &&& read(apply(state, key, Version::tombstone(timestamp), history), key, history).len()
                > 0
            &&& read(apply(state, key, Version::tombstone(timestamp), history), key, history)[0]
                == Version::tombstone(timestamp)
        },
        !is_live(apply(state, key, Version::tombstone(timestamp), history), key),
{
    lemma_apply_sets_current(state, key, Version::tombstone(timestamp), history);
}

/// A delete of the whole namespace puts its tombstone on every key whose
/// newest version is older, leaves every other key untouched, and neither
/// adds nor removes a key.
pub proof fn lemma_sweep(state: State, timestamp: Timestamp, history: History, key: Seq<char>)
    ensures
        sweep(state, timestamp, history).dom() == state.dom(),
        state.dom().contains(key) && accepts(state, key, timestamp) ==> current(
            sweep(state, timestamp, history),
            key,
        ) == Some(Version::tombstone(timestamp)),
        state.dom().contains(key) && !accepts(state, key, timestamp) ==> sweep(
            state,
            timestamp,
            history,
        )[key] == state[key],
        !state.dom().contains(key) ==> current(sweep(state, timestamp, history), key) is None,
{
    lemma_apply_sets_current(state, key, Version::tombstone(timestamp), history);
}

/// Where only the latest version is retained, a read returns at most one
/// record, and that record is live.
pub proof fn lemma_latest_reads_at_most_one(state: State, key: Seq<char>)
    ensures
        read(state, key, History::Latest).len() <= 1,
        read(state, key, History::Latest).len() == 1 ==> read(state, key, History::Latest)[0].live(),
{
}

/// A write keeps a state well-formed.
pub proof fn lemma_apply_keeps_well_formed(
    state: State,
    key: Seq<char>,
    version: Version,
    history: History,
)
    requires
        well_formed(state, history),
        key.len() > 0,
    ensures
        well_formed(apply(state, key, version, history), history),
{
    let after = apply(state, key, version, history);
    if accepts(state, key, version.timestamp) {
        let held = retained(state, key, history);
        let fresh = seq![version] + held;
        assert(after[key] == fresh);
        if state.dom().contains(key) {
            assert(descending(state[key]));
        }
        lemma_new_head(held, version);
        assert forall|k: Seq<char>| #[trigger] after.dom().contains(k) implies {
            &&& k.len() > 0
            &&& after[k].len() > 0
            &&& descending(after[k])
            &&& history is Latest ==> after[k].len() == 1
        } by {
            if k != key {
                assert(state.dom().contains(k));
            }
        }
    }
}

/// A delete of the whole namespace keeps a state well-formed.
pub proof fn lemma_sweep_keeps_well_formed(state: State, timestamp: Timestamp, history: History)
    requires
        well_formed(state, history),
    ensures
        well_formed(sweep(state, timestamp, history), history),
{
    let after = sweep(state, timestamp, history);
    assert(after.dom() =~= state.dom());
    assert forall|k: Seq<char>| #[trigger] after.dom().contains(k) implies {
        &&& k.len() > 0
        &&& after[k].len() > 0
        &&& descending(after[k])
        &&& history is Latest ==> after[k].len() == 1
    } by {
        lemma_apply_keeps_well_formed(state, k, Version::tombstone(timestamp), history);
    }
}

/// In a well-formed state the current version of a key is newer than every
/// other version retained for that key.
pub proof fn lemma_current_is_newest(state: State, history: History, key: Seq<char>, i: int)
    requires
        well_formed(state, history),
        state.dom().contains(key),
        0 < i < state[key].len(),
    ensures
        current(state, key) == Some(state[key][0]),
        state[key][i].timestamp.before(state[key][0].timestamp),
{
}

/// Operations give a key only to the keys they are on.
pub proof fn lemma_run_adds_only_its_keys(
    state: State,
    ops: Seq<Operation>,
    history: History,
    key: Seq<char>,
)
    requires
        !state.dom().contains(key),
        !keys_of(ops).contains(key),
    ensures
        !run(state, ops, history).dom().contains(key),
    decreases ops.len(),
{
    if ops.len() > 0 {
        let earlier = ops.drop_last();
        assert forall|i: int| 0 <= i < earlier.len() implies keys_of(earlier)[i] != key by {
            assert(keys_of(ops)[i] == keys_of(earlier)[i]);
        }
        lemma_run_adds_only_its_keys(state, earlier, history, key);
        assert(keys_of(ops)[ops.len() - 1] == ops.last().key);
    }
}

/// After puts to distinct keys of an empty namespace, the keys with a live
/// record are exactly the keys that were put, as many as there were puts,
/// and each holds what its put wrote.
pub proof fn lemma_distinct_puts_are_all_live(ops: Seq<Operation>, history: History)
    requires
        forall|i: int| 0 <= i < ops.len() ==> (#[trigger] ops[i]).version.live(),
        keys_of(ops).no_duplicates(),
    ensures
        live_keys(run(Map::empty(), ops, history)) == keys_of(ops).to_set(),
        live_keys(run(Map::empty(), ops, history)).finite(),
        live_keys(run(Map::empty(), ops, history)).len() == ops.len(),
        forall|i: int|
            0 <= i < ops.len() ==> current(
                run(Map::empty(), ops, history),
                (#[trigger] ops[i]).key,
            ) == Some(ops[i].version),
{
    let empty = Map::<Seq<char>, Seq<Version>>::empty();
    let after = run(empty, ops, history);
    let keys = keys_of(ops);
    assert forall|i: int| 0 <= i < ops.len() implies current(after, (#[trigger] ops[i]).key)
        == Some(ops[i].version) by {
        assert forall|j: int| 0 <= j < ops.len() && j != i implies (#[trigger] ops[j]).key
            != ops[i].key by {
            assert(keys[j] == ops[j].key);
            assert(keys[i] == ops[i].key);
        }
        lemma_last_writer_wins(empty, ops, history, i);
    }
    assert forall|key: Seq<char>| live_keys(after).contains(key) <==> keys.to_set().contains(
        key,
    ) by {
        if keys.contains(key) {
            let i = choose|i: int| 0 <= i < keys.len() && keys[i] == key;
            assert(ops[i].key == key);
            assert(ops[i].version.live());
        } else {
            lemma_run_adds_only_its_keys(empty, ops, history, key);
        }
    }
    assert(live_keys(after) =~= keys.to_set());
    keys.unique_seq_to_set();
    vstd::seq_lib::seq_to_set_is_finite(keys);
}

} // verus!
