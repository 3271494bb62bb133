//! The volume: it declares what its stores retain and mints one store per
//! namespace.

use vstd::prelude::*;
use vstd::string::StrSliceExecFns;
use crate::capability::{Capability, History, Persistence};
use crate::error::StorageError;
use crate::model::well_formed;
use crate::record::Version;
use crate::storage::PgStorage;

verus! {

/// The longest name a namespace may have, in characters.
pub const MAX_NAME_LENGTH: usize = 63;

/// The configuration of one namespace.
#[derive(Debug)]
pub struct StorageConfig {
    /// The name of the namespace, which is also the name of its table.
    pub name: String,
}

/// What was found of the table behind a namespace.
#[derive(Clone, Copy, Debug, PartialEq, Eq, Structural)]
pub enum SchemaStatus {
    /// The table exists, or was created, with the expected columns.
    Ready,
    /// The table is missing and could not be created, or it has other
    /// columns than expected.
    Unusable,
}

/// The characters a namespace name is made of: ASCII letters and digits,
/// the underscore, the hyphen and the full stop. None of them ends a quoted
/// identifier, so a name made of them can stand in a statement as the name
/// of a table.
pub open spec fn name_char(c: char) -> bool {
    ||| 'a' <= c <= 'z'
    ||| 'A' <= c <= 'Z'
    ||| '0' <= c <= '9'
    ||| c == '_'
    ||| c == '-'
    ||| c == '.'
}

/// A namespace name is well-formed when it has between one and
/// `MAX_NAME_LENGTH` characters, each of them a `name_char`.
pub open spec fn valid_name(name: Seq<char>) -> bool {
    &&& 0 < name.len() <= MAX_NAME_LENGTH
    &&& forall|i: int| 0 <= i < name.len() ==> name_char(#[trigger] name[i])
}

/// Whether `name` can name a namespace.
pub fn is_valid_name(name: &str) -> (valid: bool)
    ensures
        valid == valid_name(name@),
{
    let length: usize = name.unicode_len();
    if length == 0 || length > MAX_NAME_LENGTH {
        return false;
    }
    let mut i: usize = 0;
    while i < length
        invariant
            length == name@.len(),
            i <= length,
            forall|j: int| 0 <= j < i ==> name_char(#[trigger] name@[j]),
        decreases length - i,
    {
        let c = name.get_char(i);
        let allowed = ('a' <= c && c <= 'z') || ('A' <= c && c <= 'Z') || ('0' <= c && c <= '9')
            || c == '_' || c == '-' || c == '.';
        if !allowed {
            return false;
        }
        i += 1;
    }
    true
}

spec fn names_of(names: Seq<String>) -> Seq<Seq<char>> {
    names.map_values(|name: String| name@)
}

/// The place of `name` among `names`.
fn position(names: &Vec<String>, name: &String) -> (found: Option<usize>)
    ensures
        match found {
            Some(i) => i < names.len() && names[i as int]@ == name@,
            None => !names_of(names@).contains(name@),
        },
{
    let mut i: usize = 0;
    while i < names.len()
        invariant
            i <= names.len(),
            forall|j: int| 0 <= j < i ==> (#[trigger] names[j])@ != name@,
        decreases names.len() - i,
    {
        if names[i] == *name {
            return Some(i);
        }
        i += 1;
    }
    assert forall|j: int| 0 <= j < names_of(names@).len() implies names_of(names@)[j] != name@ by {
        assert(names[j]@ != name@);
    }
    None
}

/// One configured backend: it declares what its stores retain, and keeps
/// the names of the namespaces it has minted a store for.
///
/// A namespace has at most one store at a time: a second store for a name
/// that is in use is refused, until the first is given back with
/// `remove_storage`.
pub struct PgBackend {
    history: History,
    names: Vec<String>,
}

impl View for PgBackend {
    type V = Set<Seq<char>>;

    /// The names of the namespaces that have a store.
    closed spec fn view(&self) -> Set<Seq<char>> {
        names_of(self.names@).to_set()
    }
}

impl PgBackend {
    #[verifier::type_invariant]
    spec fn inv(self) -> bool {
        &&& names_of(self.names@).no_duplicates()
        &&& forall|i: int| 0 <= i < self.names@.len() ==> valid_name(#[trigger] self.names@[i]@)
    }

    /// What the backend declares: data survives a restart, and of each key
    /// the history it was made with is retained.
    pub closed spec fn capability(&self) -> Capability {
        Capability { persistence: Persistence::Durable, history: self.history }
    }

    /// A backend without namespaces, whose stores retain `history`.
    pub fn new(history: History) -> (backend: PgBackend)
        ensures
            backend@ == Set::<Seq<char>>::empty(),
            backend.capability() == (Capability {
                persistence: Persistence::Durable,
                history,
            }),
    {
        PgBackend { history, names: Vec::new() }
    }

    /// Starts a backend once the connection to the persistence engine was
    /// attempted. A backend cannot start without persistence: where the
    /// connection failed, its failure is the result, and no backend is made.
    pub fn start(history: History, connection: Result<(), StorageError>) -> (result: Result<
        PgBackend,
        StorageError,
    >)
        ensures
            match connection {
                Ok(_) => result matches Ok(backend) && backend@ == Set::<Seq<char>>::empty()
                    && backend.capability() == (Capability {
                    persistence: Persistence::Durable,
                    history,
                }),
                Err(error) => result matches Err(reported) && reported == error,
            },
    {
        match connection {
            Ok(_) => Ok(PgBackend::new(history)),
            Err(error) => Err(error),
        }
    }

    /// The guarantees of the backend, the same at every call.
    pub fn get_capability(&self) -> (capability: Capability)
        ensures
            capability == self.capability(),
            capability.persistence == Persistence::Durable,
    {
        Capability { persistence: Persistence::Durable, history: self.history }
    }

    /// The status document of the backend: the JSON text `null`.
    pub fn get_admin_status(&self) -> (status: String)
        ensures
            status@ == "null"@,
    {
        "null".to_owned()
    }

    /// Whether a store can be made for `config`: its name must be
    /// well-formed and must not name a namespace that has a store.
    pub fn check_config(&self, config: &StorageConfig) -> (result: Result<(), StorageError>)
        ensures
            result == if valid_name(config.name@) && !self@.contains(config.name@) {
                Ok::<(), StorageError>(())
            } else {
                Err::<(), StorageError>(StorageError::ConfigError)
            },
    {
        if !is_valid_name(config.name.as_str()) {
            return Err(StorageError::ConfigError);
        }
        match position(&self.names, &config.name) {
            Some(i) => {
                assert(names_of(self.names@)[i as int] == config.name@);
                Err(StorageError::ConfigError)
            },
            None => Ok(()),
        }
    }

    /// Makes the store of the namespace that `config` names.
    ///
    /// `schema` says what was found of the table behind the namespace. The
    /// call fails with `ConfigError` where `check_config` fails, and with
    /// `SchemaError` where the configuration is in order and the table is
    /// not usable. On failure the backend stays as it was. On success the
    /// store is empty, retains what the backend declares, and the name is
    /// in use.
    pub fn create_storage(&mut self, config: StorageConfig, schema: SchemaStatus) -> (result:
        Result<PgStorage, StorageError>)
        ensures
            final(self).capability() == old(self).capability(),
            match result {
                Ok(storage) => {
                    &&& valid_name(config.name@)
                    &&& !old(self)@.contains(config.name@)
                    &&& schema is Ready
                    &&& final(self)@ == old(self)@.insert(config.name@)
                    &&& storage@ == Map::<Seq<char>, Seq<Version>>::empty()
                    &&& storage.retention() == old(self).capability().history
                    &&& well_formed(storage@, storage.retention())
                },
                Err(error) => {
                    &&& final(self)@ == old(self)@
                    &&& if valid_name(config.name@) && !old(self)@.contains(config.name@) {
                        error == StorageError::SchemaError && schema is Unusable
                    } else {
                        error == StorageError::ConfigError
                    }
                },
            },
    {
        proof {
            use_type_invariant(&*self);
        }
        match self.check_config(&config) {
            Err(error) => Err(error),
            Ok(()) => match schema {
                SchemaStatus::Unusable => Err(StorageError::SchemaError),
                SchemaStatus::Ready => {
                    let ghost before = self.names@;
                    let mut names: Vec<String> = Vec::new();
                    std::mem::swap(&mut names, &mut self.names);
                    names.push(config.name);
                    proof {
                        assert(names_of(names@) =~= names_of(before).push(config.name@));
                        assert(names_of(names@).to_set() =~= names_of(before).to_set().insert(
                            config.name@,
                        )) by {
                            assert forall|name: Seq<char>|
                                names_of(names@).contains(name) <==> names_of(before).contains(name)
                                    || name == config.name@ by {
                                if names_of(before).contains(name) {
                                    let j = choose|j: int|
                                        0 <= j < before.len() && names_of(before)[j] == name;
                                    assert(names_of(names@)[j] == name);
                                }
                                if name == config.name@ {
                                    assert(names_of(names@)[before.len() as int] == name);
                                }
                            }
                        }
                        assert forall|i: int| 0 <= i < names@.len() implies valid_name(
                            #[trigger] names@[i]@,
                        ) by {
                            if i < before.len() {
                                assert(names@[i] == before[i]);
                            }
                        }
                    }
                    self.names = names;
                    Ok(PgStorage::new(self.history))
                },
            },
        }
    }

    /// Gives back the store of the namespace `name`, so that a new one can
    /// be made for it. Returns whether the namespace had a store.
    pub fn remove_storage(&mut self, name: &str) -> (removed: bool)
        ensures
            final(self).capability() == old(self).capability(),
            removed == old(self)@.contains(name@),
            final(self)@ == old(self)@.remove(name@),
    {
        proof {
            use_type_invariant(&*self);
        }
        let ghost before = self.names@;
        match position(&self.names, &name.to_owned()) {
            None => false,
            Some(i) => {
                let mut names: Vec<String> = Vec::new();
                std::mem::swap(&mut names, &mut self.names);
                names.remove(i);
                proof {
                    assert(names_of(before)[i as int] == name@);
                    assert(names_of(names@) =~= names_of(before).remove(i as int));
                    assert forall|a: int, b: int|
                        0 <= a < names@.len() && 0 <= b < names@.len() && a != b implies names_of(
                        names@,
                    )[a] != names_of(names@)[b] by {
                        let x = if a < i { a } else { a + 1 };
                        let y = if b < i { b } else { b + 1 };
                        assert(names_of(before)[x] != names_of(before)[y]);
                    }
                    assert forall|a: int| 0 <= a < names@.len() implies valid_name(
                        #[trigger] names@[a]@,
                    ) by {
                        let x = if a < i { a } else { a + 1 };
                        assert(names@[a] == before[x]);
                    }
                    assert(names_of(names@).to_set() =~= names_of(before).to_set().remove(name@))
                        by {
                        assert forall|other: Seq<char>|
                            names_of(names@).contains(other) <==> names_of(before).contains(other)
                                && other != name@ by {
                            if names_of(names@).contains(other) {
                                let a = choose|a: int|
                                    0 <= a < names@.len() && names_of(names@)[a] == other;
                                let x = if a < i { a } else { a + 1 };
                                assert(names_of(before)[x] == other);
                                assert(names_of(before)[x] != names_of(before)[i as int]);
                            }
                            if names_of(before).contains(other) && other != name@ {
                                let x = choose|x: int|
                                    0 <= x < before.len() && names_of(before)[x] == other;
                                let a = if x < i { x } else { x - 1 };
                                assert(names_of(names@)[a] == other);
                            }
                        }
                    }
                }
                self.names = names;
                true
            },
        }
    }
}

} // verus!
