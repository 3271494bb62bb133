//! What a volume promises about the data it keeps.

use vstd::prelude::*;

verus! {

/// Whether data survives a restart of the process.
#[derive(Clone, Copy, Debug, PartialEq, Eq, Structural)]
pub enum Persistence {
    Volatile,
    Durable,
}

/// How much of a key's past can be read back.
#[derive(Clone, Copy, Debug, PartialEq, Eq, Structural)]
pub enum History {
    /// Only the current record of each key.
    Latest,
    /// Every applied write and delete of each key.
    All,
}

/// The guarantees a volume declares, fixed for its lifetime.
#[derive(Clone, Copy, Debug, PartialEq, Eq, Structural)]
pub struct Capability {
    pub persistence: Persistence,
    pub history: History,
}

} // verus!
