//! Record keys: hierarchical, slash-delimited identifiers, never empty.

use vstd::prelude::*;

verus! {

/// The identifier of one record within a namespace.
///
/// An operation that addresses a whole namespace carries no key at all, so a
/// `Key` is never empty.
#[derive(Debug)]
pub struct Key {
    name: String,
}

impl View for Key {
    type V = Seq<char>;

    closed spec fn view(&self) -> Seq<char> {
        self.name@
    }
}

impl Key {
    /// Holds of every key: its text is not empty.
    #[verifier::type_invariant]
    pub closed spec fn well_formed(self) -> bool {
        self.name@.len() > 0
    }

    /// A well-formed key has at least one character.
    pub proof fn lemma_not_empty(self)
        requires
            self.well_formed(),
        ensures
            self@.len() > 0,
    {
    }

    /// Makes a key of `name`, or nothing when `name` is empty.
    pub fn new(name: String) -> (key: Option<Key>)
        ensures
            key is None <==> name@.len() == 0,
            key matches Some(k) ==> k@ == name@,
    {
        if name.as_str().is_empty() {
            None
        } else {
            Some(Key { name })
        }
    }

    /// The text of the key.
    pub fn as_str(&self) -> (s: &str)
        ensures
            s@ == self@,
            s@.len() > 0,
    {
        proof {
            use_type_invariant(self);
        }
        self.name.as_str()
    }

    /// Whether two keys address the same record.
    pub fn same_as(&self, other: &Key) -> (b: bool)
        ensures
            b == (self@ == other@),
    {
        self.name == other.name
    }
}

impl Clone for Key {
    fn clone(&self) -> (key: Key)
        ensures
            key@ == self@,
    {
        proof {
            use_type_invariant(self);
        }
        Key { name: self.name.clone() }
    }
}

} // verus!
