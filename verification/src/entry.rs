use vstd::prelude::*;

verus! {

/// The kind of a filesystem entry, as observed when the entry was discovered.
#[derive(Clone, Copy, PartialEq, Eq, Structural, Debug, PartialOrd, Ord)]
pub enum Kind {
    File,
    Dir,
    Other,
}

/// One filesystem object discovered during traversal: its path and its kind.
#[derive(Debug, PartialEq, Eq)]
pub struct Entry {
    pub path: String,
    pub kind: Kind,
}

impl Entry {
    /// The mathematical content of an entry: its path as a character
    /// sequence, together with its kind.
    pub open spec fn rep(self) -> (Seq<char>, Kind) {
        (self.path@, self.kind)
    }
}

impl Clone for Entry {
    fn clone(&self) -> (r: Self)
        ensures
            r == *self,
    {
        Entry { path: self.path.clone(), kind: self.kind }
    }
}

/// The representations of a sequence of entries, in order.
pub open spec fn reps_of(entries: Seq<Entry>) -> Seq<(Seq<char>, Kind)> {
    entries.map_values(|e: Entry| e.rep())
}

} // verus!
