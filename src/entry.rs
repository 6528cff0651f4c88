use vstd::prelude::*;

verus! {

/// Type of a store entry.
#[derive(Debug, Clone, Copy, PartialEq, Eq, Structural)]
pub enum EntryType {
    /// An interior position with children and no payload.
    Container,
    /// A terminal position with a byte payload.
    Leaf,
    /// Any other entry type (a symbolic link, for one).
    Unsupported,
}

impl EntryType {
    pub fn is_container(&self) -> (r: bool)
        ensures
            r == (*self == EntryType::Container),
    {
        match self {
            EntryType::Container => true,
            _ => false,
        }
    }

    pub fn is_leaf(&self) -> (r: bool)
        ensures
            r == (*self == EntryType::Leaf),
    {
        match self {
            EntryType::Leaf => true,
            _ => false,
        }
    }
}

/// An entry classified as anything but unsupported is either a container or
/// a leaf, and never both.
pub proof fn lemma_classification_exclusive(t: EntryType)
    requires
        t != EntryType::Unsupported,
    ensures
        (t == EntryType::Container) != (t == EntryType::Leaf),
{
}

/// One entry of a container listing: its absolute path and type.
#[derive(Debug)]
pub struct Entry {
    pub path: String,
    pub kind: EntryType,
}

impl View for Entry {
    type V = (Seq<char>, EntryType);

    open spec fn view(&self) -> (Seq<char>, EntryType) {
        (self.path@, self.kind)
    }
}

impl Entry {
    pub fn new(path: String, kind: EntryType) -> (r: Entry)
        ensures
            r@ == (path@, kind),
    {
        Entry { path, kind }
    }

    pub fn duplicate(&self) -> (r: Entry)
        ensures
            r@ == self@,
    {
        Entry { path: self.path.clone(), kind: self.kind }
    }
}

} // verus!
