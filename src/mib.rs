use vstd::prelude::*;

use crate::entry::{Entry, EntryType};
use crate::error::MibError;
use crate::kind::{kind_of, lookup_kind, Kind};
use crate::names::{name_of, prefix, relative_of, to_name, ROOT_PATH};
use crate::walker::{listing_view, MibIter};

verus! {

/// Whether `p` addresses a position strictly below the root.
pub open spec fn valid_path(p: Seq<char>) -> bool {
    match relative_of(p) {
        Some(rel) => rel.len() > 0,
        None => false,
    }
}

/// Kind and format of the value under a name.
#[derive(Debug)]
pub struct Metadata {
    pub kind: Kind,
    pub indication: &'static str,
}

/// Handle to one position of the store, addressed by its absolute path.
#[derive(Debug, Clone)]
pub struct Mib {
    path: String,
}

impl View for Mib {
    type V = Seq<char>;

    closed spec fn view(&self) -> Seq<char> {
        self.path@
    }
}

impl Default for Mib {
    /// The handle of the `kernel` container.
    fn default() -> (r: Mib)
        ensures
            r@ == ROOT_PATH@,
            valid_path(r@),
    {
        proof {
            reveal_strlit("/proc/sys/kernel");
            let p = ROOT_PATH@;
            assert(p.subrange(0, 9) =~= prefix());
            assert(p != prefix());
            assert(p.skip(10) =~= seq!['k', 'e', 'r', 'n', 'e', 'l']);
        }
        Mib { path: ROOT_PATH.to_owned() }
    }
}

impl Mib {
    /// A handle for an already canonical absolute path. Fails with
    /// `NotFound` unless the path lies strictly below the root.
    pub fn from_canonical(path: String) -> (r: Result<Mib, MibError>)
        ensures
            valid_path(path@) ==> r.is_ok() && r.unwrap()@ == path@,
            !valid_path(path@) ==> r == Err::<Mib, MibError>(MibError::NotFound),
    {
        match to_name(path.as_str()) {
            Ok(n) => {
                if n.as_str().unicode_len() > 0 {
                    Ok(Mib { path })
                } else {
                    Err(MibError::NotFound)
                }
            },
            Err(e) => Err(e),
        }
    }

    /// The absolute path of the position.
    pub fn path(&self) -> (r: &str)
        ensures
            r@ == self@,
    {
        self.path.as_str()
    }

    /// The dotted name of the position.
    pub fn name(&self) -> (r: Result<String, MibError>)
        ensures
            match name_of(self@) {
                Some(n) => r.is_ok() && r.unwrap()@ == n,
                None => r == Err::<String, MibError>(MibError::NotFound),
            },
    {
        to_name(self.path.as_str())
    }

    /// The kind of the value under this name, from the table of known names.
    pub fn metadata(&self) -> (r: Result<Metadata, MibError>)
        ensures
            match name_of(self@) {
                Some(n) => r.is_ok() && r.unwrap().kind == kind_of(n)
                    && r.unwrap().indication@ == Seq::<char>::empty(),
                None => r.is_err() && r.unwrap_err() == MibError::NotFound,
            },
    {
        match to_name(self.path.as_str()) {
            Ok(n) => {
                proof {
                    reveal_strlit("");
                }
                Ok(Metadata { kind: lookup_kind(n.as_str()), indication: "" })
            },
            Err(e) => Err(e),
        }
    }

    /// The kind of the value under this name; `Unknow` when the name is not
    /// in the table or cannot be derived.
    pub fn kind(&self) -> (k: Kind)
        ensures
            match name_of(self@) {
                Some(n) => k == kind_of(n),
                None => k == Kind::Unknow,
            },
    {
        match to_name(self.path.as_str()) {
            Ok(n) => lookup_kind(n.as_str()),
            Err(_) => Kind::Unknow,
        }
    }

    /// Descriptions are not available on this store: always an `Other` error.
    pub fn description(&self) -> (r: Result<String, MibError>)
        ensures
            r == Err::<String, MibError>(MibError::Other),
    {
        Err(MibError::Other)
    }

    /// Whether the value of this position may be read or written, given the
    /// type of its entry: only a leaf holds a value.
    pub fn value_access(&self, t: EntryType) -> (r: Result<(), MibError>)
        ensures
            t == EntryType::Leaf ==> r == Ok::<(), MibError>(()),
            t == EntryType::Container ==> r == Err::<(), MibError>(MibError::InvalidOperation),
            t == EntryType::Unsupported ==> r == Err::<(), MibError>(MibError::Unsupported),
    {
        match t {
            EntryType::Leaf => Ok(()),
            EntryType::Container => Err(MibError::InvalidOperation),
            EntryType::Unsupported => Err(MibError::Unsupported),
        }
    }

    /// An enumerator over the store, opened on the root listing `root` and
    /// seeded at this position: `seek_step` leads it here, then `next_step`
    /// goes on from here.
    pub fn iter(&self, root: Vec<Entry>) -> (r: MibIter)
        ensures
            r.wf(),
            r.frontier() == seq![listing_view(root@)],
            r.target() == self@,
    {
        MibIter::new(root, self.path.as_str())
    }
}

} // verus!
