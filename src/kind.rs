use vstd::prelude::*;

verus! {

/// Kind of value stored under a name.
#[derive(Debug, Clone, Copy, PartialEq, Eq, Structural)]
pub enum Kind {
    Node,
    String,
    Struct,
    I8,
    I16,
    I32,
    I64,
    U8,
    U16,
    U32,
    U64,
    Unknow,
}

/// The value kind of the registered names; `Unknow` for every other name.
pub open spec fn kind_of(name: Seq<char>) -> Kind {
    if name == "kernel"@ {
        Kind::Node
    } else if name == "kernel.ostype"@ {
        Kind::I32
    } else if name == "kernel.version"@ {
        Kind::I32
    } else if name == "kernel.osrelease"@ {
        Kind::String
    } else {
        Kind::Unknow
    }
}

/// Whether two strings hold the same characters.
pub fn str_eq(a: &str, b: &str) -> (r: bool)
    ensures
        r == (a@ == b@),
{
    let n = a.unicode_len();
    let m = b.unicode_len();
    if n != m {
        return false;
    }
    let mut i: usize = 0;
    while i < n
        invariant
            n == a@.len(),
            m == b@.len(),
            n == m,
            i <= n,
            a@.subrange(0, i as int) == b@.subrange(0, i as int),
        decreases n - i,
    {
        if a.get_char(i) != b.get_char(i) {
            return false;
        }
        assert(a@.subrange(0, i + 1) == a@.subrange(0, i as int).push(a@[i as int]));
        assert(b@.subrange(0, i + 1) == b@.subrange(0, i as int).push(b@[i as int]));
        i = i + 1;
    }
    assert(a@ == a@.subrange(0, n as int));
    assert(b@ == b@.subrange(0, n as int));
    true
}

/// Looks a dotted name up in the table of known names.
pub fn lookup_kind(name: &str) -> (k: Kind)
    ensures
        k == kind_of(name@),
{
    proof {
        reveal_strlit("kernel");
        reveal_strlit("kernel.ostype");
        reveal_strlit("kernel.version");
        reveal_strlit("kernel.osrelease");
    }
    if str_eq(name, "kernel") {
        Kind::Node
    } else if str_eq(name, "kernel.ostype") {
        Kind::I32
    } else if str_eq(name, "kernel.version") {
        Kind::I32
    } else if str_eq(name, "kernel.osrelease") {
        Kind::String
    } else {
        Kind::Unknow
    }
}

} // verus!
