use vstd::prelude::*;

use crate::error::MibError;

verus! {

/// Largest number of components in a name.
pub const CTL_MAXNAME: usize = 10;

/// General kernel info and control.
pub const CTL_KERN: i32 = 1;
/// Virtual memory management.
pub const CTL_VM: i32 = 2;
/// Networking.
pub const CTL_NET: i32 = 3;
/// Process info.
pub const CTL_PROC: i32 = 4;
/// Filesystems.
pub const CTL_FS: i32 = 5;
/// Debugging.
pub const CTL_DEBUG: i32 = 6;
/// Devices.
pub const CTL_DEV: i32 = 7;
/// Busses.
pub const CTL_BUS: i32 = 8;
/// Binary emulation.
pub const CTL_ABI: i32 = 9;
/// CPU (speed scaling and the like).
pub const CTL_CPU: i32 = 10;
/// Arlan wireless driver.
pub const CTL_ARLAN: i32 = 254;
/// s390 debug.
pub const CTL_S390DBF: i32 = 5677;
/// Sunrpc debug.
pub const CTL_SUNRPC: i32 = 7249;
/// Frv power management.
pub const CTL_PM: i32 = 9899;
/// Frv specific settings.
pub const CTL_FRV: i32 = 9898;

/// Absolute path of the root of the store.
pub const PATH_PREFIX: &'static str = "/proc/sys";

/// Absolute path of the position that a default handle addresses.
pub const ROOT_PATH: &'static str = "/proc/sys/kernel";

pub open spec fn prefix() -> Seq<char> {
    seq!['/', 'p', 'r', 'o', 'c', '/', 's', 'y', 's']
}

pub proof fn lemma_prefix_literal()
    ensures
        PATH_PREFIX@ == prefix(),
{
    reveal_strlit("/proc/sys");
    assert(PATH_PREFIX@ =~= prefix());
}

/// Path separators turned into dots.
pub open spec fn dotted(s: Seq<char>) -> Seq<char> {
    s.map_values(|c: char| if c == '/' { '.' } else { c })
}

/// Dots turned into path separators.
pub open spec fn slashed(s: Seq<char>) -> Seq<char> {
    s.map_values(|c: char| if c == '.' { '/' } else { c })
}

pub open spec fn starts_with(s: Seq<char>, pre: Seq<char>) -> bool {
    pre.len() <= s.len() && s.subrange(0, pre.len() as int) == pre
}

/// The part of `p` below the root: empty for the root itself, `None` for a
/// path outside it.
pub open spec fn relative_of(p: Seq<char>) -> Option<Seq<char>> {
    if p == prefix() {
        Some(Seq::empty())
    } else if starts_with(p, prefix()) && p.len() > prefix().len() && p[prefix().len() as int]
        == '/' {
        Some(p.skip(prefix().len() as int + 1))
    } else {
        None
    }
}

/// The dotted name of the path `p`, when `p` lies under the root.
pub open spec fn name_of(p: Seq<char>) -> Option<Seq<char>> {
    match relative_of(p) {
        Some(rel) => Some(dotted(rel)),
        None => None,
    }
}

/// The path that a name designates before canonicalisation; `None` for the
/// root path itself.
pub open spec fn candidate_of(s: Seq<char>) -> Option<Seq<char>> {
    if s == prefix() {
        None
    } else if starts_with(s, prefix()) {
        Some(s)
    } else if slashed(s).len() > 0 && slashed(s)[0] == '/' {
        Some(slashed(s))
    } else {
        Some(prefix() + seq!['/'] + slashed(s))
    }
}

/// Relies on String::push: appends the character to the end of the string.
#[verifier::external_body]
pub(crate) fn push_char(s: &mut String, c: char)
    ensures
        final(s)@ == old(s)@.push(c),
{
    s.push(c)
}

/// Whether `s` begins with the characters of `pre`.
pub fn has_prefix(s: &str, pre: &str) -> (r: bool)
    ensures
        r == starts_with(s@, pre@),
{
    let n = s.unicode_len();
    let m = pre.unicode_len();
    if m > n {
        return false;
    }
    let mut i: usize = 0;
    while i < m
        invariant
            n == s@.len(),
            m == pre@.len(),
            m <= n,
            i <= m,
            s@.subrange(0, i as int) == pre@.subrange(0, i as int),
        decreases m - i,
    {
        if s.get_char(i) != pre.get_char(i) {
            assert(s@.subrange(0, m as int)[i as int] != pre@[i as int]);
            return false;
        }
        assert(s@.subrange(0, i + 1) == s@.subrange(0, i as int).push(s@[i as int]));
        assert(pre@.subrange(0, i + 1) == pre@.subrange(0, i as int).push(pre@[i as int]));
        i = i + 1;
    }
    assert(pre@ == pre@.subrange(0, m as int));
    true
}

/// Appends the characters `s[from..]` to `out`, each mapped by the dotted
/// (`to_dots`) or the slashed rewriting.
fn append_mapped(out: &mut String, s: &str, from: usize, to_dots: bool)
    requires
        from <= s@.len(),
    ensures
        final(out)@ == old(out)@ + (if to_dots {
            dotted(s@.skip(from as int))
        } else {
            slashed(s@.skip(from as int))
        }),
{
    let n = s.unicode_len();
    let ghost tail = s@.skip(from as int);
    let ghost mapped = if to_dots { dotted(tail) } else { slashed(tail) };
    let ghost start = out@;
    let mut i: usize = from;
    while i < n
        invariant
            n == s@.len(),
            from <= i <= n,
            tail == s@.skip(from as int),
            mapped == (if to_dots { dotted(tail) } else { slashed(tail) }),
            out@ == start + mapped.subrange(0, i - from),
        decreases n - i,
    {
        let c = s.get_char(i);
        let d = if to_dots && c == '/' {
            '.'
        } else if !to_dots && c == '.' {
            '/'
        } else {
            c
        };
        assert(mapped[i - from] == d);
        push_char(out, d);
        assert(mapped.subrange(0, i + 1 - from) == mapped.subrange(0, i - from).push(d));
        i = i + 1;
    }
    assert(mapped.subrange(0, n - from) == mapped);
}

/// The dotted name of an absolute path: the root prefix stripped, separators
/// turned into dots. Fails with `NotFound` for a path outside the root.
pub fn to_name(path: &str) -> (r: Result<String, MibError>)
    ensures
        match name_of(path@) {
            Some(n) => r.is_ok() && r.unwrap()@ == n,
            None => r == Err::<String, MibError>(MibError::NotFound),
        },
{
    proof {
        lemma_prefix_literal();
    }
    let n = path.unicode_len();
    let plen = PATH_PREFIX.unicode_len();
    if !has_prefix(path, PATH_PREFIX) {
        assert(path@.subrange(0, path@.len() as int) =~= path@);
        return Err(MibError::NotFound);
    }
    let mut out = String::new();
    if n == plen {
        assert(path@ == path@.subrange(0, plen as int));
        return Ok(out);
    }
    if path.get_char(plen) != '/' {
        return Err(MibError::NotFound);
    }
    append_mapped(&mut out, path, plen + 1, true);
    assert(out@ =~= dotted(path@.skip(plen + 1)));
    Ok(out)
}

/// The path that the name `s` designates, before canonicalisation: a path
/// under the root is taken as it is, a dotted name is joined to the root.
/// Fails with `NotFound` when `s` is the root path itself.
pub fn to_candidate(s: &str) -> (r: Result<String, MibError>)
    ensures
        match candidate_of(s@) {
            Some(p) => r.is_ok() && r.unwrap()@ == p,
            None => r == Err::<String, MibError>(MibError::NotFound),
        },
{
    proof {
        lemma_prefix_literal();
    }
    if crate::kind::str_eq(s, PATH_PREFIX) {
        return Err(MibError::NotFound);
    }
    if has_prefix(s, PATH_PREFIX) {
        return Ok(s.to_owned());
    }
    let mut rel = String::new();
    append_mapped(&mut rel, s, 0, false);
    assert(s@.skip(0) == s@);
    assert(rel@ =~= slashed(s@));
    let rn = rel.as_str().unicode_len();
    if rn > 0 && rel.as_str().get_char(0) == '/' {
        return Ok(rel);
    }
    let mut out = String::new();
    append_mapped(&mut out, PATH_PREFIX, 0, false);
    proof {
        assert(PATH_PREFIX@.skip(0) == prefix());
        assert(slashed(prefix()) =~= prefix());
    }
    push_char(&mut out, '/');
    append_mapped(&mut out, rel.as_str(), 0, false);
    proof {
        assert(rel@.skip(0) == rel@);
        assert(slashed(rel@) =~= rel@);
        assert(out@ =~= prefix() + seq!['/'] + slashed(s@));
    }
    Ok(out)
}

/// Round trip: a dotted name `n` (not empty, with no separator and no
/// leading dot) is joined to the root, and when that path is already
/// canonical, the name of the path is `n` again.
pub proof fn lemma_name_round_trip(n: Seq<char>)
    requires
        n.len() > 0,
        n[0] != '.',
        forall|i: int| 0 <= i < n.len() ==> n[i] != '/',
    ensures
        candidate_of(n) == Some(prefix() + seq!['/'] + slashed(n)),
        name_of(prefix() + seq!['/'] + slashed(n)) == Some(n),
{
    if starts_with(n, prefix()) {
        assert(n.subrange(0, prefix().len() as int)[0] == n[0]);
    }
    assert(slashed(n)[0] == n[0]);
    let p = prefix() + seq!['/'] + slashed(n);
    assert(p.subrange(0, prefix().len() as int) =~= prefix());
    assert(p.len() > prefix().len());
    assert(p[prefix().len() as int] == '/');
    assert(p.skip(prefix().len() as int + 1) =~= slashed(n));
    assert(dotted(slashed(n)) =~= n);
}

} // verus!
