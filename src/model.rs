use vstd::prelude::*;

use crate::entry::EntryType;
use crate::walker::{pulled, seek_of, step_of, trimmed, SeekView, StepView};

verus! {

/// A store subtree: a leaf, or a container with its children in listing order.
pub ghost enum Tree {
    Leaf(Seq<char>),
    Dir(Seq<char>, Seq<Tree>),
}

/// The listing entry of a subtree's root.
pub open spec fn entry_of(t: Tree) -> (Seq<char>, EntryType) {
    match t {
        Tree::Leaf(p) => (p, EntryType::Leaf),
        Tree::Dir(p, _) => (p, EntryType::Container),
    }
}

/// The listing of a container with children `ts`.
pub open spec fn listing_of(ts: Seq<Tree>) -> Seq<(Seq<char>, EntryType)> {
    ts.map_values(|t: Tree| entry_of(t))
}

/// The walker frontier that lists the subtrees of `f`, level by level.
pub open spec fn frontier_of(f: Seq<Seq<Tree>>) -> Seq<Seq<(Seq<char>, EntryType)>> {
    f.map_values(|ts: Seq<Tree>| listing_of(ts))
}

/// The leaf paths of the subtrees `ts`, by a recursive pre-order traversal.
pub open spec fn leaves(ts: Seq<Tree>) -> Seq<Seq<char>>
    decreases ts,
{
    if ts.len() == 0 {
        Seq::empty()
    } else {
        match ts[0] {
            Tree::Leaf(p) => seq![p] + leaves(ts.drop_first()),
            Tree::Dir(_, cs) => leaves(cs) + leaves(ts.drop_first()),
        }
    }
}

/// The leaves still owed by a frontier of subtrees: those of the top level
/// first, then those of the levels below.
pub open spec fn pending(f: Seq<Seq<Tree>>) -> Seq<Seq<char>>
    decreases f.len(),
{
    if f.len() == 0 {
        Seq::empty()
    } else {
        leaves(f.last()) + pending(f.drop_last())
    }
}

proof fn lemma_trimmed_listing(f: Seq<Seq<Tree>>)
    ensures
        frontier_of(trimmed(f)) == trimmed(frontier_of(f)),
        pending(trimmed(f)) == pending(f),
        trimmed(f).len() > 0 ==> trimmed(f).last().len() > 0,
    decreases f.len(),
{
    if f.len() > 0 && f.last().len() == 0 {
        assert(frontier_of(f.drop_last()) =~= frontier_of(f).drop_last());
        lemma_trimmed_listing(f.drop_last());
        assert(leaves(f.last()) =~= Seq::<Seq<char>>::empty());
        assert(pending(f) =~= pending(f.drop_last()));
    }
}

/// The enumeration of a walker seeded at the root is the pre-order traversal
/// of the root's children.
pub proof fn lemma_root_pending(ts: Seq<Tree>)
    ensures
        pending(seq![ts]) == leaves(ts),
{
    assert(seq![ts].drop_last() =~= Seq::<Seq<Tree>>::empty());
    assert(pending(Seq::<Seq<Tree>>::empty()) == Seq::<Seq<char>>::empty());
    assert(seq![ts].last() == ts);
    assert(leaves(ts) + Seq::<Seq<char>>::empty() =~= leaves(ts));
}

/// Full enumeration equivalence, one step at a time: on a frontier that lists
/// the subtrees `f`, an enumeration step consumes the entry of the next
/// subtree in pre-order, yields a leaf exactly when the traversal owes that
/// leaf next, and leaves a frontier (after the entered container's listing is
/// opened) that owes the rest of the traversal. When the step reports
/// exhaustion, nothing was owed.
pub proof fn lemma_step_follows_preorder(f: Seq<Seq<Tree>>)
    ensures
        pulled(frontier_of(f)).0 == frontier_of(pulled(f).0),
        match pulled(f).1 {
            None => step_of(pulled(frontier_of(f)).1) == StepView::Exhausted && pending(f)
                == Seq::<Seq<char>>::empty(),
            Some(Tree::Leaf(p)) => step_of(pulled(frontier_of(f)).1) == StepView::Yield(p)
                && pending(f) == seq![p] + pending(pulled(f).0),
            Some(Tree::Dir(p, cs)) => step_of(pulled(frontier_of(f)).1) == StepView::Open(p)
                && frontier_of(pulled(f).0.push(cs)) == pulled(frontier_of(f)).0.push(
                listing_of(cs),
            ) && pending(f) == pending(pulled(f).0.push(cs)),
        },
{
    lemma_trimmed_listing(f);
    let t = trimmed(f);
    let g = pulled(f).0;
    if t.len() > 0 {
        let top = t.last();
        let rest = top.drop_first();
        assert(frontier_of(t).last() == listing_of(top));
        assert(listing_of(top).drop_first() =~= listing_of(rest));
        assert(frontier_of(g) =~= frontier_of(t).update(t.len() - 1, listing_of(top).drop_first()));
        assert(g.drop_last() =~= t.drop_last());
        assert(pending(t) == leaves(top) + pending(t.drop_last()));
        assert(pending(g) == leaves(rest) + pending(t.drop_last()));
        match top[0] {
            Tree::Leaf(p) => {
                assert(leaves(top) == seq![p] + leaves(rest));
                assert(pending(t) =~= seq![p] + pending(g));
            },
            Tree::Dir(p, cs) => {
                assert(leaves(top) == leaves(cs) + leaves(rest));
                assert(frontier_of(g.push(cs)) =~= frontier_of(g).push(listing_of(cs)));
                assert(g.push(cs).drop_last() =~= g);
                assert(pending(g.push(cs)) == leaves(cs) + pending(g));
                assert(pending(t) =~= leaves(cs) + pending(g));
            },
        }
    }
}

/// Seek correctness, one step at a time: on a frontier that lists the
/// subtrees `f`, a seek step towards `target` passes over exactly the leaf
/// that the traversal owes next; when it finds the target leaf, what is left
/// owed is the traversal after that leaf; when it finds the target container,
/// what is left owed (once its listing is opened) starts with the leaves of
/// that container's subtree.
pub proof fn lemma_seek_follows_preorder(f: Seq<Seq<Tree>>, target: Seq<char>)
    ensures
        pulled(frontier_of(f)).0 == frontier_of(pulled(f).0),
        match pulled(f).1 {
            None => seek_of(pulled(frontier_of(f)).1, target) == SeekView::NotFound && pending(f)
                == Seq::<Seq<char>>::empty(),
            Some(Tree::Leaf(p)) => pending(f) == seq![p] + pending(pulled(f).0) && (p == target
                ==> seek_of(pulled(frontier_of(f)).1, target) == SeekView::Found) && (p != target
                ==> seek_of(pulled(frontier_of(f)).1, target) == SeekView::Skipped),
            Some(Tree::Dir(p, cs)) => frontier_of(pulled(f).0.push(cs)) == pulled(
                frontier_of(f),
            ).0.push(listing_of(cs)) && pending(f) == pending(pulled(f).0.push(cs)) && (p
                == target ==> seek_of(pulled(frontier_of(f)).1, target) == SeekView::OpenTarget(p)
                && pending(pulled(f).0.push(cs)) == leaves(cs) + pending(pulled(f).0)) && (p
                != target ==> seek_of(pulled(frontier_of(f)).1, target) == SeekView::Open(p)),
        },
{
    lemma_step_follows_preorder(f);
    match pulled(f).1 {
        Some(Tree::Dir(p, cs)) => {
            let g = pulled(f).0;
            assert(g.push(cs).drop_last() =~= g);
        },
        _ => {},
    }
}

/// The number of positions in the subtrees `ts`.
pub open spec fn count(ts: Seq<Tree>) -> nat
    decreases ts,
{
    if ts.len() == 0 {
        0
    } else {
        match ts[0] {
            Tree::Leaf(_) => 1 + count(ts.drop_first()),
            Tree::Dir(_, cs) => 1 + count(cs) + count(ts.drop_first()),
        }
    }
}

/// The number of positions still to be consumed from a frontier.
pub open spec fn frontier_count(f: Seq<Seq<Tree>>) -> nat
    decreases f.len(),
{
    if f.len() == 0 {
        0
    } else {
        count(f.last()) + frontier_count(f.drop_last())
    }
}

proof fn lemma_trimmed_count(f: Seq<Seq<Tree>>)
    ensures
        frontier_count(trimmed(f)) == frontier_count(f),
    decreases f.len(),
{
    if f.len() > 0 && f.last().len() == 0 {
        lemma_trimmed_count(f.drop_last());
    }
}

proof fn lemma_pulled_count(f: Seq<Seq<Tree>>)
    ensures
        match pulled(f).1 {
            None => true,
            Some(Tree::Leaf(_)) => frontier_count(pulled(f).0) < frontier_count(f),
            Some(Tree::Dir(_, cs)) => frontier_count(pulled(f).0.push(cs)) < frontier_count(f),
        },
{
    lemma_trimmed_count(f);
    lemma_trimmed_listing(f);
    let t = trimmed(f);
    if t.len() > 0 {
        let g = pulled(f).0;
        let top = t.last();
        assert(g.drop_last() =~= t.drop_last());
        assert(frontier_count(t) == count(top) + frontier_count(t.drop_last()));
        assert(frontier_count(g) == count(top.drop_first()) + frontier_count(t.drop_last()));
        match top[0] {
            Tree::Dir(_, cs) => {
                assert(count(top) == 1 + count(cs) + count(top.drop_first()));
                assert(g.push(cs).drop_last() =~= g);
                assert(frontier_count(g.push(cs)) == count(cs) + frontier_count(g));
            },
            Tree::Leaf(_) => {
                assert(count(top) == 1 + count(top.drop_first()));
            },
        }
    }
}

#[via_fn]
proof fn walk_decreases(f: Seq<Seq<Tree>>) {
    lemma_pulled_count(f);
}

/// The leaves that a walker on the frontier `f` yields when it is stepped to
/// exhaustion, the listing of each container it enters being handed back to
/// it at once.
pub open spec fn walk(f: Seq<Seq<Tree>>) -> Seq<Seq<char>>
    decreases frontier_count(f),
    via walk_decreases
{
    match pulled(f).1 {
        None => Seq::empty(),
        Some(Tree::Leaf(p)) => seq![p] + walk(pulled(f).0),
        Some(Tree::Dir(_, cs)) => walk(pulled(f).0.push(cs)),
    }
}

/// Full enumeration equivalence: stepping a walker on the frontier `f` to
/// exhaustion yields exactly the leaves that `f` owes, in pre-order; seeded
/// at the root, that is the recursive pre-order traversal of the store.
pub proof fn lemma_walk_is_preorder(f: Seq<Seq<Tree>>)
    ensures
        walk(f) == pending(f),
        f.len() == 1 ==> walk(f) == leaves(f[0]),
    decreases frontier_count(f),
{
    lemma_step_follows_preorder(f);
    lemma_pulled_count(f);
    match pulled(f).1 {
        None => {},
        Some(Tree::Leaf(p)) => {
            lemma_walk_is_preorder(pulled(f).0);
        },
        Some(Tree::Dir(_, cs)) => {
            lemma_walk_is_preorder(pulled(f).0.push(cs));
        },
    }
    if f.len() == 1 {
        assert(f =~= seq![f[0]]);
        lemma_root_pending(f[0]);
    }
}

/// Where a seek stops.
pub ghost enum SeekStop {
    /// Every listing was consumed without meeting the target.
    Absent,
    /// The target leaf was consumed.
    AtLeaf,
    /// The target container, with these children, was entered.
    AtContainer(Seq<Tree>),
}

#[via_fn]
proof fn seek_run_decreases(f: Seq<Seq<Tree>>, target: Seq<char>) {
    lemma_pulled_count(f);
}

/// A seek towards `target` on the frontier `f`, stepped until it stops, the
/// listing of each container it enters being handed back to it at once: the
/// leaves it consumed, the frontier it leaves, and where it stopped.
pub open spec fn seek_run(f: Seq<Seq<Tree>>, target: Seq<char>) -> (
    Seq<Seq<char>>,
    Seq<Seq<Tree>>,
    SeekStop,
)
    decreases frontier_count(f),
    via seek_run_decreases
{
    match pulled(f).1 {
        None => (Seq::empty(), pulled(f).0, SeekStop::Absent),
        Some(Tree::Leaf(p)) => if p == target {
            (seq![p], pulled(f).0, SeekStop::AtLeaf)
        } else {
            let r = seek_run(pulled(f).0, target);
            (seq![p] + r.0, r.1, r.2)
        },
        Some(Tree::Dir(p, cs)) => if p == target {
            (Seq::empty(), pulled(f).0.push(cs), SeekStop::AtContainer(cs))
        } else {
            seek_run(pulled(f).0.push(cs), target)
        },
    }
}

/// Seek correctness: the leaves that a seek towards `target` consumes,
/// followed by what the walker then yields, are exactly the enumeration of
/// the frontier it started from. A seek that stops at a leaf consumed that
/// leaf last, so the walker resumes right after it; one that stops at a
/// container resumes with the leaves of that container's subtree; one that
/// finds nothing leaves nothing to yield.
pub proof fn lemma_seek_then_walk(f: Seq<Seq<Tree>>, target: Seq<char>)
    ensures
        pending(f) == seek_run(f, target).0 + walk(seek_run(f, target).1),
        seek_run(f, target).2 == SeekStop::AtLeaf ==> seek_run(f, target).0.len() > 0
            && seek_run(f, target).0.last() == target,
        match seek_run(f, target).2 {
            SeekStop::AtContainer(cs) => walk(seek_run(f, target).1) == leaves(cs) + walk(
                seek_run(f, target).1.drop_last(),
            ),
            SeekStop::Absent => walk(seek_run(f, target).1) == Seq::<Seq<char>>::empty(),
            SeekStop::AtLeaf => true,
        },
    decreases frontier_count(f),
{
    lemma_seek_follows_preorder(f, target);
    lemma_pulled_count(f);
    let g = pulled(f).0;
    let r = seek_run(f, target);
    lemma_walk_is_preorder(r.1);
    match pulled(f).1 {
        None => {
            assert(g == Seq::<Seq<Tree>>::empty());
            assert(pending(f) =~= r.0 + walk(r.1));
        },
        Some(Tree::Leaf(p)) => {
            if p == target {
                assert(pending(f) =~= r.0 + walk(r.1));
            } else {
                lemma_seek_then_walk(g, target);
                assert(pending(f) =~= r.0 + walk(r.1));
            }
        },
        Some(Tree::Dir(p, cs)) => {
            if p == target {
                assert(r.1.drop_last() =~= g);
                lemma_walk_is_preorder(g);
                assert(pending(f) =~= r.0 + walk(r.1));
            } else {
                lemma_seek_then_walk(g.push(cs), target);
            }
        },
    }
}

/// Whether no container among the subtrees `ts` has the path `p`.
pub open spec fn no_container_at(ts: Seq<Tree>, p: Seq<char>) -> bool
    decreases ts,
{
    ts.len() == 0 || (match ts[0] {
        Tree::Leaf(_) => true,
        Tree::Dir(q, cs) => q != p && no_container_at(cs, p),
    } && no_container_at(ts.drop_first(), p))
}

proof fn lemma_trimmed_prefix<A>(f: Seq<Seq<A>>)
    ensures
        trimmed(f).len() <= f.len(),
        trimmed(f) == f.subrange(0, trimmed(f).len() as int),
    decreases f.len(),
{
    if f.len() > 0 && f.last().len() == 0 {
        lemma_trimmed_prefix(f.drop_last());
        assert(trimmed(f) =~= f.subrange(0, trimmed(f).len() as int));
    } else {
        assert(f =~= f.subrange(0, f.len() as int));
    }
}

/// Seeking never stops at a container, nor consumes a leaf, with the target
/// path before its end: the leaves consumed before the last are other paths,
/// and the last is the target only for a seek that stopped at it.
proof fn lemma_seek_consumed(f: Seq<Seq<Tree>>, target: Seq<char>)
    ensures
        forall|k: int|
            0 <= k < seek_run(f, target).0.len() && (seek_run(f, target).2 != SeekStop::AtLeaf || k
                < seek_run(f, target).0.len() - 1) ==> seek_run(f, target).0[k] != target,
        (forall|l: int| 0 <= l < f.len() ==> no_container_at(#[trigger] f[l], target))
            ==> !(seek_run(f, target).2 is AtContainer),
    decreases frontier_count(f),
{
    lemma_pulled_count(f);
    lemma_trimmed_prefix(f);
    lemma_trimmed_listing(f);
    let t = trimmed(f);
    let g = pulled(f).0;
    let r = seek_run(f, target);
    if t.len() > 0 {
        let top = t.last();
        let good = forall|l: int| 0 <= l < f.len() ==> no_container_at(#[trigger] f[l], target);
        if good {
            assert(top == f[t.len() - 1]);
            assert(no_container_at(top, target));
        }
        match top[0] {
            Tree::Leaf(p) => {
                if p != target {
                    lemma_seek_consumed(g, target);
                    let r2 = seek_run(g, target);
                    assert(r.0 == seq![p] + r2.0);
                    assert forall|k: int|
                        0 <= k < r.0.len() && (r.2 != SeekStop::AtLeaf || k < r.0.len() - 1)
                        implies r.0[k] != target by {
                        if k > 0 {
                            assert(r.0[k] == r2.0[k - 1]);
                        }
                    }
                    if good {
                        assert forall|l: int| 0 <= l < g.len() implies no_container_at(
                            #[trigger] g[l],
                            target,
                        ) by {
                            if l < g.len() - 1 {
                                assert(g[l] == f[l]);
                            }
                        }
                    }
                }
            },
            Tree::Dir(p, cs) => {
                if p != target {
                    let h = g.push(cs);
                    lemma_seek_consumed(h, target);
                    if good {
                        assert forall|l: int| 0 <= l < h.len() implies no_container_at(
                            #[trigger] h[l],
                            target,
                        ) by {
                            if l < g.len() - 1 {
                                assert(h[l] == f[l]);
                            }
                        }
                    }
                }
            },
        }
    }
}

/// Seek correctness against the root enumeration `L = leaves(ts)`, when
/// leaf paths are unique: a seek from the root towards the leaf `L[i]`, where
/// no container has that path, stops at that leaf, and the walker then
/// yields exactly `L[i + 1..]`. Whatever the target, the walker yields the
/// suffix of `L` after the leaves the seek consumed; after stopping at a
/// container, that suffix starts with the leaves of its subtree.
pub proof fn lemma_seek_suffix(ts: Seq<Tree>, target: Seq<char>, i: int)
    requires
        leaves(ts).no_duplicates(),
    ensures
        walk(seek_run(seq![ts], target).1) == leaves(ts).subrange(
            seek_run(seq![ts], target).0.len() as int,
            leaves(ts).len() as int,
        ),
        match seek_run(seq![ts], target).2 {
            SeekStop::AtContainer(cs) => walk(seek_run(seq![ts], target).1) == leaves(cs) + walk(
                seek_run(seq![ts], target).1.drop_last(),
            ),
            _ => true,
        },
        0 <= i < leaves(ts).len() && leaves(ts)[i] == target && no_container_at(ts, target)
            ==> seek_run(seq![ts], target).2 == SeekStop::AtLeaf && walk(
            seek_run(seq![ts], target).1,
        ) == leaves(ts).subrange(i + 1, leaves(ts).len() as int),
{
    let f = seq![ts];
    let l = leaves(ts);
    let r = seek_run(f, target);
    lemma_root_pending(ts);
    lemma_seek_then_walk(f, target);
    lemma_seek_consumed(f, target);
    assert(l == r.0 + walk(r.1));
    assert(walk(r.1) =~= l.subrange(r.0.len() as int, l.len() as int));
    if 0 <= i < l.len() && l[i] == target && no_container_at(ts, target) {
        assert forall|k: int| 0 <= k < f.len() implies no_container_at(#[trigger] f[k], target) by {
            assert(f[k] == ts);
        }
        if r.2 == SeekStop::Absent {
            assert(l.len() == r.0.len());
            assert(l[i] == r.0[i]);
        } else {
            let k = r.0.len() - 1;
            assert(l[k] == r.0[k]);
            if i < k {
                assert(l[i] == r.0[i]);
            }
            assert(i == k);
        }
    }
}

/// Exhaustion is final: once a step on the frontier `f` has reported
/// exhaustion, the frontier is empty and every later step reports exhaustion
/// again and leaves it empty.
pub proof fn lemma_exhaustion_idempotent(f: Seq<Seq<(Seq<char>, EntryType)>>)
    requires
        step_of(pulled(f).1) == StepView::Exhausted,
    ensures
        pulled(f).0 == Seq::<Seq<(Seq<char>, EntryType)>>::empty(),
        step_of(pulled(pulled(f).0).1) == StepView::Exhausted,
        pulled(pulled(f).0).0 == Seq::<Seq<(Seq<char>, EntryType)>>::empty(),
{
    assert(pulled(f).1 is None);
}

} // verus!
