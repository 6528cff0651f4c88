use vstd::prelude::*;

use crate::entry::{Entry, EntryType};

verus! {

/// The listing `s` as (path, type) pairs.
pub open spec fn listing_view(s: Seq<Entry>) -> Seq<(Seq<char>, EntryType)> {
    s.map_values(|e: Entry| e@)
}

/// The frontier `f` with its exhausted listings dropped from the top.
pub open spec fn trimmed<A>(f: Seq<Seq<A>>) -> Seq<Seq<A>>
    decreases f.len(),
{
    if f.len() == 0 {
        f
    } else if f.last().len() == 0 {
        trimmed(f.drop_last())
    } else {
        f
    }
}

/// Taking the next entry of a frontier: exhausted listings are popped, then
/// the first remaining entry of the top listing is consumed. `None` when every
/// listing is exhausted, and the frontier is then empty.
pub open spec fn pulled<A>(f: Seq<Seq<A>>) -> (Seq<Seq<A>>, Option<A>) {
    let t = trimmed(f);
    if t.len() == 0 {
        (t, None)
    } else {
        (t.update(t.len() - 1, t.last().drop_first()), Some(t.last()[0]))
    }
}

/// What one enumeration step asks of its driver, as values.
pub ghost enum StepView {
    Exhausted,
    Open(Seq<char>),
    Yield(Seq<char>),
    Fail(Seq<char>),
}

/// What one enumeration step asks of its driver.
#[derive(Debug)]
pub enum Step {
    /// Every listing is consumed; the enumeration is over.
    Exhausted,
    /// A container was entered: its listing must be handed to `enter`.
    Open(String),
    /// The next leaf of the enumeration.
    Yield(String),
    /// An entry of an unsupported type: the enumeration fails.
    Fail(String),
}

impl View for Step {
    type V = StepView;

    open spec fn view(&self) -> StepView {
        match self {
            Step::Exhausted => StepView::Exhausted,
            Step::Open(p) => StepView::Open(p@),
            Step::Yield(p) => StepView::Yield(p@),
            Step::Fail(p) => StepView::Fail(p@),
        }
    }
}

/// The enumeration step for the pulled entry `e`.
pub open spec fn step_of(e: Option<(Seq<char>, EntryType)>) -> StepView {
    match e {
        None => StepView::Exhausted,
        Some((p, EntryType::Container)) => StepView::Open(p),
        Some((p, EntryType::Leaf)) => StepView::Yield(p),
        Some((p, EntryType::Unsupported)) => StepView::Fail(p),
    }
}

/// What one seek step asks of its driver, as values.
pub ghost enum SeekView {
    NotFound,
    Skipped,
    Found,
    Open(Seq<char>),
    OpenTarget(Seq<char>),
    Fail(Seq<char>),
}

/// What one seek step asks of its driver.
#[derive(Debug)]
pub enum SeekStep {
    /// Every listing is consumed without meeting the target.
    NotFound,
    /// A leaf other than the target was passed over.
    Skipped,
    /// The target leaf was consumed: the seek is done.
    Found,
    /// A container other than the target: its listing must be handed to
    /// `enter`, and the seek goes on.
    Open(String),
    /// The target container: its listing must be handed to `enter`, and the
    /// seek is done.
    OpenTarget(String),
    /// An entry of an unsupported type: the seek fails.
    Fail(String),
}

impl View for SeekStep {
    type V = SeekView;

    open spec fn view(&self) -> SeekView {
        match self {
            SeekStep::NotFound => SeekView::NotFound,
            SeekStep::Skipped => SeekView::Skipped,
            SeekStep::Found => SeekView::Found,
            SeekStep::Open(p) => SeekView::Open(p@),
            SeekStep::OpenTarget(p) => SeekView::OpenTarget(p@),
            SeekStep::Fail(p) => SeekView::Fail(p@),
        }
    }
}

/// The seek step towards `target` for the pulled entry `e`.
pub open spec fn seek_of(e: Option<(Seq<char>, EntryType)>, target: Seq<char>) -> SeekView {
    match e {
        None => SeekView::NotFound,
        Some((p, EntryType::Container)) => if p == target {
            SeekView::OpenTarget(p)
        } else {
            SeekView::Open(p)
        },
        Some((p, EntryType::Leaf)) => if p == target {
            SeekView::Found
        } else {
            SeekView::Skipped
        },
        Some((p, EntryType::Unsupported)) => SeekView::Fail(p),
    }
}

/// A container listing and the position of its first unconsumed entry.
#[derive(Debug)]
struct Listing {
    entries: Vec<Entry>,
    pos: usize,
}

impl Listing {
    spec fn rest(&self) -> Seq<(Seq<char>, EntryType)> {
        listing_view(self.entries@).skip(self.pos as int)
    }
}

/// Depth-first enumerator of the leaves of the store, driven one step at a
/// time: the stack of still-open container listings, one per depth.
#[derive(Debug)]
pub struct MibIter {
    dirs: Vec<Listing>,
    target: String,
}

impl MibIter {
    pub closed spec fn wf(&self) -> bool {
        forall|i: int| 0 <= i < self.dirs@.len() ==> self.dirs@[i].pos <= self.dirs@[i].entries@.len()
    }

    /// The unconsumed entries of each open listing, the root's first.
    pub closed spec fn frontier(&self) -> Seq<Seq<(Seq<char>, EntryType)>> {
        Seq::new(self.dirs@.len(), |i: int| self.dirs@[i].rest())
    }

    /// The path of the position that the enumeration resumes after.
    pub closed spec fn target(&self) -> Seq<char> {
        self.target@
    }

    /// An enumerator whose only open listing is `root`, to be resumed after
    /// the position `target`.
    pub fn new(root: Vec<Entry>, target: &str) -> (r: MibIter)
        ensures
            r.wf(),
            r.frontier() == seq![listing_view(root@)],
            r.target() == target@,
    {
        let mut dirs: Vec<Listing> = Vec::new();
        dirs.push(Listing { entries: root, pos: 0 });
        let r = MibIter { dirs, target: target.to_owned() };
        assert(listing_view(root@).skip(0) =~= listing_view(root@));
        assert(r.frontier() =~= seq![listing_view(root@)]);
        r
    }

    /// Opens `listing` above the current ones: the listing of the container
    /// that the last step entered.
    pub fn enter(&mut self, listing: Vec<Entry>)
        requires
            old(self).wf(),
        ensures
            final(self).wf(),
            final(self).frontier() == old(self).frontier().push(listing_view(listing@)),
            final(self).target() == old(self).target(),
    {
        let ghost f0 = self.frontier();
        self.dirs.push(Listing { entries: listing, pos: 0 });
        assert(listing_view(listing@).skip(0) =~= listing_view(listing@));
        assert(self.frontier() =~= f0.push(listing_view(listing@)));
    }

    /// Whether no listing holds an unconsumed entry.
    pub fn is_exhausted(&self) -> (r: bool)
        requires
            self.wf(),
        ensures
            r == (trimmed(self.frontier()).len() == 0),
    {
        let mut i: usize = self.dirs.len();
        assert(self.frontier().subrange(0, i as int) =~= self.frontier());
        while i > 0
            invariant
                self.wf(),
                i <= self.dirs@.len(),
                trimmed(self.frontier()) == trimmed(self.frontier().subrange(0, i as int)),
            decreases i,
        {
            let l = &self.dirs[i - 1];
            if l.pos < l.entries.len() {
                proof {
                    let s = self.frontier().subrange(0, i as int);
                    assert(s.last().len() > 0);
                }
                return false;
            }
            proof {
                let s = self.frontier().subrange(0, i as int);
                assert(s.last().len() == 0);
                assert(s.drop_last() =~= self.frontier().subrange(0, i - 1));
            }
            i = i - 1;
        }
        assert(self.frontier().subrange(0, 0).len() == 0);
        true
    }

    /// Consumes the next entry in depth-first order, popping the exhausted
    /// listings on the way.
    fn pull(&mut self) -> (r: Option<Entry>)
        requires
            old(self).wf(),
        ensures
            final(self).wf(),
            final(self).frontier() == pulled(old(self).frontier()).0,
            final(self).target() == old(self).target(),
            match r {
                Some(e) => pulled(old(self).frontier()).1 == Some(e@),
                None => pulled(old(self).frontier()).1 is None,
            },
    {
        let ghost f0 = self.frontier();
        while self.dirs.len() > 0
            invariant
                f0 == old(self).frontier(),
                self.target() == old(self).target(),
                self.wf(),
                trimmed(self.frontier()) == trimmed(f0),
            decreases self.dirs@.len(),
        {
            let n = self.dirs.len();
            let top = &self.dirs[n - 1];
            if top.pos < top.entries.len() {
                let e = top.entries[top.pos].duplicate();
                let ghost f1 = self.frontier();
                let mut l = self.dirs.pop().unwrap();
                let ghost old_rest = l.rest();
                l.pos = l.pos + 1;
                assert(l.rest() =~= old_rest.drop_first());
                self.dirs.push(l);
                proof {
                    assert(f1.last().len() > 0);
                    assert(trimmed(f1) == f1);
                    assert(f1.last()[0] == e@);
                    assert(self.frontier() =~= f1.update(f1.len() - 1, f1.last().drop_first()));
                }
                return Some(e);
            }
            let ghost f1 = self.frontier();
            self.dirs.pop();
            proof {
                assert(f1.last().len() == 0);
                assert(self.frontier() =~= f1.drop_last());
            }
        }
        assert(self.frontier() =~= Seq::<Seq<(Seq<char>, EntryType)>>::empty());
        None
    }

    /// One enumeration step: consumes the next entry and says what the driver
    /// must do with it.
    pub fn next_step(&mut self) -> (r: Step)
        requires
            old(self).wf(),
        ensures
            final(self).wf(),
            final(self).frontier() == pulled(old(self).frontier()).0,
            final(self).target() == old(self).target(),
            r@ == step_of(pulled(old(self).frontier()).1),
    {
        match self.pull() {
            None => Step::Exhausted,
            Some(e) => match e.kind {
                EntryType::Container => Step::Open(e.path),
                EntryType::Leaf => Step::Yield(e.path),
                EntryType::Unsupported => Step::Fail(e.path),
            },
        }
    }

    /// One seek step towards the target: consumes the next entry and says
    /// what the driver must do with it.
    pub fn seek_step(&mut self) -> (r: SeekStep)
        requires
            old(self).wf(),
        ensures
            final(self).wf(),
            final(self).frontier() == pulled(old(self).frontier()).0,
            final(self).target() == old(self).target(),
            r@ == seek_of(pulled(old(self).frontier()).1, old(self).target()),
    {
        match self.pull() {
            None => SeekStep::NotFound,
            Some(e) => {
                let hit = crate::kind::str_eq(e.path.as_str(), self.target.as_str());
                match e.kind {
                    EntryType::Container => if hit {
                        SeekStep::OpenTarget(e.path)
                    } else {
                        SeekStep::Open(e.path)
                    },
                    EntryType::Leaf => if hit {
                        SeekStep::Found
                    } else {
                        SeekStep::Skipped
                    },
                    EntryType::Unsupported => SeekStep::Fail(e.path),
                }
            },
        }
    }
}

} // verus!
