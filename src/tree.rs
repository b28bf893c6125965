use vstd::prelude::*;

use crate::error::Failure;
use crate::scan::scan_model;
use crate::walk::{
    accepts, fail_at, proceed, run, settle, start_view, transition, ActionView, EntryKind,
    EventView, FrameView, Settled, Stage, WalkView,
};

verus! {

/// A file-system tree as a walk finds it: what resolving, reading and
/// listing each entry gives.
pub ghost enum Entry<P> {
    /// A regular file and what reading it gives.
    File(P, Result<Seq<u8>, Failure>),
    /// A directory and its entries in the order listed, or why it cannot be
    /// listed.
    Dir(P, Result<Seq<Entry<P>>, Failure>),
    /// Neither file nor directory.
    Other(P),
    /// An entry whose metadata cannot be resolved.
    Unresolvable(P, Failure),
    /// A failure met in a directory's listing in place of an entry.
    Unlisted(Failure),
}

impl<P> Entry<P> {
    pub open spec fn path(self) -> P {
        match self {
            Entry::File(p, _) => p,
            Entry::Dir(p, _) => p,
            Entry::Other(p) => p,
            Entry::Unresolvable(p, _) => p,
            Entry::Unlisted(_) => arbitrary(),
        }
    }

    /// The failure with which visiting this entry ends, if any.
    pub open spec fn failure(self) -> Option<Failure> {
        match self {
            Entry::File(_, Ok(_)) => None,
            Entry::File(_, Err(f)) => Some(f),
            Entry::Dir(_, Ok(_)) => None,
            Entry::Dir(_, Err(f)) => Some(f),
            Entry::Other(_) => None,
            Entry::Unresolvable(_, f) => Some(f),
            Entry::Unlisted(f) => Some(f),
        }
    }

    /// What a directory's listing shows of this entry.
    pub open spec fn listed(self) -> Result<P, Failure> {
        match self {
            Entry::Unlisted(f) => Err(f),
            _ => Ok(self.path()),
        }
    }

    pub open spec fn width(self) -> int {
        match self {
            Entry::Dir(_, Ok(cs)) => cs.len() as int,
            _ => 0,
        }
    }
}

/// What listing a directory with entries `cs` gives.
pub open spec fn listing_of<P>(cs: Seq<Entry<P>>) -> Seq<Result<P, Failure>> {
    cs.map_values(|c: Entry<P>| c.listed())
}

/// A delivery, where a failure was reported below the root.
pub open spec fn delivered_if<P>(f: Option<Failure>) -> Seq<EventView<P>> {
    match f {
        Some(_) => seq![EventView::Delivered],
        None => seq![],
    }
}

/// A report to the error sink, where there is a failure.
pub open spec fn reported_if<P>(f: Option<Failure>) -> Seq<ActionView<P>> {
    match f {
        Some(e) => seq![ActionView::ReportError(e)],
        None => seq![],
    }
}

/// What the file system answers while a walk visits `e`, up to the
/// delivery of the report of `e`'s own failure.
pub open spec fn entry_events<P>(e: Entry<P>) -> Seq<EventView<P>>
    decreases e, e.width() + 1,
{
    match e {
        Entry::File(p, r) => seq![
            EventView::Resolved(p, Ok(EntryKind::File)),
            EventView::Read(p, r),
        ] + if r is Ok {
            seq![EventView::Delivered]
        } else {
            seq![]
        },
        Entry::Dir(p, Ok(cs)) => seq![
            EventView::Resolved(p, Ok(EntryKind::Directory)),
            EventView::Listed(Ok(listing_of(cs))),
        ] + children_events(e, 0),
        Entry::Dir(p, Err(f)) => seq![
            EventView::Resolved(p, Ok(EntryKind::Directory)),
            EventView::Listed(Err(f)),
        ],
        Entry::Other(p) => seq![EventView::Resolved(p, Ok(EntryKind::Other))],
        Entry::Unresolvable(p, f) => seq![EventView::Resolved(p, Err(f))],
        Entry::Unlisted(_) => seq![],
    }
}

/// The answers while a walk visits the entries of directory `d` from the
/// `i`-th on.
pub open spec fn children_events<P>(d: Entry<P>, i: int) -> Seq<EventView<P>>
    decreases d, d.width() - i,
{
    match d {
        Entry::Dir(_, Ok(cs)) => if 0 <= i < cs.len() {
            entry_events(cs[i]) + delivered_if(cs[i].failure()) + children_events(d, i + 1)
        } else {
            seq![]
        },
        _ => seq![],
    }
}

/// The actions of a walk while it visits `e`, after `e` was handed out and
/// before the report of `e`'s own failure.
pub open spec fn inner_actions<P>(pattern: Seq<char>, e: Entry<P>) -> Seq<ActionView<P>>
    decreases e, e.width() + 1,
{
    match e {
        Entry::File(p, Ok(b)) => seq![
            ActionView::Read(p),
            ActionView::ReportResult(p, scan_model(pattern, b)),
        ],
        Entry::File(p, Err(_)) => seq![ActionView::Read(p)],
        Entry::Dir(p, Ok(_)) => seq![ActionView::List(p)] + children_actions(pattern, e, 0),
        Entry::Dir(p, Err(_)) => seq![ActionView::List(p)],
        _ => seq![],
    }
}

/// The handing out of an entry, unless the listing met a failure there.
pub open spec fn handed_out<P>(c: Entry<P>) -> Seq<ActionView<P>> {
    match c {
        Entry::Unlisted(_) => seq![],
        _ => seq![ActionView::Resolve(c.path())],
    }
}

/// The actions while a walk visits the entries of directory `d` from the
/// `i`-th on: each is handed out and visited, and its failure reported.
pub open spec fn children_actions<P>(pattern: Seq<char>, d: Entry<P>, i: int) -> Seq<ActionView<P>>
    decreases d, d.width() - i,
{
    match d {
        Entry::Dir(_, Ok(cs)) => if 0 <= i < cs.len() {
            handed_out(cs[i]) + inner_actions(pattern, cs[i]) + reported_if(cs[i].failure())
                + children_actions(pattern, d, i + 1)
        } else {
            seq![]
        },
        _ => seq![],
    }
}

/// How a walk from `e` ends: with `e`'s failure, if it has one.
pub open spec fn outcome<P>(e: Entry<P>) -> Result<(), Failure> {
    match e.failure() {
        Some(f) => Err(f),
        None => Ok(()),
    }
}

/// Where a walk stands once a directory at the depth of `fs` is done.
pub open spec fn dir_end<P>(pattern: Seq<char>, e: Entry<P>, fs: Seq<FrameView<P>>) -> (
    WalkView<P>,
    ActionView<P>,
) {
    match e {
        Entry::Dir(_, Err(f)) => fail_at(pattern, fs, f),
        _ => proceed(pattern, fs),
    }
}

proof fn lemma_run_one<P>(s: WalkView<P>, e: EventView<P>, rest: Seq<EventView<P>>)
    requires
        accepts(s.stage, e),
    ensures
        run(s, seq![e] + rest) == seq![transition(s, e).1] + run(transition(s, e).0, rest),
{
    let all = seq![e] + rest;
    assert(all[0] == e);
    assert(all.drop_first() =~= rest);
    assert(run(s, all) =~= seq![transition(s, e).1] + run(transition(s, e).0, rest));
}

proof fn lemma_closed_frame<P>(pattern: Seq<char>, fs: Seq<FrameView<P>>)
    ensures
        proceed(pattern, fs.push(seq![])) == proceed(pattern, fs),
{
    assert(fs.push(seq![]).drop_last() =~= fs);
}

proof fn lemma_entry_walked<P>(
    pattern: Seq<char>,
    e: Entry<P>,
    fs: Seq<FrameView<P>>,
    rest: Seq<EventView<P>>,
)
    requires
        fs.len() > 0,
        !(e is Unlisted),
    ensures
        run(
            WalkView { pattern, frames: fs, stage: Stage::Resolving },
            entry_events(e) + delivered_if(e.failure()) + rest,
        ) == inner_actions(pattern, e) + reported_if(e.failure()) + seq![proceed(pattern, fs).1]
            + run(proceed(pattern, fs).0, rest),
    decreases e, e.width() + 2,
{
    let s = WalkView { pattern, frames: fs, stage: Stage::Resolving };
    let (pn, pa) = proceed(pattern, fs);
    let evs = entry_events(e) + delivered_if(e.failure()) + rest;
    let d = EventView::<P>::Delivered;
    match e {
        Entry::File(p, Ok(b)) => {
            let r0 = EventView::Resolved(p, Ok(EntryKind::File));
            let r1 = EventView::Read(p, Ok::<Seq<u8>, Failure>(b));
            assert(evs =~= seq![r0] + (seq![r1] + (seq![d] + rest)));
            let t0 = transition(s, r0).0;
            let t1 = transition(t0, r1).0;
            lemma_run_one(t1, d, rest);
            lemma_run_one(t0, r1, seq![d] + rest);
            lemma_run_one(s, r0, seq![r1] + (seq![d] + rest));
        },
        Entry::File(p, Err(f)) => {
            let r0 = EventView::Resolved(p, Ok(EntryKind::File));
            let r1 = EventView::Read(p, Err::<Seq<u8>, Failure>(f));
            assert(evs =~= seq![r0] + (seq![r1] + (seq![d] + rest)));
            let t0 = transition(s, r0).0;
            let t1 = transition(t0, r1).0;
            lemma_run_one(t1, d, rest);
            lemma_run_one(t0, r1, seq![d] + rest);
            lemma_run_one(s, r0, seq![r1] + (seq![d] + rest));
        },
        Entry::Other(p) => {
            let r0 = EventView::Resolved(p, Ok(EntryKind::Other));
            assert(evs =~= seq![r0] + rest);
            lemma_run_one(s, r0, rest);
        },
        Entry::Unresolvable(p, f) => {
            let r0 = EventView::Resolved(p, Err::<EntryKind, Failure>(f));
            assert(evs =~= seq![r0] + (seq![d] + rest));
            let t0 = transition(s, r0).0;
            lemma_run_one(t0, d, rest);
            lemma_run_one(s, r0, seq![d] + rest);
        },
        Entry::Dir(p, r) => {
            let more = delivered_if(e.failure()) + rest;
            assert(evs =~= entry_events(e) + more);
            lemma_dir_walked(pattern, e, fs, more);
            let fin = dir_end(pattern, e, fs);
            let tail = seq![fin.1] + run(fin.0, more);
            assert(tail =~= reported_if(e.failure()) + seq![pa] + run(pn, rest)) by {
                match r {
                    Err(f) => {
                        assert(more =~= seq![d] + rest);
                        lemma_run_one(fin.0, d, rest);
                    },
                    Ok(_) => {
                        assert(more =~= rest);
                    },
                }
            }
            assert(run(s, evs) == inner_actions(pattern, e) + tail);
        },
        Entry::Unlisted(_) => {},
    }
    assert(run(s, evs) =~= inner_actions(pattern, e) + reported_if(e.failure()) + seq![pa] + run(
        pn,
        rest,
    ));
}

/// A directory visited at any depth: it is listed, its entries are walked,
/// and the walk then goes on from the directory's depth.
proof fn lemma_dir_walked<P>(
    pattern: Seq<char>,
    e: Entry<P>,
    fs: Seq<FrameView<P>>,
    rest: Seq<EventView<P>>,
)
    requires
        e is Dir,
    ensures
        ({
            let fin = dir_end(pattern, e, fs);
            run(WalkView { pattern, frames: fs, stage: Stage::Resolving }, entry_events(e) + rest)
                == inner_actions(pattern, e) + seq![fin.1] + run(fin.0, rest)
        }),
    decreases e, e.width() + 1,
{
    let p = e->Dir_0;
    let s = WalkView { pattern, frames: fs, stage: Stage::Resolving };
    let r0 = EventView::Resolved(p, Ok(EntryKind::Directory));
    let t0 = transition(s, r0).0;
    let fin = dir_end(pattern, e, fs);
    match e->Dir_1 {
        Err(f) => {
            let r1 = EventView::<P>::Listed(Err(f));
            assert(entry_events(e) + rest =~= seq![r0] + (seq![r1] + rest));
            lemma_run_one(s, r0, seq![r1] + rest);
            lemma_run_one(t0, r1, rest);
        },
        Ok(cs) => {
            let ls = listing_of(cs);
            let r1 = EventView::Listed(Ok(ls));
            let after = children_events(e, 0) + rest;
            assert(entry_events(e) + rest =~= seq![r0] + (seq![r1] + after));
            lemma_run_one(s, r0, seq![r1] + after);
            lemma_run_one(t0, r1, after);
            assert(ls.subrange(0, ls.len() as int) =~= ls);
            lemma_children_walked(pattern, e, 0, fs, rest);
        },
    }
    assert(run(s, entry_events(e) + rest) =~= inner_actions(pattern, e) + seq![fin.1] + run(
        fin.0,
        rest,
    ));
}

#[verifier::rlimit(50)]
proof fn lemma_children_walked<P>(
    pattern: Seq<char>,
    d: Entry<P>,
    i: int,
    fs: Seq<FrameView<P>>,
    rest: Seq<EventView<P>>,
)
    requires
        d is Dir,
        d->Dir_1 is Ok,
        0 <= i <= d.width(),
    ensures
        ({
            let ls = listing_of(d->Dir_1->Ok_0);
            let (t, a) = proceed(pattern, fs.push(ls.subrange(i, ls.len() as int)));
            seq![a] + run(t, children_events(d, i) + rest) == children_actions(pattern, d, i)
                + seq![proceed(pattern, fs).1] + run(proceed(pattern, fs).0, rest)
        }),
    decreases d, d.width() - i,
{
    let cs = d->Dir_1->Ok_0;
    let ls = listing_of(cs);
    let n = cs.len() as int;
    assert(ls.len() == n);
    let here = fs.push(ls.subrange(i, n));
    let (t, a) = proceed(pattern, here);
    let (pn, pa) = proceed(pattern, fs);
    if i == n {
        assert(ls.subrange(i, n) =~= seq![]);
        lemma_closed_frame(pattern, fs);
        assert(children_events(d, i) + rest =~= rest);
        assert(children_actions(pattern, d, i) =~= seq![]);
        assert(seq![a] + run(t, children_events(d, i) + rest) =~= children_actions(pattern, d, i)
            + seq![pa] + run(pn, rest));
    } else {
        let c = cs[i];
        let next = fs.push(ls.subrange(i + 1, n));
        assert(here.drop_last() =~= fs);
        assert(ls.subrange(i, n)[0] == c.listed());
        assert(ls.subrange(i, n).drop_first() =~= ls.subrange(i + 1, n));
        let later = children_events(d, i + 1) + rest;
        assert(children_events(d, i) + rest =~= entry_events(c) + delivered_if(c.failure()) + later);
        let (nt, na) = proceed(pattern, next);
        lemma_children_walked(pattern, d, i + 1, fs, rest);
        assert(seq![na] + run(nt, later) == children_actions(pattern, d, i + 1) + seq![pa] + run(
            pn,
            rest,
        ));
        if c is Unlisted {
            let f = c->Unlisted_0;
            assert(a == ActionView::<P>::ReportError(f));
            assert(t == WalkView { pattern, frames: next, stage: Stage::Delivering });
            assert(entry_events(c) + delivered_if(c.failure()) + later =~= seq![
                EventView::Delivered,
            ] + later);
            lemma_run_one(t, EventView::Delivered, later);
            assert(transition(t, EventView::Delivered) == (nt, na));
            assert(run(t, children_events(d, i) + rest) == seq![na] + run(nt, later));
            assert(inner_actions(pattern, c) =~= seq![]);
            assert(handed_out(c) =~= seq![]);
            assert(reported_if::<P>(c.failure()) == seq![a]);
            let ca1 = children_actions(pattern, d, i + 1);
            let r = run(pn, rest);
            assert(children_actions(pattern, d, i) =~= seq![a] + ca1);
            assert(seq![a] + run(t, children_events(d, i) + rest) == seq![a] + (ca1 + seq![pa] + r));
            assert(seq![a] + (ca1 + seq![pa] + r) =~= seq![a] + ca1 + seq![pa] + r);
        } else {
            assert(a == ActionView::Resolve(c.path()));
            assert(t == WalkView { pattern, frames: next, stage: Stage::Resolving });
            lemma_entry_walked(pattern, c, next, later);
            assert(run(t, children_events(d, i) + rest) == inner_actions(pattern, c) + reported_if(
                c.failure(),
            ) + seq![na] + run(nt, later));
            assert(handed_out(c) == seq![a]);
            let y = inner_actions(pattern, c) + reported_if(c.failure());
            let ca1 = children_actions(pattern, d, i + 1);
            let r = run(pn, rest);
            assert(children_actions(pattern, d, i) =~= seq![a] + y + ca1);
            assert(run(t, children_events(d, i) + rest) =~= y + (seq![na] + run(nt, later)));
            assert(seq![a] + run(t, children_events(d, i) + rest) == seq![a] + (y + (ca1 + seq![pa]
                + r)));
            assert(seq![a] + (y + (ca1 + seq![pa] + r)) =~= seq![a] + y + ca1 + seq![pa] + r);
        }
        assert(children_actions(pattern, d, i) == handed_out(c) + inner_actions(pattern, c)
            + reported_if(c.failure()) + children_actions(pattern, d, i + 1));
        assert(seq![a] + run(t, children_events(d, i) + rest) =~= children_actions(pattern, d, i)
            + seq![pa] + run(pn, rest));
    }
}

/// Walking from `root` over a tree that answers as `root` describes: the
/// walk hands out every listed entry of a directory in the order listed,
/// depth first; reads each regular file and reports its scan result; skips
/// what is neither file nor directory; reports each failure below the root
/// to the error sink exactly once, in its place, and goes on, also a failure
/// met in a listing in place of an entry; and ends with the root's own
/// failure, if it has one, and nothing reported before it, else with
/// success.
pub proof fn lemma_tree_walked<P>(pattern: Seq<char>, root: Entry<P>)
    requires
        !(root is Unlisted),
    ensures
        run(start_view::<P>(pattern), entry_events(root)) == inner_actions(pattern, root)
            + seq![ActionView::Finish(outcome(root))],
{
    let s = start_view::<P>(pattern);
    let fs = Seq::<FrameView<P>>::empty();
    assert(s.frames =~= fs);
    let evs = entry_events(root);
    let empty = Seq::<EventView<P>>::empty();
    assert(settle(fs) == (fs, Settled::<P>::Done));
    match root {
        Entry::File(p, Ok(b)) => {
            let r0 = EventView::Resolved(p, Ok(EntryKind::File));
            let r1 = EventView::Read(p, Ok::<Seq<u8>, Failure>(b));
            let d = EventView::<P>::Delivered;
            assert(evs =~= seq![r0] + (seq![r1] + (seq![d] + empty)));
            let t0 = transition(s, r0).0;
            let t1 = transition(t0, r1).0;
            lemma_run_one(t1, d, empty);
            lemma_run_one(t0, r1, seq![d] + empty);
            lemma_run_one(s, r0, seq![r1] + (seq![d] + empty));
        },
        Entry::File(p, Err(f)) => {
            let r0 = EventView::Resolved(p, Ok(EntryKind::File));
            let r1 = EventView::Read(p, Err::<Seq<u8>, Failure>(f));
            assert(evs =~= seq![r0] + (seq![r1] + empty));
            let t0 = transition(s, r0).0;
            lemma_run_one(t0, r1, empty);
            lemma_run_one(s, r0, seq![r1] + empty);
        },
        Entry::Other(p) => {
            let r0 = EventView::Resolved(p, Ok(EntryKind::Other));
            assert(evs =~= seq![r0] + empty);
            lemma_run_one(s, r0, empty);
        },
        Entry::Unresolvable(p, f) => {
            let r0 = EventView::Resolved(p, Err::<EntryKind, Failure>(f));
            assert(evs =~= seq![r0] + empty);
            lemma_run_one(s, r0, empty);
        },
        Entry::Dir(_, _) => {
            assert(evs =~= entry_events(root) + empty);
            lemma_dir_walked(pattern, root, fs, empty);
            let fin = dir_end(pattern, root, fs);
            assert(fin.1 == ActionView::<P>::Finish(outcome(root)));
            assert(fin.0.stage == Stage::Finished);
            assert(run(fin.0, empty) =~= seq![]);
        },
        Entry::Unlisted(_) => {},
    }
    assert(run(s, evs) =~= inner_actions(pattern, root) + seq![ActionView::Finish(outcome(root))]);
}

/// What a walk does for one listed entry of a directory: hand it out and
/// visit it, or report the failure met in its place. It depends on the
/// entry alone.
pub open spec fn entry_block<P>(pattern: Seq<char>, c: Entry<P>) -> Seq<ActionView<P>> {
    handed_out(c) + inner_actions(pattern, c) + reported_if(c.failure())
}

/// Within a directory the walk does one block per listed entry, each a
/// function of its entry alone, in the order listed. So walking a tree
/// again, where a directory lists the same entries in another order, gives
/// the same blocks, only in that other order.
pub proof fn lemma_listing_order_only_orders_blocks<P>(
    pattern: Seq<char>,
    p: P,
    cs: Seq<Entry<P>>,
)
    ensures
        children_actions(pattern, Entry::Dir(p, Ok(cs)), 0) == cs.map_values(
            |c: Entry<P>| entry_block(pattern, c),
        ).flatten(),
{
    lemma_blocks_from(pattern, Entry::Dir(p, Ok(cs)), 0);
    assert(cs.subrange(0, cs.len() as int) =~= cs);
}

proof fn lemma_blocks_from<P>(pattern: Seq<char>, d: Entry<P>, i: int)
    requires
        d is Dir,
        d->Dir_1 is Ok,
        0 <= i <= d.width(),
    ensures
        ({
            let cs = d->Dir_1->Ok_0;
            children_actions(pattern, d, i) == cs.subrange(i, cs.len() as int).map_values(
                |c: Entry<P>| entry_block(pattern, c),
            ).flatten()
        }),
    decreases d.width() - i,
{
    let cs = d->Dir_1->Ok_0;
    let n = cs.len() as int;
    let bs = cs.subrange(i, n).map_values(|c: Entry<P>| entry_block(pattern, c));
    if i == n {
        assert(bs =~= seq![]);
    } else {
        lemma_blocks_from(pattern, d, i + 1);
        let later = cs.subrange(i + 1, n).map_values(|c: Entry<P>| entry_block(pattern, c));
        assert(bs.drop_first() =~= later);
        assert(bs.first() == entry_block(pattern, cs[i]));
        assert(children_actions(pattern, d, i) =~= entry_block(pattern, cs[i]) + children_actions(
            pattern,
            d,
            i + 1,
        ));
    }
}

} // verus!
