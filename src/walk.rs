use vstd::prelude::*;

use crate::error::Failure;
use crate::matcher::Matcher;
use crate::scan::{records_view, scan, scan_model, Record};

verus! {

/// What resolving an entry's metadata says it is.
#[derive(Clone, Copy, Debug, PartialEq, Eq, Structural)]
pub enum EntryKind {
    File,
    Directory,
    /// Anything else (a symbolic link, a device, a socket): skipped.
    Other,
}

/// What the walk waits for.
#[derive(Clone, Copy, Debug, PartialEq, Eq, Structural)]
pub enum Stage {
    /// The kind of the entry handed out with `Action::Resolve`.
    Resolving,
    /// The bytes of the file handed out with `Action::Read`.
    Reading,
    /// The entries of the directory handed out with `Action::List`.
    Listing,
    /// Word that a report was delivered to its sink.
    Delivering,
    /// Nothing: the walk is over.
    Finished,
}

/// What the caller tells the walk after carrying out an action.
pub enum Event<P> {
    /// The entry's metadata, or why it could not be had.
    Resolved(P, Result<EntryKind, Failure>),
    /// The file's bytes, or why they could not be read.
    Read(P, Result<Vec<u8>, Failure>),
    /// The directory's entries in the order listed, each one a path or
    /// the failure that took the place of that entry; or why the directory
    /// could not be listed at all.
    Listed(Result<Vec<Result<P, Failure>>, Failure>),
    /// The last report reached its sink.
    Delivered,
}

/// What the walk asks the caller to do next.
pub enum Action<P> {
    /// Resolve the metadata of this path.
    Resolve(P),
    /// Read all bytes of this regular file.
    Read(P),
    /// List the entries of this directory.
    List(P),
    /// Hand the file's scan result to the result sink.
    ReportResult(P, Vec<Record>),
    /// Hand a failure below the root to the error sink.
    ReportError(Failure),
    /// The walk is over: with success, or with the failure of the root.
    Finish(Result<(), Failure>),
}

pub ghost enum EventView<P> {
    Resolved(P, Result<EntryKind, Failure>),
    Read(P, Result<Seq<u8>, Failure>),
    Listed(Result<Seq<Result<P, Failure>>, Failure>),
    Delivered,
}

pub ghost enum ActionView<P> {
    Resolve(P),
    Read(P),
    List(P),
    ReportResult(P, Seq<(nat, Seq<char>)>),
    ReportError(Failure),
    Finish(Result<(), Failure>),
}

/// An open directory: the entries not yet visited, in order, each a path or
/// the failure met in its place.
pub type FrameView<P> = Seq<Result<P, Failure>>;

/// The state of a walk: the pattern it scans with, the open directories
/// from the outermost in, and what it waits for. The entry being handled
/// lies one level below the innermost open directory; with none open, it is
/// the root.
pub ghost struct WalkView<P> {
    pub pattern: Seq<char>,
    pub frames: Seq<FrameView<P>>,
    pub stage: Stage,
}

impl<P> View for Event<P> {
    type V = EventView<P>;

    open spec fn view(&self) -> EventView<P> {
        match self {
            Event::Resolved(p, r) => EventView::Resolved(*p, *r),
            Event::Read(p, r) => EventView::Read(
                *p,
                match r {
                    Ok(b) => Ok(b@),
                    Err(e) => Err(*e),
                },
            ),
            Event::Listed(r) => EventView::Listed(
                match r {
                    Ok(es) => Ok(es@),
                    Err(e) => Err(*e),
                },
            ),
            Event::Delivered => EventView::Delivered,
        }
    }
}

impl<P> View for Action<P> {
    type V = ActionView<P>;

    open spec fn view(&self) -> ActionView<P> {
        match self {
            Action::Resolve(p) => ActionView::Resolve(*p),
            Action::Read(p) => ActionView::Read(*p),
            Action::List(p) => ActionView::List(*p),
            Action::ReportResult(p, rs) => ActionView::ReportResult(*p, records_view(rs@)),
            Action::ReportError(e) => ActionView::ReportError(*e),
            Action::Finish(r) => ActionView::Finish(*r),
        }
    }
}

/// The outcome of looking for the next entry to visit.
pub ghost enum Settled<P> {
    /// This entry comes next.
    Next(P),
    /// The failure met in place of the next entry.
    Failed(Failure),
    /// No open directory is left.
    Done,
}

/// Closes finished directories from the innermost out until one has an
/// entry left, and takes that entry; or finds none open.
pub open spec fn settle<P>(frames: Seq<FrameView<P>>) -> (Seq<FrameView<P>>, Settled<P>)
    decreases frames.len(),
{
    if frames.len() == 0 {
        (frames, Settled::Done)
    } else {
        let top = frames.last();
        if top.len() > 0 {
            (
                frames.drop_last().push(top.drop_first()),
                match top[0] {
                    Ok(p) => Settled::Next(p),
                    Err(e) => Settled::Failed(e),
                },
            )
        } else {
            settle(frames.drop_last())
        }
    }
}

/// The failure of the entry at the depth of `frames`: fatal for the root,
/// handed to the error sink below it, after which the walk goes on.
pub open spec fn fail_at<P>(pattern: Seq<char>, frames: Seq<FrameView<P>>, e: Failure) -> (
    WalkView<P>,
    ActionView<P>,
) {
    if frames.len() == 0 {
        (WalkView { pattern, frames, stage: Stage::Finished }, ActionView::Finish(Err(e)))
    } else {
        (WalkView { pattern, frames, stage: Stage::Delivering }, ActionView::ReportError(e))
    }
}

/// Moves on to the next entry of the walk, or ends it.
pub open spec fn proceed<P>(pattern: Seq<char>, frames: Seq<FrameView<P>>) -> (
    WalkView<P>,
    ActionView<P>,
) {
    let (fs, s) = settle(frames);
    match s {
        Settled::Next(p) => (
            WalkView { pattern, frames: fs, stage: Stage::Resolving },
            ActionView::Resolve(p),
        ),
        Settled::Failed(e) => fail_at(pattern, fs, e),
        Settled::Done => (
            WalkView { pattern, frames: fs, stage: Stage::Finished },
            ActionView::Finish(Ok(())),
        ),
    }
}

/// Whether the walk waits for an event of this sort.
pub open spec fn accepts<P>(stage: Stage, e: EventView<P>) -> bool {
    match e {
        EventView::Resolved(..) => stage == Stage::Resolving,
        EventView::Read(..) => stage == Stage::Reading,
        EventView::Listed(..) => stage == Stage::Listing,
        EventView::Delivered => stage == Stage::Delivering,
    }
}

/// One move of the walk: a file is read, then its scan result reported; a
/// directory is listed, then its entries visited in order, depth first;
/// anything else is skipped; a failure ends the walk at the root and is
/// reported below it, also one met in place of a listed entry.
pub open spec fn transition<P>(s: WalkView<P>, e: EventView<P>) -> (WalkView<P>, ActionView<P>) {
    match e {
        EventView::Resolved(p, Ok(EntryKind::File)) => (
            WalkView { stage: Stage::Reading, ..s },
            ActionView::Read(p),
        ),
        EventView::Resolved(p, Ok(EntryKind::Directory)) => (
            WalkView { stage: Stage::Listing, ..s },
            ActionView::List(p),
        ),
        EventView::Resolved(_, Ok(EntryKind::Other)) => proceed(s.pattern, s.frames),
        EventView::Resolved(_, Err(f)) => fail_at(s.pattern, s.frames, f),
        EventView::Read(p, Ok(b)) => (
            WalkView { stage: Stage::Delivering, ..s },
            ActionView::ReportResult(p, scan_model(s.pattern, b)),
        ),
        EventView::Read(_, Err(f)) => fail_at(s.pattern, s.frames, f),
        EventView::Listed(Ok(es)) => proceed(s.pattern, s.frames.push(es)),
        EventView::Listed(Err(f)) => fail_at(s.pattern, s.frames, f),
        EventView::Delivered => proceed(s.pattern, s.frames),
    }
}

/// The state in which a walk with `pattern` begins.
pub open spec fn start_view<P>(pattern: Seq<char>) -> WalkView<P> {
    WalkView { pattern, frames: seq![], stage: Stage::Resolving }
}

/// The actions a walk in state `s` takes when fed `events` in turn, up to
/// the first event that is not of the sort it waits for.
pub open spec fn run<P>(s: WalkView<P>, events: Seq<EventView<P>>) -> Seq<ActionView<P>>
    decreases events.len(),
{
    if events.len() == 0 || !accepts(s.stage, events[0]) {
        seq![]
    } else {
        let (t, a) = transition(s, events[0]);
        seq![a] + run(t, events.drop_first())
    }
}

/// Walking twice over an unchanged tree, which answers each resolve, read
/// and listing alike both times, takes the same actions: the same paths
/// reach the result sink with the same records, in the same order.
pub proof fn lemma_walk_repeatable<P>(
    pattern: Seq<char>,
    first: Seq<EventView<P>>,
    second: Seq<EventView<P>>,
)
    requires
        first == second,
    ensures
        run(start_view::<P>(pattern), first) == run(start_view::<P>(pattern), second),
{
}

/// Below the root, a failure to resolve, read or list an entry goes to the
/// error sink, once, and the walk then goes on with the remaining entries
/// exactly as it would have had the entry been skipped. At the root the
/// same failure ends the walk with that failure.
pub proof fn lemma_failure_isolated<P>(s: WalkView<P>, p: P, f: Failure, e: EventView<P>)
    requires
        e == EventView::Resolved(p, Err::<EntryKind, Failure>(f)) || e == EventView::Read(
            p,
            Err::<Seq<u8>, Failure>(f),
        ) || e == EventView::<P>::Listed(Err(f)),
        accepts(s.stage, e),
    ensures
        s.frames.len() > 0 ==> {
            let (t, a) = transition(s, e);
            &&& a == ActionView::<P>::ReportError(f)
            &&& t.frames == s.frames
            &&& t.stage == Stage::Delivering
            &&& transition(t, EventView::Delivered) == proceed(s.pattern, s.frames)
            &&& transition(
                WalkView { stage: Stage::Resolving, ..s },
                EventView::Resolved(p, Ok(EntryKind::Other)),
            ) == proceed(s.pattern, s.frames)
        },
        s.frames.len() == 0 ==> transition(s, e).1 == ActionView::<P>::Finish(Err(f)),
{
}

/// A failure met in place of a listed entry goes to the error sink, and
/// after its delivery the walk turns to the entries that follow it.
pub proof fn lemma_entry_failure_isolated<P>(
    pattern: Seq<char>,
    frames: Seq<FrameView<P>>,
    f: Failure,
    rest: Seq<Result<P, Failure>>,
)
    ensures
        ({
            let (t, a) = proceed(pattern, frames.push(seq![Err(f)] + rest));
            &&& a == ActionView::<P>::ReportError(f)
            &&& t == WalkView { pattern, frames: frames.push(rest), stage: Stage::Delivering }
            &&& transition(t, EventView::Delivered) == proceed(pattern, frames.push(rest))
        }),
{
    let top = seq![Err(f)] + rest;
    assert(frames.push(top).drop_last() =~= frames);
    assert(top[0] == Err::<P, Failure>(f));
    assert(top.drop_first() =~= rest);
}

struct Frame<P> {
    entries: Vec<Result<P, Failure>>,
}

impl<P> View for Frame<P> {
    type V = FrameView<P>;

    closed spec fn view(&self) -> FrameView<P> {
        self.entries@
    }
}

spec fn frames_view<P>(fs: Seq<Frame<P>>) -> Seq<FrameView<P>> {
    fs.map_values(|f: Frame<P>| f@)
}

/// A depth-first walk from one root, driven by the caller: each `step`
/// takes what the caller found out and says what to do next.
pub struct Walker<P> {
    matcher: Matcher,
    frames: Vec<Frame<P>>,
    stage: Stage,
}

impl<P> View for Walker<P> {
    type V = WalkView<P>;

    closed spec fn view(&self) -> WalkView<P> {
        WalkView { pattern: self.matcher@, frames: frames_view(self.frames@), stage: self.stage }
    }
}

impl<P> Walker<P> {
    /// Begins a walk at `root`, whose metadata is to be resolved first.
    pub fn start(root: P, matcher: Matcher) -> (r: (Walker<P>, Action<P>))
        ensures
            r.0@ == (WalkView::<P> { pattern: matcher@, frames: seq![], stage: Stage::Resolving }),
            r.1@ == ActionView::Resolve(root),
    {
        let w = Walker { matcher, frames: Vec::new(), stage: Stage::Resolving };
        assert(frames_view(w.frames@) =~= seq![]);
        (w, Action::Resolve(root))
    }

    /// What the walk waits for.
    pub fn stage(&self) -> (r: Stage)
        ensures
            r == self@.stage,
    {
        self.stage
    }

    /// The matcher every file is scanned with.
    pub fn matcher(&self) -> (r: &Matcher)
        ensures
            r@ == self@.pattern,
    {
        &self.matcher
    }

    /// Whether `event` is of the sort the walk waits for.
    pub fn accepts(&self, event: &Event<P>) -> (r: bool)
        ensures
            r == accepts(self@.stage, event@),
    {
        match event {
            Event::Resolved(..) => self.stage == Stage::Resolving,
            Event::Read(..) => self.stage == Stage::Reading,
            Event::Listed(..) => self.stage == Stage::Listing,
            Event::Delivered => self.stage == Stage::Delivering,
        }
    }

    /// Takes what the caller found out and says what to do next.
    pub fn step(&mut self, event: Event<P>) -> (action: Action<P>)
        requires
            accepts(old(self)@.stage, event@),
        ensures
            (final(self)@, action@) == transition(old(self)@, event@),
    {
        match event {
            Event::Resolved(p, Ok(EntryKind::File)) => {
                self.stage = Stage::Reading;
                Action::Read(p)
            },
            Event::Resolved(p, Ok(EntryKind::Directory)) => {
                self.stage = Stage::Listing;
                Action::List(p)
            },
            Event::Resolved(_, Ok(EntryKind::Other)) => self.proceed(),
            Event::Resolved(_, Err(f)) => self.fail(f),
            Event::Read(p, Ok(bytes)) => {
                let records = scan(bytes.as_slice(), &self.matcher);
                self.stage = Stage::Delivering;
                Action::ReportResult(p, records)
            },
            Event::Read(_, Err(f)) => self.fail(f),
            Event::Listed(Ok(entries)) => {
                self.frames.push(Frame { entries });
                assert(frames_view(self.frames@) =~= frames_view(old(self).frames@).push(
                    entries@,
                ));
                self.proceed()
            },
            Event::Listed(Err(f)) => self.fail(f),
            Event::Delivered => self.proceed(),
        }
    }

    fn fail(&mut self, e: Failure) -> (action: Action<P>)
        ensures
            (final(self)@, action@) == fail_at(old(self)@.pattern, old(self)@.frames, e),
    {
        if self.frames.len() == 0 {
            self.stage = Stage::Finished;
            Action::Finish(Err(e))
        } else {
            self.stage = Stage::Delivering;
            Action::ReportError(e)
        }
    }

    fn proceed(&mut self) -> (action: Action<P>)
        ensures
            (final(self)@, action@) == proceed(old(self)@.pattern, old(self)@.frames),
    {
        loop
            invariant
                self.matcher@ == old(self).matcher@,
                proceed(self@.pattern, self@.frames) == proceed(
                    old(self)@.pattern,
                    old(self)@.frames,
                ),
            decreases self.frames.len(),
        {
            let ghost before = self@.frames;
            match self.frames.pop() {
                None => {
                    self.stage = Stage::Finished;
                    return Action::Finish(Ok(()));
                },
                Some(mut top) => {
                    assert(frames_view(self.frames@) =~= before.drop_last());
                    if top.entries.len() > 0 {
                        let first = top.entries.remove(0);
                        assert(top.entries@ =~= before.last().drop_first());
                        self.frames.push(top);
                        assert(frames_view(self.frames@) =~= before.drop_last().push(
                            before.last().drop_first(),
                        ));
                        match first {
                            Ok(p) => {
                                self.stage = Stage::Resolving;
                                return Action::Resolve(p);
                            },
                            Err(e) => {
                                return self.fail(e);
                            },
                        }
                    }
                },
            }
        }
    }
}

} // verus!
