//! A queue of copies made one after the other, filled from a finished walk.

use std::collections::VecDeque;

use vstd::prelude::*;

use crate::conflict_resolver::ConflictResolution;
use crate::counter;
use crate::fsattr::{ErrorKind, IoError};
use crate::job::{JobResult, Outcome};
use crate::path;
use crate::path::{Component, Part, PathBuf, Written};
use crate::scheduler;
use crate::scheduler::Stats;
use crate::walker;

verus! {

/// Seconds that a dry run spends on a file that it would copy.
pub const DRY_RUN_PAUSE: u64 = 3;

/// One file to copy, by its two ends.
#[derive(Debug, PartialEq, Eq)]
pub struct CopyJob {
    pub source: PathBuf,
    pub target: PathBuf,
}

/// What a [`CopyJob`] stands for.
pub struct Copying {
    pub source: Written,
    pub target: Written,
}

impl View for CopyJob {
    type V = Copying;

    open spec fn view(&self) -> Copying {
        Copying { source: self.source@, target: self.target@ }
    }
}

impl Clone for CopyJob {
    fn clone(&self) -> (r: Self)
        ensures
            r@ == self@,
    {
        CopyJob { source: self.source.clone(), target: self.target.clone() }
    }
}

/// The longest run of components that two paths both end with, as the first path has them.
pub open spec fn common_tail(a: Seq<Part>, b: Seq<Part>) -> Seq<Part>
    decreases a.len(),
{
    if a.len() > 0 && b.len() > 0 && path::part_key(a.last()) == path::part_key(b.last()) {
        common_tail(a.drop_last(), b.drop_last()).push(a.last())
    } else {
        Seq::empty()
    }
}

/// Both paths end with their common tail, and the components before it differ, if there are any
/// in both.
pub proof fn law_common_tail_is_the_longest(a: Seq<Part>, b: Seq<Part>)
    ensures
        ({
            let n = common_tail(a, b).len() as int;
            &&& n <= a.len() && n <= b.len()
            &&& common_tail(a, b) == a.skip(a.len() - n)
            &&& path::path_key(common_tail(a, b)) == path::path_key(b.skip(b.len() - n))
            &&& n < a.len() && n < b.len() ==> path::part_key(a[a.len() - n - 1])
                != path::part_key(b[b.len() - n - 1])
        }),
    decreases a.len(),
{
    let n = common_tail(a, b).len() as int;
    if a.len() > 0 && b.len() > 0 && path::part_key(a.last()) == path::part_key(b.last()) {
        law_common_tail_is_the_longest(a.drop_last(), b.drop_last());
        assert(a.skip(a.len() - n) =~= a.drop_last().skip(a.len() - n).push(a.last()));
        assert(b.skip(b.len() - n) =~= b.drop_last().skip(b.len() - n).push(b.last()));
        let tail = common_tail(a.drop_last(), b.drop_last());
        let back = b.drop_last().skip(b.len() - n);
        assert(path::path_key(tail.push(a.last())) =~= path::path_key(tail).push(
            path::part_key(a.last()),
        ));
        assert(path::path_key(back.push(b.last())) =~= path::path_key(back).push(
            path::part_key(b.last()),
        ));
        if n < a.len() && n < b.len() {
            assert(a[a.len() - n - 1] == a.drop_last()[a.len() - n - 1]);
            assert(b[b.len() - n - 1] == b.drop_last()[b.len() - n - 1]);
        }
    } else {
        assert(a.skip(a.len() as int) =~= Seq::empty());
        assert(b.skip(b.len() as int) =~= Seq::empty());
    }
}

/// The part of the path that source and target share.
pub open spec fn shared(job: Copying) -> Written {
    path::collected(common_tail(job.source.parts(), job.target.parts()), job.source.platform)
}

/// The label of a copy: the part of the path that source and target share.
pub open spec fn label_text(job: Copying, dry_run: bool) -> Seq<char> {
    (if dry_run {
        "DRY RUN: "@
    } else {
        ""@
    }) + path::displayed(shared(job))
}

/// Where one copy stands.
#[derive(Debug, Clone, Copy, PartialEq, Eq, Structural)]
pub enum ExecuteState {
    New,
    CheckingParent,
    MakingParent,
    CheckingTarget,
    Resolving,
    /// Copying; this is what a copy that works out counts as.
    Copying(Outcome),
    /// Pretending to copy.
    Pausing,
    Ended,
}

/// What was found out about a copy.
#[derive(Debug, Clone, Copy, PartialEq, Eq, Structural)]
pub enum ExecuteEvent {
    Start,
    ParentExists(bool),
    ParentMade { ok: bool },
    TargetExists(bool),
    Resolved(ConflictResolution),
    Copied { ok: bool },
    Paused,
}

/// What to do next about a copy.
#[derive(Debug, Clone, Copy, PartialEq, Eq, Structural)]
pub enum ExecuteStep {
    CheckParent,
    MakeParent,
    CheckTarget,
    Resolve,
    Copy,
    Pause { seconds: u64 },
    /// Done, with what became of the file; nothing where an error came in between.
    Finish(Option<Outcome>),
}

/// One copy under way.
#[derive(Debug, Clone, Copy, PartialEq, Eq, Structural)]
pub struct Execution {
    pub state: ExecuteState,
    /// Write nothing.
    pub dry_run: bool,
    /// Size of the source.
    pub bytes: u64,
}

impl Execution {
    /// Whether the event is one that this state waits for.
    pub open spec fn expects(self, event: ExecuteEvent) -> bool {
        match self.state {
            ExecuteState::New => event is Start,
            ExecuteState::CheckingParent => event is ParentExists,
            ExecuteState::MakingParent => event is ParentMade,
            ExecuteState::CheckingTarget => event is TargetExists,
            ExecuteState::Resolving => event is Resolved,
            ExecuteState::Copying(_) => event is Copied,
            ExecuteState::Pausing => event is Paused,
            ExecuteState::Ended => false,
        }
    }

    /// The state after an event, and what to do in it.
    pub open spec fn next(self, event: ExecuteEvent) -> (ExecuteState, ExecuteStep) {
        match event {
            ExecuteEvent::Start => (ExecuteState::CheckingParent, ExecuteStep::CheckParent),
            ExecuteEvent::ParentExists(there) => if there || self.dry_run {
                (ExecuteState::CheckingTarget, ExecuteStep::CheckTarget)
            } else {
                (ExecuteState::MakingParent, ExecuteStep::MakeParent)
            },
            ExecuteEvent::ParentMade { ok } => if ok {
                (ExecuteState::CheckingTarget, ExecuteStep::CheckTarget)
            } else {
                (ExecuteState::Ended, ExecuteStep::Finish(None))
            },
            ExecuteEvent::TargetExists(there) => if there {
                (ExecuteState::Resolving, ExecuteStep::Resolve)
            } else if self.dry_run {
                (ExecuteState::Pausing, ExecuteStep::Pause { seconds: DRY_RUN_PAUSE })
            } else {
                (ExecuteState::Copying(Outcome::Copied), ExecuteStep::Copy)
            },
            ExecuteEvent::Resolved(resolution) => match resolution {
                ConflictResolution::Overwrite => if self.dry_run {
                    (ExecuteState::Ended, ExecuteStep::Finish(Some(Outcome::Overwritten)))
                } else {
                    (ExecuteState::Copying(Outcome::Overwritten), ExecuteStep::Copy)
                },
                ConflictResolution::Skip => (
                    ExecuteState::Ended,
                    ExecuteStep::Finish(Some(Outcome::Skipped)),
                ),
                ConflictResolution::Quit => (
                    ExecuteState::Ended,
                    ExecuteStep::Finish(Some(Outcome::Quit)),
                ),
            },
            ExecuteEvent::Copied { ok } => match self.state {
                ExecuteState::Copying(outcome) => if ok {
                    (ExecuteState::Ended, ExecuteStep::Finish(Some(outcome)))
                } else {
                    (ExecuteState::Ended, ExecuteStep::Finish(None))
                },
                _ => (ExecuteState::Ended, ExecuteStep::Finish(None)),
            },
            ExecuteEvent::Paused => (
                ExecuteState::Ended,
                ExecuteStep::Finish(Some(Outcome::Copied)),
            ),
        }
    }

    /// The counters after an event: only an end without an error counts.
    pub open spec fn counted(self, stats: Stats, event: ExecuteEvent, job: Copying) -> Stats {
        match self.next(event).1 {
            ExecuteStep::Finish(Some(outcome)) => scheduler::recorded_in(
                stats,
                walker::Job {
                    relative: shared(job),
                    bytes: self.bytes,
                    dehydrated: false,
                },
                JobResult { outcome, retries: 0 },
                self.dry_run,
            ),
            _ => stats,
        }
    }

    /// A copy of a file of the given size, before anything was done.
    pub fn new(bytes: u64, dry_run: bool) -> (r: Self)
        ensures
            r == (Execution { state: ExecuteState::New, dry_run, bytes }),
    {
        Execution { state: ExecuteState::New, dry_run, bytes }
    }
}

impl CopyJob {
    pub fn new(source: PathBuf, destination: PathBuf) -> (r: Self)
        ensures
            r.source == source,
            r.target == destination,
    {
        CopyJob { source, target: destination }
    }

    /// The part of the path that source and target share.
    pub fn shared_path(&self) -> (r: PathBuf)
        ensures
            r@ == shared(self@),
    {
        let a = self.source.components();
        let b = self.target.components();
        let mut n: usize = 0;
        let ghost source = self.source@.parts();
        let ghost target = self.target@.parts();
        let ghost whole = common_tail(source, target);
        proof {
            assert(a.len() == source.len() && b.len() == target.len());
            assert(source.take(a.len() as int) =~= source);
            assert(target.take(b.len() as int) =~= target);
            assert(whole + source.skip(a.len() as int) =~= whole);
        }
        while n < a.len() && n < b.len() && a[a.len() - 1 - n].same(&b[b.len() - 1 - n])
            invariant
                n <= a.len(),
                n <= b.len(),
                path::parts_of(a@) == source,
                path::parts_of(b@) == target,
                whole == common_tail(source.take(a.len() - n), target.take(b.len() - n))
                    + source.skip(a.len() - n),
            decreases a.len() - n,
        {
            proof {
                let front = source.take(a.len() - n);
                let other = target.take(b.len() - n);
                assert(front.last() == a@[a.len() - 1 - n]@);
                assert(other.last() == b@[b.len() - 1 - n]@);
                assert(front.drop_last() =~= source.take(a.len() - n - 1));
                assert(other.drop_last() =~= target.take(b.len() - n - 1));
                assert(whole =~= common_tail(front.drop_last(), other.drop_last())
                    + source.skip(a.len() - n - 1));
            }
            n = n + 1;
        }
        proof {
            let front = source.take(a.len() - n);
            let other = target.take(b.len() - n);
            if n < a.len() && n < b.len() {
                assert(front.last() == a@[a.len() - 1 - n]@);
                assert(other.last() == b@[b.len() - 1 - n]@);
            }
            assert(common_tail(front, other) =~= Seq::empty());
            assert(whole =~= source.skip(a.len() - n));
        }
        let mut tail: Vec<Component> = Vec::new();
        let mut i: usize = a.len() - n;
        assert(path::parts_of(tail@) =~= source.subrange(a.len() - n, i as int));
        while i < a.len()
            invariant
                n <= a.len(),
                a.len() - n <= i <= a.len(),
                path::parts_of(a@) == source,
                path::parts_of(tail@) == source.subrange(a.len() - n, i as int),
            decreases a.len() - i,
        {
            let ghost before = tail@;
            let component = a[i].clone();
            tail.push(component);
            i = i + 1;
            assert(path::parts_of(tail@) =~= path::parts_of(before).push(a@[i - 1]@));
            assert(path::parts_of(tail@) =~= source.subrange(a.len() - n, i as int));
        }
        assert(path::parts_of(tail@) =~= whole);
        PathBuf::collect(&tail, self.source.platform())
    }

    /// The label of this copy in the progress display.
    pub fn label(&self, dry_run: bool) -> (r: String)
        ensures
            r@ == label_text(self@, dry_run),
    {
        let mut out = String::from_str(if dry_run { "DRY RUN: " } else { "" });
        let shared = self.shared_path().display();
        out.append(shared.as_str());
        out
    }

    /// Moves this copy on with what was found out, and counts it once it is done. A dry run
    /// writes nothing.
    pub fn execute(&self, run: &mut Execution, event: ExecuteEvent, stats: &mut Stats) -> (r:
        ExecuteStep)
        requires
            old(run).expects(event),
            path::parent_of(self.target@) is Some,
        ensures
            *final(run) == (Execution { state: old(run).next(event).0, ..*old(run) }),
            r == old(run).next(event).1,
            *final(stats) == old(run).counted(*old(stats), event, self@),
    {
        let (state, step) = match event {
            ExecuteEvent::Start => (ExecuteState::CheckingParent, ExecuteStep::CheckParent),
            ExecuteEvent::ParentExists(there) => {
                if there || run.dry_run {
                    (ExecuteState::CheckingTarget, ExecuteStep::CheckTarget)
                } else {
                    (ExecuteState::MakingParent, ExecuteStep::MakeParent)
                }
            },
            ExecuteEvent::ParentMade { ok } => {
                if ok {
                    (ExecuteState::CheckingTarget, ExecuteStep::CheckTarget)
                } else {
                    (ExecuteState::Ended, ExecuteStep::Finish(None))
                }
            },
            ExecuteEvent::TargetExists(there) => {
                if there {
                    (ExecuteState::Resolving, ExecuteStep::Resolve)
                } else if run.dry_run {
                    (ExecuteState::Pausing, ExecuteStep::Pause { seconds: DRY_RUN_PAUSE })
                } else {
                    (ExecuteState::Copying(Outcome::Copied), ExecuteStep::Copy)
                }
            },
            ExecuteEvent::Resolved(resolution) => match resolution {
                ConflictResolution::Overwrite => {
                    if run.dry_run {
                        (ExecuteState::Ended, ExecuteStep::Finish(Some(Outcome::Overwritten)))
                    } else {
                        (ExecuteState::Copying(Outcome::Overwritten), ExecuteStep::Copy)
                    }
                },
                ConflictResolution::Skip => (
                    ExecuteState::Ended,
                    ExecuteStep::Finish(Some(Outcome::Skipped)),
                ),
                ConflictResolution::Quit => (
                    ExecuteState::Ended,
                    ExecuteStep::Finish(Some(Outcome::Quit)),
                ),
            },
            ExecuteEvent::Copied { ok } => match run.state {
                ExecuteState::Copying(outcome) if ok => (
                    ExecuteState::Ended,
                    ExecuteStep::Finish(Some(outcome)),
                ),
                _ => (ExecuteState::Ended, ExecuteStep::Finish(None)),
            },
            ExecuteEvent::Paused => (
                ExecuteState::Ended,
                ExecuteStep::Finish(Some(Outcome::Copied)),
            ),
        };
        if let ExecuteStep::Finish(Some(outcome)) = step {
            let job = walker::CopyJob {
                relative: self.shared_path(),
                bytes: run.bytes,
                dehydrated: false,
            };
            stats.record_in(&job, &JobResult { outcome, retries: 0 }, run.dry_run);
        }
        run.state = state;
        step
    }
}

/// How many more events a copy can take at most.
pub open spec fn events_left(state: ExecuteState) -> nat {
    match state {
        ExecuteState::New => 6,
        ExecuteState::CheckingParent => 5,
        ExecuteState::MakingParent => 4,
        ExecuteState::CheckingTarget => 3,
        ExecuteState::Resolving => 2,
        ExecuteState::Copying(_) => 1,
        ExecuteState::Pausing => 1,
        ExecuteState::Ended => 0,
    }
}

/// Every copy ends: each event leaves fewer to come, and the last step says that it is over.
pub proof fn law_every_execution_ends(run: Execution, event: ExecuteEvent)
    requires
        run.expects(event),
    ensures
        events_left(run.next(event).0) < events_left(run.state),
        run.next(event).1 is Finish <==> run.next(event).0 is Ended,
{
}

/// A dry run neither makes a directory nor copies anything, whatever it finds out.
pub proof fn law_dry_run_writes_nothing(run: Execution, event: ExecuteEvent)
    requires
        run.dry_run,
    ensures
        !(run.next(event).1 is MakeParent),
        !(run.next(event).1 is Copy),
{
}

/// What a walk found at one place.
#[derive(Debug, PartialEq, Eq)]
pub enum WalkEntry {
    Unreadable,
    /// A path, and whether it leads to a directory.
    Found { path: PathBuf, is_dir: bool },
}

/// What a walk could read, in order.
pub open spec fn readable(entries: Seq<WalkEntry>) -> Seq<(Written, bool)>
    decreases entries.len(),
{
    if entries.len() == 0 {
        Seq::empty()
    } else {
        match entries.last() {
            WalkEntry::Found { path, is_dir } => readable(entries.drop_last()).push((path@, is_dir)),
            WalkEntry::Unreadable => readable(entries.drop_last()),
        }
    }
}

/// What a walk could read below its root, which is the first thing that it reads.
pub open spec fn below_root(entries: Seq<WalkEntry>) -> Seq<(Written, bool)> {
    let found = readable(entries);
    if found.len() > 0 {
        found.skip(1)
    } else {
        found
    }
}

/// More entries never take anything back that was planned.
proof fn lemma_plans_grow(
    entries: Seq<WalkEntry>,
    i: int,
    source: Written,
    target: Written,
)
    requires
        0 <= i <= entries.len(),
    ensures
        planned(below_root(entries.take(i)), source, target).0.len() <= planned(
            below_root(entries),
            source,
            target,
        ).0.len(),
    decreases entries.len() - i,
{
    if i < entries.len() {
        lemma_plans_grow(entries, i + 1, source, target);
        let front = entries.take(i);
        let more = entries.take(i + 1);
        assert(more.drop_last() =~= front);
        assert(more.last() == entries[i]);
        let before = readable(front);
        let after = readable(more);
        if before.len() > 0 && after.len() > before.len() {
            assert(below_root(more).drop_last() =~= below_root(front));
        } else if after.len() > before.len() {
            assert(below_root(more) =~= below_root(front));
        }
    } else {
        assert(entries.take(i) =~= entries);
    }
}

/// The copies for what a walk found, up to the first file outside the source root, and whether
/// there was none.
pub open spec fn planned(found: Seq<(Written, bool)>, source: Written, target: Written) -> (
    Seq<Copying>,
    bool,
)
    decreases found.len(),
{
    if found.len() == 0 {
        (Seq::empty(), true)
    } else {
        let (jobs, ok) = planned(found.drop_last(), source, target);
        let (p, is_dir) = found.last();
        if !ok {
            (jobs, false)
        } else if is_dir {
            (jobs, true)
        } else if path::starts_with(p, source) {
            (
                jobs.push(
                    Copying {
                        source: p,
                        target: path::joined(target, path::stripped(p, source)),
                    },
                ),
                true,
            )
        } else {
            (jobs, false)
        }
    }
}

/// What each of some copies stands for.
pub open spec fn copy_views(jobs: Seq<CopyJob>) -> Seq<Copying> {
    jobs.map_values(|j: CopyJob| j@)
}

/// Why no copy came out of the queue.
#[derive(Debug, Clone, Copy, PartialEq, Eq, Structural)]
pub enum PopError {
    /// Nothing was put in for as long as anyone would wait.
    Timeout,
}

/// What is waiting after the next copy was taken, if there was one.
pub open spec fn after_pop(waiting: Seq<Copying>) -> Seq<Copying> {
    if waiting.len() > 0 {
        waiting.skip(1)
    } else {
        waiting
    }
}

/// Copies waiting to be made, first in, first out.
pub struct JobQueue {
    pub target_root: PathBuf,
    pub source_root: PathBuf,
    /// How many copies are waiting.
    pub jobs: u32,
    pub queue: VecDeque<CopyJob>,
}

impl JobQueue {
    /// The waiting copies, the next one first.
    pub open spec fn waiting(self) -> Seq<Copying> {
        copy_views(self.queue@)
    }

    /// The count is right.
    pub open spec fn wf(self) -> bool {
        self.jobs == self.waiting().len()
    }

    pub fn new(source: PathBuf, target: PathBuf) -> (r: Self)
        ensures
            r.wf(),
            r.waiting() == Seq::<Copying>::empty(),
            r.source_root == source,
            r.target_root == target,
    {
        let r = JobQueue {
            source_root: source,
            target_root: target,
            jobs: 0,
            queue: VecDeque::new(),
        };
        assert(r.waiting() =~= Seq::empty());
        r
    }

    /// Queues a copy of every file that a walk of the source root found. The first readable entry
    /// is the root itself. Stops with an error at a file outside the source root, what was queued
    /// before it stays.
    pub fn populate(&mut self, entries: &Vec<WalkEntry>) -> (r: Result<(), IoError>)
        requires
            old(self).wf(),
            old(self).jobs + planned(
                below_root(entries@),
                old(self).source_root@,
                old(self).target_root@,
            ).0.len() <= u32::MAX,
        ensures
            final(self).wf(),
            final(self).source_root == old(self).source_root,
            final(self).target_root == old(self).target_root,
            ({
                let (jobs, ok) = planned(
                    below_root(entries@),
                    old(self).source_root@,
                    old(self).target_root@,
                );
                &&& final(self).waiting() == old(self).waiting() + jobs
                &&& r is Ok <==> ok
                &&& r matches Err(e) ==> e == IoError {
                    kind: ErrorKind::NotFound,
                    raw_os_error: None,
                }
            }),
    {
        let ghost source = self.source_root@;
        let ghost target = self.target_root@;
        let mut i: usize = 0;
        let mut root_seen = false;
        let mut ok = true;
        let ghost mut below: Seq<(Written, bool)> = Seq::empty();
        assert(self.waiting() =~= old(self).waiting() + planned(below, source, target).0);
        while i < entries.len()
            invariant
                i <= entries.len(),
                self.wf(),
                old(self).jobs + planned(below_root(entries@), source, target).0.len() <= u32::MAX,
                old(self).wf(),
                self.source_root == old(self).source_root,
                self.target_root == old(self).target_root,
                source == self.source_root@,
                target == self.target_root@,
                root_seen == (readable(entries@.take(i as int)).len() > 0),
                below == below_root(entries@.take(i as int)),
                self.waiting() == old(self).waiting() + planned(below, source, target).0,
                ok == planned(below, source, target).1,
            decreases entries.len() - i,
        {
            assert(entries@.take(i + 1).drop_last() =~= entries@.take(i as int));
            assert(entries@.take(i + 1).last() == entries@[i as int]);
            proof {
                lemma_plans_grow(entries@, i + 1, source, target);
            }
            if let WalkEntry::Found { path, is_dir } = &entries[i] {
                let ghost found = readable(entries@.take(i as int));
                if !root_seen {
                    root_seen = true;
                    assert(found.push((path@, *is_dir)).skip(1) =~= found);
                } else {
                    let ghost front = below;
                    proof {
                        below = front.push((path@, *is_dir));
                        assert(below.drop_last() =~= front);
                        assert(found.push((path@, *is_dir)).skip(1) =~= below);
                    }
                    if ok && !*is_dir {
                        match path.strip_prefix(&self.source_root) {
                            Some(rest) => {
                                let destination = self.target_root.join(&rest);
                                let job = CopyJob::new(path.clone(), destination);
                                self.push(job);
                                assert(self.waiting() =~= old(self).waiting() + planned(
                                    below,
                                    source,
                                    target,
                                ).0);
                            },
                            None => {
                                ok = false;
                            },
                        }
                    }
                }
            }
            i = i + 1;
        }
        assert(entries@.take(entries.len() as int) =~= entries@);
        if ok {
            Ok(())
        } else {
            Err(IoError { kind: ErrorKind::NotFound, raw_os_error: None })
        }
    }

    /// Puts a copy at the end of the queue.
    pub fn push(&mut self, job: CopyJob)
        requires
            old(self).wf(),
            old(self).jobs < u32::MAX,
        ensures
            final(self).wf(),
            final(self).waiting() == old(self).waiting().push(job@),
            final(self).source_root == old(self).source_root,
            final(self).target_root == old(self).target_root,
    {
        self.queue.push_back(job);
        self.jobs = self.jobs + 1;
        assert(self.waiting() =~= old(self).waiting().push(job@));
    }

    /// Takes the copy that has waited longest. The queue owns both of its ends, so an empty queue
    /// is the only way to come away with nothing.
    pub fn pop(&mut self) -> (r: Result<CopyJob, PopError>)
        requires
            old(self).wf(),
        ensures
            final(self).wf(),
            final(self).source_root == old(self).source_root,
            final(self).target_root == old(self).target_root,
            final(self).waiting() == after_pop(old(self).waiting()),
            r is Ok <==> old(self).waiting().len() > 0,
            match r {
                Ok(job) => job@ == old(self).waiting()[0],
                Err(e) => e is Timeout,
            },
    {
        match self.queue.pop_front() {
            Some(job) => {
                self.jobs = self.jobs - 1;
                assert(self.waiting() =~= old(self).waiting().skip(1));
                Ok(job)
            },
            None => {
                assert(self.waiting() =~= old(self).waiting());
                Err(PopError::Timeout)
            },
        }
    }

    /// The next copy, if there is one.
    pub fn next(&mut self) -> (r: Option<CopyJob>)
        requires
            old(self).wf(),
        ensures
            final(self).wf(),
            final(self).source_root == old(self).source_root,
            final(self).target_root == old(self).target_root,
            final(self).waiting() == after_pop(old(self).waiting()),
            r is Some <==> old(self).waiting().len() > 0,
            r matches Some(job) ==> job@ == old(self).waiting()[0],
    {
        match self.pop() {
            Ok(job) => Some(job),
            Err(_) => None,
        }
    }
}

/// One use of a queue.
pub enum QueueUse {
    Push(Copying),
    Pop,
}

/// What is waiting after some uses of a queue, and what came out of it.
pub open spec fn used(start: Seq<Copying>, uses: Seq<QueueUse>) -> (Seq<Copying>, Seq<Copying>)
    decreases uses.len(),
{
    if uses.len() == 0 {
        (start, Seq::empty())
    } else {
        let (waiting, out) = used(start, uses.drop_last());
        match uses.last() {
            QueueUse::Push(job) => (waiting.push(job), out),
            QueueUse::Pop => (
                after_pop(waiting),
                if waiting.len() > 0 {
                    out.push(waiting[0])
                } else {
                    out
                },
            ),
        }
    }
}

/// What was put in by some uses of a queue.
pub open spec fn pushed(uses: Seq<QueueUse>) -> Seq<Copying>
    decreases uses.len(),
{
    if uses.len() == 0 {
        Seq::empty()
    } else {
        match uses.last() {
            QueueUse::Push(job) => pushed(uses.drop_last()).push(job),
            QueueUse::Pop => pushed(uses.drop_last()),
        }
    }
}

/// Copies come out in the order in which they were put in, and none is lost.
pub proof fn law_queue_keeps_the_order(start: Seq<Copying>, uses: Seq<QueueUse>)
    ensures
        used(start, uses).1 + used(start, uses).0 == start + pushed(uses),
    decreases uses.len(),
{
    if uses.len() > 0 {
        law_queue_keeps_the_order(start, uses.drop_last());
        let (waiting, out) = used(start, uses.drop_last());
        assert(used(start, uses).1 + used(start, uses).0 =~= match uses.last() {
            QueueUse::Push(job) => (out + waiting).push(job),
            QueueUse::Pop => out + waiting,
        });
        assert(start + pushed(uses) =~= match uses.last() {
            QueueUse::Push(job) => (start + pushed(uses.drop_last())).push(job),
            QueueUse::Pop => start + pushed(uses.drop_last()),
        });
    } else {
        assert(Seq::<Copying>::empty() + start =~= start + Seq::<Copying>::empty());
    }
}

/// Every planned copy starts at a found file, and ends below the target root where the file lies
/// below the source root.
pub proof fn law_planned_copies_mirror_the_tree(
    found: Seq<(Written, bool)>,
    source: Written,
    target: Written,
)
    ensures
        forall|i: int|
            0 <= i < planned(found, source, target).0.len() ==> {
                let job = #[trigger] planned(found, source, target).0[i];
                &&& found.contains((job.source, false))
                &&& path::starts_with(job.source, source)
                &&& job.target == path::joined(target, path::stripped(job.source, source))
            },
        planned(found, source, target).1 ==> forall|k: int|
            0 <= k < found.len() && !(#[trigger] found[k]).1 ==> path::starts_with(found[k].0, source),
    decreases found.len(),
{
    if found.len() > 0 {
        let front = found.drop_last();
        law_planned_copies_mirror_the_tree(front, source, target);
        let before = planned(front, source, target).0;
        let jobs = planned(found, source, target).0;
        assert forall|i: int| 0 <= i < jobs.len() implies {
            let job = #[trigger] jobs[i];
            &&& found.contains((job.source, false))
            &&& path::starts_with(job.source, source)
            &&& job.target == path::joined(target, path::stripped(job.source, source))
        } by {
            if i < before.len() {
                assert(jobs[i] == before[i]);
                let k = choose|k: int| 0 <= k < front.len() && front[k] == (before[i].source, false);
                assert(found[k] == (before[i].source, false));
            } else {
                assert(found[found.len() - 1] == (jobs[i].source, false));
            }
        }
        assert forall|k: int|
            planned(found, source, target).1 && 0 <= k < found.len() && !(
            #[trigger] found[k]).1 implies path::starts_with(found[k].0, source) by {
            if k < front.len() {
                assert(front[k] == found[k]);
            }
        }
    }
}

/// The world that a copy runs in: what each question would be answered.
pub struct ExecuteWorld {
    pub parent_exists: bool,
    pub parent_made: bool,
    pub target_exists: bool,
    pub resolution: ConflictResolution,
    pub copy_ok: bool,
}

impl ExecuteWorld {
    /// The event that answers a step.
    pub open spec fn answer(self, step: ExecuteStep) -> ExecuteEvent {
        match step {
            ExecuteStep::CheckParent => ExecuteEvent::ParentExists(self.parent_exists),
            ExecuteStep::MakeParent => ExecuteEvent::ParentMade { ok: self.parent_made },
            ExecuteStep::CheckTarget => ExecuteEvent::TargetExists(self.target_exists),
            ExecuteStep::Resolve => ExecuteEvent::Resolved(self.resolution),
            ExecuteStep::Copy => ExecuteEvent::Copied { ok: self.copy_ok },
            ExecuteStep::Pause { .. } => ExecuteEvent::Paused,
            ExecuteStep::Finish(_) => ExecuteEvent::Start,
        }
    }
}

/// The steps that a copy takes in a world, from an event on.
pub open spec fn steps_of(
    run: Execution,
    event: ExecuteEvent,
    world: ExecuteWorld,
    fuel: nat,
) -> Seq<ExecuteStep>
    decreases fuel,
{
    let (state, step) = run.next(event);
    if fuel == 0 || step is Finish {
        seq![step]
    } else {
        seq![step] + steps_of(
            Execution { state, ..run },
            world.answer(step),
            world,
            (fuel - 1) as nat,
        )
    }
}

/// All steps of one copy. None takes more than six.
pub open spec fn copy_steps(bytes: u64, dry_run: bool, world: ExecuteWorld) -> Seq<ExecuteStep> {
    steps_of(
        Execution { state: ExecuteState::New, dry_run, bytes },
        ExecuteEvent::Start,
        world,
        6,
    )
}

/// A copy makes the target's directory where it is missing, and then copies a file without a
/// conflict, and one whose target is to be replaced. An error on the way ends it without a result.
/// The file's size does not matter.
pub proof fn law_steps_of_a_copy(bytes: u64, world: ExecuteWorld)
    ensures
        ({
            let steps = copy_steps(bytes, false, world);
            let made = if world.parent_exists {
                seq![ExecuteStep::CheckParent]
            } else {
                seq![ExecuteStep::CheckParent, ExecuteStep::MakeParent]
            };
            let result = |outcome: Outcome|
                if world.copy_ok {
                    Some(outcome)
                } else {
                    None
                };
            steps == if !world.parent_exists && !world.parent_made {
                made + seq![ExecuteStep::Finish(None)]
            } else if !world.target_exists {
                made + seq![
                    ExecuteStep::CheckTarget,
                    ExecuteStep::Copy,
                    ExecuteStep::Finish(result(Outcome::Copied)),
                ]
            } else {
                match world.resolution {
                    ConflictResolution::Overwrite => made + seq![
                        ExecuteStep::CheckTarget,
                        ExecuteStep::Resolve,
                        ExecuteStep::Copy,
                        ExecuteStep::Finish(result(Outcome::Overwritten)),
                    ],
                    ConflictResolution::Skip => made + seq![
                        ExecuteStep::CheckTarget,
                        ExecuteStep::Resolve,
                        ExecuteStep::Finish(Some(Outcome::Skipped)),
                    ],
                    ConflictResolution::Quit => made + seq![
                        ExecuteStep::CheckTarget,
                        ExecuteStep::Resolve,
                        ExecuteStep::Finish(Some(Outcome::Quit)),
                    ],
                }
            }
        }),
{
    reveal_with_fuel(steps_of, 7);
}

/// A dry run looks at the target whether its directory is there or not, and says of each file what
/// a run that writes would, if every copy worked out. It pauses where the other copies a new file.
pub proof fn law_steps_of_a_dry_run(bytes: u64, world: ExecuteWorld)
    ensures
        copy_steps(bytes, true, world) == if !world.target_exists {
            seq![
                ExecuteStep::CheckParent,
                ExecuteStep::CheckTarget,
                ExecuteStep::Pause { seconds: 3 },
                ExecuteStep::Finish(Some(Outcome::Copied)),
            ]
        } else {
            seq![
                ExecuteStep::CheckParent,
                ExecuteStep::CheckTarget,
                ExecuteStep::Resolve,
                ExecuteStep::Finish(
                    Some(
                        match world.resolution {
                            ConflictResolution::Overwrite => Outcome::Overwritten,
                            ConflictResolution::Skip => Outcome::Skipped,
                            ConflictResolution::Quit => Outcome::Quit,
                        },
                    ),
                ),
            ]
        },
{
    reveal_with_fuel(steps_of, 7);
}

/// After each step a copy waits for what answers it and for nothing else, and after the last one for
/// nothing at all.
pub proof fn law_copy_waits_for_the_answer(run: Execution, event: ExecuteEvent, next: ExecuteEvent)
    ensures
        ({
            let (state, step) = run.next(event);
            let after = Execution { state, ..run };
            after.expects(next) <==> match step {
                ExecuteStep::CheckParent => next is ParentExists,
                ExecuteStep::MakeParent => next is ParentMade,
                ExecuteStep::CheckTarget => next is TargetExists,
                ExecuteStep::Resolve => next is Resolved,
                ExecuteStep::Copy => next is Copied,
                ExecuteStep::Pause { .. } => next is Paused,
                ExecuteStep::Finish(_) => false,
            }
        }),
        (Execution { state: ExecuteState::New, ..run }).expects(next) <==> next is Start,
{
}

/// A copy that ends without an error is counted once, with its size, under what became of the file.
/// Nothing else is counted, and nothing counts as pulled down or tried again.
pub proof fn law_only_ended_copies_are_counted(
    run: Execution,
    event: ExecuteEvent,
    stats: Stats,
    job: Copying,
)
    requires
        run.expects(event),
    ensures
        ({
            let after = run.counted(stats, event, job);
            match run.next(event).1 {
                ExecuteStep::Finish(Some(Outcome::Copied)) => after == (Stats {
                    files_copied: counter::wrapped(stats.files_copied + 1),
                    bytes_copied: counter::wrapped(stats.bytes_copied + run.bytes),
                    ..stats
                }),
                ExecuteStep::Finish(Some(Outcome::Overwritten)) => after == (Stats {
                    files_overwritten: counter::wrapped(stats.files_overwritten + 1),
                    bytes_overwritten: counter::wrapped(stats.bytes_overwritten + run.bytes),
                    ..stats
                }),
                ExecuteStep::Finish(Some(Outcome::Skipped)) => after == (Stats {
                    files_skipped: counter::wrapped(stats.files_skipped + 1),
                    bytes_skipped: counter::wrapped(stats.bytes_skipped + run.bytes),
                    ..stats
                }),
                ExecuteStep::Finish(Some(Outcome::Quit)) => after == stats,
                ExecuteStep::Finish(Some(_)) => run.state is Copying,
                _ => after == stats,
            }
        }),
{
}

/// What a walk could read is what it found, in order, each path as it was found.
pub proof fn law_walk_reads_exactly_what_it_found(entries: Seq<WalkEntry>)
    ensures
        readable(entries) == entries.filter(|e: WalkEntry| e is Found).map_values(
            |e: WalkEntry| (e->path@, e->is_dir),
        ),
        readable(entries).len() == 0 ==> below_root(entries).len() == 0,
        readable(entries).len() > 0 ==> seq![readable(entries)[0]] + below_root(entries)
            == readable(entries),
    decreases entries.len(),
{
    reveal(Seq::filter);
    if entries.len() > 0 {
        law_walk_reads_exactly_what_it_found(entries.drop_last());
    }
    assert(readable(entries) =~= entries.filter(|e: WalkEntry| e is Found).map_values(
        |e: WalkEntry| (e->path@, e->is_dir),
    ));
    if readable(entries).len() > 0 {
        assert(seq![readable(entries)[0]] + below_root(entries) =~= readable(entries));
    }
}

/// Every file that was found is planned, in order, and no directory is, unless a file lies outside
/// the source root.
pub proof fn law_every_found_file_is_planned(
    found: Seq<(Written, bool)>,
    source: Written,
    target: Written,
)
    ensures
        planned(found, source, target).1 <==> forall|k: int|
            0 <= k < found.len() && !(#[trigger] found[k]).1 ==> path::starts_with(
                found[k].0,
                source,
            ),
        planned(found, source, target).1 ==> planned(found, source, target).0 == found.filter(
            |f: (Written, bool)| !f.1,
        ).map_values(
            |f: (Written, bool)|
                Copying { source: f.0, target: path::joined(target, path::stripped(f.0, source)) },
        ),
    decreases found.len(),
{
    reveal(Seq::filter);
    if found.len() > 0 {
        let front = found.drop_last();
        law_every_found_file_is_planned(front, source, target);
        assert(forall|k: int| 0 <= k < front.len() ==> front[k] == found[k]);
        assert(found.last() == found[found.len() - 1]);
        if !planned(front, source, target).1 {
            let k = choose|k: int|
                0 <= k < front.len() && !(#[trigger] front[k]).1 && !path::starts_with(
                    front[k].0,
                    source,
                );
            assert(found[k] == front[k]);
        } else {
            assert forall|k: int|
                planned(found, source, target).1 && 0 <= k < found.len() && !(
                #[trigger] found[k]).1 implies path::starts_with(found[k].0, source) by {
                if k < front.len() {
                    assert(front[k] == found[k]);
                }
            }
        }
    }
    if planned(found, source, target).1 {
        assert(planned(found, source, target).0 =~= found.filter(
            |f: (Written, bool)| !f.1,
        ).map_values(
            |f: (Written, bool)|
                Copying { source: f.0, target: path::joined(target, path::stripped(f.0, source)) },
        ));
    }
}

/// The first file outside the source root ends the planning: what was found before it is planned,
/// and nothing behind it.
pub proof fn law_planning_stops_at_the_first_escape(
    found: Seq<(Written, bool)>,
    k: int,
    source: Written,
    target: Written,
)
    requires
        0 <= k < found.len(),
        !found[k].1,
        !path::starts_with(found[k].0, source),
        forall|j: int|
            0 <= j < k && !(#[trigger] found[j]).1 ==> path::starts_with(found[j].0, source),
    ensures
        !planned(found, source, target).1,
        planned(found, source, target).0 == planned(found.take(k), source, target).0,
        planned(found.take(k), source, target).1,
    decreases found.len(),
{
    let before = found.take(k);
    assert(forall|j: int| 0 <= j < k ==> before[j] == found[j]);
    law_every_found_file_is_planned(before, source, target);
    if k == found.len() - 1 {
        assert(found.drop_last() =~= before);
    } else {
        let front = found.drop_last();
        assert(front.take(k) =~= before);
        assert(forall|j: int| 0 <= j < front.len() ==> front[j] == found[j]);
        law_planning_stops_at_the_first_escape(front, k, source, target);
    }
}

/// The label shows the whole path that source and target share; a dry run only puts a mark in front
/// of it.
pub proof fn law_label_shows_the_shared_path(job: Copying)
    ensures
        label_text(job, false) == path::displayed(shared(job)),
        label_text(job, true) == "DRY RUN: "@ + label_text(job, false),
{
    reveal_strlit("");
    assert(""@ + path::displayed(shared(job)) =~= path::displayed(shared(job)));
}

/// The path that source and target share has the components of the longest tail that they have in
/// common. Left out are `.` and `..` behind a verbatim prefix.
pub proof fn law_shared_path_is_the_common_tail(job: Copying)
    requires
        path::in_normal_form(job.source.parts()),
        path::is_verbatim(job.source.parts()) ==> path::is_free_of_dots(
            common_tail(job.source.parts(), job.target.parts()),
        ),
    ensures
        shared(job).parts() == common_tail(job.source.parts(), job.target.parts()),
        shared(job).platform == job.source.platform,
{
    let a = job.source.parts();
    let tail = common_tail(a, job.target.parts());
    let n = tail.len() as int;
    law_common_tail_is_the_longest(a, job.target.parts());
    assert(forall|i: int| 0 <= i < n ==> tail[i] == a[a.len() - n + i]);
    path::law_where_components_can_stand(a);
    path::law_where_components_can_stand(tail);
    path::law_verbatim_paths_begin_so(tail);
    path::law_verbatim_paths_begin_so(a);
    if n == a.len() {
        assert(tail =~= a);
    }
    path::law_paths_are_made_of_their_components(tail, job.source.platform);
}

} // verus!
