//! Two-lane dispatch for network I/O (dehydrated files, online) and disk I/O (hydrated or local
//! files).

use vstd::prelude::*;

use crate::counter;
use crate::job::{JobResult, Outcome};
use crate::size;
use crate::walker::{CopyJob, Job, Roots};

verus! {

/// How often the free-space guard re-checks, in completed files.
pub const SPACE_CHECK_INTERVAL: u64 = 500;

/// What happened so far. Counters wrap around.
#[derive(Debug, Clone, Copy, PartialEq, Eq, Structural)]
pub struct Stats {
    pub files_copied: u64,
    pub files_skipped: u64,
    pub files_overwritten: u64,
    pub files_failed: u64,
    /// Dry run only: conflicts that would have prompted.
    pub files_would_prompt: u64,
    pub bytes_copied: u64,
    pub bytes_skipped: u64,
    pub bytes_overwritten: u64,
    /// Bytes pulled down from cloud storage.
    pub bytes_hydrated: u64,
    pub files_hydrated: u64,
    pub retries: u64,
}

/// Nothing happened yet.
pub open spec fn no_stats() -> Stats {
    Stats {
        files_copied: 0,
        files_skipped: 0,
        files_overwritten: 0,
        files_failed: 0,
        files_would_prompt: 0,
        bytes_copied: 0,
        bytes_skipped: 0,
        bytes_overwritten: 0,
        bytes_hydrated: 0,
        files_hydrated: 0,
        retries: 0,
    }
}

/// Whether the file's bytes were moved. A dry run moves nothing, whatever it counts a file as.
pub open spec fn transfers(outcome: Outcome, dry_run: bool) -> bool {
    !dry_run && (outcome is Copied || outcome is Overwritten)
}

/// A counter moved on by `by` if the condition holds.
pub open spec fn counted_if(n: u64, by: int, condition: bool) -> u64 {
    if condition {
        counter::wrapped(n + by)
    } else {
        n
    }
}

/// The counters after one more job of a run that writes.
pub open spec fn recorded(s: Stats, job: Job, result: JobResult) -> Stats {
    recorded_in(s, job, result, false)
}

/// The counters after one more job.
pub open spec fn recorded_in(s: Stats, job: Job, result: JobResult, dry_run: bool) -> Stats {
    let outcome = result.outcome;
    let bytes = job.bytes as int;
    let hydrates = job.dehydrated && transfers(outcome, dry_run);
    Stats {
        files_copied: counted_if(s.files_copied, 1, outcome is Copied),
        files_skipped: counted_if(s.files_skipped, 1, outcome is Skipped),
        files_overwritten: counted_if(s.files_overwritten, 1, outcome is Overwritten),
        files_failed: counted_if(s.files_failed, 1, outcome is Failed),
        files_would_prompt: counted_if(s.files_would_prompt, 1, outcome is WouldPrompt),
        bytes_copied: counted_if(s.bytes_copied, bytes, outcome is Copied),
        bytes_skipped: counted_if(s.bytes_skipped, bytes, outcome is Skipped),
        bytes_overwritten: counted_if(s.bytes_overwritten, bytes, outcome is Overwritten),
        bytes_hydrated: counted_if(s.bytes_hydrated, bytes, hydrates),
        files_hydrated: counted_if(s.files_hydrated, 1, hydrates),
        retries: counter::wrapped(s.retries + result.retries),
    }
}

impl Stats {
    pub fn new() -> (r: Self)
        ensures
            r == no_stats(),
    {
        Stats {
            files_copied: 0,
            files_skipped: 0,
            files_overwritten: 0,
            files_failed: 0,
            files_would_prompt: 0,
            bytes_copied: 0,
            bytes_skipped: 0,
            bytes_overwritten: 0,
            bytes_hydrated: 0,
            files_hydrated: 0,
            retries: 0,
        }
    }

    /// Counts a job of a run that writes.
    pub fn record(&mut self, job: &CopyJob, result: &JobResult)
        ensures
            *final(self) == recorded(*old(self), job@, *result),
    {
        self.record_in(job, result, false);
    }

    /// Counts a job.
    pub fn record_in(&mut self, job: &CopyJob, result: &JobResult, dry_run: bool)
        ensures
            *final(self) == recorded_in(*old(self), job@, *result, dry_run),
    {
        let bytes: u64 = job.bytes;
        self.retries = counter::bumped(self.retries, result.retries as u64);

        match result.outcome {
            Outcome::Copied => {
                self.files_copied = counter::bumped(self.files_copied, 1);
                self.bytes_copied = counter::bumped(self.bytes_copied, bytes);
            },
            Outcome::Overwritten => {
                self.files_overwritten = counter::bumped(self.files_overwritten, 1);
                self.bytes_overwritten = counter::bumped(self.bytes_overwritten, bytes);
            },
            Outcome::Skipped => {
                self.files_skipped = counter::bumped(self.files_skipped, 1);
                self.bytes_skipped = counter::bumped(self.bytes_skipped, bytes);
                return;  // Nothing was transferred, so nothing was hydrated.
            },
            Outcome::Failed => {
                self.files_failed = counter::bumped(self.files_failed, 1);
                return;
            },
            Outcome::WouldPrompt => {
                self.files_would_prompt = counter::bumped(self.files_would_prompt, 1);
                return;
            },
            Outcome::Quit => {
                return;
            },
        }

        // A dry run pulls nothing down either.
        if job.dehydrated && !dry_run {
            self.files_hydrated = counter::bumped(self.files_hydrated, 1);
            self.bytes_hydrated = counter::bumped(self.bytes_hydrated, bytes);
        }
    }
}

/// The counters after some jobs.
pub open spec fn recorded_all(done: Seq<(Job, JobResult)>, dry_run: bool) -> Stats
    decreases done.len(),
{
    if done.len() == 0 {
        no_stats()
    } else {
        recorded_in(
            recorded_all(done.drop_last(), dry_run),
            done.last().0,
            done.last().1,
            dry_run,
        )
    }
}

/// How many of some jobs had the given outcome.
pub open spec fn files_with(done: Seq<(Job, JobResult)>, outcome: Outcome) -> int
    decreases done.len(),
{
    if done.len() == 0 {
        0
    } else {
        files_with(done.drop_last(), outcome) + if done.last().1.outcome == outcome {
            1int
        } else {
            0
        }
    }
}

/// How many bytes the jobs with the given outcome had.
pub open spec fn bytes_with(done: Seq<(Job, JobResult)>, outcome: Outcome) -> int
    decreases done.len(),
{
    if done.len() == 0 {
        0
    } else {
        bytes_with(done.drop_last(), outcome) + if done.last().1.outcome == outcome {
            done.last().0.bytes as int
        } else {
            0
        }
    }
}

/// How many placeholders were pulled down.
pub open spec fn files_pulled(done: Seq<(Job, JobResult)>, dry_run: bool) -> int
    decreases done.len(),
{
    if done.len() == 0 {
        0
    } else {
        files_pulled(done.drop_last(), dry_run) + if done.last().0.dehydrated && !dry_run && (
        done.last().1.outcome is Copied || done.last().1.outcome is Overwritten) {
            1int
        } else {
            0
        }
    }
}

/// How many bytes the placeholders that were pulled down had.
pub open spec fn bytes_pulled(done: Seq<(Job, JobResult)>, dry_run: bool) -> int
    decreases done.len(),
{
    if done.len() == 0 {
        0
    } else {
        bytes_pulled(done.drop_last(), dry_run) + if done.last().0.dehydrated && !dry_run && (
        done.last().1.outcome is Copied || done.last().1.outcome is Overwritten) {
            done.last().0.bytes as int
        } else {
            0
        }
    }
}

/// How many retries some jobs took.
pub open spec fn retries_in(done: Seq<(Job, JobResult)>) -> int
    decreases done.len(),
{
    if done.len() == 0 {
        0
    } else {
        retries_in(done.drop_last()) + done.last().1.retries
    }
}

/// The counters add up: each is the number of jobs, or of their bytes, that had its outcome or
/// were pulled down, and every retry is counted.
pub proof fn law_stats_add_up(done: Seq<(Job, JobResult)>, dry_run: bool)
    ensures
        ({
            let s = recorded_all(done, dry_run);
            &&& s.files_copied == counter::wrapped(files_with(done, Outcome::Copied))
            &&& s.files_overwritten == counter::wrapped(files_with(done, Outcome::Overwritten))
            &&& s.files_skipped == counter::wrapped(files_with(done, Outcome::Skipped))
            &&& s.files_failed == counter::wrapped(files_with(done, Outcome::Failed))
            &&& s.files_would_prompt == counter::wrapped(files_with(done, Outcome::WouldPrompt))
            &&& s.bytes_copied == counter::wrapped(bytes_with(done, Outcome::Copied))
            &&& s.bytes_overwritten == counter::wrapped(bytes_with(done, Outcome::Overwritten))
            &&& s.bytes_skipped == counter::wrapped(bytes_with(done, Outcome::Skipped))
            &&& s.files_hydrated == counter::wrapped(files_pulled(done, dry_run))
            &&& s.bytes_hydrated == counter::wrapped(bytes_pulled(done, dry_run))
            &&& s.retries == counter::wrapped(retries_in(done))
        }),
    decreases done.len(),
{
    if done.len() > 0 {
        let front = done.drop_last();
        let bytes = done.last().0.bytes as int;
        law_stats_add_up(front, dry_run);
        counter::lemma_wrapped_add(files_with(front, Outcome::Copied), 1);
        counter::lemma_wrapped_add(files_with(front, Outcome::Overwritten), 1);
        counter::lemma_wrapped_add(files_with(front, Outcome::Skipped), 1);
        counter::lemma_wrapped_add(files_with(front, Outcome::Failed), 1);
        counter::lemma_wrapped_add(files_with(front, Outcome::WouldPrompt), 1);
        counter::lemma_wrapped_add(bytes_with(front, Outcome::Copied), bytes);
        counter::lemma_wrapped_add(bytes_with(front, Outcome::Overwritten), bytes);
        counter::lemma_wrapped_add(bytes_with(front, Outcome::Skipped), bytes);
        counter::lemma_wrapped_add(files_pulled(front, dry_run), 1);
        counter::lemma_wrapped_add(bytes_pulled(front, dry_run), bytes);
        counter::lemma_wrapped_add(retries_in(front), done.last().1.retries as int);
    }
}

/// Every job is counted under exactly one outcome.
pub proof fn law_every_job_has_one_outcome(done: Seq<(Job, JobResult)>)
    ensures
        files_with(done, Outcome::Copied) + files_with(done, Outcome::Overwritten) + files_with(
            done,
            Outcome::Skipped,
        ) + files_with(done, Outcome::Failed) + files_with(done, Outcome::WouldPrompt) + files_with(
            done,
            Outcome::Quit,
        ) == done.len(),
    decreases done.len(),
{
    if done.len() > 0 {
        law_every_job_has_one_outcome(done.drop_last());
    }
}

/// A placeholder counts as pulled down from cloud storage, with all its bytes, exactly if its bytes
/// were moved.
pub proof fn law_only_moved_placeholders_hydrate(
    s: Stats,
    job: Job,
    result: JobResult,
    dry_run: bool,
)
    ensures
        ({
            let t = recorded_in(s, job, result, dry_run);
            let moved = !dry_run && (result.outcome is Copied || result.outcome is Overwritten);
            if job.dehydrated && moved {
                &&& t.files_hydrated == counter::wrapped(s.files_hydrated + 1)
                &&& t.bytes_hydrated == counter::wrapped(s.bytes_hydrated + job.bytes)
            } else {
                t.files_hydrated == s.files_hydrated && t.bytes_hydrated == s.bytes_hydrated
            }
        }),
{
}

/// A dry run pulls nothing down from cloud storage.
pub proof fn law_dry_run_hydrates_nothing(done: Seq<(Job, JobResult)>)
    ensures
        recorded_all(done, true).files_hydrated == 0,
        recorded_all(done, true).bytes_hydrated == 0,
    decreases done.len(),
{
    if done.len() > 0 {
        law_dry_run_hydrates_nothing(done.drop_last());
    }
}

/// A latch that holds new dispatch while something else owns the terminal.
#[derive(Debug, Clone, Copy, PartialEq, Eq, Structural)]
pub struct Gate {
    /// Guards that were handed out and not yet given back.
    pub holds: u64,
}

/// Keeps the latch held until it is given back.
#[derive(Debug, PartialEq, Eq)]
pub struct GateHold(());

/// What a waiter at the latch does.
#[derive(Debug, Clone, Copy, PartialEq, Eq, Structural)]
pub enum GateStep {
    Pass,
    /// Wait until a hold is given back, then look again.
    Wait,
}

/// One thing done to the latch.
pub enum GateUse {
    Hold,
    /// One of the guards was given back.
    Release,
}

/// How many guards are still out after all that was done to a latch.
pub open spec fn guards_out(uses: Seq<GateUse>) -> int
    decreases uses.len(),
{
    if uses.len() == 0 {
        0
    } else {
        guards_out(uses.drop_last()) + match uses.last() {
            GateUse::Hold => 1int,
            GateUse::Release => -1,
        }
    }
}

/// Whether only guards that were handed out were given back.
pub open spec fn is_latch_history(uses: Seq<GateUse>) -> bool
    decreases uses.len(),
{
    uses.len() == 0 || (is_latch_history(uses.drop_last()) && 0 <= guards_out(uses) <= u64::MAX)
}

impl Gate {
    pub open spec fn after(self, used: GateUse) -> Gate {
        match used {
            GateUse::Hold => Gate { holds: (self.holds + 1) as u64 },
            GateUse::Release => Gate {
                holds: if self.holds > 0 {
                    (self.holds - 1) as u64
                } else {
                    0
                },
            },
        }
    }

    /// The latch after all that was done to it, in order.
    pub open spec fn after_all(self, uses: Seq<GateUse>) -> Gate
        decreases uses.len(),
    {
        if uses.len() == 0 {
            self
        } else {
            self.after_all(uses.drop_last()).after(uses.last())
        }
    }

    pub open spec fn step(self) -> GateStep {
        if self.holds > 0 {
            GateStep::Wait
        } else {
            GateStep::Pass
        }
    }

    pub fn new() -> (r: Self)
        ensures
            r == (Gate { holds: 0 }),
    {
        Gate { holds: 0 }
    }

    /// Holds the latch until the returned guard is given back.
    pub fn hold(&mut self) -> (r: GateHold)
        requires
            old(self).holds < u64::MAX,
        ensures
            *final(self) == old(self).after(GateUse::Hold),
    {
        self.holds = self.holds + 1;
        GateHold(())
    }

    /// Takes a guard back. The latch opens with the last of them.
    pub fn release(&mut self, hold: GateHold)
        ensures
            *final(self) == old(self).after(GateUse::Release),
    {
        if self.holds > 0 {
            self.holds = self.holds - 1;
        }
    }

    /// What to do at the latch: an unheld one never blocks.
    pub fn wait_until_open(&self) -> (r: GateStep)
        ensures
            r == self.step(),
    {
        if self.holds > 0 {
            GateStep::Wait
        } else {
            GateStep::Pass
        }
    }
}

/// A waiter waits exactly while a guard is out: a latch that was held stays held until every guard
/// was given back.
pub proof fn law_latch_is_held_until_every_guard_is_back(uses: Seq<GateUse>)
    requires
        is_latch_history(uses),
    ensures
        (Gate { holds: 0 }).after_all(uses).holds == guards_out(uses),
        (Gate { holds: 0 }).after_all(uses).step() is Wait <==> guards_out(uses) > 0,
    decreases uses.len(),
{
    if uses.len() > 0 {
        law_latch_is_held_until_every_guard_is_back(uses.drop_last());
    }
}

/// Why the run ended.
#[derive(Debug, Clone, Copy, PartialEq, Eq, Structural)]
pub enum Completion {
    Finished,
    Interrupted,
    UserQuit,
    OutOfSpace,
}

/// Which of the two pools a job runs in.
#[derive(Debug, Clone, Copy, PartialEq, Eq, Structural)]
pub enum Lane {
    Local,
    Cloud,
}

/// The lane of a job.
pub open spec fn lane_of(job: Job) -> Lane {
    if job.dehydrated {
        Lane::Cloud
    } else {
        Lane::Local
    }
}

/// How many jobs may run at once in each lane.
#[derive(Debug, Clone, Copy, PartialEq, Eq, Structural)]
pub struct Lanes {
    pub local: usize,
    pub cloud: usize,
}

/// `n`, but not less than one.
pub open spec fn at_least_one(n: usize) -> usize {
    if n >= 1 {
        n
    } else {
        1
    }
}

impl Lanes {
    /// A lane that nothing could run in would never end, so each takes at least one job.
    pub fn new(local_jobs: usize, cloud_jobs: usize) -> (r: Self)
        ensures
            r.local == at_least_one(local_jobs),
            r.cloud == at_least_one(cloud_jobs),
            r.local >= 1 && r.cloud >= 1,
            local_jobs >= 1 ==> r.local == local_jobs,
            cloud_jobs >= 1 ==> r.cloud == cloud_jobs,
    {
        Lanes { local: local_jobs.max(1), cloud: cloud_jobs.max(1) }
    }

    pub fn for_job(&self, job: &CopyJob) -> (r: Lane)
        ensures
            r == lane_of(job@),
            r is Cloud <==> job.dehydrated,
    {
        if job.dehydrated {
            Lane::Cloud
        } else {
            Lane::Local
        }
    }

    /// How many jobs may run at once in a lane.
    pub open spec fn room_in(self, lane: Lane) -> usize {
        match lane {
            Lane::Local => self.local,
            Lane::Cloud => self.cloud,
        }
    }

    /// How many jobs may run at once in a lane.
    pub fn permits(&self, lane: Lane) -> (r: usize)
        ensures
            r == self.room_in(lane),
            r == match lane {
                Lane::Local => self.local,
                Lane::Cloud => self.cloud,
            },
    {
        match lane {
            Lane::Local => self.local,
            Lane::Cloud => self.cloud,
        }
    }
}

#[derive(Debug, PartialEq, Eq)]
pub struct RunConfig {
    pub roots: Roots,
    pub min_free: u64,
    pub dry_run: bool,
}

/// Whether a volume is short of room. One that could not be asked is not.
pub open spec fn is_short(free: Option<u64>, min_free: u64) -> bool {
    free is Some && free->0 < min_free
}

/// What is said about a volume that is short of room.
pub open spec fn warning_text(
    label: Seq<char>,
    free: Seq<char>,
    min_free: Seq<char>,
) -> Seq<char> {
    "Stopping: "@ + label + " volume has "@ + free + " free, below the "@ + min_free
        + " minimum."@
}

/// The first volume that is short of room, destination first, and what it has left.
pub open spec fn short_volume(
    destination: Option<u64>,
    source: Option<u64>,
    min_free: u64,
) -> Option<(Seq<char>, u64)> {
    if is_short(destination, min_free) {
        Some(("destination"@, destination->0))
    } else if is_short(source, min_free) {
        Some(("source"@, source->0))
    } else {
        None
    }
}

/// Checks both volumes; each is given with its free bytes, where they could be found out. Gives
/// the warning if one is short of room.
///
/// Rehydration can fill source, so guards against source volume being filled as well.
pub fn low_on_space(config: &RunConfig, destination: Option<u64>, source: Option<u64>) -> (r:
    Option<String>)
    ensures
        match short_volume(destination, source, config.min_free) {
            Some((label, free)) => r is Some && r->0@ == warning_text(
                label,
                size::human_size(free),
                size::human_size(config.min_free),
            ),
            None => r is None,
        },
        r is Some <==> (destination is Some && destination->0 < config.min_free) || (source is Some
            && source->0 < config.min_free),
{
    if let Some(free) = destination {
        if free < config.min_free {
            return Some(warn_of_space("destination", free, config.min_free));
        }
    }
    if let Some(free) = source {
        if free < config.min_free {
            return Some(warn_of_space("source", free, config.min_free));
        }
    }
    None
}

fn warn_of_space(label: &str, free: u64, min_free: u64) -> (r: String)
    ensures
        r@ == warning_text(label@, size::human_size(free), size::human_size(min_free)),
{
    let free = size::human_bytes(free);
    let min_free = size::human_bytes(min_free);
    space_warning(label, free.as_str(), min_free.as_str())
}

/// The warning about a volume, with the sizes given as text.
pub fn space_warning(label: &str, free: &str, min_free: &str) -> (r: String)
    ensures
        r@ == warning_text(label@, free@, min_free@),
{
    let mut out = String::from_str("Stopping: ");
    out.append(label);
    out.append(" volume has ");
    out.append(free);
    out.append(" free, below the ");
    out.append(min_free);
    out.append(" minimum.");
    out
}

/// Where the dispatch loop stands.
#[derive(Debug, Clone, Copy, PartialEq, Eq, Structural)]
pub enum Phase {
    New,
    /// Checking for room before copying anything.
    FirstCheck,
    AtGate,
    Receiving,
    Acquiring,
    /// Checking for room again, with a job in hand.
    Rechecking,
    Dispatching,
    Draining,
    Ended,
}

/// What the dispatch loop learns.
#[derive(Debug, Clone, Copy, PartialEq, Eq, Structural)]
pub enum RunEvent {
    Start,
    /// The volumes were checked.
    Space { low: bool },
    /// The latch is open; `quit` says whether a job has asked to stop.
    GateOpen { quit: bool },
    /// The user interrupted the run.
    Interrupt,
    /// The next job, by the lane it belongs to.
    Received(Lane),
    /// Discovery is over and every job was received.
    Exhausted,
    /// The lane took the job; so many are completed.
    Acquired { completed: u64 },
    /// The lane is closed.
    LaneClosed,
    Dispatched,
    /// All jobs in flight have ended; `quit` says whether one has asked to stop.
    Drained { quit: bool },
}

/// What the dispatch loop does next.
#[derive(Debug, Clone, Copy, PartialEq, Eq, Structural)]
pub enum RunAction {
    CheckSpace,
    /// Never start new work while a prompt owns the terminal.
    WaitForGate,
    /// Wait for a job or an interrupt, the latter first.
    Receive,
    Acquire(Lane),
    /// Start the job in hand.
    Dispatch,
    /// Let in-flight copies finish rather than tearing them down mid-write.
    Drain,
    Finish(Completion),
}

/// Drains the discovery stream, dispatching each job into its lane.
#[derive(Debug, Clone, Copy, PartialEq, Eq, Structural)]
pub struct Scheduler {
    pub phase: Phase,
    pub completion: Completion,
    /// The number of completed jobs from which on the volumes are checked again.
    pub next_space_check: u64,
}

impl Scheduler {
    /// Whether the event is one that this phase waits for.
    pub open spec fn expects(self, event: RunEvent) -> bool {
        match self.phase {
            Phase::New => event is Start,
            Phase::FirstCheck => event is Space,
            Phase::AtGate => event is GateOpen,
            Phase::Receiving => event is Interrupt || event is Received || event is Exhausted,
            Phase::Acquiring => match event {
                RunEvent::Acquired { completed } => completed >= self.next_space_check
                    ==> completed <= u64::MAX - SPACE_CHECK_INTERVAL,
                RunEvent::LaneClosed => true,
                _ => false,
            },
            Phase::Rechecking => event is Space,
            Phase::Dispatching => event is Dispatched,
            Phase::Draining => event is Drained,
            Phase::Ended => false,
        }
    }

    pub open spec fn at(self, phase: Phase) -> Scheduler {
        Scheduler { phase, ..self }
    }

    /// On the way out, for the given reason.
    pub open spec fn draining(self, completion: Completion) -> Scheduler {
        Scheduler { phase: Phase::Draining, completion, ..self }
    }

    /// The loop after an event, and what to do.
    pub open spec fn next(self, event: RunEvent) -> (Scheduler, RunAction) {
        match event {
            RunEvent::Start => (self.at(Phase::FirstCheck), RunAction::CheckSpace),
            RunEvent::Space { low } => if self.phase is FirstCheck {
                if low {
                    (
                        Scheduler { phase: Phase::Ended, completion: Completion::OutOfSpace, ..self },
                        RunAction::Finish(Completion::OutOfSpace),
                    )
                } else {
                    (self.at(Phase::AtGate), RunAction::WaitForGate)
                }
            } else if low {
                (self.draining(Completion::OutOfSpace), RunAction::Drain)
            } else {
                (self.at(Phase::Dispatching), RunAction::Dispatch)
            },
            RunEvent::GateOpen { quit } => if quit {
                (self.draining(Completion::UserQuit), RunAction::Drain)
            } else {
                (self.at(Phase::Receiving), RunAction::Receive)
            },
            RunEvent::Interrupt => (self.draining(Completion::Interrupted), RunAction::Drain),
            RunEvent::Received(lane) => (self.at(Phase::Acquiring), RunAction::Acquire(lane)),
            RunEvent::Exhausted => (self.at(Phase::Draining), RunAction::Drain),
            RunEvent::Acquired { completed } => if completed >= self.next_space_check {
                (
                    Scheduler {
                        phase: Phase::Rechecking,
                        next_space_check: (completed + SPACE_CHECK_INTERVAL) as u64,
                        ..self
                    },
                    RunAction::CheckSpace,
                )
            } else {
                (self.at(Phase::Dispatching), RunAction::Dispatch)
            },
            RunEvent::LaneClosed => (self.at(Phase::Draining), RunAction::Drain),
            RunEvent::Dispatched => (self.at(Phase::AtGate), RunAction::WaitForGate),
            RunEvent::Drained { quit } => {
                let completion = if quit && self.completion is Finished {
                    Completion::UserQuit
                } else {
                    self.completion
                };
                (
                    Scheduler { phase: Phase::Ended, completion, ..self },
                    RunAction::Finish(completion),
                )
            },
        }
    }

    pub fn new() -> (r: Self)
        ensures
            r == (Scheduler {
                phase: Phase::New,
                completion: Completion::Finished,
                next_space_check: 500,
            }),
            r == fresh(),
    {
        Scheduler {
            phase: Phase::New,
            completion: Completion::Finished,
            next_space_check: SPACE_CHECK_INTERVAL,
        }
    }

    /// Moves on with what was learnt.
    pub fn run(&mut self, event: RunEvent) -> (r: RunAction)
        requires
            old(self).expects(event),
        ensures
            *final(self) == old(self).next(event).0,
            r == old(self).next(event).1,
    {
        match event {
            RunEvent::Start => {
                self.phase = Phase::FirstCheck;
                RunAction::CheckSpace
            },
            RunEvent::Space { low } => {
                if self.phase == Phase::FirstCheck {
                    // Fail fast if the volumes are already short of room before copying anything.
                    if low {
                        self.phase = Phase::Ended;
                        self.completion = Completion::OutOfSpace;
                        RunAction::Finish(Completion::OutOfSpace)
                    } else {
                        self.phase = Phase::AtGate;
                        RunAction::WaitForGate
                    }
                } else if low {
                    self.drain(Completion::OutOfSpace)
                } else {
                    self.phase = Phase::Dispatching;
                    RunAction::Dispatch
                }
            },
            RunEvent::GateOpen { quit } => {
                if quit {
                    self.drain(Completion::UserQuit)
                } else {
                    self.phase = Phase::Receiving;
                    RunAction::Receive
                }
            },
            RunEvent::Interrupt => self.drain(Completion::Interrupted),
            RunEvent::Received(lane) => {
                self.phase = Phase::Acquiring;
                RunAction::Acquire(lane)
            },
            RunEvent::Exhausted | RunEvent::LaneClosed => {
                self.phase = Phase::Draining;
                RunAction::Drain
            },
            RunEvent::Acquired { completed } => {
                // Streamed discovery means the total size is not known up front, so one check at
                // startup cannot cover the whole run.
                if completed >= self.next_space_check {
                    self.next_space_check = completed + SPACE_CHECK_INTERVAL;
                    self.phase = Phase::Rechecking;
                    RunAction::CheckSpace
                } else {
                    self.phase = Phase::Dispatching;
                    RunAction::Dispatch
                }
            },
            RunEvent::Dispatched => {
                self.phase = Phase::AtGate;
                RunAction::WaitForGate
            },
            RunEvent::Drained { quit } => {
                if quit && self.completion == Completion::Finished {
                    self.completion = Completion::UserQuit;
                }
                self.phase = Phase::Ended;
                RunAction::Finish(self.completion)
            },
        }
    }

    fn drain(&mut self, completion: Completion) -> (r: RunAction)
        ensures
            *final(self) == old(self).draining(completion),
            r is Drain,
    {
        self.completion = completion;
        self.phase = Phase::Draining;
        RunAction::Drain
    }
}

/// The dispatch loop before it starts.
pub open spec fn fresh() -> Scheduler {
    Scheduler { phase: Phase::New, completion: Completion::Finished, next_space_check: 500 }
}

/// The loop after some events.
pub open spec fn after_events(events: Seq<RunEvent>) -> Scheduler
    decreases events.len(),
{
    if events.len() == 0 {
        fresh()
    } else {
        after_events(events.drop_last()).next(events.last()).0
    }
}

/// What the loop did last, after some events.
pub open spec fn last_action(events: Seq<RunEvent>) -> RunAction {
    after_events(events.drop_last()).next(events.last()).1
}

/// Whether the events can have happened in this order.
pub open spec fn is_run(events: Seq<RunEvent>) -> bool
    decreases events.len(),
{
    events.len() == 0 || (is_run(events.drop_last()) && after_events(events.drop_last()).expects(
        events.last(),
    ))
}

/// A volume was short of room at some point.
pub open spec fn ran_low(events: Seq<RunEvent>) -> bool {
    events.contains(RunEvent::Space { low: true })
}

/// The run was interrupted at some point.
pub open spec fn interrupted(events: Seq<RunEvent>) -> bool {
    events.contains(RunEvent::Interrupt)
}

/// A job had asked to stop when the loop looked.
pub open spec fn user_quit(events: Seq<RunEvent>) -> bool {
    events.contains(RunEvent::GateOpen { quit: true }) || events.contains(
        RunEvent::Drained { quit: true },
    )
}

/// Why a run with these events ends.
pub open spec fn reason(events: Seq<RunEvent>) -> Completion {
    if ran_low(events) {
        Completion::OutOfSpace
    } else if interrupted(events) {
        Completion::Interrupted
    } else if user_quit(events) {
        Completion::UserQuit
    } else {
        Completion::Finished
    }
}

proof fn lemma_contains_push<A>(s: Seq<A>, x: A)
    requires
        s.len() > 0,
    ensures
        s.contains(x) <==> s.drop_last().contains(x) || s.last() == x,
{
    if s.contains(x) {
        let i = choose|i: int| 0 <= i < s.len() && s[i] == x;
        if i < s.len() - 1 {
            assert(s.drop_last()[i] == x);
        }
    }
    if s.drop_last().contains(x) {
        let i = choose|i: int| 0 <= i < s.drop_last().len() && s.drop_last()[i] == x;
        assert(s[i] == x);
    }
    if s.last() == x {
        assert(s[s.len() - 1] == x);
    }
}

/// The completion that a run ends with tells why it ended.
pub proof fn law_completion_tells_why(events: Seq<RunEvent>)
    requires
        is_run(events),
    ensures
        after_events(events).completion == reason(events),
        events.len() > 0 ==> (last_action(events) matches RunAction::Finish(completion)
            ==> completion == reason(events)),
        // No second reason can turn up while the loop drains.
        !(after_events(events).phase is Draining) && !(after_events(events).phase is Ended)
            ==> reason(events) is Finished,
    decreases events.len(),
{
    if events.len() > 0 {
        law_completion_tells_why(events.drop_last());
        lemma_contains_push(events, RunEvent::Space { low: true });
        lemma_contains_push(events, RunEvent::Interrupt);
        lemma_contains_push(events, RunEvent::GateOpen { quit: true });
        lemma_contains_push(events, RunEvent::Drained { quit: true });
    }
}

/// Once the loop is on its way out, or a volume ran short, it starts no more jobs.
pub proof fn law_no_dispatch_on_the_way_out(events: Seq<RunEvent>)
    requires
        is_run(events),
        events.len() > 0,
        last_action(events) is Dispatch,
    ensures
        reason(events) is Finished,
        !events.contains(RunEvent::Exhausted),
        !events.contains(RunEvent::LaneClosed),
{
    law_completion_tells_why(events);
    lemma_no_end_before(events);
}

proof fn lemma_no_end_before(events: Seq<RunEvent>)
    requires
        is_run(events),
        !(after_events(events).phase is Draining),
        !(after_events(events).phase is Ended),
    ensures
        !events.contains(RunEvent::Exhausted),
        !events.contains(RunEvent::LaneClosed),
    decreases events.len(),
{
    if events.len() > 0 {
        lemma_contains_push(events, RunEvent::Exhausted);
        lemma_contains_push(events, RunEvent::LaneClosed);
        lemma_no_end_before(events.drop_last());
    }
}

/// A job is started only after the latch was open, a job was received, its lane had room for it,
/// and the volumes were checked if that was due.
pub proof fn law_dispatch_is_guarded(events: Seq<RunEvent>)
    requires
        is_run(events),
        events.len() > 0,
        last_action(events) is Dispatch,
    ensures
        ({
            let n = events.len() as int;
            let k = if events[n - 1] is Space {
                n - 2
            } else {
                n - 1
            };
            &&& k >= 2
            &&& events[k] is Acquired
            &&& events[k - 1] is Received
            &&& events[k - 2] == RunEvent::GateOpen { quit: false }
            &&& k < n - 1 ==> events[n - 1] == RunEvent::Space { low: false }
            &&& events[k]->completed < after_events(events).next_space_check
            &&& after_events(events).next_space_check <= events[k]->completed + 500 || k == n - 1
        }),
{
    reveal_with_fuel(is_run, 6);
    reveal_with_fuel(after_events, 6);
    let e1 = events.drop_last();
    lemma_phase(e1);
    if e1.len() > 0 {
        lemma_phase(e1.drop_last());
        if e1.drop_last().len() > 0 {
            lemma_phase(e1.drop_last().drop_last());
        }
    }
}

/// How many jobs were received.
pub open spec fn jobs_received(events: Seq<RunEvent>) -> int
    decreases events.len(),
{
    if events.len() == 0 {
        0
    } else {
        jobs_received(events.drop_last()) + if events.last() is Received {
            1int
        } else {
            0
        }
    }
}

/// How many jobs were started.
pub open spec fn jobs_dispatched(events: Seq<RunEvent>) -> int
    decreases events.len(),
{
    if events.len() == 0 {
        0
    } else {
        jobs_dispatched(events.drop_last()) + if events.last() is Dispatched {
            1int
        } else {
            0
        }
    }
}

impl Scheduler {
    /// Whether a job was received and not yet started.
    pub open spec fn has_job_in_hand(self) -> bool {
        self.phase is Acquiring || self.phase is Rechecking || self.phase is Dispatching
    }
}

/// Every job that was received is started, but for the one in hand: unless a volume runs short or
/// a lane is closed, none is dropped.
pub proof fn law_every_received_job_is_dispatched(events: Seq<RunEvent>)
    requires
        is_run(events),
        !ran_low(events),
        !events.contains(RunEvent::LaneClosed),
    ensures
        jobs_received(events) == jobs_dispatched(events) + if after_events(
            events,
        ).has_job_in_hand() {
            1int
        } else {
            0
        },
    decreases events.len(),
{
    if events.len() > 0 {
        lemma_contains_push(events, RunEvent::Space { low: true });
        lemma_contains_push(events, RunEvent::LaneClosed);
        law_every_received_job_is_dispatched(events.drop_last());
    }
}

/// A run that finishes for want of more jobs has started every job that it received, and no run
/// drops more than the one job that it had in hand.
pub proof fn law_finished_run_started_every_job(events: Seq<RunEvent>)
    requires
        is_run(events),
        after_events(events).phase is Ended,
    ensures
        jobs_dispatched(events) <= jobs_received(events) <= jobs_dispatched(events) + 1,
        !ran_low(events) && !events.contains(RunEvent::LaneClosed) ==> jobs_received(events)
            == jobs_dispatched(events),
{
    lemma_jobs_in_hand(events);
    if !ran_low(events) && !events.contains(RunEvent::LaneClosed) {
        law_every_received_job_is_dispatched(events);
    }
}

proof fn lemma_jobs_in_hand(events: Seq<RunEvent>)
    requires
        is_run(events),
    ensures
        ({
            let s = after_events(events);
            let open = jobs_received(events) - jobs_dispatched(events);
            &&& 0 <= open <= 1
            &&& s.has_job_in_hand() ==> open == 1
            &&& !s.has_job_in_hand() && !(s.phase is Draining) && !(s.phase is Ended) ==> open == 0
        }),
    decreases events.len(),
{
    if events.len() > 0 {
        lemma_jobs_in_hand(events.drop_last());
    }
}

/// What the last event was, by phase.
proof fn lemma_phase(events: Seq<RunEvent>)
    requires
        is_run(events),
    ensures
        ({
            let s = after_events(events);
            let e = events.last();
            &&& events.len() == 0 <==> s.phase is New
            &&& s.phase is Receiving ==> e == RunEvent::GateOpen { quit: false }
            &&& s.phase is Acquiring ==> e is Received
            &&& s.phase is Rechecking ==> e is Acquired && s.next_space_check == e->completed + 500
        }),
    decreases events.len(),
{
    if events.len() > 0 {
        lemma_phase(events.drop_last());
    }
}

/// A placeholder goes to the cloud lane and every other file to the local one. Neither path nor
/// size matters: two jobs share a lane exactly if both are placeholders or neither is.
pub proof fn law_placeholders_alone_go_to_the_cloud_lane(a: Job, b: Job)
    ensures
        lane_of(a) is Cloud <==> a.dehydrated,
        lane_of(a) is Local <==> !a.dehydrated,
        lane_of(a) == lane_of(b) <==> a.dehydrated == b.dehydrated,
{
}

/// A lane is as wide as it was asked to be, except that it has room for at least one job.
pub proof fn law_lanes_are_as_wide_as_asked(m: usize, n: usize)
    ensures
        at_least_one(n) >= 1,
        n >= 1 ==> at_least_one(n) == n,
        at_least_one(0) == 1,
        m <= n ==> at_least_one(m) <= at_least_one(n),
{
}

/// The lanes do not share their room: what one of them has does not depend on the other.
pub proof fn law_lanes_have_their_own_room(a: Lanes, b: Lanes)
    ensures
        a.room_in(Lane::Local) == b.room_in(Lane::Local) <==> a.local == b.local,
        a.room_in(Lane::Cloud) == b.room_in(Lane::Cloud) <==> a.cloud == b.cloud,
        a.room_in(Lane::Local) + a.room_in(Lane::Cloud) == a.local + a.cloud,
        a.room_in(Lane::Local) == a.local,
{
}

/// There is a warning exactly if a volume is known to have less room than the minimum, whichever
/// of the two it is and whatever the other has. It is about the destination if that is short, and
/// about the source otherwise, and gives what that volume has left.
pub proof fn law_every_short_volume_is_warned_of(
    destination: Option<u64>,
    source: Option<u64>,
    min_free: u64,
)
    ensures
        short_volume(destination, source, min_free) is Some <==> (destination is Some
            && destination->0 < min_free) || (source is Some && source->0 < min_free),
        destination is Some && destination->0 < min_free ==> short_volume(
            destination,
            source,
            min_free,
        ) == Some(("destination"@, destination->0)),
        source is Some && source->0 < min_free && (destination is None || destination->0
            >= min_free) ==> short_volume(destination, source, min_free) == Some(
            ("source"@, source->0),
        ),
{
}

/// Whoever has enough room for a higher minimum has enough for a lower one, and no volume is short
/// of nothing.
pub proof fn law_higher_minimum_warns_sooner(
    destination: Option<u64>,
    source: Option<u64>,
    low: u64,
    high: u64,
)
    requires
        low <= high,
    ensures
        short_volume(destination, source, low) is Some ==> short_volume(
            destination,
            source,
            high,
        ) is Some,
        short_volume(destination, source, 0) is None,
{
}

/// The warning names the volume first, then what it has left, then the minimum.
pub proof fn law_warning_says_which_volume_and_how_much(
    label: Seq<char>,
    free: Seq<char>,
    min_free: Seq<char>,
)
    ensures
        ({
            let t = warning_text(label, free, min_free);
            let l = label.len() as int;
            let f = free.len() as int;
            let m = min_free.len() as int;
            &&& t.len() == 10 + l + 12 + f + 17 + m + 9
            &&& t.take(10) == "Stopping: "@
            &&& t.subrange(10, 10 + l) == label
            &&& t.subrange(22 + l, 22 + l + f) == free
            &&& t.subrange(39 + l + f, 39 + l + f + m) == min_free
        }),
{
    reveal_strlit("Stopping: ");
    reveal_strlit(" volume has ");
    reveal_strlit(" free, below the ");
    reveal_strlit(" minimum.");
    let t = warning_text(label, free, min_free);
    let l = label.len() as int;
    let f = free.len() as int;
    let m = min_free.len() as int;
    assert(t.take(10) =~= "Stopping: "@);
    assert(t.subrange(10, 10 + l) =~= label);
    assert(t.subrange(22 + l, 22 + l + f) =~= free);
    assert(t.subrange(39 + l + f, 39 + l + f + m) =~= min_free);
}

/// How many jobs were completed when the volumes were last checked for room.
pub open spec fn checked_at(events: Seq<RunEvent>) -> int
    decreases events.len(),
{
    if events.len() == 0 {
        0
    } else {
        let before = checked_at(events.drop_last());
        match events.last() {
            RunEvent::Acquired { completed } => if completed >= before + 500 {
                completed as int
            } else {
                before
            },
            _ => before,
        }
    }
}

/// The volumes are checked again whenever 500 more jobs are completed since the last time, and the
/// job in hand is started at once otherwise.
pub proof fn law_space_is_checked_every_500_jobs(events: Seq<RunEvent>)
    requires
        is_run(events),
    ensures
        after_events(events).next_space_check == checked_at(events) + 500,
        events.len() > 0 && events.last() is Acquired ==> last_action(events) == if events.last()
            ->completed >= checked_at(events.drop_last()) + 500 {
            RunAction::CheckSpace
        } else {
            RunAction::Dispatch
        },
    decreases events.len(),
{
    if events.len() > 0 {
        law_space_is_checked_every_500_jobs(events.drop_last());
    }
}

/// What each event leads to.
pub proof fn law_every_event_has_its_action(events: Seq<RunEvent>)
    requires
        is_run(events),
        events.len() > 0,
    ensures
        ({
            let action = last_action(events);
            match events.last() {
                RunEvent::Start => action is CheckSpace && events.len() == 1,
                RunEvent::Space { low } => action == if events.len() == 2 {
                    if low {
                        RunAction::Finish(Completion::OutOfSpace)
                    } else {
                        RunAction::WaitForGate
                    }
                } else if low {
                    RunAction::Drain
                } else {
                    RunAction::Dispatch
                },
                RunEvent::GateOpen { quit } => action == if quit {
                    RunAction::Drain
                } else {
                    RunAction::Receive
                },
                RunEvent::Interrupt => action is Drain,
                RunEvent::Received(lane) => action == RunAction::Acquire(lane),
                RunEvent::Exhausted => action is Drain,
                RunEvent::Acquired { .. } => action is CheckSpace || action is Dispatch,
                RunEvent::LaneClosed => action is Drain,
                RunEvent::Dispatched => action is WaitForGate,
                RunEvent::Drained { quit } => action == RunAction::Finish(reason(events)),
            }
        }),
{
    let front = events.drop_last();
    lemma_first_check(front);
    law_completion_tells_why(events);
}

proof fn lemma_first_check(events: Seq<RunEvent>)
    requires
        is_run(events),
    ensures
        after_events(events).phase is New <==> events.len() == 0,
        after_events(events).phase is FirstCheck <==> events.len() == 1,
    decreases events.len(),
{
    if events.len() > 0 {
        lemma_first_check(events.drop_last());
    }
}

/// Whatever comes of an action can be handed to the loop, and nothing else: after each action it
/// waits for exactly the events that can answer it, and after the last one for none. A number of
/// completed jobs that 500 more would carry past the end of the counter is left out.
pub proof fn law_loop_waits_for_the_answer(events: Seq<RunEvent>, event: RunEvent)
    requires
        is_run(events),
        events.len() > 0,
    ensures
        after_events(events).expects(event) <==> match last_action(events) {
            RunAction::CheckSpace => event is Space,
            RunAction::WaitForGate => event is GateOpen,
            RunAction::Receive => event is Interrupt || event is Received || event is Exhausted,
            RunAction::Acquire(_) => match event {
                RunEvent::Acquired { completed } => completed < checked_at(events) + 500
                    || completed + 500 <= u64::MAX,
                RunEvent::LaneClosed => true,
                _ => false,
            },
            RunAction::Dispatch => event is Dispatched,
            RunAction::Drain => event is Drained,
            RunAction::Finish(_) => false,
        },
{
    law_space_is_checked_every_500_jobs(events);
}

/// A job that is counted without saying what kind of run it belongs to belongs to one that writes.
pub proof fn law_jobs_are_of_runs_that_write(s: Stats, job: Job, result: JobResult)
    ensures
        recorded(s, job, result) == recorded_in(s, job, result, false),
        job.dehydrated && (result.outcome is Copied || result.outcome is Overwritten) ==> recorded(
            s,
            job,
            result,
        ).files_hydrated == counter::wrapped(s.files_hydrated + 1),
{
}

/// A run that has not begun waits to be started and for nothing else, and has found no reason to
/// stop.
pub proof fn law_run_waits_to_be_started(event: RunEvent)
    ensures
        fresh().expects(event) <==> event is Start,
        is_run(seq![event]) <==> event is Start,
        fresh().completion is Finished,
{
    reveal_with_fuel(is_run, 2);
    reveal_with_fuel(after_events, 2);
    assert(seq![event].drop_last() =~= Seq::empty());
}

/// Holding the latch and giving the guard back leaves it as it was, and a guard too many that comes
/// back to a latch that nobody holds changes nothing.
pub proof fn law_release_undoes_hold(gate: Gate)
    requires
        gate.holds < u64::MAX,
    ensures
        gate.after(GateUse::Hold).after(GateUse::Release) == gate,
        gate.after(GateUse::Hold).step() is Wait,
        gate.step() is Pass ==> gate.after(GateUse::Release) == gate,
        gate.step() is Pass <==> gate.holds == 0,
{
}

} // verus!
