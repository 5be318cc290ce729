//! Execution of a single copy, with retry.

use vstd::prelude::*;

use crate::conflict_resolver::{ConflictArbiter, ConflictResolution};
use crate::fsattr;
use crate::fsattr::{ErrorKind, IoError, Platform};
use crate::path;
use crate::path::PathBuf;

verus! {

/// How often a copy is tried.
pub const MAX_ATTEMPTS: u32 = 5;

/// Seconds before the first retry; each later one waits twice as long.
pub const INITIAL_BACKOFF: u64 = 2;

/// What happened to one file.
#[derive(Debug, Clone, Copy, PartialEq, Eq, Structural)]
pub enum Outcome {
    Copied,
    Overwritten,
    Skipped,
    Failed,
    /// Dry run only: a conflict the user would have been asked about.
    WouldPrompt,
    /// The user chose to stop the run at a conflict prompt.
    Quit,
}

#[derive(Debug, Clone, Copy, PartialEq, Eq, Structural)]
pub struct JobResult {
    pub outcome: Outcome,
    pub retries: u32,
}

/// Where the copying of one file stands.
#[derive(Debug, Clone, Copy, PartialEq, Eq, Structural)]
pub enum RunState {
    /// Nothing was done yet.
    New,
    /// Finding out whether the target exists.
    Checking,
    /// The target exists; finding out what to do about it.
    Resolving,
    /// Copying; this is what a copy that works out counts as.
    Copying(Outcome),
    Finished,
}

/// What a worker found out.
#[derive(Debug, Clone, Copy, PartialEq, Eq, Structural)]
pub enum RunEvent {
    Start,
    TargetExists(bool),
    Resolved(ConflictResolution),
    /// The copy ended after so many retries.
    CopyEnded { ok: bool, retries: u32 },
}

/// What a worker does next.
#[derive(Debug, Clone, Copy, PartialEq, Eq, Structural)]
pub enum RunStep {
    /// Look whether the target exists.
    CheckTarget,
    /// Ask the arbiter what to do.
    Resolve,
    /// Copy the file, with retry.
    Copy,
    /// Done.
    Finish(JobResult),
}

/// Copies one file, resolving any conflict first.
#[derive(Debug, Clone, Copy, PartialEq, Eq, Structural)]
pub struct JobRun {
    pub arbiter: ConflictArbiter,
    pub dry_run: bool,
    pub state: RunState,
}

pub open spec fn finish(outcome: Outcome, retries: u32) -> (RunState, RunStep) {
    (RunState::Finished, RunStep::Finish(JobResult { outcome, retries }))
}

/// Copying, unless this is a dry run, which counts the file as copied without touching it.
pub open spec fn copy_as(outcome: Outcome, dry_run: bool) -> (RunState, RunStep) {
    if dry_run {
        finish(outcome, 0)
    } else {
        (RunState::Copying(outcome), RunStep::Copy)
    }
}

impl JobRun {
    /// Whether the event is one that this state waits for.
    pub open spec fn expects(self, event: RunEvent) -> bool {
        match self.state {
            RunState::New => event is Start,
            RunState::Checking => event is TargetExists,
            RunState::Resolving => event is Resolved,
            RunState::Copying(_) => event is CopyEnded,
            RunState::Finished => false,
        }
    }

    /// The state after an event, and what to do in it.
    pub open spec fn next(self, event: RunEvent) -> (RunState, RunStep) {
        match event {
            RunEvent::Start => if self.arbiter.strategy is Overwrite {
                copy_as(Outcome::Copied, self.dry_run)
            } else {
                (RunState::Checking, RunStep::CheckTarget)
            },
            RunEvent::TargetExists(exists) => if !exists {
                copy_as(Outcome::Copied, self.dry_run)
            } else if self.dry_run && self.arbiter.strategy is Ask {
                finish(Outcome::WouldPrompt, 0)
            } else {
                (RunState::Resolving, RunStep::Resolve)
            },
            RunEvent::Resolved(resolution) => match resolution {
                ConflictResolution::Skip => finish(Outcome::Skipped, 0),
                ConflictResolution::Quit => finish(Outcome::Quit, 0),
                ConflictResolution::Overwrite => copy_as(Outcome::Overwritten, self.dry_run),
            },
            RunEvent::CopyEnded { ok, retries } => match self.state {
                RunState::Copying(outcome) => finish(
                    if ok {
                        outcome
                    } else {
                        Outcome::Failed
                    },
                    retries,
                ),
                _ => finish(Outcome::Failed, retries),
            },
        }
    }

    /// The machine after an event.
    pub open spec fn after(self, event: RunEvent) -> JobRun {
        JobRun { state: self.next(event).0, ..self }
    }

    pub fn new(arbiter: ConflictArbiter, dry_run: bool) -> (r: Self)
        ensures
            r == (JobRun { arbiter, dry_run, state: RunState::New }),
    {
        JobRun { arbiter, dry_run, state: RunState::New }
    }

    /// Moves on with what was found out.
    pub fn run(&mut self, event: RunEvent) -> (r: RunStep)
        requires
            old(self).expects(event),
        ensures
            *final(self) == old(self).after(event),
            r == old(self).next(event).1,
    {
        match event {
            RunEvent::Start => {
                // Under an unconditional overwrite the destination is replaced either way, so the
                // existence check is unnecessary.
                if self.arbiter.always_overwrites() {
                    self.copy_or_count(Outcome::Copied)
                } else {
                    self.state = RunState::Checking;
                    RunStep::CheckTarget
                }
            },
            RunEvent::TargetExists(exists) => {
                if !exists {
                    return self.copy_or_count(Outcome::Copied);
                }
                if self.dry_run && self.arbiter.prompts() {
                    return self.finished(Outcome::WouldPrompt, 0);
                }
                self.state = RunState::Resolving;
                RunStep::Resolve
            },
            RunEvent::Resolved(resolution) => match resolution {
                ConflictResolution::Skip => self.finished(Outcome::Skipped, 0),
                ConflictResolution::Quit => self.finished(Outcome::Quit, 0),
                ConflictResolution::Overwrite => self.copy_or_count(Outcome::Overwritten),
            },
            RunEvent::CopyEnded { ok, retries } => {
                let outcome = match self.state {
                    RunState::Copying(outcome) => if ok {
                        outcome
                    } else {
                        Outcome::Failed
                    },
                    _ => Outcome::Failed,
                };
                self.finished(outcome, retries)
            },
        }
    }

    fn copy_or_count(&mut self, outcome: Outcome) -> (r: RunStep)
        ensures
            *final(self) == (JobRun { state: copy_as(outcome, old(self).dry_run).0, ..*old(self) }),
            r == copy_as(outcome, old(self).dry_run).1,
    {
        if self.dry_run {
            return self.finished(outcome, 0);
        }
        self.state = RunState::Copying(outcome);
        RunStep::Copy
    }

    fn finished(&mut self, outcome: Outcome, retries: u32) -> (r: RunStep)
        ensures
            *final(self) == (JobRun { state: RunState::Finished, ..*old(self) }),
            r == RunStep::Finish(JobResult { outcome, retries }),
    {
        self.state = RunState::Finished;
        RunStep::Finish(JobResult { outcome, retries })
    }
}

/// The world that a copy runs in: what each question would be answered.
pub struct World {
    pub target_exists: bool,
    pub resolution: ConflictResolution,
    pub copy_ok: bool,
    pub retries: u32,
}

impl World {
    /// The event that answers a step.
    pub open spec fn answer(self, step: RunStep) -> RunEvent {
        match step {
            RunStep::CheckTarget => RunEvent::TargetExists(self.target_exists),
            RunStep::Resolve => RunEvent::Resolved(self.resolution),
            RunStep::Copy => RunEvent::CopyEnded { ok: self.copy_ok, retries: self.retries },
            RunStep::Finish(_) => RunEvent::Start,
        }
    }
}

/// The steps that a run takes in a world, from an event on.
pub open spec fn steps_of(run: JobRun, event: RunEvent, world: World, fuel: nat) -> Seq<RunStep>
    decreases fuel,
{
    let step = run.next(event).1;
    if fuel == 0 || step is Finish {
        seq![step]
    } else {
        seq![step] + steps_of(run.after(event), world.answer(step), world, (fuel - 1) as nat)
    }
}

/// All steps of copying one file. No run takes more than four.
pub open spec fn job_steps(arbiter: ConflictArbiter, dry_run: bool, world: World) -> Seq<RunStep> {
    steps_of(JobRun { arbiter, dry_run, state: RunState::New }, RunEvent::Start, world, 3)
}

/// How copying one file ends.
pub open spec fn job_result(arbiter: ConflictArbiter, dry_run: bool, world: World) -> JobResult {
    let copy = |outcome: Outcome|
        if dry_run {
            JobResult { outcome, retries: 0 }
        } else {
            JobResult {
                outcome: if world.copy_ok {
                    outcome
                } else {
                    Outcome::Failed
                },
                retries: world.retries,
            }
        };
    if arbiter.strategy is Overwrite || !world.target_exists {
        copy(Outcome::Copied)
    } else if dry_run && arbiter.strategy is Ask {
        JobResult { outcome: Outcome::WouldPrompt, retries: 0 }
    } else {
        match world.resolution {
            ConflictResolution::Skip => JobResult { outcome: Outcome::Skipped, retries: 0 },
            ConflictResolution::Quit => JobResult { outcome: Outcome::Quit, retries: 0 },
            ConflictResolution::Overwrite => copy(Outcome::Overwritten),
        }
    }
}

/// Every run ends, and ends as [`job_result`] says.
pub proof fn law_every_run_ends(arbiter: ConflictArbiter, dry_run: bool, world: World)
    ensures
        job_steps(arbiter, dry_run, world).last() == RunStep::Finish(
            job_result(arbiter, dry_run, world),
        ),
        forall|i: int|
            0 <= i < job_steps(arbiter, dry_run, world).len() - 1 ==> !(#[trigger] job_steps(
                arbiter,
                dry_run,
                world,
            )[i] is Finish),
{
    reveal_with_fuel(steps_of, 4);
}

/// A dry run copies nothing, asks nobody, and reports no failure.
pub proof fn law_dry_run_writes_nothing(arbiter: ConflictArbiter, world: World)
    ensures
        forall|i: int|
            0 <= i < job_steps(arbiter, true, world).len() ==> !(#[trigger] job_steps(
                arbiter,
                true,
                world,
            )[i] is Copy),
        arbiter.strategy is Ask ==> forall|i: int|
            0 <= i < job_steps(arbiter, true, world).len() ==> !(#[trigger] job_steps(
                arbiter,
                true,
                world,
            )[i] is Resolve),
        !(job_result(arbiter, true, world).outcome is Failed),
        job_result(arbiter, true, world).retries == 0,
{
    reveal_with_fuel(steps_of, 4);
}

/// An unconditional overwrite never looks at the target and counts every file as copied.
pub proof fn law_overwrite_skips_the_check(arbiter: ConflictArbiter, dry_run: bool, world: World)
    requires
        arbiter.strategy is Overwrite,
    ensures
        forall|i: int|
            0 <= i < job_steps(arbiter, dry_run, world).len() ==> {
                let step = #[trigger] job_steps(arbiter, dry_run, world)[i];
                !(step is CheckTarget) && !(step is Resolve)
            },
        job_result(arbiter, dry_run, world).outcome is Copied || (!dry_run && !world.copy_ok
            && job_result(arbiter, dry_run, world).outcome is Failed),
{
    reveal_with_fuel(steps_of, 4);
}

/// A target that is to be kept is left alone, and so is one about which the user quit.
pub proof fn law_kept_target_is_left_alone(arbiter: ConflictArbiter, dry_run: bool, world: World)
    requires
        !(arbiter.strategy is Overwrite),
        world.target_exists,
        !(world.resolution is Overwrite),
    ensures
        forall|i: int|
            0 <= i < job_steps(arbiter, dry_run, world).len() ==> !(#[trigger] job_steps(
                arbiter,
                dry_run,
                world,
            )[i] is Copy),
{
    reveal_with_fuel(steps_of, 4);
}

/// Where one attempt at a copy stands.
#[derive(Debug, Clone, Copy, PartialEq, Eq, Structural)]
pub enum AttemptState {
    /// Making sure that the target's directory exists.
    Preparing,
    Copying,
    /// Making sure again, after the directory turned out to be gone.
    PreparingAgain,
    CopyingAgain,
    Finished,
}

/// What one attempt does next.
#[derive(Debug, Clone, Copy, PartialEq, Eq)]
pub enum AttemptStep {
    /// Make sure that the target's directory exists.
    Ensure,
    /// Copy the bytes.
    Copy,
    /// Forget the target's directory, and make sure that it exists.
    ForgetAndEnsure,
    /// The attempt is over.
    Finish(Result<(), IoError>),
}

/// One attempt at a copy.
#[derive(Debug, PartialEq, Eq)]
pub struct Attempt {
    /// The target's directory, where it has one.
    pub parent: Option<PathBuf>,
    pub state: AttemptState,
}

/// The first state of an attempt, and what to do in it.
pub open spec fn attempt_start(has_parent: bool) -> (AttemptState, AttemptStep) {
    if has_parent {
        (AttemptState::Preparing, AttemptStep::Ensure)
    } else {
        (AttemptState::Copying, AttemptStep::Copy)
    }
}

/// The state after a step of the attempt ended, and what to do in it. A copy that finds nothing
/// may have been misled by a directory that is remembered but gone, so it is tried once more
/// with the directory made anew.
pub open spec fn attempt_next(
    state: AttemptState,
    has_parent: bool,
    result: Result<(), IoError>,
) -> (AttemptState, AttemptStep) {
    match (state, result) {
        (AttemptState::Preparing, Ok(())) => (AttemptState::Copying, AttemptStep::Copy),
        (AttemptState::PreparingAgain, Ok(())) => (AttemptState::CopyingAgain, AttemptStep::Copy),
        (AttemptState::Copying, Err(e)) => if e.kind is NotFound && has_parent {
            (AttemptState::PreparingAgain, AttemptStep::ForgetAndEnsure)
        } else {
            (AttemptState::Finished, AttemptStep::Finish(result))
        },
        _ => (AttemptState::Finished, AttemptStep::Finish(result)),
    }
}

impl Attempt {
    /// Begins an attempt at writing `target`.
    pub fn start(target: &PathBuf) -> (r: (Self, AttemptStep))
        ensures
            match r.0.parent {
                Some(p) => path::parent_of(target@) == Some(p@),
                None => path::parent_of(target@) is None,
            },
            (r.0.state, r.1) == attempt_start(path::parent_of(target@) is Some),
    {
        let parent = target.parent();
        if parent.is_some() {
            (Attempt { parent, state: AttemptState::Preparing }, AttemptStep::Ensure)
        } else {
            (Attempt { parent, state: AttemptState::Copying }, AttemptStep::Copy)
        }
    }

    /// Moves on with how the last step ended.
    pub fn step(&mut self, result: Result<(), IoError>) -> (r: AttemptStep)
        ensures
            final(self).parent == old(self).parent,
            (final(self).state, r) == attempt_next(
                old(self).state,
                old(self).parent is Some,
                result,
            ),
    {
        let (state, step) = match (self.state, result) {
            (AttemptState::Preparing, Ok(())) => (AttemptState::Copying, AttemptStep::Copy),
            (AttemptState::PreparingAgain, Ok(())) => (
                AttemptState::CopyingAgain,
                AttemptStep::Copy,
            ),
            (AttemptState::Copying, Err(e)) => {
                if e.kind == ErrorKind::NotFound && self.parent.is_some() {
                    (AttemptState::PreparingAgain, AttemptStep::ForgetAndEnsure)
                } else {
                    (AttemptState::Finished, AttemptStep::Finish(result))
                }
            },
            _ => (AttemptState::Finished, AttemptStep::Finish(result)),
        };
        self.state = state;
        step
    }
}

/// How the steps of an attempt would end: making the directory, copying, making it again, and
/// copying again.
pub struct AttemptWorld {
    pub ensured: Result<(), IoError>,
    pub copied: Result<(), IoError>,
    pub ensured_again: Result<(), IoError>,
    pub copied_again: Result<(), IoError>,
}

impl AttemptWorld {
    pub open spec fn outcome(self, state: AttemptState) -> Result<(), IoError> {
        match state {
            AttemptState::Preparing => self.ensured,
            AttemptState::Copying => self.copied,
            AttemptState::PreparingAgain => self.ensured_again,
            _ => self.copied_again,
        }
    }

    /// The steps of an attempt from a state on.
    pub open spec fn steps(
        self,
        now: (AttemptState, AttemptStep),
        has_parent: bool,
        fuel: nat,
    ) -> Seq<AttemptStep>
        decreases fuel,
    {
        if fuel == 0 || now.1 is Finish {
            seq![now.1]
        } else {
            seq![now.1] + self.steps(
                attempt_next(now.0, has_parent, self.outcome(now.0)),
                has_parent,
                (fuel - 1) as nat,
            )
        }
    }

    /// How the attempt as a whole ends.
    pub open spec fn result(self, has_parent: bool) -> Result<(), IoError> {
        if has_parent && self.ensured is Err {
            self.ensured
        } else if has_parent && self.copied is Err && self.copied->Err_0.kind is NotFound {
            if self.ensured_again is Err {
                self.ensured_again
            } else {
                self.copied_again
            }
        } else {
            self.copied
        }
    }
}

/// An attempt is over after at most four steps, and ends as [`AttemptWorld::result`] says.
pub proof fn law_every_attempt_ends(world: AttemptWorld, has_parent: bool)
    ensures
        world.steps(attempt_start(has_parent), has_parent, 4).last() == AttemptStep::Finish(
            world.result(has_parent),
        ),
{
    reveal_with_fuel(AttemptWorld::steps, 5);
}

/// A directory that vanished behind the cache's back does not make a copy fail: if making it
/// anew and copying again work, so does the attempt.
pub proof fn law_attempt_recovers_from_a_vanished_directory(world: AttemptWorld)
    requires
        world.ensured is Ok,
        world.copied is Err,
        world.copied->Err_0.kind is NotFound,
        world.ensured_again is Ok,
        world.copied_again is Ok,
    ensures
        world.result(true) is Ok,
{
}

/// Retries only on transient errors.
///
/// There is deliberately no timeout as rehydration can take arbitrarily long under bad network
/// conditions.
#[derive(Debug, Clone, Copy, PartialEq, Eq, Structural)]
pub struct Retry {
    /// The attempt being made, from 1.
    pub attempt: u32,
    /// Seconds to wait before the next one.
    pub backoff: u64,
    /// Attempts that were made again.
    pub retries: u32,
}

/// What to do after an attempt.
#[derive(Debug, Clone, Copy, PartialEq, Eq, Structural)]
pub enum RetryStep {
    /// The file is copied.
    Done,
    /// Remove what a failed attempt may have left behind, and give up.
    CleanUpAndFail(IoError),
    /// Wait so many seconds, and try again.
    WaitAndRetry { seconds: u64 },
}

/// Seconds between an attempt and the next.
pub open spec fn backoff_after(attempt: int) -> int
    decreases attempt,
{
    if attempt <= 1 {
        INITIAL_BACKOFF as int
    } else {
        2 * backoff_after(attempt - 1)
    }
}

impl Retry {
    /// The state before the given attempt.
    pub open spec fn before(self, attempt: int) -> bool {
        &&& self.attempt == attempt
        &&& self.backoff == backoff_after(attempt)
        &&& self.retries == attempt - 1
    }

    /// The attempts are counted right, and there are no more of them than allowed.
    pub open spec fn wf(self) -> bool {
        1 <= self.attempt <= MAX_ATTEMPTS && self.before(self.attempt as int)
    }

    /// Whether a failed attempt is made again.
    pub open spec fn retries_on(self, e: IoError, platform: Platform) -> bool {
        self.attempt < MAX_ATTEMPTS && fsattr::is_transient(e, platform)
    }

    /// The state after an attempt, and what to do.
    pub open spec fn next(self, result: Result<(), IoError>, platform: Platform) -> (
        Retry,
        RetryStep,
    ) {
        match result {
            Ok(()) => (self, RetryStep::Done),
            Err(e) => if self.retries_on(e, platform) {
                (
                    Retry {
                        attempt: (self.attempt + 1) as u32,
                        backoff: (2 * self.backoff) as u64,
                        retries: (self.retries + 1) as u32,
                    },
                    RetryStep::WaitAndRetry { seconds: self.backoff },
                )
            } else {
                (self, RetryStep::CleanUpAndFail(e))
            },
        }
    }

    pub fn new() -> (r: Self)
        ensures
            r.wf(),
            r.before(1),
    {
        Retry { attempt: 1, backoff: INITIAL_BACKOFF, retries: 0 }
    }

    /// Moves on with how an attempt ended.
    pub fn attempted(&mut self, result: Result<(), IoError>, platform: Platform) -> (r: RetryStep)
        requires
            old(self).wf(),
        ensures
            final(self).wf(),
            *final(self) == old(self).next(result, platform).0,
            r == old(self).next(result, platform).1,
            r is WaitAndRetry <==> result is Err && old(self).attempt < 5 && fsattr::is_transient(
                result->Err_0,
                platform,
            ),
    {
        proof {
            lemma_backoffs();
        }
        match result {
            Ok(()) => RetryStep::Done,
            Err(e) => {
                if self.attempt == MAX_ATTEMPTS || !fsattr::is_retryable(&e, platform) {
                    return RetryStep::CleanUpAndFail(e);
                }
                let seconds: u64 = self.backoff;
                self.retries = self.retries + 1;
                self.attempt = self.attempt + 1;
                self.backoff = seconds * 2;
                RetryStep::WaitAndRetry { seconds }
            },
        }
    }
}

proof fn lemma_backoffs()
    ensures
        backoff_after(1) == 2,
        backoff_after(2) == 4,
        backoff_after(3) == 8,
        backoff_after(4) == 16,
        backoff_after(5) == 32,
        forall|r: Retry|
            #[trigger] r.wf() ==> r.attempt == 1 || r.attempt == 2 || r.attempt == 3 || r.attempt
                == 4 || r.attempt == 5,
{
    reveal_with_fuel(backoff_after, 6);
}

/// What is done after each of some attempts: everything up to the step that ends the copy.
pub open spec fn retry_steps(
    retry: Retry,
    results: Seq<Result<(), IoError>>,
    platform: Platform,
) -> Seq<RetryStep>
    decreases results.len(),
{
    if results.len() == 0 {
        Seq::empty()
    } else {
        let (after, step) = retry.next(results[0], platform);
        if step is WaitAndRetry {
            seq![step] + retry_steps(after, results.skip(1), platform)
        } else {
            seq![step]
        }
    }
}

/// Seconds that some steps wait, together.
pub open spec fn waited(steps: Seq<RetryStep>) -> int
    decreases steps.len(),
{
    if steps.len() == 0 {
        0
    } else {
        waited(steps.skip(1)) + match steps[0] {
            RetryStep::WaitAndRetry { seconds } => seconds as int,
            _ => 0,
        }
    }
}

/// A copy is tried five times at most: the fifth attempt, if it comes to that, is the last.
pub proof fn law_attempts_are_bounded(
    retry: Retry,
    results: Seq<Result<(), IoError>>,
    platform: Platform,
)
    requires
        retry.wf(),
    ensures
        retry_steps(retry, results, platform).len() <= MAX_ATTEMPTS + 1 - retry.attempt,
        results.len() > MAX_ATTEMPTS - retry.attempt ==> retry_steps(retry, results, platform).len()
            > 0 && !(retry_steps(retry, results, platform).last() is WaitAndRetry),
    decreases results.len(),
{
    lemma_backoffs();
    if results.len() > 0 {
        let (after, step) = retry.next(results[0], platform);
        if step is WaitAndRetry {
            law_attempts_are_bounded(after, results.skip(1), platform);
        }
    }
}

/// Each wait is twice as long as the one before: 2, 4, 8 and 16 seconds, 30 in all.
pub proof fn law_waits_double(retry: Retry, results: Seq<Result<(), IoError>>, platform: Platform)
    requires
        retry.before(1),
    ensures
        forall|i: int|
            0 <= i < retry_steps(retry, results, platform).len() ==> (#[trigger] retry_steps(
                retry,
                results,
                platform,
            )[i] matches RetryStep::WaitAndRetry { seconds } ==> seconds
                == vstd::arithmetic::power2::pow2((i + 1) as nat)),
        waited(retry_steps(retry, results, platform)) <= 30,
{
    lemma_waits(retry, results, platform);
    lemma_backoffs();
    vstd::arithmetic::power2::lemma2_to64();
}

proof fn lemma_waits(retry: Retry, results: Seq<Result<(), IoError>>, platform: Platform)
    requires
        retry.wf(),
    ensures
        ({
            let steps = retry_steps(retry, results, platform);
            &&& steps.len() <= MAX_ATTEMPTS + 1 - retry.attempt
            &&& forall|i: int|
                0 <= i < steps.len() ==> (#[trigger] steps[i] matches RetryStep::WaitAndRetry {
                    seconds,
                } ==> retry.attempt + i < MAX_ATTEMPTS && seconds == backoff_after(
                    retry.attempt + i,
                ))
            &&& waited(steps) <= 32 - retry.backoff
        }),
    decreases results.len(),
{
    lemma_backoffs();
    let steps = retry_steps(retry, results, platform);
    if results.len() > 0 {
        let (after, step) = retry.next(results[0], platform);
        if step is WaitAndRetry {
            lemma_waits(after, results.skip(1), platform);
            let rest = retry_steps(after, results.skip(1), platform);
            assert(steps.skip(1) =~= rest);
            assert(waited(steps) == waited(rest) + retry.backoff);
            assert forall|i: int| 0 <= i < steps.len() implies (#[trigger] steps[i] matches
                RetryStep::WaitAndRetry { seconds } ==> retry.attempt + i < MAX_ATTEMPTS && seconds
                == backoff_after(retry.attempt + i)) by {
                if i > 0 {
                    assert(steps[i] == rest[i - 1]);
                }
            }
        } else {
            assert(steps.skip(1) =~= Seq::empty());
            assert(waited(steps.skip(1)) == 0);
        }
    }
}

/// An error that is not transient ends the copy at once.
pub proof fn law_permanent_error_is_not_retried(
    retry: Retry,
    results: Seq<Result<(), IoError>>,
    platform: Platform,
)
    requires
        results.len() > 0,
        results[0] is Err,
        !fsattr::is_transient(results[0]->Err_0, platform),
    ensures
        retry_steps(retry, results, platform) == seq![
            RetryStep::CleanUpAndFail(results[0]->Err_0),
        ],
{
}

/// A copy that is given up has been cleaned up after: no failed attempt is the last without the
/// step that removes what it may have left behind.
pub proof fn law_failed_copies_are_cleaned_up(
    retry: Retry,
    results: Seq<Result<(), IoError>>,
    platform: Platform,
)
    requires
        retry.wf(),
        results.len() > MAX_ATTEMPTS - retry.attempt,
    ensures
        ({
            let steps = retry_steps(retry, results, platform);
            match results[steps.len() - 1] {
                Ok(()) => steps.last() is Done,
                Err(e) => steps.last() == RetryStep::CleanUpAndFail(e),
            }
        }),
    decreases results.len(),
{
    lemma_backoffs();
    let (after, step) = retry.next(results[0], platform);
    if step is WaitAndRetry {
        law_failed_copies_are_cleaned_up(after, results.skip(1), platform);
        law_attempts_are_bounded(after, results.skip(1), platform);
        let rest = retry_steps(after, results.skip(1), platform);
        assert(retry_steps(retry, results, platform).last() == rest.last());
    }
}

/// A file without a conflict is copied, and counts as copied, or as failed if the copy fails. So is
/// every file under an unconditional overwrite, without a look at its target.
pub proof fn law_files_without_conflict_are_copied(arbiter: ConflictArbiter, world: World)
    requires
        arbiter.strategy is Overwrite || !world.target_exists,
    ensures
        ({
            let result = JobResult {
                outcome: if world.copy_ok {
                    Outcome::Copied
                } else {
                    Outcome::Failed
                },
                retries: world.retries,
            };
            job_steps(arbiter, false, world) == if arbiter.strategy is Overwrite {
                seq![RunStep::Copy, RunStep::Finish(result)]
            } else {
                seq![RunStep::CheckTarget, RunStep::Copy, RunStep::Finish(result)]
            }
        }),
{
    reveal_with_fuel(steps_of, 4);
    assert(job_steps(arbiter, false, world) =~= if arbiter.strategy is Overwrite {
        seq![RunStep::Copy, job_steps(arbiter, false, world).last()]
    } else {
        seq![RunStep::CheckTarget, RunStep::Copy, job_steps(arbiter, false, world).last()]
    });
}

/// A conflict is settled as it was resolved: a target to be replaced is copied over and counts as
/// overwritten, a target to be kept counts as skipped, and quitting ends the run.
pub proof fn law_conflicts_are_settled_as_resolved(arbiter: ConflictArbiter, world: World)
    requires
        !(arbiter.strategy is Overwrite),
        world.target_exists,
    ensures
        job_steps(arbiter, false, world) == match world.resolution {
            ConflictResolution::Overwrite => seq![
                RunStep::CheckTarget,
                RunStep::Resolve,
                RunStep::Copy,
                RunStep::Finish(
                    JobResult {
                        outcome: if world.copy_ok {
                            Outcome::Overwritten
                        } else {
                            Outcome::Failed
                        },
                        retries: world.retries,
                    },
                ),
            ],
            ConflictResolution::Skip => seq![
                RunStep::CheckTarget,
                RunStep::Resolve,
                RunStep::Finish(JobResult { outcome: Outcome::Skipped, retries: 0 }),
            ],
            ConflictResolution::Quit => seq![
                RunStep::CheckTarget,
                RunStep::Resolve,
                RunStep::Finish(JobResult { outcome: Outcome::Quit, retries: 0 }),
            ],
        },
{
    reveal_with_fuel(steps_of, 4);
    assert(job_steps(arbiter, false, world) =~= match world.resolution {
        ConflictResolution::Overwrite => seq![
            RunStep::CheckTarget,
            RunStep::Resolve,
            RunStep::Copy,
            job_steps(arbiter, false, world).last(),
        ],
        _ => seq![
            RunStep::CheckTarget,
            RunStep::Resolve,
            job_steps(arbiter, false, world).last(),
        ],
    });
}

/// A dry run takes the steps of a run that writes, but for the copy: it counts each file as the
/// other would if every copy worked out. Where the other would ask, it says so and stops there.
pub proof fn law_dry_run_foretells_the_run(arbiter: ConflictArbiter, world: World)
    requires
        world.copy_ok,
    ensures
        ({
            let dry = job_steps(arbiter, true, world);
            let wet = job_steps(arbiter, false, world);
            if arbiter.strategy is Ask && world.target_exists {
                dry == seq![
                    RunStep::CheckTarget,
                    RunStep::Finish(JobResult { outcome: Outcome::WouldPrompt, retries: 0 }),
                ]
            } else {
                &&& dry.drop_last() == wet.drop_last().filter(|s: RunStep| !(s is Copy))
                &&& dry.last() is Finish && wet.last() is Finish
                &&& dry.last()->Finish_0.outcome == wet.last()->Finish_0.outcome
                &&& dry.last()->Finish_0.retries == 0
            }
        }),
{
    reveal_with_fuel(steps_of, 4);
    reveal_with_fuel(Seq::filter, 5);
    let dry = job_steps(arbiter, true, world);
    let wet = job_steps(arbiter, false, world);
    if arbiter.strategy is Ask && world.target_exists {
        assert(dry =~= seq![RunStep::CheckTarget, dry.last()]);
    } else {
        let front = wet.drop_last();
        let pred = |s: RunStep| !(s is Copy);
        if arbiter.strategy is Overwrite {
            assert(front =~= seq![RunStep::Copy]);
            assert(front.drop_last() =~= Seq::empty());
        } else if !world.target_exists {
            assert(front =~= seq![RunStep::CheckTarget, RunStep::Copy]);
            assert(front.drop_last() =~= seq![RunStep::CheckTarget]);
            assert(front.drop_last().drop_last() =~= Seq::empty());
        } else {
            let start = seq![RunStep::CheckTarget, RunStep::Resolve];
            assert(start.drop_last() =~= seq![RunStep::CheckTarget]);
            assert(start.drop_last().drop_last() =~= Seq::empty());
            if world.resolution is Overwrite {
                assert(front =~= start.push(RunStep::Copy));
                assert(front.drop_last() =~= start);
            } else {
                assert(front =~= start);
            }
        }
        assert(dry.drop_last() =~= front.filter(pred));
    }
}

/// One attempt makes sure of the target's directory and copies. Only a copy that finds nothing, at
/// a target with a directory, is made a second time, with the directory made anew; every other
/// error ends the attempt and is its result.
pub proof fn law_steps_of_an_attempt(world: AttemptWorld, has_parent: bool)
    ensures
        ({
            let steps = world.steps(attempt_start(has_parent), has_parent, 4);
            let prepared = if has_parent {
                seq![AttemptStep::Ensure]
            } else {
                Seq::empty()
            };
            let missing = has_parent && world.copied is Err && world.copied->Err_0.kind
                == ErrorKind::NotFound;
            steps == if has_parent && world.ensured is Err {
                prepared + seq![AttemptStep::Finish(world.ensured)]
            } else if !missing {
                prepared + seq![AttemptStep::Copy, AttemptStep::Finish(world.copied)]
            } else if world.ensured_again is Err {
                prepared + seq![
                    AttemptStep::Copy,
                    AttemptStep::ForgetAndEnsure,
                    AttemptStep::Finish(world.ensured_again),
                ]
            } else {
                prepared + seq![
                    AttemptStep::Copy,
                    AttemptStep::ForgetAndEnsure,
                    AttemptStep::Copy,
                    AttemptStep::Finish(world.copied_again),
                ]
            }
        }),
{
    reveal_with_fuel(AttemptWorld::steps, 5);
    let steps = world.steps(attempt_start(has_parent), has_parent, 4);
    let last = steps.last();
    let missing = has_parent && world.copied is Err && world.copied->Err_0.kind
        == ErrorKind::NotFound;
    if has_parent && world.ensured is Err {
        assert(steps =~= seq![AttemptStep::Ensure] + seq![last]);
    } else if !missing {
        if has_parent {
            assert(steps =~= seq![AttemptStep::Ensure] + seq![AttemptStep::Copy, last]);
        } else {
            assert(steps =~= Seq::empty() + seq![AttemptStep::Copy, last]);
        }
    } else if world.ensured_again is Err {
        assert(steps =~= seq![AttemptStep::Ensure] + seq![
            AttemptStep::Copy,
            AttemptStep::ForgetAndEnsure,
            last,
        ]);
    } else {
        assert(steps =~= seq![AttemptStep::Ensure] + seq![
            AttemptStep::Copy,
            AttemptStep::ForgetAndEnsure,
            AttemptStep::Copy,
            last,
        ]);
    }
}

/// On every platform a transient error is waited out and the copy tried again, up to the fourth:
/// if the first `k` attempts end in transient errors, each of them but a fifth is followed by a
/// wait, twice as long as the one before. What comes next decides: a copy that works is done, an
/// error that is not transient is given up on, and so is the fifth attempt.
pub proof fn law_transient_errors_are_waited_out(
    retry: Retry,
    results: Seq<Result<(), IoError>>,
    platform: Platform,
    k: int,
)
    requires
        retry.before(1),
        0 <= k < results.len(),
        forall|i: int|
            0 <= i < k ==> (#[trigger] results[i]) is Err && fsattr::is_transient(
                results[i]->Err_0,
                platform,
            ),
    ensures
        ({
            let steps = retry_steps(retry, results, platform);
            &&& forall|i: int|
                0 <= i < k && i < 4 ==> i < steps.len() && #[trigger] steps[i]
                    == (RetryStep::WaitAndRetry {
                    seconds: vstd::arithmetic::power2::pow2((i + 1) as nat) as u64,
                })
            &&& k <= 4 && results[k] is Ok ==> steps.len() == k + 1 && steps[k] is Done
            &&& k <= 4 && results[k] is Err && !fsattr::is_transient(results[k]->Err_0, platform)
                ==> steps.len() == k + 1 && steps[k] == RetryStep::CleanUpAndFail(results[k]->Err_0)
            &&& k >= 4 && results[4] is Err ==> steps.len() == 5 && steps[4]
                == RetryStep::CleanUpAndFail(results[4]->Err_0)
        }),
{
    lemma_waited_out(retry, results, platform, k);
    lemma_backoffs();
    vstd::arithmetic::power2::lemma2_to64();
}

proof fn lemma_waited_out(
    retry: Retry,
    results: Seq<Result<(), IoError>>,
    platform: Platform,
    k: int,
)
    requires
        retry.wf(),
        0 <= k < results.len(),
        forall|i: int|
            0 <= i < k ==> (#[trigger] results[i]) is Err && fsattr::is_transient(
                results[i]->Err_0,
                platform,
            ),
    ensures
        ({
            let steps = retry_steps(retry, results, platform);
            let left = MAX_ATTEMPTS - retry.attempt;
            &&& forall|i: int|
                0 <= i < k && i < left ==> i < steps.len() && #[trigger] steps[i]
                    == (RetryStep::WaitAndRetry {
                    seconds: backoff_after(retry.attempt + i) as u64,
                })
            &&& k <= left && results[k] is Ok ==> steps.len() == k + 1 && steps[k] is Done
            &&& k <= left && results[k] is Err && !fsattr::is_transient(
                results[k]->Err_0,
                platform,
            ) ==> steps.len() == k + 1 && steps[k] == RetryStep::CleanUpAndFail(results[k]->Err_0)
            &&& k >= left && results[left] is Err ==> steps.len() == left + 1 && steps[left]
                == RetryStep::CleanUpAndFail(results[left]->Err_0)
        }),
    decreases results.len(),
{
    lemma_backoffs();
    let steps = retry_steps(retry, results, platform);
    let (after, step) = retry.next(results[0], platform);
    let left = MAX_ATTEMPTS - retry.attempt;
    if k > 0 && left > 0 {
        let rest = results.skip(1);
        assert forall|i: int| 0 <= i < k - 1 implies (#[trigger] rest[i]) is Err
            && fsattr::is_transient(rest[i]->Err_0, platform) by {
            assert(rest[i] == results[i + 1]);
        }
        lemma_waited_out(after, rest, platform, k - 1);
        let more = retry_steps(after, rest, platform);
        assert(steps == seq![step] + more);
        assert forall|i: int| 0 <= i < k && i < left implies i < steps.len() && #[trigger] steps[i]
            == (RetryStep::WaitAndRetry { seconds: backoff_after(retry.attempt + i) as u64 }) by {
            if i > 0 {
                assert(steps[i] == more[i - 1]);
            }
        }
        assert(rest[k - 1] == results[k]);
        assert(left <= k ==> rest[left - 1] == results[left]);
        assert(forall|i: int| 0 < i < steps.len() ==> steps[i] == more[i - 1]);
    }
}

/// The retries that are reported are the waits that were made.
pub proof fn law_retries_are_counted(
    retry: Retry,
    result: Result<(), IoError>,
    platform: Platform,
)
    requires
        retry.wf(),
    ensures
        retry.retries == retry.attempt - 1,
        retry.next(result, platform).0.retries == retry.retries + if retry.next(
            result,
            platform,
        ).1 is WaitAndRetry {
            1int
        } else {
            0
        },
        retry.next(result, platform).1 is Done <==> result is Ok,
{
    lemma_backoffs();
}

/// Two things alone end a copy that failed, on every platform: an error that is not transient, and
/// the fifth attempt. Every other failed attempt is made again, after a wait.
pub proof fn law_two_things_end_a_failed_copy(retry: Retry, e: IoError, platform: Platform)
    requires
        retry.wf(),
    ensures
        ({
            let step = retry.next(Err(e), platform).1;
            &&& step is WaitAndRetry <==> retry.attempt < 5 && fsattr::is_transient(e, platform)
            &&& step == RetryStep::CleanUpAndFail(e) <==> retry.attempt == 5
                || !fsattr::is_transient(e, platform)
        }),
        retry.next(Ok(()), platform).1 is Done,
        retry.next(Ok(()), platform).0 == retry,
{
    lemma_backoffs();
}

/// After each step the copying of a file waits for what answers it and for nothing else, and after
/// the last one for nothing at all.
pub proof fn law_job_waits_for_the_answer(run: JobRun, event: RunEvent, next: RunEvent)
    ensures
        run.after(event).expects(next) <==> match run.next(event).1 {
            RunStep::CheckTarget => next is TargetExists,
            RunStep::Resolve => next is Resolved,
            RunStep::Copy => next is CopyEnded,
            RunStep::Finish(_) => false,
        },
        (JobRun { state: RunState::New, ..run }).expects(next) <==> next is Start,
        run.after(event).arbiter == run.arbiter,
        run.after(event).dry_run == run.dry_run,
{
}

} // verus!
