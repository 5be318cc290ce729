use std::collections::{BTreeMap, BTreeSet};

use deepcopy::conflict_resolver::{
    ConflictArbiter, ConflictResolution, ConflictResolutionStrategy, ResolveEvent, ResolveStep,
};
use deepcopy::dir_cache::{DirCache, EnsureStep, MAX_REMEMBERED_DIRS};
use deepcopy::fsattr::{ErrorKind, IoError, Platform};
use deepcopy::job::{
    Attempt, AttemptStep, JobResult, JobRun, Outcome, Retry, RetryStep, RunEvent, RunStep,
};
use deepcopy::path::{Component, PathBuf};
use deepcopy::walker::{CopyJob, Roots};

fn path(s: &str) -> PathBuf {
    let mut parts = Vec::new();
    if s.starts_with('/') {
        parts.push(Component::RootDir);
    }
    for name in s.split('/').filter(|n| !n.is_empty()) {
        parts.push(Component::Normal(name.as_bytes().to_vec()));
    }
    PathBuf::from_components(&parts, Platform::Other)
}

const NOT_FOUND: IoError = IoError { kind: ErrorKind::NotFound, raw_os_error: Some(2) };
const BUSY: IoError = IoError { kind: ErrorKind::WouldBlock, raw_os_error: Some(11) };
const DENIED: IoError = IoError { kind: ErrorKind::Other, raw_os_error: Some(13) };

/// A disk in memory, a source root, a dest root, and helpers to place files under each.
struct Fixture {
    roots: Roots,
    files: BTreeMap<String, Vec<u8>>,
    dirs: BTreeSet<String>,
    cache: DirCache,
    checks: usize,
}

impl Fixture {
    fn new() -> Self {
        let mut f = Fixture {
            roots: Roots { source: path("/tmp/src"), target: path("/tmp/dst") },
            files: BTreeMap::new(),
            dirs: BTreeSet::new(),
            cache: DirCache::new(),
            checks: 0,
        };
        f.create_dir_all(&path("/tmp/src"));
        f.create_dir_all(&path("/tmp/dst"));
        f
    }

    fn create_dir_all(&mut self, dir: &PathBuf) {
        self.dirs.insert(dir.display());
        if let Some(parent) = dir.parent() {
            self.create_dir_all(&parent);
        }
    }

    fn remove_dir_all(&mut self, dir: &PathBuf) {
        let gone = dir.display();
        let below = format!("{gone}/");
        self.dirs.retain(|d| d != &gone && !d.starts_with(&below));
        self.files.retain(|f, _| !f.starts_with(&below));
    }

    fn write(&mut self, p: &PathBuf, bytes: &[u8]) {
        self.create_dir_all(&p.parent().unwrap());
        self.files.insert(p.display(), bytes.to_vec());
    }

    fn write_source(&mut self, rel: &str, bytes: &[u8]) -> CopyJob {
        let p = self.roots.source.join(&path(rel));
        self.write(&p, bytes);
        CopyJob { relative: path(rel), bytes: bytes.len() as u64, dehydrated: false }
    }

    fn write_target(&mut self, rel: &str, bytes: &[u8]) {
        let p = self.roots.target.join(&path(rel));
        self.write(&p, bytes);
    }

    fn target(&self, rel: &str) -> Option<&Vec<u8>> {
        self.files.get(&self.roots.target.join(&path(rel)).display())
    }

    fn ensure(&mut self, dir: &PathBuf) {
        if self.cache.ensure(dir) == EnsureStep::Create {
            self.create_dir_all(dir);
            self.cache.created(dir);
        }
    }

    fn copy(&mut self, source: &PathBuf, target: &PathBuf) -> Result<(), IoError> {
        let parent = target.parent().unwrap().display();
        match self.files.get(&source.display()).cloned() {
            Some(bytes) if self.dirs.contains(&parent) => {
                self.files.insert(target.display(), bytes);
                Ok(())
            }
            _ => Err(NOT_FOUND),
        }
    }

    fn attempt(&mut self, source: &PathBuf, target: &PathBuf) -> Result<(), IoError> {
        let (mut attempt, mut step) = Attempt::start(target);
        loop {
            let result = match step {
                AttemptStep::Ensure => {
                    let parent = attempt.parent.clone().unwrap();
                    self.ensure(&parent);
                    Ok(())
                }
                AttemptStep::ForgetAndEnsure => {
                    let parent = attempt.parent.clone().unwrap();
                    self.cache.forget(&parent);
                    self.ensure(&parent);
                    Ok(())
                }
                AttemptStep::Copy => self.copy(source, target),
                AttemptStep::Finish(result) => return result,
            };
            step = attempt.step(result);
        }
    }

    fn copy_with_retry(&mut self, source: &PathBuf, target: &PathBuf) -> (bool, u32) {
        let mut retry = Retry::new();
        loop {
            let result = self.attempt(source, target);
            match retry.attempted(result, Platform::Other) {
                RetryStep::Done => return (true, retry.retries),
                RetryStep::WaitAndRetry { .. } => {}
                RetryStep::CleanUpAndFail(_) => {
                    self.files.remove(&target.display());
                    return (false, retry.retries);
                }
            }
        }
    }

    fn run(&mut self, job: &CopyJob, arbiter: &ConflictArbiter, dry_run: bool) -> JobResult {
        let source = job.source(&self.roots);
        let target = job.target(&self.roots);
        let mut run = JobRun::new(*arbiter, dry_run);
        let mut event = RunEvent::Start;
        loop {
            event = match run.run(event) {
                RunStep::CheckTarget => {
                    self.checks += 1;
                    RunEvent::TargetExists(self.files.contains_key(&target.display()))
                }
                RunStep::Resolve => match arbiter.resolve(ResolveEvent::Found) {
                    ResolveStep::Decided(resolution) => RunEvent::Resolved(resolution),
                    _ => panic!("a fixed strategy asked"),
                },
                RunStep::Copy => {
                    let (ok, retries) = self.copy_with_retry(&source, &target);
                    RunEvent::CopyEnded { ok, retries }
                }
                RunStep::Finish(result) => return result,
            };
        }
    }
}

#[test]
fn copies_a_new_file() {
    let mut f = Fixture::new();
    let job = f.write_source("a.txt", b"hello");
    let arbiter = ConflictArbiter::fixed(ConflictResolutionStrategy::Skip);
    let r = f.run(&job, &arbiter, false);
    assert_eq!(r.outcome, Outcome::Copied);
    assert_eq!(f.target("a.txt").unwrap(), b"hello");
}

#[test]
fn creates_missing_parent_directories() {
    let mut f = Fixture::new();
    let job = f.write_source("deeply/nested/out/a.txt", b"x");
    let arbiter = ConflictArbiter::fixed(ConflictResolutionStrategy::Skip);
    assert_eq!(f.run(&job, &arbiter, false).outcome, Outcome::Copied);
    assert!(f.target("deeply/nested/out/a.txt").is_some());
}

#[test]
fn dry_run_does_not_create_files() {
    let mut f = Fixture::new();
    let job = f.write_source("a.txt", b"hello");
    let arbiter = ConflictArbiter::fixed(ConflictResolutionStrategy::Skip);
    let r = f.run(&job, &arbiter, true);
    assert_eq!(r.outcome, Outcome::Copied);
    assert!(f.target("a.txt").is_none(), "dry run must not write");
}

#[test]
fn dry_run_does_not_overwrite_existing_files() {
    let mut f = Fixture::new();
    let job = f.write_source("a.txt", b"new contents");
    f.write_target("a.txt", b"ORIGINAL");
    let arbiter = ConflictArbiter::fixed(ConflictResolutionStrategy::Overwrite);
    let r = f.run(&job, &arbiter, true);
    // Reported as Copied, not Overwritten: unconditional overwrite skips the existence check, so
    // "created" and "replaced" are counted the same.
    assert_eq!(r.outcome, Outcome::Copied);
    assert_eq!(
        f.target("a.txt").unwrap(),
        b"ORIGINAL",
        "dry run must leave the destination byte-identical"
    );
}

#[test]
fn overwrite_replaces_destination() {
    let mut f = Fixture::new();
    let job = f.write_source("a.txt", b"new");
    f.write_target("a.txt", b"a longer old value");
    let arbiter = ConflictArbiter::fixed(ConflictResolutionStrategy::Overwrite);
    // Counted as Copied: see dry_run_does_not_overwrite_existing_files.
    assert_eq!(f.run(&job, &arbiter, false).outcome, Outcome::Copied);
    assert_eq!(f.target("a.txt").unwrap(), b"new");
}

#[test]
fn skip_leaves_destination_alone() {
    let mut f = Fixture::new();
    let job = f.write_source("a.txt", b"new");
    f.write_target("a.txt", b"old");
    let arbiter = ConflictArbiter::fixed(ConflictResolutionStrategy::Skip);
    assert_eq!(f.run(&job, &arbiter, false).outcome, Outcome::Skipped);
    assert_eq!(f.target("a.txt").unwrap(), b"old");
}

#[test]
fn missing_source_fails_without_panicking() {
    let mut f = Fixture::new();
    let job = CopyJob { relative: path("nope.txt"), bytes: 0, dehydrated: false };
    let arbiter = ConflictArbiter::fixed(ConflictResolutionStrategy::Skip);
    let r = f.run(&job, &arbiter, false);
    assert_eq!(r.outcome, Outcome::Failed);
    assert_eq!(r.retries, 0, "a missing file is not a transient error");
}

/// The directory cache must not change behaviour: a deep new path is still created.
#[test]
fn dir_cache_still_creates_every_needed_directory() {
    let mut f = Fixture::new();
    let arbiter = ConflictArbiter::fixed(ConflictResolutionStrategy::Skip);
    for rel in ["x/1/a.txt", "x/2/b.txt", "y/c.txt", "x/1/d.txt"] {
        let job = f.write_source(rel, b"data");
        assert_eq!(f.run(&job, &arbiter, false).outcome, Outcome::Copied);
        assert!(f.target(rel).is_some(), "{rel} not created");
    }
}

/// A directory vanishing mid-run must not leave a stale cache entry that breaks later files.
#[test]
fn dir_cache_recovers_if_a_directory_disappears() {
    let mut f = Fixture::new();
    let arbiter = ConflictArbiter::fixed(ConflictResolutionStrategy::Skip);

    let first = f.write_source("gone/a.txt", b"one");
    assert_eq!(f.run(&first, &arbiter, false).outcome, Outcome::Copied);

    // Remove the directory behind the cache's back.
    let gone = f.roots.target.join(&path("gone"));
    f.remove_dir_all(&gone);

    let second = f.write_source("gone/b.txt", b"two");
    assert_eq!(
        f.run(&second, &arbiter, false).outcome,
        Outcome::Copied,
        "a stale cache entry must not make later copies fail"
    );
    assert!(f.target("gone/b.txt").is_some());
}

/// Overwrite mode must still replace a file it never stat-ed.
#[test]
fn overwrite_without_the_existence_check_still_replaces() {
    let mut f = Fixture::new();
    let job = f.write_source("a.txt", b"fresh");
    f.write_target("a.txt", b"stale and much longer");
    let arbiter = ConflictArbiter::fixed(ConflictResolutionStrategy::Overwrite);
    assert!(arbiter.always_overwrites());
    f.run(&job, &arbiter, false);
    assert_eq!(f.target("a.txt").unwrap(), b"fresh");
    assert_eq!(f.checks, 0);
}

/// Both endpoints come from the roots, so a nested relative path lands in the mirrored location
/// rather than being flattened.
#[test]
fn relative_path_resolves_against_both_roots() {
    let mut f = Fixture::new();
    let job = f.write_source("one/two/three.txt", b"deep");
    assert_eq!(
        job.source(&f.roots),
        f.roots.source.join(&path("one")).join(&path("two")).join(&path("three.txt"))
    );
    assert_eq!(
        job.target(&f.roots),
        f.roots.target.join(&path("one")).join(&path("two")).join(&path("three.txt"))
    );
    assert!(job.display_name().ends_with("three.txt"));
}

#[test]
fn a_dry_run_that_would_ask_only_says_so() {
    let mut run = JobRun::new(ConflictArbiter::interactive(), true);
    assert_eq!(run.run(RunEvent::Start), RunStep::CheckTarget);
    assert_eq!(
        run.run(RunEvent::TargetExists(true)),
        RunStep::Finish(JobResult { outcome: Outcome::WouldPrompt, retries: 0 })
    );
}

#[test]
fn answers_decide_what_becomes_of_a_conflict() {
    let end = |resolution| {
        let mut run = JobRun::new(ConflictArbiter::interactive(), false);
        run.run(RunEvent::Start);
        assert_eq!(run.run(RunEvent::TargetExists(true)), RunStep::Resolve);
        run.run(RunEvent::Resolved(resolution))
    };
    assert_eq!(
        end(ConflictResolution::Quit),
        RunStep::Finish(JobResult { outcome: Outcome::Quit, retries: 0 })
    );
    assert_eq!(
        end(ConflictResolution::Skip),
        RunStep::Finish(JobResult { outcome: Outcome::Skipped, retries: 0 })
    );
    assert_eq!(end(ConflictResolution::Overwrite), RunStep::Copy);
}

#[test]
fn a_conflicting_copy_counts_as_overwritten_or_failed() {
    for (ok, outcome) in [(true, Outcome::Overwritten), (false, Outcome::Failed)] {
        let mut run = JobRun::new(ConflictArbiter::interactive(), false);
        run.run(RunEvent::Start);
        run.run(RunEvent::TargetExists(true));
        run.run(RunEvent::Resolved(ConflictResolution::Overwrite));
        assert_eq!(
            run.run(RunEvent::CopyEnded { ok, retries: 3 }),
            RunStep::Finish(JobResult { outcome, retries: 3 })
        );
    }
}

#[test]
fn waits_double_up_to_the_fifth_attempt() {
    let mut retry = Retry::new();
    for seconds in [2, 4, 8, 16] {
        assert_eq!(
            retry.attempted(Err(BUSY), Platform::Other),
            RetryStep::WaitAndRetry { seconds }
        );
    }
    assert_eq!(retry.retries, 4);
    assert_eq!(
        retry.attempted(Err(BUSY), Platform::Other),
        RetryStep::CleanUpAndFail(BUSY)
    );
    assert_eq!(retry.retries, 4);
    assert_eq!(retry.attempted(Ok(()), Platform::Other), RetryStep::Done);
}

#[test]
fn permanent_errors_are_not_retried() {
    let mut retry = Retry::new();
    assert_eq!(
        retry.attempted(Err(DENIED), Platform::Other),
        RetryStep::CleanUpAndFail(DENIED)
    );
    assert_eq!(retry, Retry::new());
}

#[test]
fn an_attempt_prepares_once_more_at_most() {
    let (mut attempt, first) = Attempt::start(&path("/dst/a"));
    assert_eq!(first, AttemptStep::Ensure);
    assert_eq!(attempt.parent, Some(path("/dst")));
    assert_eq!(attempt.step(Ok(())), AttemptStep::Copy);
    assert_eq!(attempt.step(Err(NOT_FOUND)), AttemptStep::ForgetAndEnsure);
    assert_eq!(attempt.step(Ok(())), AttemptStep::Copy);
    assert_eq!(attempt.step(Err(NOT_FOUND)), AttemptStep::Finish(Err(NOT_FOUND)));

    let (mut attempt, _) = Attempt::start(&path("/dst/a"));
    assert_eq!(attempt.step(Err(DENIED)), AttemptStep::Finish(Err(DENIED)));

    let (mut attempt, _) = Attempt::start(&path("/dst/a"));
    attempt.step(Ok(()));
    assert_eq!(attempt.step(Err(DENIED)), AttemptStep::Finish(Err(DENIED)));
}

#[test]
fn a_target_without_a_directory_is_copied_at_once() {
    let (mut attempt, first) = Attempt::start(&path("/"));
    assert_eq!(first, AttemptStep::Copy);
    assert_eq!(attempt.parent, None);
    assert_eq!(attempt.step(Err(NOT_FOUND)), AttemptStep::Finish(Err(NOT_FOUND)));
}

#[test]
fn the_cache_believes_what_it_is_told() {
    let mut cache = DirCache::new();
    assert_eq!(cache.ensure(&path("/dst/a")), EnsureStep::Create);
    cache.created(&path("/dst/a"));
    cache.created(&path("/dst/a"));
    assert_eq!(cache.ensure(&path("/dst/a")), EnsureStep::Known);
    assert_eq!(cache.ensure(&path("/dst")), EnsureStep::Create);
    assert_eq!(cache.ensure(&path("dst/a")), EnsureStep::Create);
    cache.forget(&path("/dst/a"));
    assert_eq!(cache.ensure(&path("/dst/a")), EnsureStep::Create);
    cache.forget(&path("/dst/a"));
}

#[test]
fn a_full_cache_starts_over() {
    let mut cache = DirCache::new();
    let dir = |i: usize| path(&format!("/dst/{i}"));
    for i in 0..MAX_REMEMBERED_DIRS {
        cache.created(&dir(i));
    }
    assert_eq!(cache.ensure(&dir(0)), EnsureStep::Known);
    assert_eq!(cache.ensure(&dir(MAX_REMEMBERED_DIRS - 1)), EnsureStep::Known);
    cache.created(&dir(MAX_REMEMBERED_DIRS));
    assert_eq!(cache.ensure(&dir(0)), EnsureStep::Create);
    assert_eq!(cache.ensure(&dir(MAX_REMEMBERED_DIRS)), EnsureStep::Known);
}
