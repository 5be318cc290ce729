use deepcopy::conflict_resolver::ConflictResolution;
use deepcopy::copy_queue::{
    CopyJob, ExecuteEvent, ExecuteStep, Execution, JobQueue, PopError, WalkEntry,
};
use deepcopy::fsattr::{ErrorKind, IoError, Platform};
use deepcopy::job::Outcome;
use deepcopy::path::{Component, PathBuf};
use deepcopy::scheduler::Stats;

fn path(s: &str) -> PathBuf {
    let mut parts = Vec::new();
    if s.starts_with('/') {
        parts.push(Component::RootDir);
    }
    for name in s.split('/').filter(|n| !n.is_empty()) {
        parts.push(Component::Normal(name.as_bytes().to_vec()));
    }
    PathBuf::from_components(&parts, Platform::Other)
}

fn found(p: &str, is_dir: bool) -> WalkEntry {
    WalkEntry::Found { path: path(p), is_dir }
}

fn job() -> CopyJob {
    CopyJob::new(path("/src/x/a.txt"), path("/dst/x/a.txt"))
}

/// Feeds the events to a new copy and gives the last step.
fn last_step(dry_run: bool, events: &[ExecuteEvent], stats: &mut Stats) -> ExecuteStep {
    let mut run = Execution::new(10, dry_run);
    let mut step = job().execute(&mut run, ExecuteEvent::Start, stats);
    for event in events {
        step = job().execute(&mut run, *event, stats);
    }
    step
}

#[test]
fn the_queue_keeps_the_order() {
    let mut queue = JobQueue::new(path("/src"), path("/dst"));
    for name in ["a", "b", "c"] {
        queue.push(CopyJob::new(path(name), path(name)));
    }
    assert_eq!(queue.jobs, 3);
    assert_eq!(queue.pop().unwrap().source, path("a"));
    queue.push(CopyJob::new(path("d"), path("d")));
    assert_eq!(queue.next().unwrap().source, path("b"));
    assert_eq!(queue.next().unwrap().source, path("c"));
    assert_eq!(queue.next().unwrap().source, path("d"));
    assert_eq!(queue.jobs, 0);
    assert_eq!(queue.next(), None);
    assert_eq!(queue.pop(), Err(PopError::Timeout));
    assert_eq!(queue.jobs, 0);
}

#[test]
fn a_walk_fills_the_queue() {
    let mut queue = JobQueue::new(path("/src"), path("/dst"));
    let walk = vec![
        WalkEntry::Unreadable,
        found("/src", true),
        found("/src/a", false),
        WalkEntry::Unreadable,
        found("/src/x", true),
        found("/src/x/b", false),
    ];
    assert_eq!(queue.populate(&walk), Ok(()));
    assert_eq!(queue.jobs, 2);
    assert_eq!(queue.pop(), Ok(CopyJob::new(path("/src/a"), path("/dst/a"))));
    assert_eq!(queue.pop(), Ok(CopyJob::new(path("/src/x/b"), path("/dst/x/b"))));
    assert_eq!(queue.populate(&vec![]), Ok(()));
    assert_eq!(queue.jobs, 0);
}

#[test]
fn a_stray_file_ends_the_filling() {
    let mut queue = JobQueue::new(path("/src"), path("/dst"));
    let walk = vec![
        found("/src", true),
        found("/src/a", false),
        found("/elsewhere", true),
        found("/elsewhere/b", false),
        found("/src/c", false),
    ];
    assert_eq!(
        queue.populate(&walk),
        Err(IoError { kind: ErrorKind::NotFound, raw_os_error: None })
    );
    assert_eq!(queue.jobs, 1);
}

#[test]
fn labels_show_the_shared_end() {
    let label = |a: &str, b: &str| CopyJob::new(path(a), path(b)).label(false);
    assert_eq!(label("/src/x/a.txt", "/dst/x/a.txt"), "x/a.txt");
    assert_eq!(label("/x/a.txt", "/x/a.txt"), "/x/a.txt");
    assert_eq!(label("a.txt", "/x/a.txt"), "a.txt");
    assert_eq!(label("/src/a.txt", "/dst/b.txt"), "");
    assert_eq!(job().label(true), "DRY RUN: x/a.txt");
    assert_eq!(job().shared_path(), path("x/a.txt"));
}

#[test]
fn new_files_are_copied_and_counted() {
    let mut stats = Stats::new();
    let before = [ExecuteEvent::ParentExists(false), ExecuteEvent::ParentMade { ok: true }];
    assert_eq!(last_step(false, &before[..1], &mut stats), ExecuteStep::MakeParent);
    assert_eq!(last_step(false, &before, &mut stats), ExecuteStep::CheckTarget);
    assert_eq!(stats, Stats::new());
    let step = last_step(
        false,
        &[
            ExecuteEvent::ParentExists(true),
            ExecuteEvent::TargetExists(false),
            ExecuteEvent::Copied { ok: true },
        ],
        &mut stats,
    );
    assert_eq!(step, ExecuteStep::Finish(Some(Outcome::Copied)));
    assert_eq!((stats.files_copied, stats.bytes_copied), (1, 10));
}

#[test]
fn conflicts_are_resolved() {
    let mut stats = Stats::new();
    let mut events = vec![
        ExecuteEvent::ParentExists(true),
        ExecuteEvent::TargetExists(true),
        ExecuteEvent::Resolved(ConflictResolution::Overwrite),
    ];
    assert_eq!(last_step(false, &events[..2], &mut stats), ExecuteStep::Resolve);
    assert_eq!(last_step(false, &events, &mut stats), ExecuteStep::Copy);
    events.push(ExecuteEvent::Copied { ok: true });
    assert_eq!(
        last_step(false, &events, &mut stats),
        ExecuteStep::Finish(Some(Outcome::Overwritten))
    );
    assert_eq!((stats.files_overwritten, stats.bytes_overwritten), (1, 10));
    events.pop();
    events[2] = ExecuteEvent::Resolved(ConflictResolution::Skip);
    assert_eq!(
        last_step(false, &events, &mut stats),
        ExecuteStep::Finish(Some(Outcome::Skipped))
    );
    assert_eq!((stats.files_skipped, stats.bytes_skipped), (1, 10));
    let counted = stats;
    events[2] = ExecuteEvent::Resolved(ConflictResolution::Quit);
    assert_eq!(
        last_step(false, &events, &mut stats),
        ExecuteStep::Finish(Some(Outcome::Quit))
    );
    assert_eq!(stats, counted);
}

#[test]
fn errors_count_as_nothing() {
    let mut stats = Stats::new();
    let unmade = [ExecuteEvent::ParentExists(false), ExecuteEvent::ParentMade { ok: false }];
    assert_eq!(last_step(false, &unmade, &mut stats), ExecuteStep::Finish(None));
    let uncopied = [
        ExecuteEvent::ParentExists(true),
        ExecuteEvent::TargetExists(false),
        ExecuteEvent::Copied { ok: false },
    ];
    assert_eq!(last_step(false, &uncopied, &mut stats), ExecuteStep::Finish(None));
    assert_eq!(stats, Stats::new());
}

#[test]
fn a_queued_dry_run_writes_nothing() {
    let mut stats = Stats::new();
    let mut events = vec![ExecuteEvent::ParentExists(false)];
    assert_eq!(last_step(true, &events, &mut stats), ExecuteStep::CheckTarget);
    events.push(ExecuteEvent::TargetExists(false));
    assert_eq!(last_step(true, &events, &mut stats), ExecuteStep::Pause { seconds: 3 });
    events.push(ExecuteEvent::Paused);
    assert_eq!(
        last_step(true, &events, &mut stats),
        ExecuteStep::Finish(Some(Outcome::Copied))
    );
    let overwrite = [
        ExecuteEvent::ParentExists(true),
        ExecuteEvent::TargetExists(true),
        ExecuteEvent::Resolved(ConflictResolution::Overwrite),
    ];
    assert_eq!(
        last_step(true, &overwrite, &mut stats),
        ExecuteStep::Finish(Some(Outcome::Overwritten))
    );
    assert_eq!((stats.files_copied, stats.files_overwritten), (1, 1));
}
