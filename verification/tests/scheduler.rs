use deepcopy::fsattr::Platform;
use deepcopy::job::{JobResult, Outcome};
use deepcopy::path::{Component, PathBuf};
use deepcopy::scheduler::{
    low_on_space, space_warning, Completion, Gate, GateStep, Lane, Lanes, RunAction, RunConfig,
    RunEvent, Scheduler, Stats,
};
use deepcopy::walker::{CopyJob, Roots};

fn path(name: &str) -> PathBuf {
    PathBuf::from_components(
        &vec![Component::Normal(name.as_bytes().to_vec())],
        Platform::Other,
    )
}

fn job(bytes: u64, dehydrated: bool) -> CopyJob {
    CopyJob { relative: path("a.txt"), bytes, dehydrated }
}

fn config(min_free: u64) -> RunConfig {
    RunConfig {
        roots: Roots { source: path("src"), target: path("dst") },
        min_free,
        dry_run: false,
    }
}

#[test]
fn gate_blocks_until_hold_is_dropped() {
    let mut gate = Gate::new();
    let hold = gate.hold();
    assert_eq!(gate.wait_until_open(), GateStep::Wait, "gate should still be held");
    gate.release(hold);
    assert_eq!(gate.wait_until_open(), GateStep::Pass, "gate should release");
}

/// Repeated hold and release with many waiters: nothing stalls.
#[test]
fn gate_survives_repeated_contended_release() {
    let mut gate = Gate::new();
    for _ in 0..200 {
        let hold = gate.hold();
        for _ in 0..8 {
            assert_eq!(gate.wait_until_open(), GateStep::Wait);
        }
        gate.release(hold);
        for _ in 0..8 {
            assert_eq!(gate.wait_until_open(), GateStep::Pass, "no waiter may stall");
        }
    }
}

#[test]
fn open_gate_does_not_block() {
    let gate = Gate::new();
    assert_eq!(gate.wait_until_open(), GateStep::Pass, "an unheld gate must not block");
}

#[test]
fn outcomes_are_counted_apart() {
    let mut stats = Stats::new();
    let outcomes = [
        Outcome::Copied,
        Outcome::Overwritten,
        Outcome::Skipped,
        Outcome::Failed,
        Outcome::WouldPrompt,
        Outcome::Quit,
    ];
    for (i, outcome) in outcomes.into_iter().enumerate() {
        stats.record(&job(10 << i, true), &JobResult { outcome, retries: 1 });
    }
    let expected = Stats {
        files_copied: 1,
        files_overwritten: 1,
        files_skipped: 1,
        files_failed: 1,
        files_would_prompt: 1,
        bytes_copied: 10,
        bytes_overwritten: 20,
        bytes_skipped: 40,
        bytes_hydrated: 30,
        files_hydrated: 2,
        retries: 6,
    };
    assert_eq!(stats, expected);
    stats.record(&job(5, false), &JobResult { outcome: Outcome::Copied, retries: 0 });
    assert_eq!(
        stats,
        Stats { files_copied: 2, bytes_copied: 15, ..expected },
        "a local file is not hydrated"
    );
}

#[test]
fn a_latch_stays_held_while_a_guard_is_out() {
    let mut gate = Gate::new();
    let first = gate.hold();
    let second = gate.hold();
    gate.release(first);
    assert_eq!(gate.wait_until_open(), GateStep::Wait);
    gate.release(second);
    assert_eq!(gate.wait_until_open(), GateStep::Pass);
}

#[test]
fn a_dry_run_pulls_nothing_down() {
    let mut stats = Stats::new();
    let result = JobResult { outcome: Outcome::Copied, retries: 0 };
    stats.record_in(&job(7, true), &result, true);
    assert_eq!((stats.files_copied, stats.bytes_copied), (1, 7));
    assert_eq!((stats.files_hydrated, stats.bytes_hydrated), (0, 0));
    stats.record_in(&job(7, true), &result, false);
    assert_eq!((stats.files_hydrated, stats.bytes_hydrated), (1, 7));
}

#[test]
fn byte_counts_wrap() {
    let mut stats = Stats::new();
    for _ in 0..2 {
        stats.record(&job(u64::MAX, false), &JobResult { outcome: Outcome::Copied, retries: 0 });
    }
    assert_eq!(stats.bytes_copied, u64::MAX - 1);
}

#[test]
fn placeholders_run_in_the_cloud_lane() {
    let lanes = Lanes::new(16, 6);
    assert_eq!(lanes.for_job(&job(1, true)), Lane::Cloud);
    assert_eq!(lanes.for_job(&job(1, false)), Lane::Local);
    assert_eq!(lanes.permits(Lane::Local), 16);
    assert_eq!(lanes.permits(Lane::Cloud), 6);
    assert_eq!(Lanes::new(0, 0), Lanes { local: 1, cloud: 1 });
}

#[test]
fn short_volumes_are_named() {
    let gib = 1024 * 1024 * 1024;
    assert_eq!(low_on_space(&config(gib), Some(gib), Some(gib)), None);
    assert_eq!(low_on_space(&config(gib), None, None), None);
    assert_eq!(
        low_on_space(&config(gib), Some(gib / 2), Some(0)).unwrap(),
        "Stopping: destination volume has 512.00 MiB free, below the 1.00 GiB minimum."
    );
    assert_eq!(
        low_on_space(&config(gib), None, Some(gib - 1)).unwrap(),
        "Stopping: source volume has 1024.00 MiB free, below the 1.00 GiB minimum."
    );
    assert_eq!(
        space_warning("x", "1", "2"),
        "Stopping: x volume has 1 free, below the 2 minimum."
    );
}

/// Brings a scheduler to the point where it waits for a job.
fn receiving() -> Scheduler {
    let mut s = Scheduler::new();
    assert_eq!(s.run(RunEvent::Start), RunAction::CheckSpace);
    assert_eq!(s.run(RunEvent::Space { low: false }), RunAction::WaitForGate);
    assert_eq!(s.run(RunEvent::GateOpen { quit: false }), RunAction::Receive);
    s
}

#[test]
fn a_run_finishes_when_discovery_does() {
    let mut s = receiving();
    assert_eq!(s.run(RunEvent::Received(Lane::Cloud)), RunAction::Acquire(Lane::Cloud));
    assert_eq!(s.run(RunEvent::Acquired { completed: 0 }), RunAction::Dispatch);
    assert_eq!(s.run(RunEvent::Dispatched), RunAction::WaitForGate);
    assert_eq!(s.run(RunEvent::GateOpen { quit: false }), RunAction::Receive);
    assert_eq!(s.run(RunEvent::Exhausted), RunAction::Drain);
    assert_eq!(
        s.run(RunEvent::Drained { quit: false }),
        RunAction::Finish(Completion::Finished)
    );
}

#[test]
fn a_full_disk_stops_the_run_before_it_starts() {
    let mut s = Scheduler::new();
    s.run(RunEvent::Start);
    assert_eq!(
        s.run(RunEvent::Space { low: true }),
        RunAction::Finish(Completion::OutOfSpace)
    );
}

#[test]
fn space_is_checked_again_every_so_often() {
    let mut s = receiving();
    s.run(RunEvent::Received(Lane::Local));
    assert_eq!(s.run(RunEvent::Acquired { completed: 499 }), RunAction::Dispatch);
    s.run(RunEvent::Dispatched);
    s.run(RunEvent::GateOpen { quit: false });
    s.run(RunEvent::Received(Lane::Local));
    assert_eq!(s.run(RunEvent::Acquired { completed: 510 }), RunAction::CheckSpace);
    assert_eq!(s.next_space_check, 1010);
    assert_eq!(s.run(RunEvent::Space { low: false }), RunAction::Dispatch);
    s.run(RunEvent::Dispatched);
    s.run(RunEvent::GateOpen { quit: false });
    s.run(RunEvent::Received(Lane::Local));
    assert_eq!(s.run(RunEvent::Acquired { completed: 1010 }), RunAction::CheckSpace);
    assert_eq!(s.run(RunEvent::Space { low: true }), RunAction::Drain);
    assert_eq!(
        s.run(RunEvent::Drained { quit: true }),
        RunAction::Finish(Completion::OutOfSpace)
    );
}

#[test]
fn every_received_job_is_dispatched() {
    let mut s = receiving();
    let mut dispatched = 0;
    for completed in 0..1200 {
        let mut action = s.run(RunEvent::Received(Lane::Local));
        assert_eq!(action, RunAction::Acquire(Lane::Local));
        action = s.run(RunEvent::Acquired { completed });
        if action == RunAction::CheckSpace {
            action = s.run(RunEvent::Space { low: false });
        }
        assert_eq!(action, RunAction::Dispatch);
        dispatched += 1;
        s.run(RunEvent::Dispatched);
        s.run(RunEvent::GateOpen { quit: false });
    }
    s.run(RunEvent::Exhausted);
    assert_eq!(
        s.run(RunEvent::Drained { quit: false }),
        RunAction::Finish(Completion::Finished)
    );
    assert_eq!(dispatched, 1200);
}

#[test]
fn interrupts_and_quits_are_told_apart() {
    let mut s = receiving();
    assert_eq!(s.run(RunEvent::Interrupt), RunAction::Drain);
    assert_eq!(
        s.run(RunEvent::Drained { quit: true }),
        RunAction::Finish(Completion::Interrupted)
    );

    let mut s = receiving();
    s.run(RunEvent::Exhausted);
    assert_eq!(
        s.run(RunEvent::Drained { quit: true }),
        RunAction::Finish(Completion::UserQuit)
    );

    let mut s = Scheduler::new();
    s.run(RunEvent::Start);
    s.run(RunEvent::Space { low: false });
    assert_eq!(s.run(RunEvent::GateOpen { quit: true }), RunAction::Drain);
    assert_eq!(
        s.run(RunEvent::Drained { quit: true }),
        RunAction::Finish(Completion::UserQuit)
    );

    let mut s = receiving();
    s.run(RunEvent::Received(Lane::Local));
    assert_eq!(s.run(RunEvent::LaneClosed), RunAction::Drain);
}
