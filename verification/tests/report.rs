use deepcopy::conflict_resolver::ConflictResolutionStrategy;
use deepcopy::report::{report, report_with, Sizes};
use deepcopy::scheduler::{Completion, Stats};
use deepcopy::walker::WalkErrors;

#[test]
fn a_clean_run_says_little() {
    let mut stats = Stats::new();
    stats.files_copied = 3;
    stats.bytes_copied = 1024 * 1024 * 1024;
    let r = report(
        &stats,
        &WalkErrors::new(),
        Completion::Finished,
        false,
        ConflictResolutionStrategy::Ask,
        "/tmp/deepcopy.log",
    );
    assert_eq!(
        r.out,
        [
            "\nDone",
            "        copied:       3 files  1.00 GiB",
            "   overwritten:       0 files  0 B",
            "       skipped:       0 files  0 B",
        ]
    );
    assert!(r.err.is_empty());
    assert!(r.clean);
}

#[test]
fn everything_worth_knowing_is_said() {
    let stats = Stats {
        files_copied: 1,
        files_skipped: 2,
        files_overwritten: 3,
        files_failed: 4,
        files_would_prompt: 5,
        bytes_copied: 6,
        bytes_skipped: 7,
        bytes_overwritten: 8,
        bytes_hydrated: 9,
        files_hydrated: 10,
        retries: 11,
    };
    let walk = WalkErrors { errors: 12, links_skipped: 13 };
    let sizes = Sizes {
        copied: "C".to_string(),
        overwritten: "O".to_string(),
        skipped: "S".to_string(),
        hydrated: "H".to_string(),
    };
    let r = report_with(
        &stats,
        &walk,
        Completion::Interrupted,
        true,
        ConflictResolutionStrategy::Skip,
        "deepcopy.log",
        &sizes,
    );
    assert_eq!(
        r.out,
        [
            "\nInterrupted (dry run)",
            "    would copy:       1 files  C",
            "   overwritten:       3 files  O",
            "       skipped:       2 files  S",
            "     conflicts:       5 files  (you would be asked about each)",
            "      hydrated:      10 files  H   <- downloaded from cloud storage",
            "       retries: 11",
            "         links: 13 directory link(s) not followed; their contents were NOT copied",
        ]
    );
    assert_eq!(
        r.err,
        [
            "        FAILED: 4 files",
            "   SCAN ERRORS: 12 entries could not be read",
            "\nSee deepcopy.log for details.",
        ]
    );
    assert!(!r.clean);
}

#[test]
fn an_unconditional_overwrite_does_not_tell_files_apart() {
    let r = report(
        &Stats::new(),
        &WalkErrors::new(),
        Completion::OutOfSpace,
        false,
        ConflictResolutionStrategy::Overwrite,
        "deepcopy.log",
    );
    assert_eq!(
        r.out,
        [
            "\nStopped: not enough free space",
            "  copied/replaced:       0 files  0 B",
            "       skipped:       0 files  0 B",
        ]
    );
    assert!(r.err.is_empty());
    assert!(!r.clean, "a run that stopped early is not clean");
}

#[test]
fn sizes_in_the_report_are_for_people() {
    let mut stats = Stats::new();
    stats.bytes_copied = 1500;
    stats.bytes_overwritten = 1024;
    stats.bytes_skipped = 2 * 1024 * 1024;
    stats.bytes_hydrated = 1 << 40;
    stats.files_hydrated = 1;
    let r = report(
        &stats,
        &WalkErrors::new(),
        Completion::UserQuit,
        false,
        ConflictResolutionStrategy::Ask,
        "deepcopy.log",
    );
    assert_eq!(r.out[0], "\nStopped at your request");
    assert!(r.out[1].ends_with("  1.46 KiB"));
    assert!(r.out[2].ends_with("  1.00 KiB"));
    assert!(r.out[3].ends_with("  2.00 MiB"));
    assert!(r.out[4].contains("  1.00 TiB   <-"));
}

#[test]
fn failures_and_scan_errors_each_spoil_a_run() {
    for (failed, errors) in [(1, 0), (0, 1)] {
        let mut stats = Stats::new();
        stats.files_failed = failed;
        let r = report(
            &stats,
            &WalkErrors { errors, links_skipped: 0 },
            Completion::Finished,
            false,
            ConflictResolutionStrategy::Skip,
            "deepcopy.log",
        );
        assert_eq!(r.err.len(), 2);
        assert!(!r.clean);
    }
}
