use std::collections::BTreeMap;

use deepcopy::fsattr::{FileAttributes, Platform};
use deepcopy::path::{Component, PathBuf};
use deepcopy::walker::{
    mirror_dir, scan_dir, CopyJob, Discovery, DiscoveryLimits, DriveStep, Entry, EntryKind,
    EntryRead, Roots, Scan, ScanNote, WalkErrors,
};

fn path(s: &str) -> PathBuf {
    let mut parts = Vec::new();
    if s.starts_with('/') {
        parts.push(Component::RootDir);
    }
    for name in s.split('/').filter(|n| !n.is_empty()) {
        parts.push(Component::Normal(name.as_bytes().to_vec()));
    }
    PathBuf::from_components(&parts, Platform::Other)
}

fn entry(p: &str, kind: EntryKind, bytes: u64) -> EntryRead {
    EntryRead::Read(Entry {
        path: path(p),
        kind,
        bytes,
        attributes: FileAttributes::Unmarked,
    })
}

fn file(p: &str, bytes: u64) -> EntryRead {
    entry(p, EntryKind::File, bytes)
}

fn dir(p: &str) -> EntryRead {
    entry(p, EntryKind::Directory, 0)
}

/// Directories by path, each with what listing it gives.
type Disk = BTreeMap<String, Vec<EntryRead>>;

fn disk(listings: Vec<(&str, Vec<EntryRead>)>) -> Disk {
    listings.into_iter().map(|(p, l)| (p.to_string(), l)).collect()
}

fn tree() -> Disk {
    disk(vec![
        ("/tmp/src", vec![dir("/tmp/src/nested"), file("/tmp/src/a.txt", 3)]),
        (
            "/tmp/src/nested",
            vec![file("/tmp/src/nested/b.txt", 4), dir("/tmp/src/nested/deep")],
        ),
        ("/tmp/src/nested/deep", vec![file("/tmp/src/nested/deep/c.txt", 5)]),
    ])
}

fn roots() -> Roots {
    Roots { source: path("/tmp/src"), target: path("/tmp/dst") }
}

struct Collected {
    jobs: Vec<CopyJob>,
    errors: WalkErrors,
    mirrored: Vec<PathBuf>,
    notes: Vec<ScanNote>,
}

/// Runs discovery to its end; `backwards` has the last scan handed out come back first.
fn collect(disk: &Disk, dry_run: bool, backwards: bool) -> Collected {
    let roots = roots();
    let mut discovery = Discovery::new(&roots);
    let mut out = Collected {
        jobs: Vec::new(),
        errors: WalkErrors::new(),
        mirrored: Vec::new(),
        notes: Vec::new(),
    };
    let mut scans: Vec<Scan> = Vec::new();
    loop {
        match discovery.drive() {
            DriveStep::Send(job) => out.jobs.push(job),
            DriveStep::Scan(dir) => {
                if let Some(mirror) = mirror_dir(&dir, &roots, dry_run) {
                    out.mirrored.push(mirror);
                }
                let listing = disk.get(&dir.display());
                let mut scan =
                    scan_dir(&dir, &roots, &mut out.errors, dry_run, true, listing);
                out.notes.append(&mut scan.notes);
                scans.push(scan);
            }
            DriveStep::Join => {
                let scan = if backwards { scans.pop().unwrap() } else { scans.remove(0) };
                discovery.joined(Some(scan), &mut out.errors);
            }
            DriveStep::Done => return out,
        }
    }
}

#[test]
fn discovers_every_file_and_mirrors_structure() {
    let found = collect(&tree(), false, false);

    assert_eq!(found.jobs.len(), 3, "directories must not become jobs");
    assert_eq!(found.errors.count(), 0);
    assert_eq!(
        found.jobs.iter().map(|j| j.bytes).sum::<u64>(),
        3 + 4 + 5,
        "sizes captured during the scan"
    );

    let deep = found
        .jobs
        .iter()
        .find(|j| j.relative.components().last() == path("c.txt").components().last())
        .expect("nested file discovered");
    assert_eq!(deep.target(&roots()), path("/tmp/dst/nested/deep/c.txt"));
    assert_eq!(
        deep.display_name(),
        ["nested", "deep", "c.txt"].join(std::path::MAIN_SEPARATOR_STR)
    );
}

#[test]
fn root_itself_is_not_a_job() {
    let found = collect(&tree(), false, false);
    let files = ["/tmp/src/a.txt", "/tmp/src/nested/b.txt", "/tmp/src/nested/deep/c.txt"];
    assert!(found
        .jobs
        .iter()
        .all(|j| files.contains(&j.source(&roots()).display().as_str())));
}

/// A copy must mirror the tree, including directories that contain no files.
#[test]
fn empty_directories_are_mirrored() {
    let disk = disk(vec![
        ("/tmp/src", vec![dir("/tmp/src/empty"), dir("/tmp/src/hasfiles")]),
        ("/tmp/src/empty", vec![dir("/tmp/src/empty/nested_empty")]),
        ("/tmp/src/empty/nested_empty", vec![]),
        ("/tmp/src/hasfiles", vec![file("/tmp/src/hasfiles/a.txt", 2)]),
    ]);
    let found = collect(&disk, false, false);
    assert_eq!(found.jobs.len(), 1, "only the one real file becomes a job");
    assert_eq!(found.errors.count(), 0);

    assert!(
        found.mirrored.contains(&path("/tmp/dst/empty")),
        "empty directory not mirrored"
    );
    assert!(
        found.mirrored.contains(&path("/tmp/dst/empty/nested_empty")),
        "nested empty directory not mirrored"
    );
    assert!(found.mirrored.contains(&path("/tmp/dst/hasfiles")));
}

/// A dry run must not create anything, empty directories included.
#[test]
fn dry_run_mirrors_no_directories() {
    let disk = disk(vec![
        ("/tmp/src", vec![dir("/tmp/src/empty")]),
        ("/tmp/src/empty", vec![]),
    ]);
    let found = collect(&disk, true, false);
    assert!(found.mirrored.is_empty(), "dry run created the destination tree");
}

/// A directory link must never be mistaken for a regular file.
#[test]
fn directory_links_are_reported_not_copied() {
    let mut disk = tree();
    disk.get_mut("/tmp/src")
        .unwrap()
        .push(entry("/tmp/src/link", EntryKind::Symlink { to_directory: true }, 0));
    let found = collect(&disk, false, false);
    assert_eq!(found.errors.links_skipped(), 1, "the junction must be counted");
    assert_eq!(found.errors.count(), 0, "a junction is not a traversal error");
    assert!(
        !found.jobs.iter().any(|j| j.relative == path("link")),
        "the junction must not become a copy job"
    );
    assert_eq!(found.jobs.len(), 3, "the three real files are still discovered");
    assert_eq!(found.notes, vec![ScanNote::LinkSkipped(path("/tmp/src/link"))]);
}

#[test]
fn the_order_of_scans_does_not_matter() {
    let names = |c: &Collected| {
        let mut n: Vec<String> = c.jobs.iter().map(|j| j.relative.display()).collect();
        n.sort();
        n
    };
    assert_eq!(names(&collect(&tree(), false, false)), names(&collect(&tree(), false, true)));
    assert_eq!(
        names(&collect(&tree(), false, true)),
        ["a.txt", "nested/b.txt", "nested/deep/c.txt"]
    );
}

#[test]
fn discovery_ends_after_as_many_steps_as_the_tree_has() {
    // Two for each of the three directories, and one for each of the three files.
    let mut discovery = Discovery::new(&roots());
    let mut errors = WalkErrors::new();
    let disk = tree();
    let mut scans: Vec<Scan> = Vec::new();
    let mut steps = 0;
    loop {
        match discovery.drive() {
            DriveStep::Send(_) => {}
            DriveStep::Scan(dir) => {
                let listing = disk.get(&dir.display());
                scans.push(scan_dir(&dir, &roots(), &mut errors, false, true, listing));
            }
            DriveStep::Join => discovery.joined(scans.pop(), &mut errors),
            DriveStep::Done => break,
        }
        steps += 1;
    }
    assert_eq!(steps, 9);
}

#[test]
fn links_to_files_are_copied() {
    let listing = vec![entry("/tmp/src/l", EntryKind::Symlink { to_directory: false }, 9)];
    let mut errors = WalkErrors::new();
    let scan =
        scan_dir(&path("/tmp/src"), &roots(), &mut errors, false, true, Some(&listing));
    assert_eq!(
        scan.jobs,
        vec![CopyJob { relative: path("l"), bytes: 9, dehydrated: false }]
    );
    assert_eq!(errors, WalkErrors::new());
}

#[test]
fn placeholders_are_recognised() {
    let listing = vec![EntryRead::Read(Entry {
        path: path("/tmp/src/cloud"),
        kind: EntryKind::File,
        bytes: 1,
        attributes: FileAttributes::Windows(0x40_0000),
    })];
    let mut errors = WalkErrors::new();
    let scan =
        scan_dir(&path("/tmp/src"), &roots(), &mut errors, false, true, Some(&listing));
    assert!(scan.jobs[0].dehydrated);
}

#[test]
fn every_entry_is_accounted_for() {
    let listing = vec![
        file("/tmp/src/a", 1),
        EntryRead::Failed,
        dir("/tmp/src/d"),
        file("/elsewhere/b", 1),
        entry("/tmp/src/l", EntryKind::Symlink { to_directory: true }, 0),
    ];
    let mut errors = WalkErrors::new();
    let scan =
        scan_dir(&path("/tmp/src"), &roots(), &mut errors, false, true, Some(&listing));
    assert_eq!(scan.jobs.len(), 1);
    assert_eq!(scan.subdirs, vec![path("/tmp/src/d")]);
    assert_eq!(
        scan.notes,
        vec![
            ScanNote::EscapedRoot(path("/elsewhere/b")),
            ScanNote::LinkSkipped(path("/tmp/src/l")),
        ]
    );
    assert_eq!(errors, WalkErrors { errors: 2, links_skipped: 1 });
}

#[test]
fn unreadable_directories_are_errors() {
    let mut errors = WalkErrors::new();
    let scan = scan_dir(&path("/tmp/src/x"), &roots(), &mut errors, false, true, None);
    assert_eq!(scan, Scan::new());
    assert_eq!(errors.count(), 1);
    scan_dir(&path("/tmp/src/x"), &roots(), &mut errors, false, false, None);
    assert_eq!(errors.count(), 3, "neither mirrored nor read");
    scan_dir(&path("/tmp/src/x"), &roots(), &mut errors, true, false, None);
    assert_eq!(errors.count(), 4, "a dry run mirrors nothing");
}

#[test]
fn mirrors_lie_below_the_target() {
    assert_eq!(mirror_dir(&path("/tmp/src"), &roots(), false), Some(path("/tmp/dst")));
    assert_eq!(
        mirror_dir(&path("/tmp/src/a/b"), &roots(), false),
        Some(path("/tmp/dst/a/b"))
    );
    assert_eq!(mirror_dir(&path("/tmp/other"), &roots(), false), None);
    assert_eq!(mirror_dir(&path("/tmp/src"), &roots(), true), None);
}

#[test]
fn lost_scans_are_errors_and_stopping_stops() {
    let mut errors = WalkErrors::new();
    let mut discovery = Discovery::new(&roots());
    assert_eq!(discovery.drive(), DriveStep::Scan(path("/tmp/src")));
    assert_eq!(discovery.drive(), DriveStep::Join);
    discovery.joined(None, &mut errors);
    assert_eq!(errors.count(), 1);
    assert_eq!(discovery.drive(), DriveStep::Done);

    let mut discovery = Discovery::new(&roots());
    discovery.stop();
    assert_eq!(discovery.drive(), DriveStep::Done);
}

#[test]
fn there_is_room_for_one_at_least() {
    assert_eq!(DiscoveryLimits::new(0, 0), DiscoveryLimits { queue: 1, scans: 1 });
    assert_eq!(DiscoveryLimits::new(9, 4), DiscoveryLimits { queue: 9, scans: 4 });
}
