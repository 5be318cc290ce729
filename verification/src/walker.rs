//! Streamed directory discovery.

use std::collections::VecDeque;

use vstd::multiset::Multiset;
use vstd::prelude::*;

use crate::counter;
use crate::fsattr;
use crate::fsattr::FileAttributes;
use crate::path;
use crate::path::{Part, PathBuf, Written};

verus! {

/// One file to copy.
#[derive(Debug, PartialEq, Eq)]
pub struct CopyJob {
    /// Path relative to the source/destination root.
    pub relative: PathBuf,
    /// Captured during the scan so no worker has to re-stat the file.
    pub bytes: u64,
    /// True for online-only cloud placeholders; selects the scheduler lane.
    pub dehydrated: bool,
}

/// What a [`CopyJob`] stands for.
pub struct Job {
    pub relative: Written,
    pub bytes: u64,
    pub dehydrated: bool,
}

impl View for CopyJob {
    type V = Job;

    open spec fn view(&self) -> Job {
        Job { relative: self.relative@, bytes: self.bytes, dehydrated: self.dehydrated }
    }
}

impl Clone for CopyJob {
    fn clone(&self) -> (r: Self)
        ensures
            r@ == self@,
    {
        CopyJob {
            relative: self.relative.clone(),
            bytes: self.bytes,
            dehydrated: self.dehydrated,
        }
    }
}

/// The two roots a job is resolved against.
#[derive(Debug, PartialEq, Eq)]
pub struct Roots {
    pub source: PathBuf,
    pub target: PathBuf,
}

impl Job {
    /// Where the file is, and where its copy goes, for the given roots.
    pub open spec fn ends(self, source: Written, target: Written) -> (Written, Written) {
        (path::joined(source, self.relative), path::joined(target, self.relative))
    }
}

impl CopyJob {
    pub fn source(&self, roots: &Roots) -> (r: PathBuf)
        ensures
            r@ == path::joined(roots.source@, self.relative@),
            r@ == self@.ends(roots.source@, roots.target@).0,
    {
        roots.source.join(&self.relative)
    }

    pub fn target(&self, roots: &Roots) -> (r: PathBuf)
        ensures
            r@ == path::joined(roots.target@, self.relative@),
            r@ == self@.ends(roots.source@, roots.target@).1,
    {
        roots.target.join(&self.relative)
    }

    /// Path relative to the source root, for display.
    pub fn display_name(&self) -> (r: String)
        ensures
            r@ == path::displayed(self.relative@),
    {
        self.relative.display()
    }
}

/// What the traversal could not handle.
#[derive(Debug, Clone, Copy, PartialEq, Eq, Structural)]
pub struct WalkErrors {
    pub errors: u64,
    pub links_skipped: u64,
}

impl WalkErrors {
    pub fn new() -> (r: Self)
        ensures
            r == (WalkErrors { errors: 0, links_skipped: 0 }),
    {
        WalkErrors { errors: 0, links_skipped: 0 }
    }

    pub fn count(&self) -> (r: u64)
        ensures
            r == self.errors,
    {
        self.errors
    }

    /// Directory reparse points (junctions, directory symlinks) that were not descended into.
    pub fn links_skipped(&self) -> (r: u64)
        ensures
            r == self.links_skipped,
    {
        self.links_skipped
    }

    pub fn error(&mut self)
        ensures
            final(self).errors == counter::wrapped(old(self).errors + 1),
            final(self).links_skipped == old(self).links_skipped,
    {
        self.errors = counter::bumped(self.errors, 1);
    }

    pub fn link_skipped(&mut self)
        ensures
            final(self).links_skipped == counter::wrapped(old(self).links_skipped + 1),
            final(self).errors == old(self).errors,
    {
        self.links_skipped = counter::bumped(self.links_skipped, 1);
    }
}

/// What kind of thing a directory entry is, links not followed.
#[derive(Debug, Clone, Copy, PartialEq, Eq, Structural)]
pub enum EntryKind {
    Directory,
    /// A link, and whether it leads to a directory.
    Symlink { to_directory: bool },
    /// A file, or anything else that is read like one.
    File,
}

/// One directory entry.
#[derive(Debug, PartialEq, Eq)]
pub struct Entry {
    pub path: PathBuf,
    pub kind: EntryKind,
    pub bytes: u64,
    pub attributes: FileAttributes,
}

/// What reading one directory entry gave.
#[derive(Debug, PartialEq, Eq)]
pub enum EntryRead {
    /// The entry or its metadata could not be read.
    Failed,
    Read(Entry),
}

/// Something a scan left out that is worth a warning.
#[derive(Debug, PartialEq, Eq)]
pub enum ScanNote {
    /// A directory link; its contents are not copied.
    LinkSkipped(PathBuf),
    /// A path that does not lie below the source root.
    EscapedRoot(PathBuf),
}

/// One directory's worth of findings.
#[derive(Debug, PartialEq, Eq)]
pub struct Scan {
    pub jobs: Vec<CopyJob>,
    pub subdirs: Vec<PathBuf>,
    pub notes: Vec<ScanNote>,
}

/// What becomes of one directory entry.
pub enum Verdict {
    Failed,
    LinkSkipped(Written),
    Subdir(Written),
    EscapedRoot(Written),
    File(Job),
}

/// A directory link is passed over, a directory is scanned later, and everything else is a file
/// to copy, known by its path below the source root.
pub open spec fn verdict(entry: EntryRead, root: Written) -> Verdict {
    match entry {
        EntryRead::Failed => Verdict::Failed,
        EntryRead::Read(e) => match e.kind {
            EntryKind::Symlink { to_directory: true } => Verdict::LinkSkipped(e.path@),
            EntryKind::Directory => Verdict::Subdir(e.path@),
            _ => if path::starts_with(e.path@, root) {
                Verdict::File(
                    Job {
                        relative: path::stripped(e.path@, root),
                        bytes: e.bytes,
                        dehydrated: fsattr::marks_placeholder(e.attributes),
                    },
                )
            } else {
                Verdict::EscapedRoot(e.path@)
            },
        },
    }
}

/// The files among some entries, in order.
pub open spec fn jobs_in(entries: Seq<EntryRead>, root: Written) -> Seq<Job>
    decreases entries.len(),
{
    if entries.len() == 0 {
        Seq::empty()
    } else {
        let front = jobs_in(entries.drop_last(), root);
        match verdict(entries.last(), root) {
            Verdict::File(job) => front.push(job),
            _ => front,
        }
    }
}

/// The directories among some entries, in order.
pub open spec fn subdirs_in(entries: Seq<EntryRead>, root: Written) -> Seq<Written>
    decreases entries.len(),
{
    if entries.len() == 0 {
        Seq::empty()
    } else {
        let front = subdirs_in(entries.drop_last(), root);
        match verdict(entries.last(), root) {
            Verdict::Subdir(dir) => front.push(dir),
            _ => front,
        }
    }
}

/// The entries among some that are left out with a warning, in order.
pub open spec fn left_out(entries: Seq<EntryRead>, root: Written) -> Seq<Verdict>
    decreases entries.len(),
{
    if entries.len() == 0 {
        Seq::empty()
    } else {
        let front = left_out(entries.drop_last(), root);
        let last = verdict(entries.last(), root);
        if last is LinkSkipped || last is EscapedRoot {
            front.push(last)
        } else {
            front
        }
    }
}

/// How many of some entries are errors.
pub open spec fn errors_in(entries: Seq<EntryRead>, root: Written) -> nat
    decreases entries.len(),
{
    if entries.len() == 0 {
        0
    } else {
        let last = verdict(entries.last(), root);
        errors_in(entries.drop_last(), root) + if last is Failed || last is EscapedRoot {
            1nat
        } else {
            0
        }
    }
}

/// How many of some entries are directory links.
pub open spec fn links_in(entries: Seq<EntryRead>, root: Written) -> nat
    decreases entries.len(),
{
    if entries.len() == 0 {
        0
    } else {
        links_in(entries.drop_last(), root) + if verdict(entries.last(), root) is LinkSkipped {
            1nat
        } else {
            0
        }
    }
}

/// What each of some jobs stands for.
pub open spec fn job_views(jobs: Seq<CopyJob>) -> Seq<Job> {
    jobs.map_values(|j: CopyJob| j@)
}

/// What each of some paths stands for.
pub open spec fn path_views(paths: Seq<PathBuf>) -> Seq<Written> {
    paths.map_values(|p: PathBuf| p@)
}

/// What each of some notes says of its entry.
pub open spec fn note_views(notes: Seq<ScanNote>) -> Seq<Verdict> {
    notes.map_values(
        |n: ScanNote|
            match n {
                ScanNote::LinkSkipped(p) => Verdict::LinkSkipped(p@),
                ScanNote::EscapedRoot(p) => Verdict::EscapedRoot(p@),
            },
    )
}

/// Where a directory of the source tree is mirrored to, if it is.
pub open spec fn mirror_of(
    dir: Written,
    source: Written,
    target: Written,
    dry_run: bool,
) -> Option<Written> {
    if !dry_run && path::starts_with(dir, source) {
        Some(path::joined(target, path::stripped(dir, source)))
    } else {
        None
    }
}

/// How many errors a scan counts: one for a directory that should be mirrored and was not, one for a
/// directory that could not be read, and one for each entry that is an error.
pub open spec fn scan_errors(
    dir: Written,
    source: Written,
    dry_run: bool,
    mirrored: bool,
    listing: Option<Seq<EntryRead>>,
) -> int {
    (if mirror_of(dir, source, source, dry_run) is Some && !mirrored {
        1int
    } else {
        0
    }) + match listing {
        Some(entries) => errors_in(entries, source) as int,
        None => 1,
    }
}

/// Where the directory `dir` of the source tree is mirrored to. A dry run mirrors nothing, and
/// neither does a directory outside the source root.
pub fn mirror_dir(dir: &PathBuf, roots: &Roots, dry_run: bool) -> (r: Option<PathBuf>)
    ensures
        r is Some <==> !dry_run && path::starts_with(dir@, roots.source@),
        r matches Some(p) ==> p@ == path::joined(
            roots.target@,
            path::stripped(dir@, roots.source@),
        ),
        mirror_of(dir@, roots.source@, roots.target@, dry_run) == match r {
            Some(p) => Some(p@),
            None => None,
        },
{
    if dry_run {
        return None;
    }
    match dir.strip_prefix(&roots.source) {
        Some(rel) => Some(roots.target.join(&rel)),
        None => None,
    }
}

impl Scan {
    /// The scan of a directory with nothing in it.
    pub fn new() -> (r: Self)
        ensures
            r.jobs@.len() == 0,
            r.subdirs@.len() == 0,
            r.notes@.len() == 0,
    {
        Scan { jobs: Vec::new(), subdirs: Vec::new(), notes: Vec::new() }
    }

    /// What this scan found, and `entries` is what it found it in.
    pub open spec fn is_of(self, entries: Seq<EntryRead>, root: Written) -> bool {
        &&& job_views(self.jobs@) == jobs_in(entries, root)
        &&& path_views(self.subdirs@) == subdirs_in(entries, root)
        &&& note_views(self.notes@) == left_out(entries, root)
    }
}

/// Sorts out what reading the directory `dir` gave; `listing` is nothing where it could not be
/// read at all, and `mirrored` says whether the directory that [`mirror_dir`] asks for was made.
pub fn scan_dir(
    dir: &PathBuf,
    roots: &Roots,
    errors: &mut WalkErrors,
    dry_run: bool,
    mirrored: bool,
    listing: Option<&Vec<EntryRead>>,
) -> (r: Scan)
    ensures
        ({
            let entries = match listing {
                Some(v) => v@,
                None => Seq::<EntryRead>::empty(),
            };
            let unread = if listing is None {
                1int
            } else {
                0
            };
            let unmirrored = if !dry_run && path::starts_with(dir@, roots.source@) && !mirrored {
                1int
            } else {
                0
            };
            &&& r.is_of(entries, roots.source@)
            &&& job_views(r.jobs@) == jobs_in(entries, roots.source@)
            &&& path_views(r.subdirs@) == subdirs_in(entries, roots.source@)
            &&& note_views(r.notes@) == left_out(entries, roots.source@)
            &&& final(errors).errors == counter::wrapped(
                old(errors).errors + unmirrored + unread + errors_in(entries, roots.source@),
            )
            &&& final(errors).links_skipped == counter::wrapped(
                old(errors).links_skipped + links_in(entries, roots.source@),
            )
            &&& final(errors).errors == counter::wrapped(
                old(errors).errors + scan_errors(
                    dir@,
                    roots.source@,
                    dry_run,
                    mirrored,
                    match listing {
                        Some(v) => Some(v@),
                        None => None,
                    },
                ),
            )
        }),
{
    let mut scan = Scan::new();
    let unmade = !mirrored && mirror_dir(dir, roots, dry_run).is_some();
    if unmade {
        errors.error();
    }
    let entries = match listing {
        Some(entries) => entries,
        None => {
            errors.error();
            assert(job_views(scan.jobs@) =~= Seq::empty());
            assert(path_views(scan.subdirs@) =~= Seq::empty());
            assert(note_views(scan.notes@) =~= Seq::empty());
            return scan;
        },
    };
    let ghost root = roots.source@;
    let ghost unmirrored: int = if unmade {
        1
    } else {
        0
    };
    let mut i: usize = 0;
    assert(scan.is_of(entries@.take(0), root)) by {
        assert(job_views(scan.jobs@) =~= Seq::empty());
        assert(path_views(scan.subdirs@) =~= Seq::empty());
        assert(note_views(scan.notes@) =~= Seq::empty());
    }
    while i < entries.len()
        invariant
            i <= entries.len(),
            root == roots.source@,
            scan.is_of(entries@.take(i as int), root),
            errors.errors == counter::wrapped(
                old(errors).errors + unmirrored + errors_in(entries@.take(i as int), root),
            ),
            errors.links_skipped == counter::wrapped(
                old(errors).links_skipped + links_in(entries@.take(i as int), root),
            ),
        decreases entries.len() - i,
    {
        let ghost before = scan;
        proof {
            assert(entries@.take(i + 1).drop_last() =~= entries@.take(i as int));
            assert(entries@.take(i + 1).last() == entries@[i as int]);
            counter::lemma_wrapped_add(
                old(errors).errors + unmirrored + errors_in(entries@.take(i as int), root),
                1,
            );
            counter::lemma_wrapped_add(
                old(errors).links_skipped + links_in(entries@.take(i as int), root),
                1,
            );
        }
        match &entries[i] {
            EntryRead::Failed => {
                errors.error();
            },
            EntryRead::Read(entry) => match entry.kind {
                EntryKind::Symlink { to_directory: true } => {
                    errors.link_skipped();
                    scan.notes.push(ScanNote::LinkSkipped(entry.path.clone()));
                },
                EntryKind::Directory => {
                    scan.subdirs.push(entry.path.clone());
                },
                // A link to a file is fine: copying follows it and copies the contents.
                _ => match entry.path.strip_prefix(&roots.source) {
                    Some(relative) => {
                        scan.jobs.push(
                            CopyJob {
                                relative,
                                bytes: entry.bytes,
                                dehydrated: fsattr::is_dehydrated(entry.attributes),
                            },
                        );
                    },
                    None => {
                        errors.error();
                        scan.notes.push(ScanNote::EscapedRoot(entry.path.clone()));
                    },
                },
            },
        }
        i = i + 1;
        proof {
            let v = verdict(entries@[i - 1], root);
            let jobs = job_views(before.jobs@);
            let dirs = path_views(before.subdirs@);
            let notes = note_views(before.notes@);
            if let Verdict::File(job) = v {
                assert(job_views(scan.jobs@) =~= jobs.push(job));
            }
            if let Verdict::Subdir(dir) = v {
                assert(path_views(scan.subdirs@) =~= dirs.push(dir));
            }
            if v is LinkSkipped || v is EscapedRoot {
                assert(note_views(scan.notes@) =~= notes.push(v));
            }
        }
    }
    assert(entries@.take(entries.len() as int) =~= entries@);
    scan
}

/// Every entry of a directory is accounted for: as a file, as a subdirectory, as a directory link
/// or as an error, and as only one of these.
pub proof fn law_every_entry_is_accounted_for(entries: Seq<EntryRead>, root: Written)
    ensures
        jobs_in(entries, root).len() + subdirs_in(entries, root).len() + links_in(entries, root)
            + errors_in(entries, root) == entries.len(),
    decreases entries.len(),
{
    if entries.len() > 0 {
        law_every_entry_is_accounted_for(entries.drop_last(), root);
    }
}

/// A found file is the one that was listed: its job's source is the listed path, component by
/// component. Left out are `.` or `..` below a root with a verbatim prefix, and the prefix itself.
pub proof fn law_job_leads_back_to_its_file(entry: Entry, root: Written, job: Job)
    requires
        path::in_normal_form(root.parts()),
        path::in_normal_form(entry.path@.parts()),
        path::is_verbatim(root.parts()) ==> path::is_free_of_dots(
            entry.path@.parts().skip(root.pieces.len() as int),
        ),
        entry.path@.pieces.len() == root.pieces.len() ==> !path::opens_root(root),
        verdict(EntryRead::Read(entry), root) == Verdict::File(job),
    ensures
        path::path_key(path::joined(root, job.relative).parts()) == path::path_key(
            entry.path@.parts(),
        ),
        root.parts().is_prefix_of(entry.path@.parts()) ==> path::joined(root, job.relative).parts()
            == entry.path@.parts(),
        job.bytes == entry.bytes,
        job.dehydrated == fsattr::marks_placeholder(entry.attributes),
{
    path::law_join_undoes_strip(root, entry.path@);
}

/// A job ends up below the target root where its file lies below the source root. Left out are
/// relative paths that joining does not just append to both roots.
pub proof fn law_copy_mirrors_the_tree(source: Written, target: Written, job: Job)
    requires
        path::in_normal_form(source.parts()),
        path::in_normal_form(target.parts()),
        path::in_normal_form(job.relative.parts()),
        path::is_appended(source, job.relative),
        path::is_appended(target, job.relative),
    ensures
        path::stripped(path::joined(source, job.relative), source).parts() == job.relative.parts(),
        path::stripped(path::joined(target, job.relative), target).parts() == job.relative.parts(),
        path::starts_with(path::joined(source, job.relative), source),
        path::starts_with(path::joined(target, job.relative), target),
        ({
            let (from, to) = job.ends(source, target);
            &&& path::starts_with(from, source) && path::starts_with(to, target)
            &&& path::stripped(from, source).parts() == job.relative.parts()
            &&& path::stripped(to, target).parts() == job.relative.parts()
        }),
{
    path::law_strip_undoes_join(source, job.relative);
    path::law_strip_undoes_join(target, job.relative);
}

/// A file of a directory lands in the directory that this directory is mirrored to. Left out is a
/// target that is nothing but a verbatim prefix and gets its root with the file.
pub proof fn law_files_land_in_the_mirrored_directory(
    entry: Entry,
    dir: Written,
    name: Seq<u8>,
    source: Written,
    target: Written,
    job: Job,
)
    requires
        path::in_normal_form(dir.parts()),
        path::in_normal_form(target.parts()),
        path::starts_with(dir, source),
        entry.path@.parts() == dir.parts().push(Part::Normal(name)),
        verdict(EntryRead::Read(entry), source) == Verdict::File(job),
        path::is_verbatim(target.parts()) && path::joined(
            target,
            path::stripped(dir, source),
        ).parts().len() == 1 ==> path::stripped(dir, source).pieces.len() > 0 && path::stripped(
            dir,
            source,
        ).pieces[0].part is Prefix,
    ensures
        path::parent_of(path::joined(target, job.relative)) is Some,
        path::parent_of(path::joined(target, job.relative))->0.parts() == path::joined(
            target,
            path::stripped(dir, source),
        ).parts(),
{
    assert(path::path_key(source.parts()).len() == source.pieces.len() && path::path_key(
        dir.parts(),
    ).len() == dir.pieces.len());
    path::lemma_stripped_push(dir, entry.path@, source, name);
    path::lemma_stripped_form(dir, source);
    path::law_parent_of_joined(target, path::stripped(dir, source), job.relative, name);
}

/// How much discovery may have on its hands.
#[derive(Debug, Clone, Copy, PartialEq, Eq, Structural)]
pub struct DiscoveryLimits {
    /// Files found but not yet taken up by the scheduler.
    pub queue: usize,
    /// Directories scanned at once.
    pub scans: usize,
}

impl DiscoveryLimits {
    /// The limits for what was asked for.
    pub open spec fn asked_for(queue_depth: usize, discovery_jobs: usize) -> DiscoveryLimits {
        DiscoveryLimits {
            queue: if queue_depth >= 1 {
                queue_depth
            } else {
                1
            },
            scans: if discovery_jobs >= 1 {
                discovery_jobs
            } else {
                1
            },
        }
    }

    /// With room for no file, or for no scan, discovery would never end, so there is room for at
    /// least one of each.
    pub fn new(queue_depth: usize, discovery_jobs: usize) -> (r: Self)
        ensures
            r.queue == if queue_depth >= 1 {
                queue_depth
            } else {
                1
            },
            r.scans == if discovery_jobs >= 1 {
                discovery_jobs
            } else {
                1
            },
            r == DiscoveryLimits::asked_for(queue_depth, discovery_jobs),
    {
        DiscoveryLimits { queue: queue_depth.max(1), scans: discovery_jobs.max(1) }
    }
}

/// Where discovery stands. Scans run elsewhere; this hands them out and takes them back.
#[derive(Debug, PartialEq, Eq)]
pub struct Discovery {
    /// Files found but not yet sent on, the next one first.
    pub jobs: VecDeque<CopyJob>,
    /// Directories found but not yet handed out for scanning, the next one first.
    pub dirs: VecDeque<PathBuf>,
    /// Scans handed out and not yet back.
    pub in_flight: u64,
    /// Nobody wants any more files.
    pub stopped: bool,
}

/// What discovery does next.
#[derive(Debug, PartialEq, Eq)]
pub enum DriveStep {
    /// Count the file as found and send it on.
    Send(CopyJob),
    /// Hand the directory out for scanning.
    Scan(PathBuf),
    /// Wait for a scan to come back.
    Join,
    /// Nothing is left to do.
    Done,
}

impl Discovery {
    /// Files not yet sent on.
    pub open spec fn pending_jobs(self) -> Seq<Job> {
        job_views(self.jobs@)
    }

    /// Directories not yet handed out.
    pub open spec fn pending_dirs(self) -> Seq<Written> {
        path_views(self.dirs@)
    }

    /// Whether a file is due to be sent on.
    pub open spec fn sends(self) -> bool {
        !self.stopped && self.pending_jobs().len() > 0
    }

    /// Whether a directory is due to be handed out.
    pub open spec fn scans(self) -> bool {
        !self.stopped && self.pending_jobs().len() == 0 && self.pending_dirs().len() > 0
    }

    /// Whether discovery is over.
    pub open spec fn is_over(self) -> bool {
        self.stopped || (self.pending_jobs().len() == 0 && self.pending_dirs().len() == 0
            && self.in_flight == 0)
    }

    /// Starts at the source root.
    pub fn new(roots: &Roots) -> (r: Self)
        ensures
            r.pending_jobs() == Seq::<Job>::empty(),
            r.pending_dirs() == seq![roots.source@],
            r.in_flight == 0,
            !r.stopped,
    {
        let mut dirs: VecDeque<PathBuf> = VecDeque::new();
        dirs.push_back(roots.source.clone());
        let r = Discovery { jobs: VecDeque::new(), dirs, in_flight: 0, stopped: false };
        assert(r.pending_jobs() =~= Seq::empty());
        assert(r.pending_dirs() =~= seq![roots.source@]);
        r
    }

    /// The next step. Files go first, then the directories that were found along with them.
    pub fn drive(&mut self) -> (r: DriveStep)
        requires
            old(self).in_flight < u64::MAX,
        ensures
            final(self).stopped == old(self).stopped,
            r is Send <==> old(self).sends(),
            r is Scan <==> old(self).scans(),
            r is Done <==> old(self).is_over(),
            match r {
                DriveStep::Send(job) => {
                    &&& !old(self).stopped
                    &&& old(self).pending_jobs().len() > 0
                    &&& job@ == old(self).pending_jobs()[0]
                    &&& final(self).pending_jobs() == old(self).pending_jobs().skip(1)
                    &&& final(self).pending_dirs() == old(self).pending_dirs()
                    &&& final(self).in_flight == old(self).in_flight
                },
                DriveStep::Scan(dir) => {
                    &&& !old(self).stopped
                    &&& old(self).pending_jobs().len() == 0
                    &&& old(self).pending_dirs().len() > 0
                    &&& dir@ == old(self).pending_dirs()[0]
                    &&& final(self).pending_jobs() == old(self).pending_jobs()
                    &&& final(self).pending_dirs() == old(self).pending_dirs().skip(1)
                    &&& final(self).in_flight == old(self).in_flight + 1
                },
                DriveStep::Join => {
                    &&& !old(self).stopped
                    &&& old(self).pending_jobs().len() == 0
                    &&& old(self).pending_dirs().len() == 0
                    &&& old(self).in_flight > 0
                    &&& *final(self) == *old(self)
                },
                DriveStep::Done => {
                    &&& *final(self) == *old(self)
                    &&& old(self).stopped || (old(self).pending_jobs().len() == 0 && old(
                        self,
                    ).pending_dirs().len() == 0 && old(self).in_flight == 0)
                },
            },
    {
        if self.stopped {
            return DriveStep::Done;
        }
        if self.jobs.len() > 0 {
            let job = self.jobs.pop_front().unwrap();
            assert(job_views(self.jobs@) =~= job_views(old(self).jobs@).skip(1));
            return DriveStep::Send(job);
        }
        if self.dirs.len() > 0 {
            let dir = self.dirs.pop_front().unwrap();
            self.in_flight = self.in_flight + 1;
            assert(path_views(self.dirs@) =~= path_views(old(self).dirs@).skip(1));
            return DriveStep::Scan(dir);
        }
        if self.in_flight > 0 {
            DriveStep::Join
        } else {
            DriveStep::Done
        }
    }

    /// A scan came back, or was lost, which counts as an error.
    pub fn joined(&mut self, scan: Option<Scan>, errors: &mut WalkErrors)
        requires
            old(self).in_flight > 0,
        ensures
            final(self).in_flight == old(self).in_flight - 1,
            final(self).stopped == old(self).stopped,
            final(self).pending_jobs() == queued(
                old(self).pending_jobs(),
                match scan {
                    Some(s) => Some(job_views(s.jobs@)),
                    None => None,
                },
            ),
            final(self).pending_dirs() == queued(
                old(self).pending_dirs(),
                match scan {
                    Some(s) => Some(path_views(s.subdirs@)),
                    None => None,
                },
            ),
            match scan {
                Some(s) => {
                    &&& final(self).pending_jobs() == old(self).pending_jobs() + job_views(s.jobs@)
                    &&& final(self).pending_dirs() == old(self).pending_dirs() + path_views(
                        s.subdirs@,
                    )
                    &&& *final(errors) == *old(errors)
                },
                None => {
                    &&& final(self).pending_jobs() == old(self).pending_jobs()
                    &&& final(self).pending_dirs() == old(self).pending_dirs()
                    &&& final(errors).errors == counter::wrapped(old(errors).errors + 1)
                    &&& final(errors).links_skipped == old(errors).links_skipped
                },
            },
    {
        self.in_flight = self.in_flight - 1;
        match scan {
            Some(s) => {
                queue_jobs(&mut self.jobs, &s.jobs);
                queue_dirs(&mut self.dirs, &s.subdirs);
            },
            None => {
                errors.error();
            },
        }
    }

    /// The receiver of the files is gone.
    pub fn stop(&mut self)
        ensures
            *final(self) == (Discovery { stopped: true, ..*old(self) }),
    {
        self.stopped = true;
    }
}

/// What is waiting once a scan came back; nothing was found where it was lost.
pub open spec fn queued<A>(waiting: Seq<A>, found: Option<Seq<A>>) -> Seq<A> {
    match found {
        Some(more) => waiting + more,
        None => waiting,
    }
}

/// Puts found files at the end of the queue.
fn queue_jobs(queue: &mut VecDeque<CopyJob>, jobs: &Vec<CopyJob>)
    ensures
        job_views(final(queue)@) == job_views(old(queue)@) + job_views(jobs@),
{
    let mut i: usize = 0;
    assert(job_views(queue@) =~= job_views(old(queue)@) + job_views(jobs@).take(0));
    while i < jobs.len()
        invariant
            i <= jobs.len(),
            job_views(queue@) == job_views(old(queue)@) + job_views(jobs@).take(i as int),
        decreases jobs.len() - i,
    {
        let ghost before = queue@;
        let job = jobs[i].clone();
        queue.push_back(job);
        i = i + 1;
        assert(job_views(queue@) =~= job_views(before).push(jobs@[i - 1]@));
        assert(job_views(queue@) =~= job_views(old(queue)@) + job_views(jobs@).take(i as int));
    }
    assert(job_views(jobs@).take(jobs.len() as int) =~= job_views(jobs@));
}

/// Puts found directories at the end of the queue.
fn queue_dirs(queue: &mut VecDeque<PathBuf>, dirs: &Vec<PathBuf>)
    ensures
        path_views(final(queue)@) == path_views(old(queue)@) + path_views(dirs@),
{
    let mut i: usize = 0;
    assert(path_views(queue@) =~= path_views(old(queue)@) + path_views(dirs@).take(0));
    while i < dirs.len()
        invariant
            i <= dirs.len(),
            path_views(queue@) == path_views(old(queue)@) + path_views(dirs@).take(i as int),
        decreases dirs.len() - i,
    {
        let ghost before = queue@;
        let dir = dirs[i].clone();
        queue.push_back(dir);
        i = i + 1;
        assert(path_views(queue@) =~= path_views(before).push(dirs@[i - 1]@));
        assert(path_views(queue@) =~= path_views(old(queue)@) + path_views(dirs@).take(i as int));
    }
    assert(path_views(dirs@).take(dirs.len() as int) =~= path_views(dirs@));
}

/// A directory tree: the files that a scan of its top finds, and the trees below it.
pub enum Tree {
    Dir { path: Written, jobs: Seq<Job>, dirs: Seq<Tree> },
}

impl Tree {
    pub open spec fn path(self) -> Written {
        match self {
            Tree::Dir { path, .. } => path,
        }
    }

    pub open spec fn jobs(self) -> Seq<Job> {
        match self {
            Tree::Dir { jobs, .. } => jobs,
        }
    }

    pub open spec fn dirs(self) -> Seq<Tree> {
        match self {
            Tree::Dir { dirs, .. } => dirs,
        }
    }
}

/// All files of a tree.
pub open spec fn files_of(tree: Tree) -> Multiset<Job>
    decreases tree,
{
    match tree {
        Tree::Dir { path, jobs, dirs } => jobs.to_multiset().add(files_of_all(dirs)),
    }
}

/// All files of some trees.
pub open spec fn files_of_all(trees: Seq<Tree>) -> Multiset<Job>
    decreases trees,
{
    if trees.len() == 0 {
        Multiset::empty()
    } else {
        files_of_all(trees.drop_last()).add(files_of(trees[trees.len() - 1]))
    }
}

/// The paths of some trees.
pub open spec fn tops(trees: Seq<Tree>) -> Seq<Written> {
    trees.map_values(|t: Tree| t.path())
}

/// A walk over a tree, seen from outside: what was sent so far, what [`Discovery`] still holds,
/// and which trees are being scanned.
pub struct Walk {
    pub sent: Multiset<Job>,
    pub jobs: Seq<Job>,
    pub dirs: Seq<Tree>,
    pub flying: Seq<Tree>,
}

impl Walk {
    /// Every file that was sent or still will be.
    pub open spec fn all_files(self) -> Multiset<Job> {
        self.sent.add(self.jobs.to_multiset()).add(files_of_all(self.dirs)).add(
            files_of_all(self.flying),
        )
    }

    /// Whether `d` is the state that this walk is in.
    pub open spec fn is_at(self, d: Discovery) -> bool {
        &&& d.pending_jobs() == self.jobs
        &&& d.pending_dirs() == tops(self.dirs)
        &&& d.in_flight == self.flying.len()
        &&& !d.stopped
    }

    /// The walk after the next file was sent.
    pub open spec fn after_send(self) -> Walk {
        Walk { sent: self.sent.insert(self.jobs[0]), jobs: self.jobs.skip(1), ..self }
    }

    /// The walk after the next directory was handed out.
    pub open spec fn after_scan(self) -> Walk {
        Walk { dirs: self.dirs.skip(1), flying: self.flying.push(self.dirs[0]), ..self }
    }

    /// The walk after the `k`th scan came back.
    pub open spec fn after_join(self, k: int) -> Walk {
        Walk {
            jobs: self.jobs + self.flying[k].jobs(),
            dirs: self.dirs + self.flying[k].dirs(),
            flying: self.flying.remove(k),
            ..self
        }
    }
}

proof fn lemma_files_of_all_add(a: Seq<Tree>, b: Seq<Tree>)
    ensures
        files_of_all(a + b) == files_of_all(a).add(files_of_all(b)),
    decreases b.len(),
{
    if b.len() == 0 {
        assert(a + b =~= a);
        assert(files_of_all(a).add(files_of_all(b)) =~= files_of_all(a));
    } else {
        lemma_files_of_all_add(a, b.drop_last());
        assert((a + b).drop_last() =~= a + b.drop_last());
        assert(files_of_all(a + b) =~= files_of_all(a).add(files_of_all(b)));
    }
}

proof fn lemma_files_of_one(t: Tree)
    ensures
        files_of_all(seq![t]) == files_of(t),
{
    reveal_with_fuel(files_of_all, 2);
    assert(seq![t].drop_last() =~= Seq::empty());
    assert(files_of_all(seq![t]) =~= files_of(t));
}

/// No step of a walk loses or invents a file, whichever scan comes back first: what was sent,
/// together with what is still to come, stays the same.
pub proof fn law_walk_keeps_every_file(w: Walk, k: int)
    ensures
        w.jobs.len() > 0 ==> w.after_send().all_files() == w.all_files(),
        w.dirs.len() > 0 ==> w.after_scan().all_files() == w.all_files(),
        0 <= k < w.flying.len() ==> w.after_join(k).all_files() == w.all_files(),
{
    broadcast use vstd::multiset::group_multiset_axioms;
    broadcast use vstd::seq_lib::group_to_multiset_ensures;

    if w.jobs.len() > 0 {
        assert(w.jobs =~= seq![w.jobs[0]] + w.jobs.skip(1));
        vstd::seq_lib::lemma_multiset_commutative(seq![w.jobs[0]], w.jobs.skip(1));
        assert(seq![w.jobs[0]] =~= Seq::empty().push(w.jobs[0]));
        assert(w.after_send().all_files() =~= w.all_files());
    }
    if w.dirs.len() > 0 {
        let d = w.dirs[0];
        assert(w.dirs =~= seq![d] + w.dirs.skip(1));
        lemma_files_of_all_add(seq![d], w.dirs.skip(1));
        lemma_files_of_one(d);
        assert(w.flying.push(d) =~= w.flying + seq![d]);
        lemma_files_of_all_add(w.flying, seq![d]);
        assert(w.after_scan().all_files() =~= w.all_files());
    }
    if 0 <= k < w.flying.len() {
        let t = w.flying[k];
        let front = w.flying.take(k);
        let back = w.flying.skip(k + 1);
        assert(w.flying =~= front + (seq![t] + back));
        assert(w.flying.remove(k) =~= front + back);
        lemma_files_of_all_add(front, seq![t] + back);
        lemma_files_of_all_add(seq![t], back);
        lemma_files_of_all_add(front, back);
        lemma_files_of_one(t);
        lemma_files_of_all_add(w.dirs, t.dirs());
        vstd::seq_lib::lemma_multiset_commutative(w.jobs, t.jobs());
        assert(w.after_join(k).all_files() =~= w.all_files());
    }
}

/// One step of a walk.
pub enum WalkStep {
    Send,
    Scan,
    /// The scan at this place among those being made came back.
    Join(int),
}

impl Walk {
    /// The walk over `tree` before anything was done.
    pub open spec fn start(tree: Tree) -> Walk {
        Walk {
            sent: Multiset::empty(),
            jobs: Seq::empty(),
            dirs: seq![tree],
            flying: Seq::empty(),
        }
    }

    pub open spec fn can(self, step: WalkStep) -> bool {
        match step {
            WalkStep::Send => self.jobs.len() > 0,
            WalkStep::Scan => self.dirs.len() > 0,
            WalkStep::Join(k) => 0 <= k < self.flying.len(),
        }
    }

    pub open spec fn after(self, step: WalkStep) -> Walk {
        match step {
            WalkStep::Send => self.after_send(),
            WalkStep::Scan => self.after_scan(),
            WalkStep::Join(k) => self.after_join(k),
        }
    }

    /// Whether each of the steps can be made in turn.
    pub open spec fn can_all(self, steps: Seq<WalkStep>) -> bool
        decreases steps.len(),
    {
        steps.len() == 0 || (self.can(steps[0]) && self.after(steps[0]).can_all(steps.skip(1)))
    }

    pub open spec fn after_all(self, steps: Seq<WalkStep>) -> Walk
        decreases steps.len(),
    {
        if steps.len() == 0 {
            self
        } else {
            self.after(steps[0]).after_all(steps.skip(1))
        }
    }
}

proof fn lemma_steps_keep_every_file(w: Walk, steps: Seq<WalkStep>)
    requires
        w.can_all(steps),
    ensures
        w.after_all(steps).all_files() == w.all_files(),
    decreases steps.len(),
{
    if steps.len() > 0 {
        law_walk_keeps_every_file(
            w,
            match steps[0] {
                WalkStep::Join(k) => k,
                _ => 0,
            },
        );
        lemma_steps_keep_every_file(w.after(steps[0]), steps.skip(1));
    }
}

/// Discovery that comes to its end without having been stopped has sent every file of the tree
/// exactly once, and nothing else, in whatever order the scans came back.
pub proof fn law_discovery_finds_every_file(tree: Tree, steps: Seq<WalkStep>, d: Discovery)
    requires
        Walk::start(tree).can_all(steps),
        Walk::start(tree).after_all(steps).is_at(d),
        d.pending_jobs().len() == 0,
        d.pending_dirs().len() == 0,
        d.in_flight == 0,
    ensures
        Walk::start(tree).after_all(steps).sent == files_of(tree),
{
    let w = Walk::start(tree).after_all(steps);
    assert(tops(w.dirs).len() == w.dirs.len());
    lemma_all_sent(tree, steps);
}

/// How much there is to do about a tree: to hand it out, to take it back, to send its files, and
/// all that for the trees below it.
pub open spec fn weight(tree: Tree) -> nat
    decreases tree,
{
    match tree {
        Tree::Dir { path, jobs, dirs } => 2 + jobs.len() + weight_of_all(dirs),
    }
}

/// How much there is to do about some trees.
pub open spec fn weight_of_all(trees: Seq<Tree>) -> nat
    decreases trees,
{
    if trees.len() == 0 {
        0
    } else {
        weight_of_all(trees.drop_last()) + weight(trees[trees.len() - 1])
    }
}

impl Walk {
    /// How many more steps the walk takes. A tree in flight was handed out already.
    pub open spec fn steps_left(self) -> int {
        self.jobs.len() + weight_of_all(self.dirs) + weight_of_all(self.flying) - self.flying.len()
    }

    /// Nothing is left to do.
    pub open spec fn is_over(self) -> bool {
        self.jobs.len() == 0 && self.dirs.len() == 0 && self.flying.len() == 0
    }
}

proof fn lemma_weight_of_all_add(a: Seq<Tree>, b: Seq<Tree>)
    ensures
        weight_of_all(a + b) == weight_of_all(a) + weight_of_all(b),
    decreases b.len(),
{
    if b.len() == 0 {
        assert(a + b =~= a);
    } else {
        lemma_weight_of_all_add(a, b.drop_last());
        assert((a + b).drop_last() =~= a + b.drop_last());
    }
}

proof fn lemma_weight_of_one(t: Tree)
    ensures
        weight_of_all(seq![t]) == weight(t),
{
    reveal_with_fuel(weight_of_all, 2);
    assert(seq![t].drop_last() =~= Seq::empty());
}

/// Each tree weighs two at least.
proof fn lemma_weight_at_least(trees: Seq<Tree>)
    ensures
        weight_of_all(trees) >= 2 * trees.len(),
    decreases trees.len(),
{
    if trees.len() > 0 {
        lemma_weight_at_least(trees.drop_last());
        let last = trees[trees.len() - 1];
        assert(weight(last) == 2 + last.jobs().len() + weight_of_all(last.dirs()));
    }
}

/// Each step of a walk leaves one fewer to take, and there are none left exactly when it is over.
pub proof fn law_every_step_gets_nearer_the_end(w: Walk, step: WalkStep)
    requires
        w.can(step),
    ensures
        w.after(step).steps_left() == w.steps_left() - 1,
        w.steps_left() >= 0,
        w.steps_left() == 0 <==> w.is_over(),
{
    lemma_weight_at_least(w.dirs);
    lemma_weight_at_least(w.flying);
    match step {
        WalkStep::Send => {},
        WalkStep::Scan => {
            let d = w.dirs[0];
            assert(w.dirs =~= seq![d] + w.dirs.skip(1));
            lemma_weight_of_all_add(seq![d], w.dirs.skip(1));
            lemma_weight_of_one(d);
            assert(w.flying.push(d) =~= w.flying + seq![d]);
            lemma_weight_of_all_add(w.flying, seq![d]);
        },
        WalkStep::Join(k) => {
            let t = w.flying[k];
            let front = w.flying.take(k);
            let back = w.flying.skip(k + 1);
            assert(w.flying =~= front + (seq![t] + back));
            assert(w.flying.remove(k) =~= front + back);
            lemma_weight_of_all_add(front, seq![t] + back);
            lemma_weight_of_all_add(seq![t], back);
            lemma_weight_of_all_add(front, back);
            lemma_weight_of_one(t);
            lemma_weight_of_all_add(w.dirs, t.dirs());
        },
    }
}

proof fn lemma_steps_taken(w: Walk, steps: Seq<WalkStep>)
    requires
        w.can_all(steps),
    ensures
        w.after_all(steps).steps_left() == w.steps_left() - steps.len(),
        w.after_all(steps).steps_left() >= 0,
        w.after_all(steps).steps_left() == 0 <==> w.after_all(steps).is_over(),
    decreases steps.len(),
{
    if steps.len() > 0 {
        law_every_step_gets_nearer_the_end(w, steps[0]);
        lemma_steps_taken(w.after(steps[0]), steps.skip(1));
    } else {
        lemma_weight_at_least(w.dirs);
        lemma_weight_at_least(w.flying);
    }
}

/// Discovery ends: whatever order its scans come back in, it is over after as many steps as the
/// tree has to give, and a walk that is not over has a step to take.
pub proof fn law_discovery_ends(tree: Tree, steps: Seq<WalkStep>)
    requires
        Walk::start(tree).can_all(steps),
    ensures
        steps.len() <= weight(tree),
        Walk::start(tree).after_all(steps).is_over() <==> steps.len() == weight(tree),
        !Walk::start(tree).after_all(steps).is_over() ==> exists|step: WalkStep|
            #[trigger] Walk::start(tree).after_all(steps).can(step),
{
    let w = Walk::start(tree).after_all(steps);
    lemma_steps_taken(Walk::start(tree), steps);
    lemma_weight_of_one(tree);
    assert(weight_of_all(Seq::empty()) == 0);
    if w.jobs.len() > 0 {
        assert(w.can(WalkStep::Send));
    } else if w.dirs.len() > 0 {
        assert(w.can(WalkStep::Scan));
    } else if w.flying.len() > 0 {
        assert(w.can(WalkStep::Join(0)));
    }
}

/// Two discoveries of the same tree send the same files, however many scans each makes at once and
/// however many files each may hold: these limits change only the order of the steps.
pub proof fn law_limits_change_only_the_order(
    tree: Tree,
    some: Seq<WalkStep>,
    others: Seq<WalkStep>,
)
    requires
        Walk::start(tree).can_all(some),
        Walk::start(tree).can_all(others),
        Walk::start(tree).after_all(some).is_over(),
        Walk::start(tree).after_all(others).is_over(),
    ensures
        Walk::start(tree).after_all(some).sent == Walk::start(tree).after_all(others).sent,
        Walk::start(tree).after_all(some).sent == files_of(tree),
        some.len() == others.len(),
{
    lemma_all_sent(tree, some);
    lemma_all_sent(tree, others);
    lemma_steps_taken(Walk::start(tree), some);
    lemma_steps_taken(Walk::start(tree), others);
}

proof fn lemma_all_sent(tree: Tree, steps: Seq<WalkStep>)
    requires
        Walk::start(tree).can_all(steps),
        Walk::start(tree).after_all(steps).is_over(),
    ensures
        Walk::start(tree).after_all(steps).sent == files_of(tree),
{
    broadcast use vstd::multiset::group_multiset_axioms;
    broadcast use vstd::seq_lib::group_to_multiset_ensures;

    let w = Walk::start(tree).after_all(steps);
    lemma_steps_keep_every_file(Walk::start(tree), steps);
    lemma_files_of_one(tree);
    assert(Walk::start(tree).all_files() =~= files_of(tree));
    assert(w.jobs =~= Seq::empty());
    assert(w.all_files() =~= w.sent);
}

/// [`Discovery`] goes through the steps of a walk: each of its own steps takes it from where one
/// walk stands to where the next one does.
pub proof fn law_discovery_walks(w: Walk, d: Discovery, e: Discovery, k: int)
    requires
        w.is_at(d),
        !e.stopped,
    ensures
        d.pending_jobs().len() > 0 && e.pending_jobs() == d.pending_jobs().skip(1)
            && e.pending_dirs() == d.pending_dirs() && e.in_flight == d.in_flight
            ==> w.after_send().is_at(e),
        d.pending_dirs().len() > 0 && e.pending_jobs() == d.pending_jobs() && e.pending_dirs()
            == d.pending_dirs().skip(1) && e.in_flight == d.in_flight + 1
            ==> w.after_scan().is_at(e),
        0 <= k < w.flying.len() && e.pending_jobs() == d.pending_jobs() + w.flying[k].jobs()
            && e.pending_dirs() == d.pending_dirs() + tops(w.flying[k].dirs()) && e.in_flight
            == d.in_flight - 1 ==> w.after_join(k).is_at(e),
{
    assert(tops(w.dirs).len() == w.dirs.len());
    if w.dirs.len() > 0 {
        assert(tops(w.dirs.skip(1)) =~= tops(w.dirs).skip(1));
    }
    if 0 <= k < w.flying.len() {
        assert(tops(w.dirs + w.flying[k].dirs()) =~= tops(w.dirs) + tops(w.flying[k].dirs()));
    }
}

/// A scan leaves no file out and makes none up: its jobs are the entries that were read, lie below
/// the root, and are neither directories nor links to one, in order, each with its own path, size
/// and marking. Nothing else about an entry matters.
pub proof fn law_scan_finds_exactly_the_files(entries: Seq<EntryRead>, root: Written)
    ensures
        jobs_in(entries, root) == entries.filter(
            |r: EntryRead|
                r is Read && !(r->Read_0.kind is Directory) && r->Read_0.kind
                    != (EntryKind::Symlink { to_directory: true }) && path::starts_with(
                    r->Read_0.path@,
                    root,
                ),
        ).map_values(
            |r: EntryRead|
                Job {
                    relative: path::stripped(r->Read_0.path@, root),
                    bytes: r->Read_0.bytes,
                    dehydrated: fsattr::marks_placeholder(r->Read_0.attributes),
                },
        ),
    decreases entries.len(),
{
    reveal(Seq::filter);
    if entries.len() > 0 {
        law_scan_finds_exactly_the_files(entries.drop_last(), root);
    }
    assert(jobs_in(entries, root) =~= entries.filter(
        |r: EntryRead|
            r is Read && !(r->Read_0.kind is Directory) && r->Read_0.kind != (EntryKind::Symlink {
                to_directory: true,
            }) && path::starts_with(r->Read_0.path@, root),
    ).map_values(
        |r: EntryRead|
            Job {
                relative: path::stripped(r->Read_0.path@, root),
                bytes: r->Read_0.bytes,
                dehydrated: fsattr::marks_placeholder(r->Read_0.attributes),
            },
    ));
}

/// A scan leads on to every directory that was read, wherever it lies, in order, and to nothing
/// else.
pub proof fn law_scan_leads_to_exactly_the_directories(entries: Seq<EntryRead>, root: Written)
    ensures
        subdirs_in(entries, root) == entries.filter(
            |r: EntryRead| r is Read && r->Read_0.kind is Directory,
        ).map_values(|r: EntryRead| r->Read_0.path@),
    decreases entries.len(),
{
    reveal(Seq::filter);
    if entries.len() > 0 {
        law_scan_leads_to_exactly_the_directories(entries.drop_last(), root);
    }
    assert(subdirs_in(entries, root) =~= entries.filter(
        |r: EntryRead| r is Read && r->Read_0.kind is Directory,
    ).map_values(|r: EntryRead| r->Read_0.path@));
}

/// Only an entry that could not be read, or a file outside the root, is an error; only a link to a
/// directory counts as one.
pub proof fn law_scan_counts_exactly_what_it_leaves_out(entries: Seq<EntryRead>, root: Written)
    ensures
        errors_in(entries, root) == entries.filter(
            |r: EntryRead|
                r is Failed || (!(r->Read_0.kind is Directory) && r->Read_0.kind
                    != (EntryKind::Symlink { to_directory: true }) && !path::starts_with(
                    r->Read_0.path@,
                    root,
                )),
        ).len(),
        links_in(entries, root) == entries.filter(
            |r: EntryRead|
                r is Read && r->Read_0.kind == (EntryKind::Symlink { to_directory: true }),
        ).len(),
    decreases entries.len(),
{
    reveal(Seq::filter);
    if entries.len() > 0 {
        law_scan_counts_exactly_what_it_leaves_out(entries.drop_last(), root);
    }
}

/// Every link to a directory, and every file outside the root, is named in a note, in order.
pub proof fn law_scan_names_what_it_leaves_out(entries: Seq<EntryRead>, root: Written)
    ensures
        left_out(entries, root) == entries.filter(
            |r: EntryRead|
                r is Read && !(r->Read_0.kind is Directory) && (r->Read_0.kind
                    == (EntryKind::Symlink { to_directory: true }) || !path::starts_with(
                    r->Read_0.path@,
                    root,
                )),
        ).map_values(
            |r: EntryRead|
                if r->Read_0.kind == (EntryKind::Symlink { to_directory: true }) {
                    Verdict::LinkSkipped(r->Read_0.path@)
                } else {
                    Verdict::EscapedRoot(r->Read_0.path@)
                },
        ),
    decreases entries.len(),
{
    reveal(Seq::filter);
    if entries.len() > 0 {
        law_scan_names_what_it_leaves_out(entries.drop_last(), root);
    }
    assert(left_out(entries, root) =~= entries.filter(
        |r: EntryRead|
            r is Read && !(r->Read_0.kind is Directory) && (r->Read_0.kind == (EntryKind::Symlink {
                to_directory: true,
            }) || !path::starts_with(r->Read_0.path@, root)),
    ).map_values(
        |r: EntryRead|
            if r->Read_0.kind == (EntryKind::Symlink { to_directory: true }) {
                Verdict::LinkSkipped(r->Read_0.path@)
            } else {
                Verdict::EscapedRoot(r->Read_0.path@)
            },
    ));
}

/// Whatever its size, name or attributes, a file below the root that was read has its job, with
/// that size; and a directory that was read is among the directories to scan.
pub proof fn law_no_entry_is_passed_over(entries: Seq<EntryRead>, root: Written, i: int)
    requires
        0 <= i < entries.len(),
        entries[i] is Read,
    ensures
        ({
            let e = entries[i]->Read_0;
            let is_link = e.kind == (EntryKind::Symlink { to_directory: true });
            &&& e.kind is Directory ==> subdirs_in(entries, root).contains(e.path@)
            &&& !(e.kind is Directory) && !is_link && path::starts_with(e.path@, root) ==> exists|j: int|
                0 <= j < jobs_in(entries, root).len() && (#[trigger] jobs_in(
                    entries,
                    root,
                )[j]).relative == path::stripped(e.path@, root) && jobs_in(entries, root)[j].bytes
                    == e.bytes
        }),
    decreases entries.len(),
{
    let front = entries.drop_last();
    let jobs = jobs_in(front, root);
    let dirs = subdirs_in(front, root);
    let e = entries[i]->Read_0;
    if i < front.len() {
        law_no_entry_is_passed_over(front, root, i);
        assert(forall|j: int| 0 <= j < jobs.len() ==> jobs_in(entries, root)[j] == jobs[j]);
        if e.kind is Directory {
            let j = choose|j: int| 0 <= j < dirs.len() && dirs[j] == e.path@;
            assert(subdirs_in(entries, root)[j] == e.path@);
        } else if e.kind != (EntryKind::Symlink { to_directory: true }) && path::starts_with(
            e.path@,
            root,
        ) {
            let j = choose|j: int|
                0 <= j < jobs.len() && (#[trigger] jobs[j]).relative == path::stripped(
                    e.path@,
                    root,
                ) && jobs[j].bytes == e.bytes;
            assert(jobs_in(entries, root)[j] == jobs[j]);
        }
    } else {
        if e.kind is Directory {
            assert(subdirs_in(entries, root)[dirs.len() as int] == e.path@);
        } else if e.kind != (EntryKind::Symlink { to_directory: true }) && path::starts_with(
            e.path@,
            root,
        ) {
            assert(jobs_in(entries, root)[jobs.len() as int].bytes == e.bytes);
        }
    }
}

/// A directory can be read in one go or in two: what is found is the same.
pub proof fn law_listings_can_be_split(a: Seq<EntryRead>, b: Seq<EntryRead>, root: Written)
    ensures
        jobs_in(a + b, root) == jobs_in(a, root) + jobs_in(b, root),
        subdirs_in(a + b, root) == subdirs_in(a, root) + subdirs_in(b, root),
        left_out(a + b, root) == left_out(a, root) + left_out(b, root),
        errors_in(a + b, root) == errors_in(a, root) + errors_in(b, root),
        links_in(a + b, root) == links_in(a, root) + links_in(b, root),
    decreases b.len(),
{
    if b.len() > 0 {
        law_listings_can_be_split(a, b.drop_last(), root);
        assert((a + b).drop_last() =~= a + b.drop_last());
        assert((a + b).last() == b.last());
    } else {
        assert(a + b =~= a);
    }
    assert(jobs_in(a + b, root) =~= jobs_in(a, root) + jobs_in(b, root));
    assert(subdirs_in(a + b, root) =~= subdirs_in(a, root) + subdirs_in(b, root));
    assert(left_out(a + b, root) =~= left_out(a, root) + left_out(b, root));
}

/// Every directory below the source root is mirrored to the same place below the target root, unless
/// nothing is to be written; no other directory is.
pub proof fn law_directories_are_mirrored(dir: Written, source: Written, target: Written)
    ensures
        mirror_of(dir, source, target, true) is None,
        mirror_of(dir, source, target, false) is Some <==> path::starts_with(dir, source),
        mirror_of(dir, source, target, false) matches Some(p) ==> p == path::joined(
            target,
            path::stripped(dir, source),
        ),
        mirror_of(source, source, target, false) is Some,
{
    path::law_leading_components_decide(source, source);
}

/// A directory that could not be mirrored counts as one error, and so does one that could not be
/// read; a dry run, which mirrors nothing, counts only what could not be read.
pub proof fn law_scan_counts_its_own_failures(
    dir: Written,
    source: Written,
    mirrored: bool,
    entries: Seq<EntryRead>,
)
    ensures
        scan_errors(dir, source, true, mirrored, None) == 1,
        scan_errors(dir, source, true, mirrored, Some(entries)) == errors_in(entries, source),
        scan_errors(dir, source, false, true, Some(entries)) == errors_in(entries, source),
        path::starts_with(dir, source) ==> scan_errors(dir, source, false, false, Some(entries))
            == errors_in(entries, source) + 1 && scan_errors(dir, source, false, false, None) == 2,
        !path::starts_with(dir, source) ==> scan_errors(dir, source, false, mirrored, Some(entries))
            == errors_in(entries, source),
{
}

/// The limits are those that were asked for, but never nothing.
pub proof fn law_limits_are_as_asked(queue_depth: usize, discovery_jobs: usize)
    ensures
        ({
            let limits = DiscoveryLimits::asked_for(queue_depth, discovery_jobs);
            &&& limits.queue >= 1 && limits.scans >= 1
            &&& queue_depth >= 1 ==> limits.queue == queue_depth
            &&& discovery_jobs >= 1 ==> limits.scans == discovery_jobs
            &&& limits.queue <= queue_depth + 1 && limits.scans <= discovery_jobs + 1
        }),
{
}

/// Discovery that was not stopped goes on as long as anything is left: a file to send, a directory to
/// hand out or a scan to wait for, the files first. It does one thing at a time.
pub proof fn law_discovery_goes_on_while_anything_is_left(d: Discovery)
    ensures
        d.stopped ==> d.is_over(),
        !d.stopped ==> (d.is_over() <==> d.jobs@.len() == 0 && d.dirs@.len() == 0 && d.in_flight
            == 0),
        !d.stopped && d.jobs@.len() > 0 ==> d.sends() && !d.scans(),
        !d.stopped && d.jobs@.len() == 0 && d.dirs@.len() > 0 ==> d.scans() && !d.sends(),
        d.is_over() ==> !d.sends() && !d.scans(),
{
}

/// What a scan found waits behind all that was waiting before, in order and complete; a lost scan
/// changes nothing about what is waiting.
pub proof fn law_findings_wait_their_turn<A>(waiting: Seq<A>, more: Seq<A>)
    ensures
        queued(waiting, Some(more)).len() == waiting.len() + more.len(),
        queued(waiting, Some(more)).take(waiting.len() as int) == waiting,
        queued(waiting, Some(more)).skip(waiting.len() as int) == more,
        queued(waiting, None) == waiting,
{
    assert(queued(waiting, Some(more)).take(waiting.len() as int) =~= waiting);
    assert(queued(waiting, Some(more)).skip(waiting.len() as int) =~= more);
}

/// Each note is of the kind, and about the path, that it was made for.
pub proof fn law_notes_are_told_apart(notes: Seq<ScanNote>, i: int)
    requires
        0 <= i < notes.len(),
    ensures
        note_views(notes).len() == notes.len(),
        notes[i] matches ScanNote::LinkSkipped(p) ==> note_views(notes)[i] == Verdict::LinkSkipped(
            p@,
        ),
        notes[i] matches ScanNote::EscapedRoot(p) ==> note_views(notes)[i] == Verdict::EscapedRoot(
            p@,
        ),
{
}

} // verus!
