//! The summary at the end of a run.

use vstd::prelude::*;

use crate::conflict_resolver::ConflictResolutionStrategy;
use crate::job::{JobResult, Outcome};
use crate::scheduler;
use crate::scheduler::{Completion, Stats};
use crate::size;
use crate::text;
use crate::walker::{Job, WalkErrors};

verus! {

/// What to print at the end, and whether the run went well.
#[derive(Debug, PartialEq, Eq)]
pub struct Report {
    /// Lines for stdout.
    pub out: Vec<String>,
    /// Lines for stderr.
    pub err: Vec<String>,
    /// Whether the run completed with nothing to complain about.
    pub clean: bool,
}

/// The run's byte counts for people.
#[derive(Debug, PartialEq, Eq)]
pub struct Sizes {
    pub copied: String,
    pub overwritten: String,
    pub skipped: String,
    pub hydrated: String,
}

/// What [`Sizes`] stand for.
pub struct SizeTexts {
    pub copied: Seq<char>,
    pub overwritten: Seq<char>,
    pub skipped: Seq<char>,
    pub hydrated: Seq<char>,
}

impl View for Sizes {
    type V = SizeTexts;

    open spec fn view(&self) -> SizeTexts {
        SizeTexts {
            copied: self.copied@,
            overwritten: self.overwritten@,
            skipped: self.skipped@,
            hydrated: self.hydrated@,
        }
    }
}

/// The byte counts of a run, for people.
pub open spec fn shown_sizes(stats: Stats) -> SizeTexts {
    SizeTexts {
        copied: size::human_size(stats.bytes_copied),
        overwritten: size::human_size(stats.bytes_overwritten),
        skipped: size::human_size(stats.bytes_skipped),
        hydrated: size::human_size(stats.bytes_hydrated),
    }
}

/// What each of some lines says.
pub open spec fn line_views(lines: Seq<String>) -> Seq<Seq<char>> {
    lines.map_values(|s: String| s@)
}

/// The line, if there is cause for it.
pub open spec fn line_if(cause: bool, line: Seq<char>) -> Seq<Seq<char>> {
    if cause {
        seq![line]
    } else {
        Seq::empty()
    }
}

/// Why the run ended.
pub open spec fn headline(completion: Completion) -> Seq<char> {
    match completion {
        Completion::Finished => "Done"@,
        Completion::Interrupted => "Interrupted"@,
        Completion::UserQuit => "Stopped at your request"@,
        Completion::OutOfSpace => "Stopped: not enough free space"@,
    }
}

/// What the run did to the files it copied. An unconditional overwrite does not tell created
/// files from replaced ones.
pub open spec fn verb(dry_run: bool, merged: bool) -> Seq<char> {
    if dry_run {
        "would copy"@
    } else if merged {
        "copied/replaced"@
    } else {
        "copied"@
    }
}

/// A labelled line.
pub open spec fn labelled(label: Seq<char>, rest: Seq<char>) -> Seq<char> {
    "  "@ + text::pad_left(label, ' ', 12) + ": "@ + rest
}

/// A number of files, in its column.
pub open spec fn file_count(n: u64) -> Seq<char> {
    text::pad_left(text::decimal(n as nat), ' ', 7) + " files  "@
}

/// The lines for stdout.
pub open spec fn out_lines(
    stats: Stats,
    walk: WalkErrors,
    completion: Completion,
    dry_run: bool,
    conflict: ConflictResolutionStrategy,
    sizes: SizeTexts,
) -> Seq<Seq<char>> {
    let merged = conflict is Overwrite;
    seq![
        "\n"@ + headline(completion) + if dry_run {
            " (dry run)"@
        } else {
            ""@
        },
    ] + seq![
        labelled(verb(dry_run, merged), file_count(stats.files_copied) + sizes.copied),
    ] + line_if(
        !merged,
        labelled("overwritten"@, file_count(stats.files_overwritten) + sizes.overwritten),
    ) + seq![labelled("skipped"@, file_count(stats.files_skipped) + sizes.skipped)] + line_if(
        stats.files_would_prompt > 0,
        labelled(
            "conflicts"@,
            file_count(stats.files_would_prompt) + "(you would be asked about each)"@,
        ),
    ) + line_if(
        stats.files_hydrated > 0,
        labelled(
            "hydrated"@,
            file_count(stats.files_hydrated) + sizes.hydrated
                + "   <- downloaded from cloud storage"@,
        ),
    ) + line_if(stats.retries > 0, labelled("retries"@, text::decimal(stats.retries as nat)))
        + line_if(
        walk.links_skipped > 0,
        labelled(
            "links"@,
            text::decimal(walk.links_skipped as nat)
                + " directory link(s) not followed; their contents were NOT copied"@,
        ),
    )
}

/// Whether anything went wrong along the way.
pub open spec fn has_problems(stats: Stats, walk: WalkErrors) -> bool {
    stats.files_failed > 0 || walk.errors > 0
}

/// The lines for stderr.
pub open spec fn err_lines(stats: Stats, walk: WalkErrors, log_file: Seq<char>) -> Seq<Seq<char>> {
    line_if(
        stats.files_failed > 0,
        labelled("FAILED"@, text::decimal(stats.files_failed as nat) + " files"@),
    ) + line_if(
        walk.errors > 0,
        labelled(
            "SCAN ERRORS"@,
            text::decimal(walk.errors as nat) + " entries could not be read"@,
        ),
    ) + line_if(has_problems(stats, walk), "\nSee "@ + log_file + " for details."@)
}

/// Adds a line, if there is cause for it.
fn put_if(lines: &mut Vec<String>, cause: bool, line: String)
    ensures
        line_views(final(lines)@) == line_views(old(lines)@) + line_if(cause, line@),
{
    if cause {
        lines.push(line);
    }
    assert(line_views(lines@) =~= line_views(old(lines)@) + line_if(cause, line@));
}

fn labelled_line(label: &str, rest: &str) -> (r: String)
    ensures
        r@ == labelled(label@, rest@),
{
    let mut out = String::from_str("  ");
    out.append(text::align_right(label, 12).as_str());
    out.append(": ");
    out.append(rest);
    out
}

fn count_text(n: u64) -> (r: String)
    ensures
        r@ == file_count(n),
{
    let digits = text::decimal_text(n);
    let mut out = text::align_right(digits.as_str(), 7);
    out.append(" files  ");
    out
}

/// A line that counts files and says something about them.
fn counted_line(label: &str, n: u64, rest: &str) -> (r: String)
    ensures
        r@ == labelled(label@, file_count(n) + rest@),
{
    let mut count = count_text(n);
    count.append(rest);
    labelled_line(label, count.as_str())
}

/// A line that gives a number and says something about it.
fn number_line(label: &str, n: u64, rest: &str) -> (r: String)
    ensures
        r@ == labelled(label@, text::decimal(n as nat) + rest@),
{
    let mut count = text::decimal_text(n);
    count.append(rest);
    labelled_line(label, count.as_str())
}

/// Sums up a run; `log_file` is where its log can be found.
pub fn report(
    stats: &Stats,
    walk: &WalkErrors,
    completion: Completion,
    dry_run: bool,
    conflict: ConflictResolutionStrategy,
    log_file: &str,
) -> (r: Report)
    ensures
        line_views(r.out@) == out_lines(
            *stats,
            *walk,
            completion,
            dry_run,
            conflict,
            shown_sizes(*stats),
        ),
        line_views(r.err@) == err_lines(*stats, *walk, log_file@),
        r.clean == is_clean(*stats, *walk, completion),
        r.clean <==> completion is Finished && stats.files_failed == 0 && walk.errors == 0,
        r.clean <==> completion is Finished && r.err@.len() == 0,
{
    let sizes = Sizes {
        copied: size::human_bytes(stats.bytes_copied),
        overwritten: size::human_bytes(stats.bytes_overwritten),
        skipped: size::human_bytes(stats.bytes_skipped),
        hydrated: size::human_bytes(stats.bytes_hydrated),
    };
    report_with(stats, walk, completion, dry_run, conflict, log_file, &sizes)
}

/// Sums up a run, with its byte counts given as text.
pub fn report_with(
    stats: &Stats,
    walk: &WalkErrors,
    completion: Completion,
    dry_run: bool,
    conflict: ConflictResolutionStrategy,
    log_file: &str,
    sizes: &Sizes,
) -> (r: Report)
    ensures
        line_views(r.out@) == out_lines(*stats, *walk, completion, dry_run, conflict, sizes@),
        line_views(r.err@) == err_lines(*stats, *walk, log_file@),
        r.clean == is_clean(*stats, *walk, completion),
        r.clean <==> completion is Finished && stats.files_failed == 0 && walk.errors == 0,
        r.clean <==> completion is Finished && r.err@.len() == 0,
{
    let out = out_text(stats, walk, completion, dry_run, conflict, sizes);
    let err = err_text(stats, walk, log_file);
    let problems = stats.files_failed > 0 || walk.count() > 0;
    assert(line_views(err@).len() == err@.len());
    Report { out, err, clean: completion == Completion::Finished && !problems }
}

fn headline_text(completion: Completion, dry_run: bool) -> (r: String)
    ensures
        r@ == "\n"@ + headline(completion) + if dry_run {
            " (dry run)"@
        } else {
            ""@
        },
{
    let mut first = String::from_str("\n");
    first.append(
        match completion {
            Completion::Finished => "Done",
            Completion::Interrupted => "Interrupted",
            Completion::UserQuit => "Stopped at your request",
            Completion::OutOfSpace => "Stopped: not enough free space",
        },
    );
    first.append(if dry_run { " (dry run)" } else { "" });
    first
}

fn hydrated_text(n: u64, size: &str) -> (r: String)
    ensures
        r@ == labelled(
            "hydrated"@,
            file_count(n) + size@ + "   <- downloaded from cloud storage"@,
        ),
{
    let mut rest = count_text(n);
    rest.append(size);
    rest.append("   <- downloaded from cloud storage");
    labelled_line("hydrated", rest.as_str())
}

fn out_text(
    stats: &Stats,
    walk: &WalkErrors,
    completion: Completion,
    dry_run: bool,
    conflict: ConflictResolutionStrategy,
    sizes: &Sizes,
) -> (r: Vec<String>)
    ensures
        line_views(r@) == out_lines(*stats, *walk, completion, dry_run, conflict, sizes@),
{
    // Unconditional overwrite skips the per-file existence check, so created and replaced files
    // are not counted separately. Label the line accordingly rather than implying nothing was
    // replaced.
    let merged = conflict == ConflictResolutionStrategy::Overwrite;
    let verb = if dry_run {
        "would copy"
    } else if merged {
        "copied/replaced"
    } else {
        "copied"
    };
    let mut out: Vec<String> = Vec::new();
    let first = headline_text(completion, dry_run);
    out.push(first);
    assert(line_views(out@) =~= seq![first@]);
    put_if(&mut out, true, counted_line(verb, stats.files_copied, sizes.copied.as_str()));
    put_if(
        &mut out,
        !merged,
        counted_line("overwritten", stats.files_overwritten, sizes.overwritten.as_str()),
    );
    put_if(&mut out, true, counted_line("skipped", stats.files_skipped, sizes.skipped.as_str()));
    put_if(
        &mut out,
        stats.files_would_prompt > 0,
        counted_line("conflicts", stats.files_would_prompt, "(you would be asked about each)"),
    );
    put_if(
        &mut out,
        stats.files_hydrated > 0,
        hydrated_text(stats.files_hydrated, sizes.hydrated.as_str()),
    );
    put_if(
        &mut out,
        stats.retries > 0,
        labelled_line("retries", text::decimal_text(stats.retries).as_str()),
    );
    // Directory links are never descended into. Say so rather than letting an incomplete copy
    // look complete.
    put_if(
        &mut out,
        walk.links_skipped() > 0,
        number_line(
            "links",
            walk.links_skipped(),
            " directory link(s) not followed; their contents were NOT copied",
        ),
    );
    out
}

fn err_text(stats: &Stats, walk: &WalkErrors, log_file: &str) -> (r: Vec<String>)
    ensures
        line_views(r@) == err_lines(*stats, *walk, log_file@),
{
    let failed: u64 = stats.files_failed;
    let walk_errors: u64 = walk.count();
    let mut err: Vec<String> = Vec::new();
    if failed > 0 {
        err.push(number_line("FAILED", failed, " files"));
    }
    assert(line_views(err@) =~= line_if(
        failed > 0,
        labelled("FAILED"@, text::decimal(failed as nat) + " files"@),
    ));
    put_if(
        &mut err,
        walk_errors > 0,
        number_line("SCAN ERRORS", walk_errors, " entries could not be read"),
    );
    let mut line = String::from_str("\nSee ");
    line.append(log_file);
    line.append(" for details.");
    put_if(&mut err, failed > 0 || walk_errors > 0, line);
    err
}

/// Whether a run is reported as clean.
pub open spec fn is_clean(stats: Stats, walk: WalkErrors, completion: Completion) -> bool {
    completion is Finished && !has_problems(stats, walk)
}

/// A run that is reported as clean ran to its end and failed at none of its files. Counts that
/// wrapped around are left out.
pub proof fn law_clean_run_failed_at_nothing(
    done: Seq<(Job, JobResult)>,
    dry_run: bool,
    walk: WalkErrors,
    completion: Completion,
)
    requires
        done.len() <= u64::MAX,
        is_clean(scheduler::recorded_all(done, dry_run), walk, completion),
    ensures
        completion is Finished,
        walk.errors == 0,
        forall|i: int| 0 <= i < done.len() ==> !((#[trigger] done[i]).1.outcome is Failed),
{
    scheduler::law_stats_add_up(done, dry_run);
    lemma_none_failed(done);
}

proof fn lemma_none_failed(done: Seq<(Job, JobResult)>)
    ensures
        0 <= scheduler::files_with(done, Outcome::Failed) <= done.len(),
        scheduler::files_with(done, Outcome::Failed) == 0 ==> forall|i: int|
            0 <= i < done.len() ==> !((#[trigger] done[i]).1.outcome is Failed),
    decreases done.len(),
{
    if done.len() > 0 {
        lemma_none_failed(done.drop_last());
        if scheduler::files_with(done, Outcome::Failed) == 0 {
            assert forall|i: int| 0 <= i < done.len() implies !((
            #[trigger] done[i]).1.outcome is Failed) by {
                if i < done.len() - 1 {
                    assert(done.drop_last()[i] == done[i]);
                }
            }
        }
    }
}

/// Something is reported on stderr exactly when something went wrong.
pub proof fn law_problems_are_reported(stats: Stats, walk: WalkErrors, log_file: Seq<char>)
    ensures
        err_lines(stats, walk, log_file).len() > 0 <==> has_problems(stats, walk),
{
}

/// A run is reported as clean exactly if it ran to its end with nothing to say on stderr: no file
/// failed and no entry went unread. Nothing else that it counts matters.
pub proof fn law_finished_run_is_clean_unless_it_complains(
    stats: Stats,
    walk: WalkErrors,
    completion: Completion,
    log_file: Seq<char>,
)
    ensures
        is_clean(stats, walk, completion) <==> completion is Finished && err_lines(
            stats,
            walk,
            log_file,
        ).len() == 0,
        is_clean(stats, walk, completion) <==> completion == Completion::Finished
            && stats.files_failed == 0 && walk.errors == 0,
{
}

/// A run that got to its end, failed at none of its files and read every entry is clean, whatever
/// it copied, skipped, retried or pulled down.
pub proof fn law_run_without_failures_is_clean(
    done: Seq<(Job, JobResult)>,
    dry_run: bool,
    walk: WalkErrors,
)
    requires
        walk.errors == 0,
        forall|i: int| 0 <= i < done.len() ==> !((#[trigger] done[i]).1.outcome is Failed),
    ensures
        is_clean(scheduler::recorded_all(done, dry_run), walk, Completion::Finished),
{
    scheduler::law_stats_add_up(done, dry_run);
    lemma_no_failed_file(done);
}

proof fn lemma_no_failed_file(done: Seq<(Job, JobResult)>)
    requires
        forall|i: int| 0 <= i < done.len() ==> !((#[trigger] done[i]).1.outcome is Failed),
    ensures
        scheduler::files_with(done, Outcome::Failed) == 0,
    decreases done.len(),
{
    if done.len() > 0 {
        assert forall|i: int| 0 <= i < done.drop_last().len() implies !((
        #[trigger] done.drop_last()[i]).1.outcome is Failed) by {
            assert(done.drop_last()[i] == done[i]);
        }
        lemma_no_failed_file(done.drop_last());
        assert(done.last() == done[done.len() - 1]);
    }
}

/// A one for a line that is there.
pub open spec fn one_if(cause: bool) -> int {
    if cause {
        1
    } else {
        0
    }
}

/// stderr says how many files failed if any did, how many entries went unread if any did, and, after
/// either, where to look. It says nothing else.
pub proof fn law_each_problem_has_its_line(stats: Stats, walk: WalkErrors, log_file: Seq<char>)
    ensures
        ({
            let err = err_lines(stats, walk, log_file);
            let failed = one_if(stats.files_failed > 0);
            let unread = one_if(walk.errors > 0);
            &&& err.len() == failed + unread + one_if(stats.files_failed > 0 || walk.errors > 0)
            &&& failed == 1 ==> err[0] == labelled(
                "FAILED"@,
                text::decimal(stats.files_failed as nat) + " files"@,
            )
            &&& unread == 1 ==> err[failed] == labelled(
                "SCAN ERRORS"@,
                text::decimal(walk.errors as nat) + " entries could not be read"@,
            )
            &&& err.len() > 0 ==> err.last() == "\nSee "@ + log_file + " for details."@
        }),
{
}

/// stdout starts with why the run ended and what was copied and skipped. Overwritten files have a
/// line of their own unless everything is overwritten; conflicts, downloads, retries and links have
/// one exactly if there were any.
pub proof fn law_each_count_has_its_line(
    stats: Stats,
    walk: WalkErrors,
    completion: Completion,
    dry_run: bool,
    conflict: ConflictResolutionStrategy,
    sizes: SizeTexts,
)
    ensures
        ({
            let out = out_lines(stats, walk, completion, dry_run, conflict, sizes);
            let skipped = 2 + one_if(!(conflict is Overwrite));
            let prompts = skipped + one_if(stats.files_would_prompt > 0);
            let hydrated = prompts + one_if(stats.files_hydrated > 0);
            let retries = hydrated + one_if(stats.retries > 0);
            let links = retries + one_if(walk.links_skipped > 0);
            &&& out.len() == links + 1
            &&& out[0] == "\n"@ + headline(completion) + if dry_run {
                " (dry run)"@
            } else {
                ""@
            }
            &&& out[1] == labelled(
                if dry_run {
                    "would copy"@
                } else if conflict is Overwrite {
                    "copied/replaced"@
                } else {
                    "copied"@
                },
                file_count(stats.files_copied) + sizes.copied,
            )
            &&& skipped > 2 ==> out[2] == labelled(
                "overwritten"@,
                file_count(stats.files_overwritten) + sizes.overwritten,
            )
            &&& out[skipped] == labelled("skipped"@, file_count(stats.files_skipped) + sizes.skipped)
            &&& prompts > skipped ==> out[prompts] == labelled(
                "conflicts"@,
                file_count(stats.files_would_prompt) + "(you would be asked about each)"@,
            )
            &&& hydrated > prompts ==> out[hydrated] == labelled(
                "hydrated"@,
                file_count(stats.files_hydrated) + sizes.hydrated
                    + "   <- downloaded from cloud storage"@,
            )
            &&& retries > hydrated ==> out[retries] == labelled(
                "retries"@,
                text::decimal(stats.retries as nat),
            )
            &&& links > retries ==> out[links] == labelled(
                "links"@,
                text::decimal(walk.links_skipped as nat)
                    + " directory link(s) not followed; their contents were NOT copied"@,
            )
        }),
{
}

/// The labels end in one column, and what they label is left whole behind them. A number of files
/// is left whole too.
pub proof fn law_lines_are_aligned(label: Seq<char>, rest: Seq<char>, n: u64)
    ensures
        ({
            let line = labelled(label, rest);
            let w = line.len() - rest.len();
            &&& w == if label.len() <= 12 {
                16
            } else {
                4 + label.len()
            }
            &&& line.skip(w) == rest
            &&& line.subrange(w - 2 - label.len(), w - 2) == label
            &&& line.subrange(w - 2, w) == ": "@
        }),
        ({
            let count = file_count(n);
            let digits = text::decimal(n as nat);
            &&& count.len() == if digits.len() <= 7 {
                15
            } else {
                8 + digits.len()
            }
            &&& count.skip(count.len() - 8) == " files  "@
            &&& count.subrange(count.len() - 8 - digits.len(), count.len() - 8) == digits
        }),
{
    reveal_strlit("  ");
    reveal_strlit(": ");
    reveal_strlit(" files  ");
    let line = labelled(label, rest);
    let w = line.len() - rest.len();
    text::law_padding_leaves_the_text_whole(label, ' ', 12);
    assert(line.skip(w) =~= rest);
    assert(line.subrange(w - 2 - label.len(), w - 2) =~= label);
    assert(line.subrange(w - 2, w) =~= ": "@);
    let count = file_count(n);
    let digits = text::decimal(n as nat);
    text::law_padding_leaves_the_text_whole(digits, ' ', 7);
    assert(count.skip(count.len() - 8) =~= " files  "@);
    assert(count.subrange(count.len() - 8 - digits.len(), count.len() - 8) =~= digits);
}

/// The first line tells the ways in which a run can end apart, and says that it is done only of one
/// that finished.
pub proof fn law_headlines_tell_the_ends_apart(a: Completion, b: Completion)
    ensures
        headline(a) == headline(b) <==> a == b,
        headline(a) == "Done"@ <==> a is Finished,
{
    reveal_strlit("Done");
    reveal_strlit("Interrupted");
    reveal_strlit("Stopped at your request");
    reveal_strlit("Stopped: not enough free space");
    assert("Done"@.len() == 4 && "Interrupted"@.len() == 11);
    assert("Stopped at your request"@.len() == 23);
    assert("Stopped: not enough free space"@.len() == 30);
}

/// Each size that is shown is that of the bytes it stands next to.
pub proof fn law_sizes_are_those_of_their_counts(stats: Stats)
    ensures
        shown_sizes(stats).copied == size::human_size(stats.bytes_copied),
        shown_sizes(stats).overwritten == size::human_size(stats.bytes_overwritten),
        shown_sizes(stats).skipped == size::human_size(stats.bytes_skipped),
        shown_sizes(stats).hydrated == size::human_size(stats.bytes_hydrated),
{
}

} // verus!
