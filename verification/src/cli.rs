//! The command line, once parsed.

use vstd::prelude::*;

use crate::conflict_resolver::ConflictResolutionStrategy;
use crate::path::{PathBuf, Written};
use crate::text;

verus! {

/// Concurrent rehydrations unless told otherwise.
pub const DEFAULT_CLOUD_JOBS: usize = 6;

/// Free bytes that either volume keeps unless told otherwise: 1 GiB.
pub const DEFAULT_MIN_FREE: u64 = 1_073_741_824;

/// Discovered-but-not-yet-copied files held in memory unless told otherwise.
pub const DEFAULT_QUEUE_DEPTH: usize = 262_144;

/// What the user asked for.
#[derive(Debug, PartialEq, Eq)]
pub struct Cli {
    /// Directory to copy from.
    pub source_pos: Option<PathBuf>,
    /// Directory to copy to.
    pub dest_pos: Option<PathBuf>,
    /// Directory to copy from (alternative to the positional form).
    pub source_opt: Option<PathBuf>,
    /// Directory to copy to (alternative to the positional form).
    pub dest_opt: Option<PathBuf>,
    /// What to do when a file already exists at the destination.
    pub conflict: ConflictResolutionStrategy,
    /// Concurrent copies of locally-available files.
    pub local_jobs: usize,
    /// Concurrent rehydrations of online-only files.
    pub cloud_jobs: usize,
    /// Abort if free space on either volume drops below this many bytes.
    pub min_free: u64,
    /// Directories scanned at once while discovering files.
    pub discovery_jobs: usize,
    /// Ceiling on discovered-but-not-yet-copied files held in memory.
    pub queue_depth: usize,
    /// Report what would be copied without writing anything.
    pub dry_run: bool,
    /// Never emit colour, even to a terminal that supports it.
    pub no_color: bool,
    /// Render as though stdout were redirected: no progress bar, periodic plain lines instead.
    ///
    /// Also makes the run non-interactive, so `--conflict ask` is refused.
    pub no_tty: bool,
    /// Log at debug level.
    pub debug: bool,
}

/// Two jobs for each unit of parallelism, or 8 where that is not known, from 4 up to `most`.
pub open spec fn default_jobs(parallelism: Option<usize>, most: int) -> int {
    let wanted = match parallelism {
        Some(n) => 2 * n,
        None => 8,
    };
    if wanted < 4 {
        4
    } else if wanted > most {
        most
    } else {
        wanted
    }
}

fn jobs_up_to(parallelism: Option<usize>, most: usize) -> (r: usize)
    requires
        parallelism matches Some(n) ==> 2 * n <= usize::MAX,
        most >= 4,
    ensures
        r == default_jobs(parallelism, most as int),
{
    let wanted: usize = match parallelism {
        Some(n) => n * 2,
        None => 8,
    };
    if wanted < 4 {
        4
    } else if wanted > most {
        most
    } else {
        wanted
    }
}

/// Directory enumeration is metadata work, so it scales past the core count -- most of the time
/// each scan is parked waiting on the filesystem rather than computing.
pub fn default_discovery_jobs(parallelism: Option<usize>) -> (r: usize)
    requires
        parallelism matches Some(n) ==> 2 * n <= usize::MAX,
    ensures
        r == default_jobs(parallelism, 32),
        4 <= r <= 32,
{
    jobs_up_to(parallelism, 32)
}

/// Copying is latency-bound rather than CPU-bound -- most of each copy is spent waiting on the
/// filesystem (and, on Windows, on the antimalware filter), so its worth oversubscribing.
pub fn default_local_jobs(parallelism: Option<usize>) -> (r: usize)
    requires
        parallelism matches Some(n) ==> 2 * n <= usize::MAX,
    ensures
        r == default_jobs(parallelism, 16),
        4 <= r <= 16,
{
    jobs_up_to(parallelism, 16)
}

/// What a path option was given as.
pub open spec fn given(path: Option<PathBuf>) -> Option<Written> {
    match path {
        Some(p) => Some(p@),
        None => None,
    }
}

/// The path that was given in either form.
pub open spec fn either(a: Option<PathBuf>, b: Option<PathBuf>) -> Option<Written> {
    if a is Some {
        given(a)
    } else {
        given(b)
    }
}

/// Why no pair of paths could be made out.
pub enum PathsError {
    MixedForms,
    NoDest,
    NoSource,
    NoPaths,
}

/// Why a run that cannot ask is refused.
pub open spec fn refusal_text(no_tty: bool) -> Seq<char> {
    "--conflict ask needs a terminal to prompt on, but "@ + (if no_tty {
        "--no-tty was given, so this run is non-interactive"@
    } else {
        "stdin is not a terminal"@
    })
        + ".\nPass an explicit --conflict skip or --conflict overwrite for non-interactive runs."@
}

/// How many jobs there are of each kind, for people.
pub open spec fn summary_text(local: nat, cloud: nat, discovery: nat, queue: nat) -> Seq<char> {
    text::decimal(local) + " local / "@ + text::decimal(cloud) + " cloud / "@ + text::decimal(
        discovery,
    ) + " discovery, queue "@ + text::decimal(queue)
}

impl PathsError {
    pub open spec fn message(self) -> Seq<char> {
        match self {
            PathsError::MixedForms =>
                "Exactly one of either the positional or the named form must be used."@,
            PathsError::NoDest => "Missing required value dest"@,
            PathsError::NoSource => "Missing required value source"@,
            PathsError::NoPaths => "Missing required values source and dest"@,
        }
    }
}

impl Cli {
    /// Source and destination come in one form, positional or named, and both are needed.
    pub open spec fn paths(self) -> Result<(Written, Written), PathsError> {
        let positional = self.source_pos is Some || self.dest_pos is Some;
        let named = self.source_opt is Some || self.dest_opt is Some;
        if positional && named {
            Err(PathsError::MixedForms)
        } else {
            match (
                either(self.source_pos, self.source_opt),
                either(self.dest_pos, self.dest_opt),
            ) {
                (Some(source), Some(dest)) => Ok((source, dest)),
                (Some(_), None) => Err(PathsError::NoDest),
                (None, Some(_)) => Err(PathsError::NoSource),
                (None, None) => Err(PathsError::NoPaths),
            }
        }
    }

    /// Whether colour is suppressed.
    pub open spec fn is_colourless(self, no_color: Option<Seq<u8>>) -> bool {
        self.no_color || (no_color is Some && no_color->0.len() > 0)
    }

    /// Whether the run may ask.
    pub open spec fn may_ask(self, stdin_is_terminal: bool) -> bool {
        !self.no_tty && stdin_is_terminal
    }

    /// Whether the run would have to ask and cannot.
    pub open spec fn cannot_ask(self, stdin_is_terminal: bool) -> bool {
        self.conflict is Ask && !self.dry_run && !self.may_ask(stdin_is_terminal)
    }

    /// A command line on which nothing was given.
    pub open spec fn unasked(parallelism: Option<usize>) -> Cli {
        Cli {
            source_pos: None,
            dest_pos: None,
            source_opt: None,
            dest_opt: None,
            conflict: ConflictResolutionStrategy::Ask,
            local_jobs: default_jobs(parallelism, 16) as usize,
            cloud_jobs: 6,
            min_free: 1_073_741_824,
            discovery_jobs: default_jobs(parallelism, 32) as usize,
            queue_depth: 262_144,
            dry_run: false,
            no_color: false,
            no_tty: false,
            debug: false,
        }
    }

    /// A command line on which nothing was given.
    pub fn defaults(parallelism: Option<usize>) -> (r: Self)
        requires
            parallelism matches Some(n) ==> 2 * n <= usize::MAX,
        ensures
            r == (Cli {
                source_pos: None,
                dest_pos: None,
                source_opt: None,
                dest_opt: None,
                conflict: ConflictResolutionStrategy::Ask,
                local_jobs: default_jobs(parallelism, 16) as usize,
                cloud_jobs: 6,
                min_free: 1_073_741_824,
                discovery_jobs: default_jobs(parallelism, 32) as usize,
                queue_depth: 262_144,
                dry_run: false,
                no_color: false,
                no_tty: false,
                debug: false,
            }),
            r == Cli::unasked(parallelism),
    {
        Cli {
            source_pos: None,
            dest_pos: None,
            source_opt: None,
            dest_opt: None,
            conflict: ConflictResolutionStrategy::Ask,
            local_jobs: default_local_jobs(parallelism),
            cloud_jobs: DEFAULT_CLOUD_JOBS,
            min_free: DEFAULT_MIN_FREE,
            discovery_jobs: default_discovery_jobs(parallelism),
            queue_depth: DEFAULT_QUEUE_DEPTH,
            dry_run: false,
            no_color: false,
            no_tty: false,
            debug: false,
        }
    }

    /// Resolves the positional and named forms of `source`/`dest` into one pair.
    pub fn resolve_paths(&self) -> (r: Result<(PathBuf, PathBuf), String>)
        ensures
            match self.paths() {
                Ok((source, dest)) => r is Ok && r->Ok_0.0@ == source && r->Ok_0.1@ == dest,
                Err(e) => r is Err && r->Err_0@ == e.message(),
            },
            r is Ok <==> (self.source_pos is Some && self.dest_pos is Some && self.source_opt is None
                && self.dest_opt is None) || (self.source_pos is None && self.dest_pos is None
                && self.source_opt is Some && self.dest_opt is Some),
    {
        match (&self.source_pos, &self.dest_pos, &self.source_opt, &self.dest_opt) {
            (Some(src), Some(dest), None, None) => Ok((src.clone(), dest.clone())),
            (None, None, Some(src), Some(dest)) => Ok((src.clone(), dest.clone())),
            (a, b, c, d) => {
                // A positional and a named argument used simultaneously
                if (a.is_some() || b.is_some()) && (c.is_some() || d.is_some()) {
                    Err(
                        String::from_str(
                            "Exactly one of either the positional or the named form must be used.",
                        ),
                    )
                } else if a.is_some() || c.is_some() {
                    // Dest is missing
                    Err(String::from_str("Missing required value dest"))
                } else if b.is_some() || d.is_some() {
                    // Source is missing
                    Err(String::from_str("Missing required value source"))
                } else {
                    // Neither of the two required values is present
                    Err(String::from_str("Missing required values source and dest"))
                }
            },
        }
    }

    /// Whether colour should be suppressed.
    ///
    /// Honours `NO_COLOR` if set, that is, if it is there and not empty.
    pub fn color_disabled(&self, no_color: Option<&Vec<u8>>) -> (r: bool)
        ensures
            r == (self.no_color || (no_color is Some && no_color->0@.len() > 0)),
            r == self.is_colourless(
                match no_color {
                    Some(value) => Some(value@),
                    None => None,
                },
            ),
    {
        self.no_color || match no_color {
            Some(value) => value.len() > 0,
            None => false,
        }
    }

    /// Whether this run may prompt.
    pub fn is_interactive(&self, stdin_is_terminal: bool) -> (r: bool)
        ensures
            r == (!self.no_tty && stdin_is_terminal),
            r == self.may_ask(stdin_is_terminal),
    {
        !self.no_tty && stdin_is_terminal
    }

    /// Rejects `--conflict ask` when there is no terminal to ask on, before anything is copied.
    pub fn validate_interactive(&self, stdin_is_terminal: bool) -> (r: Result<(), String>)
        ensures
            r is Err <==> self.conflict is Ask && !self.dry_run && (self.no_tty
                || !stdin_is_terminal),
            r is Err <==> self.cannot_ask(stdin_is_terminal),
            r matches Err(e) ==> e@ == "--conflict ask needs a terminal to prompt on, but "@ + (
            if self.no_tty {
                "--no-tty was given, so this run is non-interactive"@
            } else {
                "stdin is not a terminal"@
            })
                + ".\nPass an explicit --conflict skip or --conflict overwrite for non-interactive runs."@,
            r matches Err(e) ==> e@ == refusal_text(self.no_tty),
    {
        if self.conflict != ConflictResolutionStrategy::Ask || self.dry_run
            || self.is_interactive(stdin_is_terminal) {
            return Ok(());
        }
        let mut e = String::from_str("--conflict ask needs a terminal to prompt on, but ");
        e.append(
            if self.no_tty {
                "--no-tty was given, so this run is non-interactive"
            } else {
                "stdin is not a terminal"
            },
        );
        e.append(
            ".\nPass an explicit --conflict skip or --conflict overwrite for non-interactive runs.",
        );
        Err(e)
    }

    pub fn jobs_summary(&self) -> (r: String)
        ensures
            r@ == text::decimal(self.local_jobs as nat) + " local / "@ + text::decimal(
                self.cloud_jobs as nat,
            ) + " cloud / "@ + text::decimal(self.discovery_jobs as nat) + " discovery, queue "@
                + text::decimal(self.queue_depth as nat),
            r@ == summary_text(
                self.local_jobs as nat,
                self.cloud_jobs as nat,
                self.discovery_jobs as nat,
                self.queue_depth as nat,
            ),
    {
        let mut out = text::decimal_text(self.local_jobs as u64);
        out.append(" local / ");
        out.append(text::decimal_text(self.cloud_jobs as u64).as_str());
        out.append(" cloud / ");
        out.append(text::decimal_text(self.discovery_jobs as u64).as_str());
        out.append(" discovery, queue ");
        out.append(text::decimal_text(self.queue_depth as u64).as_str());
        out
    }
}

/// There are twice as many jobs as there is parallelism wherever that lies between the bounds, and
/// never more or fewer than the bounds allow; more parallelism never means fewer jobs. Where it is
/// not known it is taken for four.
pub proof fn law_default_jobs_follow_the_parallelism(m: usize, n: usize, most: int)
    requires
        most >= 8,
    ensures
        4 <= default_jobs(Some(n), most) <= most,
        4 <= 2 * n <= most ==> default_jobs(Some(n), most) == 2 * n,
        2 * n < 4 ==> default_jobs(Some(n), most) == 4,
        2 * n > most ==> default_jobs(Some(n), most) == most,
        m <= n ==> default_jobs(Some(m), most) <= default_jobs(Some(n), most),
        default_jobs(None, most) == default_jobs(Some(4), most),
{
}

/// The paths that count are those given by position or those given by name, whichever form was
/// used, and both are needed. Each way of going wrong has its own error.
pub proof fn law_one_whole_form_is_needed(cli: Cli)
    ensures
        ({
            let (a, b) = (cli.source_pos, cli.dest_pos);
            let (c, d) = (cli.source_opt, cli.dest_opt);
            &&& a is Some && b is Some && c is None && d is None ==> cli.paths() == Ok::<
                (Written, Written),
                PathsError,
            >((a->0@, b->0@))
            &&& a is None && b is None && c is Some && d is Some ==> cli.paths() == Ok::<
                (Written, Written),
                PathsError,
            >((c->0@, d->0@))
            &&& (a is Some || b is Some) && (c is Some || d is Some) <==> cli.paths() == Err::<
                (Written, Written),
                PathsError,
            >(PathsError::MixedForms)
            &&& (a is Some && b is None && c is None && d is None) || (a is None && b is None
                && c is Some && d is None) <==> cli.paths() == Err::<(Written, Written), PathsError>(
                PathsError::NoDest,
            )
            &&& (a is None && b is Some && c is None && d is None) || (a is None && b is None
                && c is None && d is Some) <==> cli.paths() == Err::<(Written, Written), PathsError>(
                PathsError::NoSource,
            )
            &&& a is None && b is None && c is None && d is None <==> cli.paths() == Err::<
                (Written, Written),
                PathsError,
            >(PathsError::NoPaths)
        }),
{
}

/// Nothing but the paths matters to which paths are used, and it does not matter in which of the
/// two forms they were given.
pub proof fn law_both_forms_mean_the_same(a: Cli, b: Cli)
    requires
        a.source_pos == b.source_opt,
        a.dest_pos == b.dest_opt,
        a.source_opt == b.source_pos,
        a.dest_opt == b.dest_pos,
    ensures
        a.paths() == b.paths(),
{
}

/// Each error says something else.
pub proof fn law_path_errors_can_be_told_apart(a: PathsError, b: PathsError)
    ensures
        a.message() == b.message() <==> a == b,
{
    reveal_strlit("Exactly one of either the positional or the named form must be used.");
    reveal_strlit("Missing required value dest");
    reveal_strlit("Missing required value source");
    reveal_strlit("Missing required values source and dest");
    assert("Exactly one of either the positional or the named form must be used."@.len() == 68);
    assert("Missing required value dest"@.len() == 27);
    assert("Missing required value source"@.len() == 29);
    assert("Missing required values source and dest"@.len() == 39);
}

/// Colour goes as soon as it is unwanted for one reason, and stays where there is none: no option,
/// and a variable that is not set or empty.
pub proof fn law_colour_stays_unless_unwanted(cli: Cli, value: Seq<u8>)
    ensures
        cli.no_color ==> cli.is_colourless(None) && cli.is_colourless(Some(value)),
        !cli.no_color ==> !cli.is_colourless(None),
        !cli.no_color ==> (cli.is_colourless(Some(value)) <==> value != Seq::<u8>::empty()),
{
    if value.len() == 0 {
        assert(value =~= Seq::empty());
    }
}

/// A run is refused only if it would have to ask and has nobody to ask: with a terminal, with
/// another strategy or as a dry run it goes ahead.
pub proof fn law_only_unanswerable_runs_are_refused(cli: Cli)
    ensures
        cli.cannot_ask(true) <==> cli.conflict is Ask && !cli.dry_run && cli.no_tty,
        cli.cannot_ask(false) <==> cli.conflict is Ask && !cli.dry_run,
        cli.may_ask(true) <==> !cli.no_tty,
        !cli.may_ask(false),
{
}

/// A refused run is told which of two reasons it was, and both times the same way out.
pub proof fn law_refusals_give_the_reason(no_tty: bool)
    ensures
        ({
            let t = refusal_text(no_tty);
            let reason = if no_tty {
                "--no-tty was given, so this run is non-interactive"@
            } else {
                "stdin is not a terminal"@
            };
            let n = reason.len() as int;
            &&& t.take(50) == "--conflict ask needs a terminal to prompt on, but "@
            &&& t.subrange(50, 50 + n) == reason
            &&& t.skip(50 + n)
                == ".\nPass an explicit --conflict skip or --conflict overwrite for non-interactive runs."@
        }),
{
    reveal_strlit("--conflict ask needs a terminal to prompt on, but ");
    let t = refusal_text(no_tty);
    let reason = if no_tty {
        "--no-tty was given, so this run is non-interactive"@
    } else {
        "stdin is not a terminal"@
    };
    let n = reason.len() as int;
    assert(t.take(50) =~= "--conflict ask needs a terminal to prompt on, but "@);
    assert(t.subrange(50, 50 + n) =~= reason);
    assert(t.skip(50 + n)
        =~= ".\nPass an explicit --conflict skip or --conflict overwrite for non-interactive runs."@);
}

/// The summary gives the local jobs first, then the cloud jobs, the scans and the queue, in full.
pub proof fn law_summary_gives_every_number(local: nat, cloud: nat, discovery: nat, queue: nat)
    ensures
        ({
            let t = summary_text(local, cloud, discovery, queue);
            let l = text::decimal(local).len() as int;
            let c = text::decimal(cloud).len() as int;
            let d = text::decimal(discovery).len() as int;
            &&& text::spelled(t.take(l)) == local
            &&& text::spelled(t.subrange(l + 9, l + 9 + c)) == cloud
            &&& text::spelled(t.subrange(l + 18 + c, l + 18 + c + d)) == discovery
            &&& text::spelled(t.skip(l + 36 + c + d)) == queue
        }),
{
    reveal_strlit(" local / ");
    reveal_strlit(" cloud / ");
    reveal_strlit(" discovery, queue ");
    let t = summary_text(local, cloud, discovery, queue);
    let l = text::decimal(local).len() as int;
    let c = text::decimal(cloud).len() as int;
    let d = text::decimal(discovery).len() as int;
    text::law_decimal_reads_back(local);
    text::law_decimal_reads_back(cloud);
    text::law_decimal_reads_back(discovery);
    text::law_decimal_reads_back(queue);
    assert(t.take(l) =~= text::decimal(local));
    assert(t.subrange(l + 9, l + 9 + c) =~= text::decimal(cloud));
    assert(t.subrange(l + 18 + c, l + 18 + c + d) =~= text::decimal(discovery));
    assert(t.skip(l + 36 + c + d) =~= text::decimal(queue));
}

/// Unless told otherwise, a run asks about conflicts, writes, keeps a gibibyte free on either volume,
/// holds up to 2^18 files, pulls six files down at once, and copies and scans as much at once as the
/// machine's parallelism suggests.
pub proof fn law_defaults(parallelism: Option<usize>)
    requires
        parallelism matches Some(n) ==> 2 * n <= usize::MAX,
    ensures
        ({
            let cli = Cli::unasked(parallelism);
            &&& cli.paths() == Err::<(Written, Written), PathsError>(PathsError::NoPaths)
            &&& cli.conflict is Ask && !cli.dry_run
            &&& !cli.no_color && !cli.no_tty && !cli.debug
            &&& cli.min_free == vstd::arithmetic::power2::pow2(30)
            &&& cli.queue_depth == vstd::arithmetic::power2::pow2(18)
            &&& cli.cloud_jobs == 6
            &&& 4 <= cli.local_jobs <= cli.discovery_jobs
            &&& cli.local_jobs <= 16 && cli.discovery_jobs <= 32
            &&& parallelism matches Some(n) ==> (2 <= n <= 8 ==> cli.local_jobs == 2 * n) && (2 <= n
                <= 16 ==> cli.discovery_jobs == 2 * n)
        }),
{
    vstd::arithmetic::power2::lemma2_to64();
}

} // verus!
