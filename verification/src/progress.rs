//! The single progress bar.

use vstd::prelude::*;

use crate::counter;
use crate::size;
use crate::text;

verus! {

/// Digits in groups of three, counted from the right.
pub open spec fn grouped(s: Seq<char>) -> Seq<char>
    decreases s.len(),
{
    if s.len() <= 3 {
        s
    } else {
        grouped(s.take(s.len() - 3)) + ","@ + s.skip(s.len() - 3)
    }
}

/// The first `i` of the digits `s`, with the separators that stand before them.
spec fn grouped_up_to(s: Seq<char>, i: int) -> Seq<char>
    decreases i,
{
    if i <= 0 {
        Seq::empty()
    } else {
        let front = grouped_up_to(s, i - 1);
        if i - 1 > 0 && (s.len() - (i - 1)) % 3 == 0 {
            front + ","@ + s.subrange(i - 1, i)
        } else {
            front + s.subrange(i - 1, i)
        }
    }
}

/// Digits that are followed by another full group are separated as they would be without it.
proof fn lemma_group_behind(s: Seq<char>, i: int)
    requires
        s.len() > 3,
        i <= s.len() - 3,
    ensures
        grouped_up_to(s, i) == grouped_up_to(s.take(s.len() - 3), i),
    decreases i,
{
    if i > 0 {
        lemma_group_behind(s, i - 1);
        assert(s.take(s.len() - 3).subrange(i - 1, i) =~= s.subrange(i - 1, i));
    }
}

proof fn lemma_grouped(s: Seq<char>)
    ensures
        grouped_up_to(s, s.len() as int) == grouped(s),
    decreases s.len(),
{
    reveal_with_fuel(grouped_up_to, 4);
    let n = s.len() as int;
    if n <= 3 {
        assert(grouped_up_to(s, n) =~= s);
    } else {
        lemma_grouped(s.take(n - 3));
        lemma_group_behind(s, n - 3);
        assert(grouped_up_to(s, n) =~= grouped_up_to(s, n - 3) + ","@ + s.skip(n - 3));
    }
}

proof fn lemma_grouping_keeps_the_digits(s: Seq<char>)
    requires
        !s.contains(','),
    ensures
        grouped(s).filter(|c: char| c != ',') == s,
    decreases s.len(),
{
    let keep = |c: char| c != ',';
    if s.len() <= 3 {
        lemma_nothing_to_filter(s);
    } else {
        let front = s.take(s.len() - 3);
        let back = s.skip(s.len() - 3);
        assert(!front.contains(','));
        assert(!back.contains(','));
        lemma_grouping_keeps_the_digits(front);
        lemma_nothing_to_filter(back);
        reveal_strlit(",");
        assert(","@.filter(keep) =~= Seq::empty()) by {
            reveal_with_fuel(Seq::filter, 2);
            assert(","@.drop_last() =~= Seq::empty());
        }
        Seq::filter_distributes_over_add(grouped(front) + ","@, back, keep);
        Seq::filter_distributes_over_add(grouped(front), ","@, keep);
        assert(front + back =~= s);
    }
}

proof fn lemma_nothing_to_filter(s: Seq<char>)
    requires
        !s.contains(','),
    ensures
        s.filter(|c: char| c != ',') == s,
    decreases s.len(),
{
    reveal(Seq::filter);
    if s.len() > 0 {
        assert forall|i: int| 0 <= i < s.drop_last().len() implies s.drop_last()[i] != ',' by {
            assert(s.contains(s[i]));
        }
        assert(s.contains(s.last()));
        lemma_nothing_to_filter(s.drop_last());
        assert(s =~= s.drop_last().push(s.last()));
    }
}

/// Taking the separators out of a grouped number leaves the number.
pub proof fn law_grouping_keeps_the_digits(n: nat)
    ensures
        grouped(text::decimal(n)).filter(|c: char| c != ',') == text::decimal(n),
{
    text::lemma_decimal_digits(n);
    lemma_grouping_keeps_the_digits(text::decimal(n));
}

/// Groups digits so six-figure file counts stay readable.
pub fn commas(n: u64) -> (r: String)
    ensures
        r@ == grouped(text::decimal(n as nat)),
{
    let s = text::decimal_text(n);
    let len: usize = s.as_str().unicode_len();
    let mut out = String::new();
    let mut i: usize = 0;
    while i < len
        invariant
            i <= len,
            len == s@.len(),
            out@ == grouped_up_to(s@, i as int),
        decreases len - i,
    {
        if i > 0 && (len - i) % 3 == 0 {
            out.append(",");
        }
        out.append(s.as_str().substring_char(i, i + 1));
        i = i + 1;
    }
    proof {
        lemma_grouped(s@);
    }
    out
}

/// Minimum columns a bar needs before it is drawn at all.
pub const MIN_BAR_COLS: u16 = 10;

/// How often the non-terminal fallback emits a line, in seconds.
pub const PLAIN_INTERVAL: u64 = 5;

/// How many updates to coalesce before rebuilding the message string.
pub const MESSAGE_REFRESH_EVERY: u64 = 64;

/// How much a bar can show.
#[derive(Clone, Copy, PartialEq, Eq, Debug, Structural)]
pub enum Tier {
    Full,
    Medium,
    Narrow,
    Plain,
}

/// The tier for a terminal width; `None` where there is no terminal.
pub open spec fn tier_of(cols: Option<u16>) -> Tier {
    match cols {
        None => Tier::Plain,
        Some(c) => if c >= 100 {
            Tier::Full
        } else if c >= 60 {
            Tier::Medium
        } else if c >= 50 {
            Tier::Narrow
        } else {
            Tier::Plain
        },
    }
}

impl Tier {
    /// How much the tier shows.
    pub open spec fn rank(self) -> int {
        match self {
            Tier::Full => 3,
            Tier::Medium => 2,
            Tier::Narrow => 1,
            Tier::Plain => 0,
        }
    }

    pub open spec fn template_text(self, scanning: bool) -> Seq<char> {
        if scanning {
            match self {
                Tier::Full => "{spinner:.green} [{elapsed_precise}] scanning… {msg}"@,
                Tier::Medium => "{spinner:.green} scanning… {msg}"@,
                Tier::Narrow | Tier::Plain => "{spinner:.green} {msg}"@,
            }
        } else {
            match self {
                Tier::Full => "{spinner:.green} [{elapsed_precise}] [{wide_bar:.cyan/blue}]                  {bytes}/{total_bytes} ({percent}%) · {msg}"@,
                Tier::Medium => "{spinner:.green} [{wide_bar:.cyan/blue}] {bytes}/{total_bytes} · {msg}"@,
                Tier::Narrow => "{spinner:.green} {wide_bar:.cyan/blue} {percent}%"@,
                Tier::Plain => "{spinner:.green} {bytes}/{total_bytes} ({percent}%)"@,
            }
        }
    }

    pub open spec fn has_message(self, scanning: bool) -> bool {
        scanning || self is Full || self is Medium
    }

    pub fn for_width(cols: Option<u16>) -> (r: Self)
        ensures
            r == tier_of(cols),
    {
        // A failed size query means output is redirected or there is no terminal.
        match cols {
            None => Tier::Plain,
            Some(c) => if c >= 100 {
                Tier::Full
            } else if c >= 60 {
                Tier::Medium
            } else if c >= 40 + MIN_BAR_COLS {
                // Below this the fixed segments alone would overflow, so a wide bar cannot help.
                Tier::Narrow
            } else {
                Tier::Plain
            },
        }
    }

    pub fn template(self, scanning: bool) -> (r: &'static str)
        ensures
            r@ == self.template_text(scanning),
    {
        if scanning {
            return match self {
                Tier::Full => "{spinner:.green} [{elapsed_precise}] scanning… {msg}",
                Tier::Medium => "{spinner:.green} scanning… {msg}",
                Tier::Narrow | Tier::Plain => "{spinner:.green} {msg}",
            };
        }
        match self {
            Tier::Full => "{spinner:.green} [{elapsed_precise}] [{wide_bar:.cyan/blue}]                  {bytes}/{total_bytes} ({percent}%) · {msg}",
            Tier::Medium => "{spinner:.green} [{wide_bar:.cyan/blue}] {bytes}/{total_bytes} · {msg}",
            Tier::Narrow => "{spinner:.green} {wide_bar:.cyan/blue} {percent}%",
            Tier::Plain => "{spinner:.green} {bytes}/{total_bytes} ({percent}%)",
        }
    }

    /// The scanning phase puts its counts in the message for every tier, so it is always shown
    /// then; only the finished bar drops it on the narrow tiers.
    pub fn shows_message(self, scanning: bool) -> (r: bool)
        ensures
            r == self.has_message(scanning),
    {
        scanning || matches!(self, Tier::Full | Tier::Medium)
    }

    pub fn shows_cloud_detail(self) -> (r: bool)
        ensures
            r == (self is Full),
    {
        self == Tier::Full
    }
}

/// A wider terminal never shows less.
pub proof fn law_wider_never_shows_less(narrow: u16, wide: u16)
    requires
        narrow <= wide,
    ensures
        tier_of(None).rank() <= tier_of(Some(narrow)).rank() <= tier_of(Some(wide)).rank(),
{
}

/// What to do to the bar after an update.
#[derive(Clone, Copy, PartialEq, Eq, Debug, Structural)]
pub struct BarUpdate {
    /// Bytes by which the bar's length grows.
    pub longer: u64,
    /// Bytes by which the bar's position moves on.
    pub further: u64,
    /// Whether the message is due to be rebuilt.
    pub message: bool,
}

/// The run's progress display, apart from the bar itself.
#[derive(Clone, Copy, PartialEq, Eq, Debug, Structural)]
pub struct Progress {
    pub files_done: u64,
    pub files_found: u64,
    pub cloud_found: u64,
    pub scanning: bool,
    /// Updates so far that could have changed the message.
    pub updates: u64,
    pub tier: Tier,
    /// No bar is drawn at all; the caller emits periodic plain lines instead.
    pub plain: bool,
}

/// The bar's message; `size` is the bar's position for people.
pub open spec fn message_text(p: Progress, size: Seq<char>) -> Seq<char> {
    let counts = if p.scanning {
        grouped(text::decimal(p.files_found as nat)) + " found · "@ + grouped(
            text::decimal(p.files_done as nat),
        ) + " copied · "@ + size
    } else {
        grouped(text::decimal(p.files_done as nat)) + "/"@ + grouped(
            text::decimal(p.files_found as nat),
        ) + " files"@
    };
    if p.tier is Full && p.cloud_found > 0 {
        counts + " · "@ + grouped(text::decimal(p.cloud_found as nat)) + " online-only"@
    } else {
        counts
    }
}

/// A one-line status; `size` and `total` are the bar's position and length for people.
pub open spec fn plain_text(p: Progress, size: Seq<char>, total: Seq<char>) -> Seq<char> {
    text::decimal(p.files_done as nat) + "/"@ + text::decimal(p.files_found as nat) + " files · "@
        + size + " / "@ + total + (if p.scanning {
        " (scanning)"@
    } else {
        ""@
    })
}

/// The counters after an update that could change the message.
pub open spec fn counted(p: Progress) -> Progress {
    if p.tier.has_message(p.scanning) {
        Progress { updates: counter::wrapped(p.updates + 1), ..p }
    } else {
        p
    }
}

/// Whether that update rebuilds the message: one in every [`MESSAGE_REFRESH_EVERY`].
pub open spec fn message_due(p: Progress) -> bool {
    p.tier.has_message(p.scanning) && p.updates % 64 == 0
}

/// The display after another file was found.
pub open spec fn after_found(p: Progress, dehydrated: bool) -> Progress {
    counted(
        Progress {
            files_found: counter::wrapped(p.files_found + 1),
            cloud_found: if dehydrated {
                counter::wrapped(p.cloud_found + 1)
            } else {
                p.cloud_found
            },
            ..p
        },
    )
}

/// The display after another file was finished.
pub open spec fn after_finished(p: Progress) -> Progress {
    counted(Progress { files_done: counter::wrapped(p.files_done + 1), ..p })
}

/// What a found file does to the bar.
pub open spec fn bar_after_found(p: Progress, bytes: u64) -> BarUpdate {
    BarUpdate { longer: bytes, further: 0, message: message_due(p) }
}

/// What a finished file does to the bar.
pub open spec fn bar_after_finished(p: Progress, bytes: u64) -> BarUpdate {
    BarUpdate { longer: 0, further: bytes, message: message_due(p) }
}

/// The display once everything was found.
pub open spec fn after_scan(p: Progress) -> Progress {
    Progress { scanning: false, ..p }
}

/// Whether no bar is drawn.
pub open spec fn draws_no_bar(force_plain: bool, cols: Option<u16>) -> bool {
    force_plain || cols is None
}

/// The counters after some updates that could change the message.
pub open spec fn counted_times(p: Progress, n: nat) -> Progress
    decreases n,
{
    if n == 0 {
        p
    } else {
        counted(counted_times(p, (n - 1) as nat))
    }
}

/// While there is a message to show, it is rebuilt at one update in every
/// [`MESSAGE_REFRESH_EVERY`], also when the counter of updates wraps around.
pub proof fn law_messages_are_rebuilt_regularly(p: Progress, n: nat)
    requires
        p.tier.has_message(p.scanning),
    ensures
        message_due(counted_times(p, n)) <==> (p.updates + n) % MESSAGE_REFRESH_EVERY as int == 0,
{
    lemma_counted_times(p, n);
}

proof fn lemma_counted_times(p: Progress, n: nat)
    requires
        p.tier.has_message(p.scanning),
    ensures
        counted_times(p, n) == (Progress { updates: counter::wrapped(p.updates + n), ..p }),
    decreases n,
{
    if n > 0 {
        lemma_counted_times(p, (n - 1) as nat);
        counter::lemma_wrapped_add(p.updates + n - 1, 1);
    }
}

impl Progress {
    /// `force_plain` comes from `--no-tty`, `cols` from the terminal, if there is one.
    pub fn new(force_plain: bool, cols: Option<u16>) -> (r: Self)
        ensures
            r == (Progress {
                files_done: 0,
                files_found: 0,
                cloud_found: 0,
                scanning: true,
                updates: 0,
                tier: tier_of(cols),
                plain: force_plain || cols is None,
            }),
            r.plain == draws_no_bar(force_plain, cols),
    {
        Progress {
            files_done: 0,
            files_found: 0,
            cloud_found: 0,
            scanning: true,
            updates: 0,
            tier: Tier::for_width(cols),
            plain: force_plain || cols.is_none(),
        }
    }

    /// Whether the bar is actually being drawn.
    pub fn is_drawing(&self) -> (r: bool)
        ensures
            r == !self.plain,
    {
        !self.plain
    }

    /// Seconds between two plain lines.
    pub fn plain_interval(&self) -> (r: u64)
        ensures
            r == 5,
    {
        PLAIN_INTERVAL
    }

    /// Called for each discovered file, growing the denominator.
    pub fn found(&mut self, bytes: u64, dehydrated: bool) -> (r: BarUpdate)
        ensures
            *final(self) == counted(
                Progress {
                    files_found: counter::wrapped(old(self).files_found + 1),
                    cloud_found: if dehydrated {
                        counter::wrapped(old(self).cloud_found + 1)
                    } else {
                        old(self).cloud_found
                    },
                    ..*old(self)
                },
            ),
            r == (BarUpdate { longer: bytes, further: 0, message: message_due(*old(self)) }),
            *final(self) == after_found(*old(self), dehydrated),
            r == bar_after_found(*old(self), bytes),
    {
        self.files_found = counter::bumped(self.files_found, 1);
        if dehydrated {
            self.cloud_found = counter::bumped(self.cloud_found, 1);
        }
        let message = self.refresh_message();
        BarUpdate { longer: bytes, further: 0, message }
    }

    /// Called when a file is finished, whether copied, skipped or failed.
    pub fn finished(&mut self, bytes: u64) -> (r: BarUpdate)
        ensures
            *final(self) == counted(
                Progress {
                    files_done: counter::wrapped(old(self).files_done + 1),
                    ..*old(self)
                },
            ),
            r == (BarUpdate { longer: 0, further: bytes, message: message_due(*old(self)) }),
            *final(self) == after_finished(*old(self)),
            r == bar_after_finished(*old(self), bytes),
    {
        self.files_done = counter::bumped(self.files_done, 1);
        let message = self.refresh_message();
        BarUpdate { longer: 0, further: bytes, message }
    }

    /// Called once the walk finishes. Gives the bar's new template, if a bar is drawn, and
    /// whether its message is to be rebuilt now.
    pub fn scan_complete(&mut self) -> (r: (Option<&'static str>, bool))
        ensures
            *final(self) == (Progress { scanning: false, ..*old(self) }),
            *final(self) == after_scan(*old(self)),
            r.0 is Some <==> !old(self).plain,
            r.0 matches Some(t) ==> t@ == old(self).tier.template_text(false),
            r.1 == old(self).tier.has_message(false),
    {
        self.scanning = false;
        let template = if self.plain {
            None
        } else {
            Some(self.tier.template(false))
        };
        (template, self.tier.shows_message(false))
    }

    /// Counts an update of the message, and says whether it is due.
    fn refresh_message(&mut self) -> (due: bool)
        ensures
            *final(self) == counted(*old(self)),
            due == message_due(*old(self)),
    {
        if !self.tier.shows_message(self.scanning) {
            return false;
        }
        let n: u64 = self.updates;
        self.updates = counter::bumped(n, 1);
        n % MESSAGE_REFRESH_EVERY == 0
    }

    /// The bar's message at the given position.
    pub fn message(&self, position: u64) -> (r: String)
        ensures
            r@ == message_text(*self, size::human_size(position)),
    {
        let position = size::human_bytes(position);
        self.message_with(position.as_str())
    }

    /// The bar's message, with the bar's position given as text.
    pub fn message_with(&self, size: &str) -> (r: String)
        ensures
            r@ == message_text(*self, size@),
    {
        let mut msg = if self.scanning {
            let mut m = commas(self.files_found);
            m.append(" found · ");
            m.append(commas(self.files_done).as_str());
            m.append(" copied · ");
            m.append(size);
            m
        } else {
            let mut m = commas(self.files_done);
            m.append("/");
            m.append(commas(self.files_found).as_str());
            m.append(" files");
            m
        };
        if self.tier.shows_cloud_detail() && self.cloud_found > 0 {
            msg.append(" · ");
            msg.append(commas(self.cloud_found).as_str());
            msg.append(" online-only");
        }
        msg
    }

    /// A one-line status for non-terminal output. A bar without a length counts as empty.
    pub fn plain_line(&self, position: u64, length: Option<u64>) -> (r: String)
        ensures
            r@ == plain_text(
                *self,
                size::human_size(position),
                size::human_size(match length {
                    Some(n) => n,
                    None => 0,
                }),
            ),
    {
        let position = size::human_bytes(position);
        let length = size::human_bytes(
            match length {
                Some(n) => n,
                None => 0,
            },
        );
        self.plain_line_with(position.as_str(), length.as_str())
    }

    /// A one-line status, with the bar's position and length given as text.
    pub fn plain_line_with(&self, size: &str, total: &str) -> (r: String)
        ensures
            r@ == plain_text(*self, size@, total@),
    {
        let mut line = text::decimal_text(self.files_done);
        line.append("/");
        line.append(text::decimal_text(self.files_found).as_str());
        line.append(" files · ");
        line.append(size);
        line.append(" / ");
        line.append(total);
        line.append(if self.scanning { " (scanning)" } else { "" });
        line
    }
}

/// The separators stand at every fourth place from the right, so that between two of them are three
/// digits, and nowhere else: never in front.
pub proof fn law_separators_stand_every_three_digits(s: Seq<char>)
    requires
        !s.contains(','),
    ensures
        s.len() > 0 ==> grouped(s).len() == s.len() + (s.len() - 1) / 3,
        s.len() == 0 ==> grouped(s).len() == 0,
        forall|i: int|
            0 <= i < grouped(s).len() ==> ((#[trigger] grouped(s)[i]) == ',' <==> (grouped(s).len()
                - i) % 4 == 0),
    decreases s.len(),
{
    let g = grouped(s);
    let n = s.len() as int;
    if n <= 3 {
        assert forall|i: int| 0 <= i < g.len() implies ((#[trigger] g[i]) == ',' <==> (g.len() - i)
            % 4 == 0) by {
            assert(s.contains(s[i]));
        }
    } else {
        reveal_strlit(",");
        let front = s.take(n - 3);
        assert(!front.contains(',')) by {
            assert forall|i: int| 0 <= i < front.len() implies front[i] != ',' by {
                assert(s.contains(s[i]));
            }
        }
        law_separators_stand_every_three_digits(front);
        let f = grouped(front);
        assert(g.len() == f.len() + 4);
        assert forall|i: int| 0 <= i < g.len() implies ((#[trigger] g[i]) == ',' <==> (g.len() - i)
            % 4 == 0) by {
            if i < f.len() {
                assert(g[i] == f[i]);
                assert((g.len() - i) % 4 == (f.len() - i) % 4);
            } else if i > f.len() {
                assert(g[i] == s[n - 3 + (i - f.len() - 1)]);
                assert(s.contains(g[i]));
            }
        }
    }
}

/// How much is shown at each width.
pub proof fn law_width_decides_the_tier(cols: Option<u16>)
    ensures
        tier_of(cols) is Full <==> cols is Some && 100 <= cols->0,
        tier_of(cols) is Medium <==> cols is Some && 60 <= cols->0 < 100,
        tier_of(cols) is Narrow <==> cols is Some && 50 <= cols->0 < 60,
        tier_of(cols) is Plain <==> cols is None || cols->0 < 50,
{
}

/// A message counts as shown exactly if the bar has a place for it, at its end; the place is there
/// on every bar during the scan, and only on the wider ones afterwards.
pub proof fn law_messages_are_shown_where_there_is_a_place(tier: Tier, scanning: bool)
    ensures
        ({
            let t = tier.template_text(scanning);
            &&& t.len() >= 5
            &&& tier.has_message(scanning) <==> t.skip(t.len() - 5) == "{msg}"@
            &&& t.take(17) == "{spinner:.green} "@
        }),
        tier.has_message(scanning) <==> scanning || tier is Full || tier is Medium,
{
    reveal_strlit("{msg}");
    reveal_strlit("{spinner:.green} ");
    reveal_strlit("{spinner:.green} [{elapsed_precise}] scanning… {msg}");
    reveal_strlit("{spinner:.green} scanning… {msg}");
    reveal_strlit("{spinner:.green} {msg}");
    reveal_strlit(
        "{spinner:.green} [{elapsed_precise}] [{wide_bar:.cyan/blue}]                  {bytes}/{total_bytes} ({percent}%) · {msg}",
    );
    reveal_strlit("{spinner:.green} [{wide_bar:.cyan/blue}] {bytes}/{total_bytes} · {msg}");
    reveal_strlit("{spinner:.green} {wide_bar:.cyan/blue} {percent}%");
    reveal_strlit("{spinner:.green} {bytes}/{total_bytes} ({percent}%)");
    let t = tier.template_text(scanning);
    assert(t.take(17) =~= "{spinner:.green} "@);
    if scanning || tier is Full || tier is Medium {
        assert(t.skip(t.len() - 5) =~= "{msg}"@);
    } else {
        assert(t.skip(t.len() - 5)[4] != '}' || t.skip(t.len() - 5)[0] != '{');
    }
}

/// During the scan the message says how many files were found, how many are done and how far the
/// bar is, in this order; afterwards, how many of the files are done.
pub proof fn law_message_says_how_far_the_run_is(p: Progress, size: Seq<char>)
    requires
        p.cloud_found == 0 || !(p.tier is Full),
    ensures
        ({
            let m = message_text(p, size);
            let found = grouped(text::decimal(p.files_found as nat));
            let done = grouped(text::decimal(p.files_done as nat));
            let f = found.len() as int;
            let d = done.len() as int;
            if p.scanning {
                &&& m.len() == f + 9 + d + 10 + size.len()
                &&& m.take(f) == found
                &&& m.subrange(f, f + 9) == " found · "@
                &&& m.subrange(f + 9, f + 9 + d) == done
                &&& m.subrange(f + 9 + d, f + 19 + d) == " copied · "@
                &&& m.skip(f + 19 + d) == size
            } else {
                &&& m.len() == d + 1 + f + 6
                &&& m.take(d) == done
                &&& m[d] == '/'
                &&& m.subrange(d + 1, d + 1 + f) == found
                &&& m.skip(d + 1 + f) == " files"@
            }
        }),
{
    reveal_strlit(" found · ");
    reveal_strlit(" copied · ");
    reveal_strlit("/");
    reveal_strlit(" files");
    let m = message_text(p, size);
    let found = grouped(text::decimal(p.files_found as nat));
    let done = grouped(text::decimal(p.files_done as nat));
    let f = found.len() as int;
    let d = done.len() as int;
    if p.scanning {
        assert(m.take(f) =~= found);
        assert(m.subrange(f, f + 9) =~= " found · "@);
        assert(m.subrange(f + 9, f + 9 + d) =~= done);
        assert(m.subrange(f + 9 + d, f + 19 + d) =~= " copied · "@);
        assert(m.skip(f + 19 + d) =~= size);
    } else {
        assert(m.take(d) =~= done);
        assert(m.subrange(d + 1, d + 1 + f) =~= found);
        assert(m.skip(d + 1 + f) =~= " files"@);
    }
}

/// How many files are online only is said behind everything else, if there are any and there is room
/// for it, and nothing else changes for it.
pub proof fn law_online_files_are_mentioned_last(p: Progress, size: Seq<char>)
    ensures
        message_text(p, size) == message_text(Progress { cloud_found: 0, ..p }, size) + if p.tier
            is Full && p.cloud_found > 0 {
            " · "@ + grouped(text::decimal(p.cloud_found as nat)) + " online-only"@
        } else {
            Seq::empty()
        },
{
    let rest = message_text(Progress { cloud_found: 0, ..p }, size);
    let tail = " · "@ + grouped(text::decimal(p.cloud_found as nat)) + " online-only"@;
    if p.tier is Full && p.cloud_found > 0 {
        assert(message_text(p, size) =~= rest + tail);
    } else {
        assert(rest + Seq::empty() =~= rest);
    }
}

/// A plain line says how many of the files are done, ungrouped, and how many of the bytes, and marks
/// a scan that is still going on behind all that.
pub proof fn law_plain_line_says_how_far_the_run_is(
    p: Progress,
    size: Seq<char>,
    total: Seq<char>,
)
    ensures
        ({
            let line = plain_text(Progress { scanning: false, ..p }, size, total);
            let done = text::decimal(p.files_done as nat);
            let found = text::decimal(p.files_found as nat);
            let d = done.len() as int;
            let f = found.len() as int;
            let s = size.len() as int;
            &&& line.len() == d + 1 + f + 9 + s + 3 + total.len()
            &&& line.take(d) == done
            &&& line[d] == '/'
            &&& line.subrange(d + 1, d + 1 + f) == found
            &&& line.subrange(d + 1 + f, d + 10 + f) == " files · "@
            &&& line.subrange(d + 10 + f, d + 10 + f + s) == size
            &&& line.subrange(d + 10 + f + s, d + 13 + f + s) == " / "@
            &&& line.skip(d + 13 + f + s) == total
            &&& plain_text(Progress { scanning: true, ..p }, size, total) == line + " (scanning)"@
        }),
{
    reveal_strlit("/");
    reveal_strlit(" files · ");
    reveal_strlit(" / ");
    reveal_strlit("");
    let line = plain_text(Progress { scanning: false, ..p }, size, total);
    let done = text::decimal(p.files_done as nat);
    let found = text::decimal(p.files_found as nat);
    let d = done.len() as int;
    let f = found.len() as int;
    let s = size.len() as int;
    assert(line.take(d) =~= done);
    assert(line.subrange(d + 1, d + 1 + f) =~= found);
    assert(line.subrange(d + 1 + f, d + 10 + f) =~= " files · "@);
    assert(line.subrange(d + 10 + f, d + 10 + f + s) =~= size);
    assert(line.subrange(d + 10 + f + s, d + 13 + f + s) =~= " / "@);
    assert(line.skip(d + 13 + f + s) =~= total);
    assert(plain_text(Progress { scanning: true, ..p }, size, total) =~= line + " (scanning)"@);
}

/// Counting an update changes no other counter, and a bar without a message counts none.
pub proof fn law_updates_change_nothing_else(p: Progress)
    ensures
        counted(p) == (Progress { updates: counted(p).updates, ..p }),
        p.scanning || p.tier is Full || p.tier is Medium ==> counted(p).updates == counter::wrapped(
            p.updates + 1,
        ),
        !p.scanning && (p.tier is Narrow || p.tier is Plain) ==> counted(p) == p && !message_due(p),
        message_due(p) ==> p.updates % 64 == 0,
        p.scanning && p.updates % 64 == 0 ==> message_due(p),
{
}

/// A found file is counted once, and once more among those in the cloud if it is a placeholder; a
/// finished file is counted once. Nothing else that is shown changes.
pub proof fn law_each_file_is_counted_once(p: Progress, dehydrated: bool)
    ensures
        ({
            let q = after_found(p, dehydrated);
            &&& q.files_found == counter::wrapped(p.files_found + 1)
            &&& q.cloud_found == counter::wrapped(p.cloud_found + if dehydrated {
                1int
            } else {
                0
            })
            &&& q.files_done == p.files_done
            &&& q.scanning == p.scanning && q.tier == p.tier && q.plain == p.plain
        }),
        ({
            let q = after_finished(p);
            &&& q.files_done == counter::wrapped(p.files_done + 1)
            &&& q.files_found == p.files_found && q.cloud_found == p.cloud_found
            &&& q.scanning == p.scanning && q.tier == p.tier && q.plain == p.plain
        }),
{
}

/// A terminal has a bar, however narrow it is, unless none is wanted; without a terminal there is
/// none.
pub proof fn law_terminals_have_a_bar(force_plain: bool, cols: Option<u16>)
    ensures
        draws_no_bar(force_plain, cols) <==> force_plain || cols is None,
        cols is Some ==> draws_no_bar(force_plain, cols) == force_plain,
{
}

/// A file makes the bar longer by its size when it is found and moves it on by as much when it is
/// finished, so that a bar on which every found file is finished is full.
pub proof fn law_finished_files_fill_the_bar(p: Progress, q: Progress, bytes: u64)
    ensures
        bar_after_found(p, bytes).longer == bar_after_finished(q, bytes).further,
        bar_after_found(p, bytes).longer == bytes,
        bar_after_found(p, bytes).further == 0,
        bar_after_finished(q, bytes).longer == 0,
        bar_after_found(p, bytes).message <==> message_due(p),
        bar_after_finished(q, bytes).message <==> message_due(q),
{
}

/// The end of the scan changes no count and no tier.
pub proof fn law_end_of_scan_changes_no_count(p: Progress)
    ensures
        !after_scan(p).scanning,
        after_scan(p).files_done == p.files_done,
        after_scan(p).files_found == p.files_found,
        after_scan(p).cloud_found == p.cloud_found,
        after_scan(p).updates == p.updates,
        after_scan(p).tier == p.tier,
        after_scan(p).plain == p.plain,
{
}

} // verus!
