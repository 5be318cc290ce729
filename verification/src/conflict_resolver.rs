//! Conflict policy and the interactive arbiter.

use vstd::prelude::*;

use crate::logger;
use crate::logger::UnixTime;
use crate::size;
use crate::text;

verus! {

/// What to do about files that already exist at the destination.
#[derive(Debug, Clone, Copy, PartialEq, Eq, Structural)]
pub enum ConflictResolutionStrategy {
    /// Prompt for each conflict, offering to apply the answer to all remaining conflicts.
    Ask,
    /// Always replace the destination file.
    Overwrite,
    /// Always keep the destination file.
    Skip,
}

/// What to do about one conflict.
#[derive(Debug, Clone, Copy, PartialEq, Eq, Structural)]
pub enum ConflictResolution {
    Overwrite,
    Skip,
    /// The user asked to stop the whole run.
    Quit,
}

/// One answer the user can give at the prompt.
#[derive(Debug, Clone, Copy, PartialEq, Eq, Structural)]
pub enum Answer {
    Overwrite,
    Skip,
    OverwriteAll,
    SkipAll,
    Quit,
}

impl Answer {
    /// The answer's place in the list that the prompt offers.
    pub open spec fn index(self) -> int {
        match self {
            Answer::Overwrite => 0,
            Answer::Skip => 1,
            Answer::OverwriteAll => 2,
            Answer::SkipAll => 3,
            Answer::Quit => 4,
        }
    }

    /// The text that the prompt offers the answer under.
    pub open spec fn label_text(self) -> Seq<char> {
        match self {
            Answer::Overwrite => "Overwrite this file"@,
            Answer::Skip => "Skip this file"@,
            Answer::OverwriteAll => "Overwrite all remaining conflicts"@,
            Answer::SkipAll => "Skip all remaining conflicts"@,
            Answer::Quit => "Quit"@,
        }
    }

    /// What the answer decides about the conflict it was given to.
    pub open spec fn decides(self) -> ConflictResolution {
        match self {
            Answer::Overwrite | Answer::OverwriteAll => ConflictResolution::Overwrite,
            Answer::Skip | Answer::SkipAll => ConflictResolution::Skip,
            Answer::Quit => ConflictResolution::Quit,
        }
    }

    /// Whether the answer also holds for all later conflicts.
    pub open spec fn is_lasting(self) -> bool {
        self is OverwriteAll || self is SkipAll || self is Quit
    }

    /// The answer that a prompt ended with.
    pub open spec fn picked(selection: Option<usize>) -> Answer {
        match selection {
            Some(0) => Answer::Overwrite,
            Some(1) => Answer::Skip,
            Some(2) => Answer::OverwriteAll,
            Some(3) => Answer::SkipAll,
            _ => Answer::Quit,
        }
    }

    /// The texts that the prompt offers, in order.
    pub fn labels() -> (r: Vec<&'static str>)
        ensures
            r@.len() == 5,
            forall|a: Answer| (#[trigger] r@[a.index()])@ == a.label_text(),
    {
        let mut r: Vec<&'static str> = Vec::new();
        r.push("Overwrite this file");
        r.push("Skip this file");
        r.push("Overwrite all remaining conflicts");
        r.push("Skip all remaining conflicts");
        r.push("Quit");
        r
    }

    /// The place in the list that the prompt starts at: skipping changes nothing.
    pub fn preselected() -> (r: usize)
        ensures
            r == Answer::Skip.index(),
    {
        1
    }

    /// The answer at a place in the list; anything past its end is `Quit`.
    pub fn from_index(i: usize) -> (r: Self)
        ensures
            i < 5 ==> r.index() == i,
            i >= 5 ==> r is Quit,
            r == Answer::picked(Some(i)),
    {
        match i {
            0 => Answer::Overwrite,
            1 => Answer::Skip,
            2 => Answer::OverwriteAll,
            3 => Answer::SkipAll,
            _ => Answer::Quit,
        }
    }

    /// The answer that a prompt ended with: the picked place, or nothing where the prompt failed.
    /// A failed prompt stops the run rather than silently skipping the remaining conflicts.
    pub fn from_selection(selection: Option<usize>) -> (r: Self)
        ensures
            match selection {
                Some(i) => if i < 5 {
                    r.index() == i
                } else {
                    r is Quit
                },
                None => r is Quit,
            },
            r == Answer::picked(selection),
    {
        match selection {
            Some(i) => Answer::from_index(i),
            None => Answer::Quit,
        }
    }

    pub fn resolution(self) -> (r: ConflictResolution)
        ensures
            r == self.decides(),
    {
        match self {
            Answer::Overwrite | Answer::OverwriteAll => ConflictResolution::Overwrite,
            Answer::Skip | Answer::SkipAll => ConflictResolution::Skip,
            Answer::Quit => ConflictResolution::Quit,
        }
    }

    /// The decision to latch for all subsequent conflicts, if any.
    pub fn latch(self) -> (r: Option<ConflictResolution>)
        ensures
            r == if self.is_lasting() {
                Some(self.decides())
            } else {
                None
            },
    {
        match self {
            Answer::OverwriteAll => Some(ConflictResolution::Overwrite),
            Answer::SkipAll => Some(ConflictResolution::Skip),
            Answer::Quit => Some(ConflictResolution::Quit),
            _ => None,
        }
    }
}

/// Handle used by workers to decide about a conflict.
#[derive(Debug, Clone, Copy, PartialEq, Eq, Structural)]
pub struct ConflictArbiter {
    pub strategy: ConflictResolutionStrategy,
    /// Whether there is someone to send questions to.
    pub connected: bool,
}

/// What a worker has learnt about its question.
#[derive(Debug, Clone, Copy, PartialEq, Eq, Structural)]
pub enum ResolveEvent {
    /// The conflict was just found.
    Found,
    /// The question was sent, or could not be because the arbiter is gone.
    Sent { delivered: bool },
    /// The answer came, or never will because the arbiter dropped the question.
    Answered(Option<ConflictResolution>),
}

/// What a worker does next about a conflict.
#[derive(Debug, Clone, Copy, PartialEq, Eq, Structural)]
pub enum ResolveStep {
    Decided(ConflictResolution),
    /// Send the question to the arbiter.
    Send,
    /// Wait for its answer.
    Await,
}

impl ConflictArbiter {
    /// The next step about a conflict.
    pub open spec fn next(self, event: ResolveEvent) -> ResolveStep {
        match self.strategy {
            ConflictResolutionStrategy::Overwrite => ResolveStep::Decided(
                ConflictResolution::Overwrite,
            ),
            ConflictResolutionStrategy::Skip => ResolveStep::Decided(ConflictResolution::Skip),
            ConflictResolutionStrategy::Ask => if !self.connected {
                ResolveStep::Decided(ConflictResolution::Skip)
            } else {
                match event {
                    ResolveEvent::Found => ResolveStep::Send,
                    ResolveEvent::Sent { delivered: true } => ResolveStep::Await,
                    ResolveEvent::Sent { delivered: false } => ResolveStep::Decided(
                        ConflictResolution::Quit,
                    ),
                    ResolveEvent::Answered(Some(decision)) => ResolveStep::Decided(decision),
                    ResolveEvent::Answered(None) => ResolveStep::Decided(ConflictResolution::Quit),
                }
            },
        }
    }

    /// For the non-interactive strategies, no arbiter is needed.
    pub fn fixed(strategy: ConflictResolutionStrategy) -> (r: Self)
        ensures
            r == (ConflictArbiter { strategy, connected: false }),
    {
        ConflictArbiter { strategy, connected: false }
    }

    /// For a run that has an arbiter to ask.
    pub fn interactive() -> (r: Self)
        ensures
            r == (ConflictArbiter { strategy: ConflictResolutionStrategy::Ask, connected: true }),
    {
        ConflictArbiter { strategy: ConflictResolutionStrategy::Ask, connected: true }
    }

    /// Whether resolving a conflict requires asking the user.
    pub fn prompts(&self) -> (r: bool)
        ensures
            r == (self.strategy is Ask),
    {
        self.strategy == ConflictResolutionStrategy::Ask
    }

    /// Whether every conflict resolves to Overwrite without consulting the filesystem.
    ///
    /// Lets the caller skip its existence check entirely: the outcome cannot differ.
    pub fn always_overwrites(&self) -> (r: bool)
        ensures
            r == (self.strategy is Overwrite),
    {
        self.strategy == ConflictResolutionStrategy::Overwrite
    }

    /// Decides what to do next about a destination that already exists.
    pub fn resolve(&self, event: ResolveEvent) -> (r: ResolveStep)
        ensures
            r == self.next(event),
    {
        match self.strategy {
            ConflictResolutionStrategy::Overwrite => ResolveStep::Decided(
                ConflictResolution::Overwrite,
            ),
            ConflictResolutionStrategy::Skip => ResolveStep::Decided(ConflictResolution::Skip),
            ConflictResolutionStrategy::Ask => {
                if !self.connected {
                    return ResolveStep::Decided(ConflictResolution::Skip);
                }
                match event {
                    ResolveEvent::Found => ResolveStep::Send,
                    ResolveEvent::Sent { delivered } => if delivered {
                        ResolveStep::Await
                    } else {
                        // Arbiter is gone: the run is shutting down.
                        ResolveStep::Decided(ConflictResolution::Quit)
                    },
                    ResolveEvent::Answered(answer) => ResolveStep::Decided(
                        match answer {
                            Some(decision) => decision,
                            None => ConflictResolution::Quit,
                        },
                    ),
                }
            },
        }
    }
}

/// A worker asks only under the interactive strategy, whatever happens to its question.
pub proof fn law_fixed_strategies_never_ask(arbiter: ConflictArbiter, event: ResolveEvent)
    requires
        !(arbiter.strategy is Ask),
    ensures
        arbiter.next(event) == ResolveStep::Decided(
            if arbiter.strategy is Overwrite {
                ConflictResolution::Overwrite
            } else {
                ConflictResolution::Skip
            },
        ),
{
}

/// How one question reaches the arbiter and what came back: lost on the way, never answered, or
/// answered.
pub enum Fate {
    Undelivered,
    Unanswered,
    Reply(ConflictResolution),
}

/// A worker's question is always settled within three steps: by the answer where one came back,
/// and by `Quit` where the arbiter is gone.
pub proof fn law_every_question_is_settled(fate: Fate)
    ensures
        ({
            let arbiter = ConflictArbiter {
                strategy: ConflictResolutionStrategy::Ask,
                connected: true,
            };
            let sent = ResolveEvent::Sent { delivered: !(fate is Undelivered) };
            let answered = ResolveEvent::Answered(
                match fate {
                    Fate::Reply(decision) => Some(decision),
                    _ => None,
                },
            );
            &&& arbiter.next(ResolveEvent::Found) is Send
            &&& match fate {
                Fate::Undelivered => arbiter.next(sent) == ResolveStep::Decided(
                    ConflictResolution::Quit,
                ),
                Fate::Unanswered => arbiter.next(sent) is Await && arbiter.next(answered)
                    == ResolveStep::Decided(ConflictResolution::Quit),
                Fate::Reply(decision) => arbiter.next(sent) is Await && arbiter.next(answered)
                    == ResolveStep::Decided(decision),
            }
        }),
{
}

/// Owns stdin and serialises prompting. Exactly one of these runs, so concurrent workers can
/// never contend for the terminal.
#[derive(Debug, Clone, Copy, PartialEq, Eq, Structural)]
pub struct Arbiter {
    /// The decision that holds for all remaining conflicts, once there is one.
    pub latched: Option<ConflictResolution>,
}

/// What the arbiter does with a question.
#[derive(Debug, Clone, Copy, PartialEq, Eq, Structural)]
pub enum ArbiterStep {
    /// Reply without asking.
    Reply(ConflictResolution),
    /// Hold new dispatch, ask the user, and reply with what [`Arbiter::answered`] says.
    Prompt,
}

/// What the user said, where a prompt that came to grief counts as "skip this one".
pub open spec fn answer_or_skip(answer: Option<Answer>) -> Answer {
    match answer {
        Some(a) => a,
        None => Answer::Skip,
    }
}

impl Arbiter {
    /// The arbiter after an answer.
    pub open spec fn after(self, answer: Option<Answer>) -> Arbiter {
        let a = answer_or_skip(answer);
        if a.is_lasting() {
            Arbiter { latched: Some(a.decides()) }
        } else {
            self
        }
    }

    /// What is done with a question.
    pub open spec fn step(self) -> ArbiterStep {
        match self.latched {
            Some(decision) => ArbiterStep::Reply(decision),
            None => ArbiterStep::Prompt,
        }
    }

    /// The replies to a row of questions, where `answers[i]` is what the user would say to the
    /// `i`th of them if asked.
    pub open spec fn replies(self, answers: Seq<Option<Answer>>) -> Seq<ConflictResolution>
        decreases answers.len(),
    {
        if answers.len() == 0 {
            Seq::empty()
        } else {
            match self.latched {
                Some(decision) => seq![decision] + self.replies(answers.skip(1)),
                None => seq![answer_or_skip(answers[0]).decides()] + self.after(answers[0]).replies(
                    answers.skip(1),
                ),
            }
        }
    }

    pub fn new() -> (r: Self)
        ensures
            r.latched is None,
    {
        Arbiter { latched: None }
    }

    /// A question came in.
    pub fn asked(&self) -> (r: ArbiterStep)
        ensures
            r == match self.latched {
                Some(decision) => ArbiterStep::Reply(decision),
                None => ArbiterStep::Prompt,
            },
            r == self.step(),
    {
        match self.latched {
            Some(decision) => ArbiterStep::Reply(decision),
            None => ArbiterStep::Prompt,
        }
    }

    /// The prompt is over; `None` where it came to grief. Gives the reply to the question.
    pub fn answered(&mut self, answer: Option<Answer>) -> (r: ConflictResolution)
        ensures
            *final(self) == old(self).after(answer),
            r == answer_or_skip(answer).decides(),
    {
        let answer = match answer {
            Some(a) => a,
            None => Answer::Skip,
        };
        if let Some(decision) = answer.latch() {
            self.latched = Some(decision);
        }
        answer.resolution()
    }
}

/// Once a decision is latched, it is the reply to every later question.
pub proof fn law_latched_decision_lasts(
    arbiter: Arbiter,
    decision: ConflictResolution,
    answers: Seq<Option<Answer>>,
)
    requires
        arbiter.latched == Some(decision),
    ensures
        arbiter.replies(answers).len() == answers.len(),
        forall|i: int| 0 <= i < answers.len() ==> #[trigger] arbiter.replies(answers)[i] == decision,
    decreases answers.len(),
{
    if answers.len() > 0 {
        law_latched_decision_lasts(arbiter, decision, answers.skip(1));
        assert forall|i: int| 0 <= i < answers.len() implies #[trigger] arbiter.replies(answers)[i]
            == decision by {
            if i > 0 {
                assert(arbiter.replies(answers)[i] == arbiter.replies(answers.skip(1))[i - 1]);
            }
        }
    }
}

/// Every question gets one reply: the user's own answer up to and with the first answer that is
/// for all remaining conflicts, and that answer's decision from there on.
pub proof fn law_replies(answers: Seq<Option<Answer>>, i: int, lasting: int)
    requires
        0 <= i < answers.len(),
        0 <= lasting <= answers.len(),
        forall|j: int| 0 <= j < lasting ==> !answer_or_skip(#[trigger] answers[j]).is_lasting(),
        lasting < answers.len() ==> answer_or_skip(answers[lasting]).is_lasting(),
    ensures
        (Arbiter { latched: None }).replies(answers).len() == answers.len(),
        (Arbiter { latched: None }).replies(answers)[i] == if i <= lasting {
            answer_or_skip(answers[i]).decides()
        } else {
            answer_or_skip(answers[lasting]).decides()
        },
    decreases answers.len(),
{
    let fresh = Arbiter { latched: None };
    let rest = answers.skip(1);
    if lasting == 0 {
        law_latched_decision_lasts(
            fresh.after(answers[0]),
            answer_or_skip(answers[0]).decides(),
            rest,
        );
        if i > 0 {
            assert(fresh.replies(answers)[i] == fresh.after(answers[0]).replies(rest)[i - 1]);
        }
    } else if answers.len() > 1 {
        assert(fresh.after(answers[0]) == fresh);
        assert forall|j: int| 0 <= j < lasting - 1 implies !answer_or_skip(
            #[trigger] rest[j],
        ).is_lasting() by {
            assert(rest[j] == answers[j + 1]);
        }
        law_replies(rest, if i > 0 { i - 1 } else { 0 }, lasting - 1);
        if i > 0 {
            assert(fresh.replies(answers)[i] == fresh.replies(rest)[i - 1]);
        }
    } else {
        assert(fresh.after(answers[0]).replies(rest) =~= Seq::empty());
    }
}

/// What the prompt can tell about one of the two files.
#[derive(Debug, PartialEq, Eq)]
pub enum FileInfo {
    /// Size in bytes, and the modification time where the platform knows one.
    Known { len: u64, modified: Modified },
    /// The file could not be examined, and why.
    Unreadable(String),
}

/// When a file was modified.
#[derive(Debug, Clone, Copy, PartialEq, Eq, Structural)]
pub enum Modified {
    Unknown,
    /// Before 1970.
    BeforeEpoch,
    At(UnixTime),
}

/// A modification time, to the second.
pub open spec fn modified_text(modified: Modified) -> Seq<char> {
    match modified {
        Modified::Unknown => "unknown time"@,
        Modified::BeforeEpoch => logger::seconds_stamp(0),
        Modified::At(t) => logger::seconds_stamp(t.secs as nat),
    }
}

/// One file of a conflict; `len` is its size for people.
pub open spec fn file_text(info: FileInfo, len: Seq<char>) -> Seq<char> {
    match info {
        FileInfo::Known { modified, .. } => text::pad_left(len, ' ', 10) + "   "@ + modified_text(
            modified,
        ),
        FileInfo::Unreadable(error) => "unreadable ("@ + error@ + ")"@,
    }
}

/// The size that a conflict shows for a file.
pub open spec fn shown_size(info: FileInfo) -> Seq<char> {
    match info {
        FileInfo::Known { len, .. } => size::human_size(len),
        FileInfo::Unreadable(_) => ""@,
    }
}

/// The question, from the conflicting path and the two files' descriptions.
pub open spec fn header_text(path: Seq<char>, source: Seq<char>, target: Seq<char>) -> Seq<char> {
    "\nConflict: "@ + path + "\n  source  "@ + source + "\n  target  "@ + target + "\nAction"@
}

/// Describes one file of a conflict.
pub fn describe(info: &FileInfo) -> (r: String)
    ensures
        r@ == file_text(*info, shown_size(*info)),
{
    match info {
        FileInfo::Known { len, .. } => {
            let size = size::human_bytes(*len);
            describe_with(info, size.as_str())
        },
        FileInfo::Unreadable(_) => describe_with(info, ""),
    }
}

/// Describes one file of a conflict, with its size given as text.
pub fn describe_with(info: &FileInfo, size: &str) -> (r: String)
    ensures
        r@ == file_text(*info, size@),
{
    match info {
        FileInfo::Known { len: _, modified } => {
            let mut out = text::align_right(size, 10);
            out.append("   ");
            let time = match *modified {
                Modified::Unknown => String::from_str("unknown time"),
                Modified::BeforeEpoch => logger::format_seconds(None),
                Modified::At(t) => logger::format_seconds(Some(t)),
            };
            out.append(time.as_str());
            out
        },
        FileInfo::Unreadable(error) => {
            let mut out = String::from_str("unreadable (");
            out.append(error.as_str());
            out.append(")");
            out
        },
    }
}

/// The question that the terminal prompt asks about the conflict at `path`.
pub fn prompt_header(path: &str, source: &FileInfo, target: &FileInfo) -> (r: String)
    ensures
        r@ == header_text(
            path@,
            file_text(*source, shown_size(*source)),
            file_text(*target, shown_size(*target)),
        ),
{
    let mut out = String::from_str("\nConflict: ");
    out.append(path);
    out.append("\n  source  ");
    out.append(describe(source).as_str());
    out.append("\n  target  ");
    out.append(describe(target).as_str());
    out.append("\nAction");
    out
}

/// What is reported when a prompt fails.
pub open spec fn failure_text(path: Seq<char>, error: Seq<char>) -> Seq<char> {
    "Conflict prompt failed for "@ + path + ": "@ + error
        + "\nStopping rather than silently skipping the                  remaining conflicts. Re-run with an explicit --conflict skip or --conflict                  overwrite."@
}

/// What is reported when the prompt about `path` fails.
pub fn prompt_failure(path: &str, error: &str) -> (r: String)
    ensures
        r@ == "Conflict prompt failed for "@ + path@ + ": "@ + error@
            + "\nStopping rather than silently skipping the                  remaining conflicts. Re-run with an explicit --conflict skip or --conflict                  overwrite."@,
        r@ == failure_text(path@, error@),
{
    let mut out = String::from_str("Conflict prompt failed for ");
    out.append(path);
    out.append(": ");
    out.append(error);
    out.append(
        "\nStopping rather than silently skipping the                  remaining conflicts. Re-run with an explicit --conflict skip or --conflict                  overwrite.",
    );
    out
}

/// An answer does what the prompt says it does: what it decides is its first word, and it also holds
/// for later conflicts exactly if it says so or ends the run. No two answers share a place or a text.
pub proof fn law_answers_do_what_they_say(a: Answer, b: Answer)
    ensures
        0 <= a.index() < 5,
        a.index() == b.index() <==> a == b,
        a.label_text() == b.label_text() <==> a == b,
        a.decides() is Overwrite <==> a.label_text()[0] == 'O',
        a.decides() is Skip <==> a.label_text()[0] == 'S',
        a.decides() is Quit <==> a.label_text() == "Quit"@,
        a.is_lasting() <==> a is Quit || (a.label_text().len() > 24 && a.label_text().skip(
            a.label_text().len() - 24,
        ) == " all remaining conflicts"@),
{
    reveal_strlit("Overwrite this file");
    reveal_strlit("Skip this file");
    reveal_strlit("Overwrite all remaining conflicts");
    reveal_strlit("Skip all remaining conflicts");
    reveal_strlit("Quit");
    reveal_strlit(" all remaining conflicts");
    assert("Overwrite this file"@.len() == 19 && "Skip this file"@.len() == 14);
    assert("Overwrite all remaining conflicts"@.len() == 33);
    assert("Skip all remaining conflicts"@.len() == 28 && "Quit"@.len() == 4);
    if a is OverwriteAll || a is SkipAll {
        assert(a.label_text().skip(a.label_text().len() - 24) =~= " all remaining conflicts"@);
    }
}

/// What each answer decides, and for how long.
pub proof fn law_each_answer_has_its_effect(arbiter: Arbiter, answer: Answer)
    ensures
        answer.decides() is Overwrite <==> answer is Overwrite || answer is OverwriteAll,
        answer.decides() is Skip <==> answer is Skip || answer is SkipAll,
        answer.decides() is Quit <==> answer is Quit,
        answer is Overwrite || answer is Skip ==> arbiter.after(Some(answer)) == arbiter,
        arbiter.after(Some(Answer::OverwriteAll)).latched == Some(ConflictResolution::Overwrite),
        arbiter.after(Some(Answer::SkipAll)).latched == Some(ConflictResolution::Skip),
        arbiter.after(Some(Answer::Quit)).latched == Some(ConflictResolution::Quit),
{
}

/// A prompt that came to grief skips the one conflict that it was about, and changes nothing for the
/// others.
pub proof fn law_failed_prompt_skips_one_conflict(arbiter: Arbiter, answer: Answer)
    ensures
        answer_or_skip(None).decides() is Skip,
        arbiter.after(None) == arbiter,
        answer_or_skip(Some(answer)) == answer,
{
}

/// Without an arbiter to ask, a run that would ask keeps what is there, whatever happens.
pub proof fn law_nobody_to_ask_keeps_the_target(event: ResolveEvent)
    ensures
        (ConflictArbiter {
            strategy: ConflictResolutionStrategy::Ask,
            connected: false,
        }).next(event) == ResolveStep::Decided(ConflictResolution::Skip),
{
}

/// A modification time is shown as the log would show it, but for the milliseconds; one before the
/// epoch is shown as the epoch.
pub proof fn law_modification_times_read_as_in_the_log(t: UnixTime)
    ensures
        ({
            let stamp = logger::time_stamp(t);
            let dot = stamp.index_of_first('.');
            dot is Some && modified_text(Modified::At(t)) == stamp.take(dot->0)
        }),
        modified_text(Modified::BeforeEpoch) == modified_text(
            Modified::At(UnixTime { secs: 0, millis: t.millis }),
        ),
        modified_text(Modified::Unknown) == "unknown time"@,
{
    logger::law_seconds_end_at_the_dot(t);
}

/// A file that could be examined is shown with its whole size, in its column, and its modification
/// time behind it; of one that could not the whole reason is shown.
pub proof fn law_description_holds_what_is_known(
    len: u64,
    modified: Modified,
    error: String,
    shown: Seq<char>,
)
    ensures
        ({
            let known = file_text(FileInfo::Known { len, modified }, shown);
            let time = modified_text(modified);
            let w = if shown.len() <= 10 {
                10
            } else {
                shown.len() as int
            };
            &&& known.len() == w + 3 + time.len()
            &&& known.subrange(w - shown.len(), w) == shown
            &&& known.skip(w + 3) == time
        }),
        ({
            let unknown = file_text(FileInfo::Unreadable(error), shown);
            &&& unknown.len() == 12 + error@.len() + 1
            &&& unknown.take(12) == "unreadable ("@
            &&& unknown.subrange(12, 12 + error@.len() as int) == error@
        }),
        shown_size(FileInfo::Known { len, modified }) == size::human_size(len),
{
    reveal_strlit("   ");
    reveal_strlit("unreadable (");
    reveal_strlit(")");
    text::law_padding_leaves_the_text_whole(shown, ' ', 10);
    let known = file_text(FileInfo::Known { len, modified }, shown);
    let time = modified_text(modified);
    let padded = text::pad_left(shown, ' ', 10);
    let w = padded.len() as int;
    assert(known.subrange(w - shown.len(), w) =~= padded.skip(w - shown.len()));
    assert(known.skip(w + 3) =~= time);
    let unknown = file_text(FileInfo::Unreadable(error), shown);
    assert(unknown.take(12) =~= "unreadable ("@);
    assert(unknown.subrange(12, 12 + error@.len() as int) =~= error@);
}

/// The question shows the whole path, then what is known of the source, then what is known of the
/// target, each on a line of its own.
pub proof fn law_question_shows_both_files(path: Seq<char>, source: Seq<char>, target: Seq<char>)
    ensures
        ({
            let h = header_text(path, source, target);
            let p = path.len() as int;
            let s = source.len() as int;
            let t = target.len() as int;
            &&& h.len() == 11 + p + 11 + s + 11 + t + 7
            &&& h.take(11) == "\nConflict: "@
            &&& h.subrange(11, 11 + p) == path
            &&& h.subrange(11 + p, 22 + p) == "\n  source  "@
            &&& h.subrange(22 + p, 22 + p + s) == source
            &&& h.subrange(22 + p + s, 33 + p + s) == "\n  target  "@
            &&& h.subrange(33 + p + s, 33 + p + s + t) == target
            &&& h.skip(33 + p + s + t) == "\nAction"@
        }),
{
    reveal_strlit("\nConflict: ");
    reveal_strlit("\n  source  ");
    reveal_strlit("\n  target  ");
    reveal_strlit("\nAction");
    let h = header_text(path, source, target);
    let p = path.len() as int;
    let s = source.len() as int;
    let t = target.len() as int;
    assert(h.take(11) =~= "\nConflict: "@);
    assert(h.subrange(11, 11 + p) =~= path);
    assert(h.subrange(11 + p, 22 + p) =~= "\n  source  "@);
    assert(h.subrange(22 + p, 22 + p + s) =~= source);
    assert(h.subrange(22 + p + s, 33 + p + s) =~= "\n  target  "@);
    assert(h.subrange(33 + p + s, 33 + p + s + t) =~= target);
    assert(h.skip(33 + p + s + t) =~= "\nAction"@);
}

/// Every answer can be picked, by its place in the list, and picking nothing, or something past the
/// end of the list, stops the run.
pub proof fn law_every_answer_can_be_picked(a: Answer, i: usize)
    ensures
        Answer::picked(Some(a.index() as usize)) == a,
        i < 5 ==> Answer::picked(Some(i)).index() == i,
        i >= 5 ==> Answer::picked(Some(i)).decides() is Quit,
        Answer::picked(None).decides() is Quit,
{
}

/// The user is asked as long as no decision holds for all remaining conflicts, and never again once
/// one does.
pub proof fn law_nobody_is_asked_twice(arbiter: Arbiter, answer: Answer)
    ensures
        arbiter.step() is Prompt <==> arbiter.latched is None,
        arbiter.latched matches Some(decision) ==> arbiter.step() == ArbiterStep::Reply(decision),
        (Arbiter { latched: None }).after(Some(answer)).step() is Prompt <==> answer is Overwrite
            || answer is Skip,
{
}

/// The report about a failed prompt holds the whole path and then the whole error.
pub proof fn law_failure_report_says_where_and_why(path: Seq<char>, error: Seq<char>)
    ensures
        ({
            let t = failure_text(path, error);
            let p = path.len() as int;
            let e = error.len() as int;
            &&& t.take(27) == "Conflict prompt failed for "@
            &&& t.subrange(27, 27 + p) == path
            &&& t.subrange(27 + p, 29 + p) == ": "@
            &&& t.subrange(29 + p, 29 + p + e) == error
            &&& t[29 + p + e] == '\n'
        }),
{
    reveal_strlit("Conflict prompt failed for ");
    reveal_strlit(": ");
    reveal_strlit(
        "\nStopping rather than silently skipping the                  remaining conflicts. Re-run with an explicit --conflict skip or --conflict                  overwrite.",
    );
    let t = failure_text(path, error);
    let p = path.len() as int;
    let e = error.len() as int;
    assert(t.take(27) =~= "Conflict prompt failed for "@);
    assert(t.subrange(27, 27 + p) =~= path);
    assert(t.subrange(27 + p, 29 + p) =~= ": "@);
    assert(t.subrange(29 + p, 29 + p + e) =~= error);
}

} // verus!
