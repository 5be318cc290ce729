use deepcopy::conflict_resolver::{
    describe_with, prompt_failure, prompt_header, Answer, Arbiter, ArbiterStep, ConflictArbiter,
    ConflictResolution, ConflictResolutionStrategy, FileInfo, Modified, ResolveEvent, ResolveStep,
};
use deepcopy::logger::UnixTime;

const ANSWERS: [Answer; 5] = [
    Answer::Overwrite,
    Answer::Skip,
    Answer::OverwriteAll,
    Answer::SkipAll,
    Answer::Quit,
];

#[test]
fn answers_follow_the_list() {
    assert_eq!(
        Answer::labels(),
        [
            "Overwrite this file",
            "Skip this file",
            "Overwrite all remaining conflicts",
            "Skip all remaining conflicts",
            "Quit",
        ]
    );
    for (i, answer) in ANSWERS.into_iter().enumerate() {
        assert_eq!(Answer::from_index(i), answer);
        assert_eq!(Answer::from_selection(Some(i)), answer);
    }
    assert_eq!(Answer::from_index(5), Answer::Quit);
    assert_eq!(Answer::from_index(Answer::preselected()), Answer::Skip);
    assert_eq!(Answer::from_selection(None), Answer::Quit);
}

#[test]
fn lasting_answers_are_latched() {
    let latched: Vec<_> = ANSWERS.iter().map(|a| a.latch()).collect();
    assert_eq!(
        latched,
        [
            None,
            None,
            Some(ConflictResolution::Overwrite),
            Some(ConflictResolution::Skip),
            Some(ConflictResolution::Quit),
        ]
    );
    assert_eq!(Answer::Overwrite.resolution(), ConflictResolution::Overwrite);
    assert_eq!(Answer::SkipAll.resolution(), ConflictResolution::Skip);
    assert_eq!(Answer::Quit.resolution(), ConflictResolution::Quit);
}

#[test]
fn fixed_strategies_never_ask() {
    let decided = |strategy| ConflictArbiter::fixed(strategy).resolve(ResolveEvent::Found);
    assert_eq!(
        decided(ConflictResolutionStrategy::Overwrite),
        ResolveStep::Decided(ConflictResolution::Overwrite)
    );
    assert_eq!(
        decided(ConflictResolutionStrategy::Skip),
        ResolveStep::Decided(ConflictResolution::Skip)
    );
    // Nobody to ask.
    assert_eq!(
        decided(ConflictResolutionStrategy::Ask),
        ResolveStep::Decided(ConflictResolution::Skip)
    );
    let skip = ConflictArbiter::fixed(ConflictResolutionStrategy::Skip);
    assert!(!skip.prompts() && !skip.always_overwrites());
    assert!(ConflictArbiter::fixed(ConflictResolutionStrategy::Overwrite).always_overwrites());
    assert!(ConflictArbiter::interactive().prompts());
}

#[test]
fn questions_are_settled_even_if_the_arbiter_is_gone() {
    let arbiter = ConflictArbiter::interactive();
    assert_eq!(arbiter.resolve(ResolveEvent::Found), ResolveStep::Send);
    assert_eq!(
        arbiter.resolve(ResolveEvent::Sent { delivered: false }),
        ResolveStep::Decided(ConflictResolution::Quit)
    );
    assert_eq!(arbiter.resolve(ResolveEvent::Sent { delivered: true }), ResolveStep::Await);
    assert_eq!(
        arbiter.resolve(ResolveEvent::Answered(None)),
        ResolveStep::Decided(ConflictResolution::Quit)
    );
    assert_eq!(
        arbiter.resolve(ResolveEvent::Answered(Some(ConflictResolution::Skip))),
        ResolveStep::Decided(ConflictResolution::Skip)
    );
}

#[test]
fn a_latched_decision_lasts() {
    let mut arbiter = Arbiter::new();
    assert_eq!(arbiter.asked(), ArbiterStep::Prompt);
    assert_eq!(arbiter.answered(Some(Answer::Overwrite)), ConflictResolution::Overwrite);
    assert_eq!(arbiter.asked(), ArbiterStep::Prompt);
    assert_eq!(arbiter.answered(None), ConflictResolution::Skip);
    assert_eq!(arbiter.asked(), ArbiterStep::Prompt);
    assert_eq!(arbiter.answered(Some(Answer::SkipAll)), ConflictResolution::Skip);
    for _ in 0..3 {
        assert_eq!(arbiter.asked(), ArbiterStep::Reply(ConflictResolution::Skip));
    }
}

#[test]
fn the_prompt_shows_both_files() {
    let source = FileInfo::Known {
        len: 1500,
        modified: Modified::At(UnixTime { secs: 1_704_067_200, millis: 321 }),
    };
    let target = FileInfo::Unreadable("permission denied".to_string());
    assert_eq!(
        prompt_header("dst/a.txt", &source, &target),
        "\nConflict: dst/a.txt\n  source    1.46 KiB   2024-01-01 00:00:00\n  \
         target  unreadable (permission denied)\nAction"
    );
    let unknown = FileInfo::Known { len: 0, modified: Modified::Unknown };
    assert_eq!(describe_with(&unknown, "0 B"), "       0 B   unknown time");
    let ancient = FileInfo::Known { len: 0, modified: Modified::BeforeEpoch };
    assert_eq!(
        describe_with(&ancient, "a long size text"),
        "a long size text   1970-01-01 00:00:00"
    );
}

#[test]
fn a_failed_prompt_says_what_to_do() {
    let text = prompt_failure("dst/a.txt", "not a terminal");
    assert!(text.starts_with(
        "Conflict prompt failed for dst/a.txt: not a terminal\nStopping rather than silently \
         skipping the "
    ));
    assert!(text.ends_with(" overwrite."));
}
