use deepcopy::cli::{default_discovery_jobs, default_local_jobs, Cli};
use deepcopy::conflict_resolver::ConflictResolutionStrategy;
use deepcopy::fsattr::Platform;
use deepcopy::path::{Component, PathBuf};

fn path(name: &str) -> PathBuf {
    PathBuf::from_components(
        &vec![Component::Normal(name.as_bytes().to_vec())],
        Platform::Other,
    )
}

/// Paths only: `-s` and `-d` take a value, anything else is positional.
fn parse(args: &[&str]) -> Cli {
    let mut cli = Cli::defaults(Some(4));
    let mut args = args.iter();
    while let Some(arg) = args.next() {
        match *arg {
            "-s" => cli.source_opt = Some(path(args.next().unwrap())),
            "-d" => cli.dest_opt = Some(path(args.next().unwrap())),
            name if cli.source_pos.is_none() => cli.source_pos = Some(path(name)),
            name => cli.dest_pos = Some(path(name)),
        }
    }
    cli
}

#[test]
fn positional_form() {
    let cli = parse(&["src", "dst"]);
    let (s, d) = cli.resolve_paths().unwrap();
    assert_eq!(s, path("src"));
    assert_eq!(d, path("dst"));
}

#[test]
fn named_form() {
    let cli = parse(&["-s", "src", "-d", "dst"]);
    let (s, d) = cli.resolve_paths().unwrap();
    assert_eq!(s, path("src"));
    assert_eq!(d, path("dst"));
}

#[test]
fn mixing_forms_errors() {
    let cli = parse(&["src", "-d", "dst"]);
    assert!(cli
        .resolve_paths()
        .unwrap_err()
        .contains("the positional or the named"));
    let cli = parse(&["dst", "-s", "src"]);
    assert!(cli
        .resolve_paths()
        .unwrap_err()
        .contains("the positional or the named"))
}

#[test]
fn missing_operand_errors() {
    let cli = parse(&["src"]);
    let err = cli.resolve_paths().unwrap_err();
    assert!(err.contains("required value dest"), "incorrect err: {err}");
}

#[test]
fn conflict_defaults_to_ask() {
    assert_eq!(parse(&["a", "b"]).conflict, ConflictResolutionStrategy::Ask);
}

#[test]
fn every_path_error_has_its_words() {
    assert_eq!(
        parse(&["a", "b", "-s", "c"]).resolve_paths().unwrap_err(),
        "Exactly one of either the positional or the named form must be used."
    );
    assert_eq!(
        parse(&["-s", "a"]).resolve_paths().unwrap_err(),
        "Missing required value dest"
    );
    assert_eq!(
        parse(&["-d", "a"]).resolve_paths().unwrap_err(),
        "Missing required value source"
    );
    assert_eq!(
        parse(&[]).resolve_paths().unwrap_err(),
        "Missing required values source and dest"
    );
}

#[test]
fn job_counts_follow_the_machine_within_limits() {
    assert_eq!(default_local_jobs(None), 8);
    assert_eq!(default_local_jobs(Some(1)), 4);
    assert_eq!(default_local_jobs(Some(6)), 12);
    assert_eq!(default_local_jobs(Some(64)), 16);
    assert_eq!(default_discovery_jobs(None), 8);
    assert_eq!(default_discovery_jobs(Some(1)), 4);
    assert_eq!(default_discovery_jobs(Some(12)), 24);
    assert_eq!(default_discovery_jobs(Some(64)), 32);
}

#[test]
fn defaults_are_filled_in() {
    let cli = Cli::defaults(Some(8));
    assert_eq!(cli.local_jobs, 16);
    assert_eq!(cli.cloud_jobs, 6);
    assert_eq!(cli.discovery_jobs, 16);
    assert_eq!(cli.min_free, 1024 * 1024 * 1024);
    assert_eq!(cli.queue_depth, 262_144);
    assert!(!cli.dry_run && !cli.no_color && !cli.no_tty && !cli.debug);
    assert_eq!(
        cli.jobs_summary(),
        "16 local / 6 cloud / 16 discovery, queue 262144"
    );
}

#[test]
fn an_empty_no_color_is_not_set() {
    let mut cli = Cli::defaults(None);
    assert!(!cli.color_disabled(None));
    assert!(!cli.color_disabled(Some(&vec![])));
    assert!(cli.color_disabled(Some(&b"1".to_vec())));
    cli.no_color = true;
    assert!(cli.color_disabled(None));
}

#[test]
fn asking_needs_a_terminal() {
    let mut cli = Cli::defaults(None);
    assert!(cli.is_interactive(true));
    assert!(!cli.is_interactive(false));
    assert_eq!(cli.validate_interactive(true), Ok(()));
    assert_eq!(
        cli.validate_interactive(false).unwrap_err(),
        "--conflict ask needs a terminal to prompt on, but stdin is not a terminal.\n\
         Pass an explicit --conflict skip or --conflict overwrite for non-interactive runs."
    );

    cli.no_tty = true;
    assert!(!cli.is_interactive(true));
    assert_eq!(
        cli.validate_interactive(true).unwrap_err(),
        "--conflict ask needs a terminal to prompt on, but --no-tty was given, so this run is \
         non-interactive.\n\
         Pass an explicit --conflict skip or --conflict overwrite for non-interactive runs."
    );

    cli.dry_run = true;
    assert_eq!(cli.validate_interactive(false), Ok(()));
    cli.dry_run = false;
    cli.conflict = ConflictResolutionStrategy::Skip;
    assert_eq!(cli.validate_interactive(false), Ok(()));
}
