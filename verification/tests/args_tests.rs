use vibewatch::args::parse_args;
use vibewatch::args::ArgError;
use vibewatch::args::Args;
use vibewatch::watcher::create_watcher_from_args;
use vibewatch::watcher::DirProbe;

fn argv(v: &[&str]) -> Vec<String> {
    v.iter().map(|s| s.to_string()).collect()
}

#[test]
fn test_cli_verify_app() {
    // Every recognized flag parses in one command line.
    let args = parse_args(argv(&[
        "vibewatch",
        ".",
        "--include",
        "*.rs",
        "--exclude",
        "target/**",
        "--verbose",
        "--on-create",
        "a",
        "--on-modify",
        "b",
        "--on-delete",
        "c",
        "--on-change",
        "d",
        "--debounce",
        "100",
    ]));
    assert!(args.is_ok());
}

#[test]
fn test_args_basic_directory() {
    let args = parse_args(argv(&["vibewatch", "."])).unwrap();
    assert_eq!(args.directory, ".");
    assert!(args.exclude_patterns.is_empty());
    assert!(args.include_patterns.is_empty());
    assert!(!args.verbose);
}

#[test]
fn test_args_with_include_patterns() {
    let args =
        parse_args(argv(&["vibewatch", ".", "--include", "*.rs", "--include", "*.toml"])).unwrap();
    assert_eq!(args.directory, ".");
    assert_eq!(args.include_patterns, vec!["*.rs", "*.toml"]);
}

#[test]
fn test_args_with_exclude_patterns() {
    let args = parse_args(argv(&[
        "vibewatch",
        ".",
        "--exclude",
        "target/**",
        "--exclude",
        "node_modules/**",
    ]))
    .unwrap();
    assert_eq!(args.exclude_patterns, vec!["target/**", "node_modules/**"]);
}

#[test]
fn test_args_with_verbose() {
    let args = parse_args(argv(&["vibewatch", ".", "--verbose"])).unwrap();
    assert!(args.verbose);
}

#[test]
fn test_args_all_options_combined() {
    let args = parse_args(argv(&[
        "vibewatch",
        "/tmp/watch",
        "--include",
        "*.rs",
        "--exclude",
        "target/**",
        "--verbose",
        "--on-create",
        "git add {file_path}",
        "--on-modify",
        "cargo check",
        "--on-delete",
        "echo removed",
        "--on-change",
        "echo changed",
    ]))
    .unwrap();

    assert_eq!(args.directory, "/tmp/watch");
    assert_eq!(args.include_patterns, vec!["*.rs"]);
    assert_eq!(args.exclude_patterns, vec!["target/**"]);
    assert!(args.verbose);
    assert_eq!(args.on_create, Some("git add {file_path}".to_string()));
    assert_eq!(args.on_modify, Some("cargo check".to_string()));
    assert_eq!(args.on_delete, Some("echo removed".to_string()));
    assert_eq!(args.on_change, Some("echo changed".to_string()));
}

#[test]
fn test_args_short_flags() {
    let args = parse_args(argv(&["vibewatch", ".", "-i", "*.rs", "-e", "target/**", "-v"]))
        .unwrap();

    assert_eq!(args.include_patterns, vec!["*.rs"]);
    assert_eq!(args.exclude_patterns, vec!["target/**"]);
    assert!(args.verbose);
}

#[test]
fn test_args_multiple_include_exclude() {
    let args = parse_args(argv(&[
        "vibewatch",
        ".",
        "-i",
        "*.rs",
        "-i",
        "*.toml",
        "-i",
        "*.md",
        "-e",
        "target/**",
        "-e",
        ".git/**",
        "-e",
        "node_modules/**",
    ]))
    .unwrap();

    assert_eq!(args.include_patterns, vec!["*.rs", "*.toml", "*.md"]);
    assert_eq!(
        args.exclude_patterns,
        vec!["target/**", ".git/**", "node_modules/**"]
    );
}

#[test]
fn test_args_no_commands() {
    let args = parse_args(argv(&["vibewatch", "."])).unwrap();
    assert_eq!(args.on_create, None);
    assert_eq!(args.on_modify, None);
    assert_eq!(args.on_delete, None);
    assert_eq!(args.on_change, None);
}

#[test]
fn test_args_command_with_template_variables() {
    let args = parse_args(argv(&[
        "vibewatch",
        ".",
        "--on-modify",
        "echo {event_type}: {relative_path}",
    ]))
    .unwrap();
    assert_eq!(
        args.on_modify,
        Some("echo {event_type}: {relative_path}".to_string())
    );
}

#[test]
fn test_args_command_with_quotes() {
    let args = parse_args(argv(&[
        "vibewatch",
        ".",
        "--on-change",
        "echo 'File changed: {file_path}'",
    ]))
    .unwrap();
    assert_eq!(
        args.on_change,
        Some("echo 'File changed: {file_path}'".to_string())
    );
}

#[test]
fn test_args_minimal() {
    let args = parse_args(argv(&["vibewatch", "."])).unwrap();
    assert_eq!(args.directory, ".");
    assert!(args.include_patterns.is_empty());
    assert!(args.exclude_patterns.is_empty());
    assert!(!args.verbose);
    assert!(args.on_create.is_none());
    assert!(args.on_modify.is_none());
    assert!(args.on_delete.is_none());
    assert!(args.on_change.is_none());
}

#[test]
fn test_args_debounce_value() {
    let args = parse_args(argv(&["vibewatch", ".", "--debounce", "250"])).unwrap();
    assert_eq!(args.debounce, 250);
    let args = parse_args(argv(&["vibewatch", "."])).unwrap();
    assert_eq!(args.debounce, 0);
}

#[test]
fn test_args_debounce_rejects_non_number() {
    let err = parse_args(argv(&["vibewatch", ".", "--debounce", "soon"])).unwrap_err();
    assert!(matches!(err, ArgError::InvalidDebounce { .. }));
}

#[test]
fn test_args_unknown_flag_rejected() {
    let err = parse_args(argv(&["vibewatch", ".", "--frobnicate"])).unwrap_err();
    assert!(matches!(err, ArgError::UnknownFlag { .. }));
}

#[test]
fn test_args_missing_value_rejected() {
    let err = parse_args(argv(&["vibewatch", ".", "--on-create"])).unwrap_err();
    assert!(matches!(err, ArgError::MissingValue { .. }));
}

#[test]
fn test_args_missing_directory_rejected() {
    let err = parse_args(argv(&["vibewatch", "--verbose"])).unwrap_err();
    assert!(matches!(err, ArgError::MissingDirectory));
}

#[test]
fn test_args_second_positional_rejected() {
    let err = parse_args(argv(&["vibewatch", ".", "src"])).unwrap_err();
    assert!(matches!(err, ArgError::UnexpectedArgument { .. }));
}

#[test]
fn test_create_watcher_from_args_valid() {
    let args = Args {
        directory: "/watch/root".to_string(),
        exclude_patterns: vec![],
        include_patterns: vec![],
        verbose: false,
        on_create: None,
        on_modify: None,
        on_delete: None,
        on_change: None,
        debounce: 0,
    };

    let result = create_watcher_from_args(args, DirProbe::Canonical("/watch/root".to_string()));
    assert!(result.is_ok());
}

#[test]
fn test_create_watcher_from_args_with_patterns() {
    let args = Args {
        directory: "/watch/root".to_string(),
        exclude_patterns: vec!["*.tmp".to_string()],
        include_patterns: vec!["*.rs".to_string()],
        verbose: true,
        on_create: Some("echo created".to_string()),
        on_modify: Some("echo modified".to_string()),
        on_delete: Some("echo deleted".to_string()),
        on_change: Some("echo changed".to_string()),
        debounce: 0,
    };

    let result = create_watcher_from_args(args, DirProbe::Canonical("/watch/root".to_string()));
    assert!(result.is_ok());
}

#[test]
fn test_create_watcher_from_args_invalid_directory() {
    let args = Args {
        directory: "/nonexistent/path/that/does/not/exist".to_string(),
        exclude_patterns: vec![],
        include_patterns: vec![],
        verbose: false,
        on_create: None,
        on_modify: None,
        on_delete: None,
        on_change: None,
        debounce: 0,
    };

    let result = create_watcher_from_args(args, DirProbe::Missing);
    assert!(result.is_err());
}

#[test]
fn test_create_watcher_from_args_invalid_patterns() {
    let args = Args {
        directory: "/watch/root".to_string(),
        exclude_patterns: vec![],
        include_patterns: vec!["[invalid".to_string()],
        verbose: false,
        on_create: None,
        on_modify: None,
        on_delete: None,
        on_change: None,
        debounce: 0,
    };

    let result = create_watcher_from_args(args, DirProbe::Canonical("/watch/root".to_string()));
    assert!(result.is_err());
}
