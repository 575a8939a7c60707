use bv::cli::{Entry, entry, format_request, robot_help_text};
use bv::help::render_help;
use bv::validation::Presence;

fn s(v: &[&str]) -> Vec<String> {
    v.iter().map(|x| x.to_string()).collect()
}

#[test]
fn help_wins_over_everything_else() {
    for argv in [
        vec!["--help"],
        vec!["-h"],
        vec!["--version", "--help"],
        vec!["--robot-triage", "--robot-next", "--help"],
        vec!["--graph-format", "svg", "-h"],
    ] {
        match entry(&s(&argv)) {
            Entry::Help(text) => assert_eq!(text, render_help("bv"), "{argv:?}"),
            _ => panic!("expected the help page for {argv:?}"),
        }
    }
}

#[test]
fn version_comes_before_validation() {
    match entry(&s(&["--version", "--robot-triage", "--robot-next"])) {
        Entry::Version(line) => assert_eq!(line, "bv v0.25.0"),
        _ => panic!("expected the version line"),
    }
}

#[test]
fn bad_enum_value_is_a_usage_error() {
    match entry(&s(&["--robot-graph", "--graph-format", "svg"])) {
        Entry::Usage(message) => assert_eq!(
            message,
            "invalid --graph-format \"svg\" (expected one of json, dot, mermaid)"
        ),
        _ => panic!("expected a usage error"),
    }
}

#[test]
fn validation_stages_stop_at_the_first_failure() {
    match entry(&s(&["--robot-triage", "--robot-next", "--script-format", "sh"])) {
        Entry::Usage(message) => assert!(message.starts_with("invalid --script-format \"sh\"")),
        _ => panic!("expected the enum stage to answer first"),
    }
    match entry(&s(&["--robot-triage", "--robot-next", "--script-format", "bash"])) {
        Entry::Invalid(messages) => {
            assert_eq!(messages.len(), 1);
            assert!(messages[0].starts_with("--script-format requires --emit-script"));
        }
        _ => panic!("expected the modifier stage before the exclusive groups"),
    }
    match entry(&s(&["--robot-graph", "--robot-triage", "--robot-next", "--graph-format", "svg"])) {
        Entry::Usage(message) => assert!(message.starts_with("invalid --graph-format \"svg\"")),
        _ => panic!("expected the enum stage to answer before the exclusive groups"),
    }
    match entry(&s(&["--export-pages", "out", "--watch-export", "--as-of", "HEAD"])) {
        Entry::Invalid(messages) => assert_eq!(
            messages,
            vec!["--watch-export cannot be combined with --as-of; omit --watch-export to export a fixed historical snapshot.".to_string()]
        ),
        _ => panic!("expected the watch-export stage"),
    }
    match entry(&s(&["--robot-triage", "--robot-next", "--export-pages", "out", "--watch-export", "--as-of", "HEAD"])) {
        Entry::Invalid(messages) => {
            assert_eq!(messages.len(), 1);
            assert!(messages[0].starts_with("only one primary command allowed"));
        }
        _ => panic!("expected the exclusive stage before the watch-export stage"),
    }
}

#[test]
fn validation_failures_are_all_reported() {
    match entry(&s(&["--robot-triage", "--robot-next"])) {
        Entry::Invalid(messages) => assert_eq!(
            messages,
            vec!["only one primary command allowed (found 2: robot-triage, robot-next)".to_string()]
        ),
        _ => panic!("expected a validation failure"),
    }
    match entry(&s(&["--brief", "--robot-triage", "--robot-next"])) {
        Entry::Invalid(messages) => {
            assert_eq!(messages.len(), 1);
            assert!(messages[0].starts_with("only one primary command allowed (found 2"));
        }
        _ => panic!("expected a validation failure"),
    }
    match entry(&s(&["--robot-diff"])) {
        Entry::Invalid(messages) => {
            assert_eq!(messages.len(), 1);
            assert!(messages[0].starts_with("--robot-diff requires --diff-since"));
        }
        _ => panic!("expected a missing requirement"),
    }
}

#[test]
fn clean_invocations_run_with_the_rewritten_argv() {
    match entry(&s(&["triage", "--json"])) {
        Entry::Run(args) => assert_eq!(args, s(&["--robot-triage", "--format", "json"])),
        _ => panic!("expected a clean run"),
    }
    match entry(&[]) {
        Entry::Run(args) => assert!(args.is_empty()),
        _ => panic!("expected a clean run"),
    }
}

#[test]
fn robot_help_lists_every_primary_with_its_placeholder() {
    let text = robot_help_text();
    assert!(text.starts_with("bvr robot commands (AI agent interface)\n\nPRIMARY COMMANDS:\n"));
    assert!(text.contains("  --robot-help\n"));
    assert!(text.contains("  --robot-docs <value>\n"));
    assert!(text.ends_with(
        "\nOutput contract: stdout=data only; stderr=diagnostics;\nexit 0=success, 1=error/critical-drift, 2=usage/warning-drift.\n"
    ));
    let listed = text.lines().filter(|l| l.starts_with("  --")).count();
    assert_eq!(listed, 41);
}

#[test]
fn format_request_checks_the_value() {
    let check = |argv: &[&str]| {
        let args = s(argv);
        let presence = Presence::from_args(&args);
        format_request(&args, &presence)
    };
    assert_eq!(check(&["--robot-triage"]), None);
    assert_eq!(check(&["--format", "toon"]), Some(Ok("toon".to_string())));
    assert_eq!(check(&["--format", "json"]), Some(Ok("json".to_string())));
    assert_eq!(check(&["--format"]), Some(Ok("json".to_string())));
    assert_eq!(check(&["--format=toon"]), Some(Ok("json".to_string())));
    assert_eq!(
        check(&["--format", "yaml"]),
        Some(Err("Invalid --format \"yaml\" (expected json|toon)".to_string()))
    );
}
