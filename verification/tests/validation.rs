use bv::argv::rewrite_args;
use bv::validation::{
    Presence, ValidationError, validate_exclusive_primaries, validate_modifier_requires_with,
    validate_watch_export_as_of,
};

fn check(args: &[&str]) -> Vec<ValidationError> {
    let rewritten = rewrite_args(&args.iter().map(|x| x.to_string()).collect::<Vec<_>>());
    let p = Presence::from_args(&rewritten);
    let stages = [
        validate_modifier_requires_with(&p, Some(&rewritten))
            .map(|e| vec![e])
            .unwrap_or_default(),
        validate_exclusive_primaries(&p),
        validate_watch_export_as_of(&p),
    ];
    stages
        .into_iter()
        .find(|stage| !stage.is_empty())
        .unwrap_or_default()
}

#[test]
fn robot_diff_requires_diff_since() {
    let v = check(&["bvr", "--robot-diff"]);
    assert!(matches!(
        v.first(),
        Some(ValidationError::MissingRequirement { .. })
    ));
    assert!(check(&["bvr", "--robot-diff", "--diff-since", "HEAD~5"]).is_empty());
}

#[test]
fn brief_requires_triage_family() {
    assert!(!check(&["bvr", "--brief"]).is_empty());
    assert!(check(&["bvr", "--robot-triage", "--brief"]).is_empty());
    assert!(!check(&["bvr", "--robot-next", "--brief"]).is_empty());
}

#[test]
fn history_timeout_includes_next() {
    assert!(check(&["bvr", "--robot-next", "--robot-history-timeout-ms", "5000"]).is_empty());
}

#[test]
fn history_window_modifiers_accept_robot_causality() {
    for modifier in ["--history-since", "--history-limit"] {
        assert!(
            check(&["bvr", "--robot-causality", "A-1", modifier, "30d"]).is_empty(),
            "{modifier} must be allowed with --robot-causality"
        );
        assert!(
            !check(&["bvr", "--robot-triage", modifier, "30d"]).is_empty(),
            "{modifier} must still be rejected without a history command"
        );
    }
}

#[test]
fn two_triage_family_flags_conflict() {
    let v = check(&["bvr", "--robot-triage", "--robot-next"]);
    assert!(matches!(
        v.first(),
        Some(ValidationError::ExclusivePrimaries { count: 2, .. })
    ));
}

#[test]
fn single_primary_is_fine() {
    assert!(check(&["bvr", "--robot-triage"]).is_empty());
    assert!(check(&["bvr", "--robot-insights"]).is_empty());
}

#[test]
fn unrelated_modifiers_ignored() {
    assert!(check(&["bvr", "--robot-insights", "--format", "toon"]).is_empty());
}

#[test]
fn watch_export_conflicts_with_as_of() {
    let v = check(&[
        "bvr",
        "--export-pages",
        "out",
        "--watch-export",
        "--as-of",
        "HEAD",
    ]);
    assert!(
        v.iter()
            .any(|e| matches!(e, ValidationError::WatchExportWithAsOf)),
        "expected the watch-export/as-of conflict, got {v:?}"
    );
    assert_eq!(
        v.iter()
            .find(|e| matches!(e, ValidationError::WatchExportWithAsOf))
            .map(|e| e.message()),
        Some("--watch-export cannot be combined with --as-of; omit --watch-export to export a fixed historical snapshot.".to_string())
    );

    assert!(check(&["bvr", "--export-pages", "out", "--watch-export"]).is_empty());
    assert!(check(&["bvr", "--export-pages", "out", "--as-of", "HEAD"]).is_empty());
}
