use bv::dispatch::{EarlyRoute, LateRoute, early_route, late_route};
use bv::recipes::{builtin_recipes, robot_recipes_json, sort_by_name};
use bv::validation::Presence;

fn s(v: &[&str]) -> Vec<String> {
    v.iter().map(|x| x.to_string()).collect()
}

fn early(argv: &[&str]) -> Option<EarlyRoute> {
    let args = s(argv);
    let presence = Presence::from_args(&args);
    early_route(&args, &presence)
}

fn late(argv: &[&str]) -> LateRoute {
    let args = s(argv);
    let presence = Presence::from_args(&args);
    late_route(&args, &presence)
}

#[test]
fn early_commands_follow_their_order() {
    assert!(matches!(early(&["--check-update"]), Some(EarlyRoute::Command("check-update"))));
    assert!(matches!(early(&["--robot-help", "--update"]), Some(EarlyRoute::Command("update"))));
    assert!(matches!(early(&["--robot-docs", "guide", "--robot-help"]), Some(EarlyRoute::Command("robot-help"))));
    assert!(matches!(early(&["--agents-check"]), Some(EarlyRoute::Command("agents"))));
    assert!(matches!(early(&["--generate-docs"]), Some(EarlyRoute::Command("generate-docs"))));
    assert!(early(&[]).is_none());
    assert!(early(&["--robot-triage"]).is_none());
}

#[test]
fn export_steps_carry_their_paths() {
    assert!(matches!(early(&["--export", "out.md", "--export-md", "x.md"]), Some(EarlyRoute::ExportConflict)));
    match early(&["--export"]) {
        Some(EarlyRoute::Export(path)) => assert_eq!(path, ""),
        _ => panic!("expected the export route"),
    }
    match early(&["--export", "report.html"]) {
        Some(EarlyRoute::Export(path)) => assert_eq!(path, "report.html"),
        _ => panic!("expected the export route"),
    }
    match early(&["--export-md"]) {
        Some(EarlyRoute::ExportMarkdown(path)) => assert_eq!(path, "report.md"),
        _ => panic!("expected the markdown export"),
    }
    match early(&["--export-graph", "g.dot"]) {
        Some(EarlyRoute::ExportGraph(path)) => assert_eq!(path, "g.dot"),
        _ => panic!("expected the graph export"),
    }
}

#[test]
fn late_commands_follow_their_order() {
    assert!(matches!(late(&["--check-drift", "--robot-drift"]), LateRoute::Command("robot-drift")));
    assert!(matches!(late(&["--bead-history", "bv-1"]), LateRoute::Command("robot-history")));
    assert!(matches!(late(&["--robot-triage-by-label"]), LateRoute::Command("robot-triage")));
    assert!(matches!(late(&["--robot-next", "--robot-insights"]), LateRoute::Command("robot-next")));
    assert!(matches!(late(&["--robot-recipes"]), LateRoute::Command("robot-recipes")));
    assert!(matches!(late(&["--robot-causality", "bv-1"]), LateRoute::Command("robot-causality")));
    match late(&["--save-baseline", "nightly", "--robot-triage"]) {
        LateRoute::SaveBaseline(d) => assert_eq!(d, "nightly"),
        _ => panic!("expected the baseline route"),
    }
    assert!(matches!(late(&["--robot-triage", "--save-baseline"]), LateRoute::Command("robot-triage")));
}

#[test]
fn plain_search_needs_a_robot_command() {
    assert!(matches!(late(&["--search", "login"]), LateRoute::SearchWithoutRobot));
    assert!(matches!(late(&["--search=login"]), LateRoute::SearchWithoutRobot));
    assert!(matches!(late(&["--search", "   "]), LateRoute::Tui));
    assert!(matches!(late(&["--search", "login", "--robot-sprint-list"]), LateRoute::Command("robot-sprint-list")));
}

#[test]
fn pages_unknown_tokens_and_the_viewer() {
    match late(&["--export-pages", "site", "--pages-title", "Nightly", "--pages-include-closed"]) {
        LateRoute::ExportPages { out_dir, title, include_closed } => {
            assert_eq!(out_dir, "site");
            assert_eq!(title, "Nightly");
            assert!(include_closed);
        }
        _ => panic!("expected the pages export"),
    }
    match late(&["--export-pages"]) {
        LateRoute::ExportPages { out_dir, title, include_closed } => {
            assert_eq!(out_dir, "./bv-pages");
            assert_eq!(title, "Beads Dashboard");
            assert!(!include_closed);
        }
        _ => panic!("expected the pages export"),
    }
    match late(&["--preview-pages"]) {
        LateRoute::PreviewPages(dir) => assert_eq!(dir, "./bv-pages"),
        _ => panic!("expected the preview route"),
    }
    match late(&["version"]) {
        LateRoute::Unknown(t) => assert_eq!(t, "version"),
        _ => panic!("expected an unknown command"),
    }
    assert!(matches!(late(&[]), LateRoute::Tui));
    assert!(matches!(late(&["--label", "backend"]), LateRoute::Tui));
}

#[test]
fn recipes_sort_by_name() {
    let sorted = sort_by_name(&builtin_recipes());
    let names: Vec<&str> = sorted.iter().map(|r| r.0).collect();
    assert_eq!(
        names,
        vec![
            "actionable",
            "blocked",
            "bottlenecks",
            "closed",
            "default",
            "high-impact",
            "quick-wins",
            "recent",
            "release-cut",
            "stale",
            "triage"
        ]
    );
    let mixed = sort_by_name(&[("b", "2"), ("a", "1"), ("b", "1"), ("", "0")]);
    assert_eq!(mixed, vec![("", "0"), ("a", "1"), ("b", "2"), ("b", "1")]);
}

#[test]
fn recipes_payload_lists_every_builtin_recipe() {
    let text = robot_recipes_json("2026-01-02T03:04:05Z", "json");
    assert!(text.starts_with(
        "{\"generated_at\":\"2026-01-02T03:04:05Z\",\"output_format\":\"json\",\"version\":\"v0.25.0\",\"recipes\":[{\"name\":\"actionable\",\"description\":\"Issues ready to work on (no open blockers)\",\"source\":\"builtin\"},{\"name\":\"blocked\","
    ));
    assert!(text.ends_with(
        "{\"name\":\"triage\",\"description\":\"Issues sorted by computed triage score (high impact + unblocking potential)\",\"source\":\"builtin\"}]}"
    ));
    assert_eq!(text.matches("\"source\":\"builtin\"").count(), 11);
}
