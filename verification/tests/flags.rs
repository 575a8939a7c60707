use bv::enums::{
    enum_rules, go_quote, levenshtein_distance, max_suggestion_distance, validate_enum_flags,
};
use bv::flags::{
    flag_lookup, format_modifier_recovery_examples, modifier_recovery_examples,
    modifier_recovery_table, modifier_requires,
};
use bv::help::render_help;
use bv::registry::{HELP_PROGRAM, help_flags, help_sections, modifier_flags, robot_primaries};

#[test]
fn registry_covers_every_go_command_line_flag() {
    let accepted_flags: &[&str] = &[
        "agent-brief",
        "agents",
        "agents-add",
        "agents-check",
        "agents-dry-run",
        "agents-force",
        "agents-remove",
        "agents-update",
        "alert-label",
        "alert-type",
        "as-of",
        "attention-limit",
        "background-mode",
        "baseline-info",
        "bead-history",
        "brief",
        "capacity-label",
        "check-drift",
        "check-update",
        "correlation-by",
        "correlation-reason",
        "cpu-profile",
        "db",
        "debug-height",
        "debug-render",
        "debug-width",
        "diff-since",
        "emit-script",
        "export",
        "export-format",
        "export-graph",
        "export-include-graph",
        "export-md",
        "export-pages",
        "export-template",
        "feedback-accept",
        "feedback-ignore",
        "feedback-reset",
        "feedback-show",
        "file-beads-limit",
        "force-full-analysis",
        "forecast-agents",
        "forecast-label",
        "forecast-sprint",
        "format",
        "generate-docs",
        "graph-depth",
        "graph-format",
        "graph-preset",
        "graph-root",
        "graph-title",
        "history-limit",
        "history-since",
        "hotspots-limit",
        "id-pattern",
        "label",
        "min-confidence",
        "network-depth",
        "no-background-mode",
        "no-cache",
        "no-hooks",
        "no-live-reload",
        "orphans-min-score",
        "pages",
        "pages-include-closed",
        "pages-include-history",
        "pages-title",
        "preview-pages",
        "priority-brief",
        "profile-json",
        "profile-startup",
        "recipe",
        "related-include-closed",
        "related-max-results",
        "related-min-relevance",
        "relations-limit",
        "relations-threshold",
        "repo",
        "robot-alerts",
        "robot-blocker-chain",
        "robot-burndown",
        "robot-by-assignee",
        "robot-by-label",
        "robot-capabilities",
        "robot-capacity",
        "robot-causality",
        "robot-confirm-correlation",
        "robot-correlation-stats",
        "robot-diff",
        "robot-docs",
        "robot-drift",
        "robot-explain-correlation",
        "robot-file-beads",
        "robot-file-hotspots",
        "robot-file-relations",
        "robot-forecast",
        "robot-graph",
        "robot-help",
        "robot-history",
        "robot-history-timeout-ms",
        "robot-impact",
        "robot-impact-network",
        "robot-insights",
        "robot-label-attention",
        "robot-label-flow",
        "robot-label-health",
        "robot-max-results",
        "robot-metrics",
        "robot-min-confidence",
        "robot-next",
        "robot-not-ready-labels",
        "robot-orphans",
        "robot-plan",
        "robot-priority",
        "robot-recipes",
        "robot-reject-correlation",
        "robot-related",
        "robot-schema",
        "robot-search",
        "robot-sprint-list",
        "robot-sprint-show",
        "robot-suggest",
        "robot-triage",
        "robot-triage-by-label",
        "robot-triage-by-track",
        "rollback",
        "save-baseline",
        "schema-command",
        "script-format",
        "script-limit",
        "search",
        "search-limit",
        "search-min-score",
        "search-mode",
        "search-preset",
        "search-weights",
        "severity",
        "stats",
        "suggest-bead",
        "suggest-confidence",
        "suggest-type",
        "theme",
        "update",
        "update-dry-run",
        "version",
        "watch-export",
        "workspace",
        "yes",
    ];
    for name in accepted_flags {
        assert!(
            flag_lookup(name),
            "{name} is an accepted flag but not in the registry"
        );
    }
}

#[test]
fn cobra_help_is_not_in_the_rewrite_registry() {
    assert!(!flag_lookup("help"));
}

fn section_of(name: &str) -> &'static str {
    let general: &[&str] = &[
        "help",
        "version",
        "cpu-profile",
        "db",
        "update",
        "check-update",
        "update-dry-run",
        "rollback",
        "yes",
        "format",
        "stats",
        "profile-startup",
        "profile-json",
        "no-cache",
        "force-full-analysis",
        "theme",
        "background-mode",
        "no-background-mode",
    ];
    let search: &[&str] = &[
        "recipe",
        "search",
        "label",
        "severity",
        "alert-type",
        "alert-label",
        "workspace",
        "repo",
        "robot-min-confidence",
        "robot-max-results",
        "robot-by-label",
        "robot-by-assignee",
    ];
    let robot: &[&str] = &[
        "attention-limit",
        "brief",
        "schema-command",
        "suggest-type",
        "suggest-confidence",
        "suggest-bead",
        "graph-format",
        "graph-root",
        "graph-depth",
        "orphans-min-score",
        "file-beads-limit",
        "hotspots-limit",
        "relations-threshold",
        "relations-limit",
        "related-min-relevance",
        "related-max-results",
        "related-include-closed",
        "forecast-label",
        "forecast-sprint",
        "forecast-agents",
        "agents",
        "capacity-label",
    ];
    let history: &[&str] = &[
        "diff-since",
        "as-of",
        "save-baseline",
        "baseline-info",
        "check-drift",
        "bead-history",
        "history-since",
        "history-limit",
        "min-confidence",
    ];
    let export: &[&str] = &[
        "export",
        "export-format",
        "export-include-graph",
        "export-template",
        "export-md",
        "no-hooks",
        "export-graph",
        "graph-preset",
        "graph-title",
        "emit-script",
        "script-limit",
        "script-format",
        "priority-brief",
        "agent-brief",
        "export-pages",
        "pages-title",
        "pages-include-closed",
        "pages-include-history",
        "preview-pages",
        "no-live-reload",
        "watch-export",
        "pages",
        "debug-render",
        "debug-width",
        "debug-height",
    ];
    if general.contains(&name) {
        "General Flags"
    } else if search.contains(&name) || name.starts_with("search-") {
        "Search & Filters"
    } else if name.starts_with("robot-")
        || robot.contains(&name)
        || name.starts_with("correlation-")
    {
        "Robot & Planning Flags"
    } else if history.contains(&name) {
        "History & Drift"
    } else if export.contains(&name) {
        "Export & Reporting"
    } else if name.starts_with("agents-") {
        "Agent File Management"
    } else {
        "Other Flags"
    }
}

#[test]
fn every_help_row_sits_in_its_go_section() {
    for h in help_flags() {
        assert_eq!(
            section_of(h.name),
            h.section,
            "--{} is filed under {:?}",
            h.name,
            h.section
        );
    }
}

#[test]
fn help_lists_every_registered_flag() {
    let rendered = render_help(HELP_PROGRAM);
    let primaries = robot_primaries();
    let modifiers = modifier_flags();
    for f in primaries.iter().chain(modifiers.iter()) {
        let row = format!("--{}", f.name);
        assert!(
            rendered.contains(&row),
            "flag {row} is registered but missing from `--help`"
        );
        assert_eq!(
            f.help_row().map(|h| h.name),
            Some(f.name),
            "flag --{} has no help table row",
            f.name
        );
    }
}

#[test]
fn help_shows_every_section_header() {
    let rendered = render_help(HELP_PROGRAM);
    for title in help_sections() {
        assert!(
            rendered.contains(&format!("{title}:\n")),
            "section header {title:?} missing from `--help`"
        );
    }
}

#[test]
fn help_table_is_ascii() {
    for h in help_flags() {
        for field in [h.name, h.section, h.type_word, h.help] {
            assert!(field.is_ascii(), "non-ASCII help field: {field:?}");
        }
    }
}

#[test]
fn help_table_names_are_unique() {
    let mut names: Vec<&str> = help_flags().iter().map(|h| h.name).collect();
    let total = names.len();
    names.sort_unstable();
    names.dedup();
    assert_eq!(names.len(), total, "duplicate flag name in the help table");
}

#[test]
fn help_short_aliases_match_go() {
    let with_short: Vec<(&str, char)> = help_flags()
        .iter()
        .filter_map(|h| h.short.map(|c| (h.name, c)))
        .collect();
    assert_eq!(
        with_short,
        vec![
            ("format", 'f'),
            ("label", 'l'),
            ("recipe", 'r'),
            ("help", 'h'),
        ]
    );
    for (name, alias) in with_short {
        assert_eq!(
            help_flags().iter().find(|h| h.name == name).unwrap().short,
            Some(alias)
        );
    }
}

#[test]
fn help_sections_match_go_matchers() {
    let general = [
        "help",
        "version",
        "cpu-profile",
        "db",
        "update",
        "check-update",
        "update-dry-run",
        "rollback",
        "yes",
        "format",
        "stats",
        "profile-startup",
        "profile-json",
        "no-cache",
        "force-full-analysis",
        "theme",
        "background-mode",
        "no-background-mode",
    ];
    for name in general {
        assert_eq!(section_of(name), "General Flags", "--{name}");
    }
    for name in [
        "label",
        "recipe",
        "search",
        "search-mode",
        "severity",
        "workspace",
        "repo",
        "robot-min-confidence",
        "robot-by-assignee",
    ] {
        assert_eq!(section_of(name), "Search & Filters", "--{name}");
    }
    for name in [
        "robot-help",
        "robot-triage",
        "robot-capabilities",
        "schema-command",
        "graph-format",
        "correlation-by",
        "brief",
        "agents",
        "forecast-label",
    ] {
        assert_eq!(section_of(name), "Robot & Planning Flags", "--{name}");
    }
    for name in [
        "diff-since",
        "as-of",
        "save-baseline",
        "check-drift",
        "bead-history",
        "history-limit",
        "min-confidence",
    ] {
        assert_eq!(section_of(name), "History & Drift", "--{name}");
    }
    for name in [
        "export",
        "export-md",
        "export-pages",
        "no-hooks",
        "pages",
        "debug-render",
        "watch-export",
        "graph-preset",
    ] {
        assert_eq!(section_of(name), "Export & Reporting", "--{name}");
    }
    for name in ["agents-add", "agents-remove", "agents-force"] {
        assert_eq!(section_of(name), "Agent File Management", "--{name}");
    }
    for name in [
        "generate-docs",
        "id-pattern",
        "network-depth",
        "feedback-show",
    ] {
        assert_eq!(section_of(name), "Other Flags", "--{name}");
    }
}

#[test]
fn help_layout_matches_pflag() {
    let out = render_help(HELP_PROGRAM);
    let expected = [
        "      --force-full-analysis   Compute all metrics regardless of graph size (may be slow for\n",
        "                              large graphs)\n",
        "  -f, --format string         Structured output format for --robot-* commands: json or toon\n",
        "                              (env: BV_OUTPUT_FORMAT, TOON_DEFAULT_FORMAT)\n",
        "      --graph-preset string      Graph layout preset: compact (default) or roomy (default\n",
        "                                 \"compact\")\n",
        "      --relations-threshold float                   Minimum correlation threshold (0.0-1.0)\n",
        "                                                    for related files (default 0.5)\n",
        "      --related-min-relevance percent_or_fraction   Minimum relevance score for related work\n",
        "                                                    (int 0-100 percent OR float 0.0-1.0\n",
        "                                                    fraction) (default 20)\n",
    ];
    for line in expected {
        assert!(out.contains(line), "missing help line: {line:?}");
    }
}

#[test]
fn help_banner_uses_program_name() {
    let out = render_help("bvr");
    assert!(out.starts_with("Usage: bvr [flags]\n\n"));
    assert!(
        out.ends_with("Run `bvr --robot-help` for detailed AI/robot command documentation.\n")
    );
}

#[test]
fn robot_primaries_count_matches_go() {
    assert_eq!(robot_primaries().len(), 41);
}

#[test]
fn triage_family_is_one_exclusive_group() {
    let primaries = robot_primaries();
    let group: Vec<_> = primaries
        .iter()
        .filter(|f| f.group == Some("triage"))
        .collect();
    assert_eq!(group.len(), 4);
}

#[test]
fn issue_5_missing_flags_are_registered() {
    let registered: Vec<&str> = modifier_flags().iter().map(|f| f.name).collect();
    for flag in [
        "export",
        "export-format",
        "export-include-graph",
        "export-template",
        "generate-docs",
        "search-min-score",
    ] {
        assert!(
            registered.contains(&flag),
            "flag --{flag} is advertised by --help but missing from the modifier flags"
        );
    }
}

#[test]
fn issue_5_export_options_require_report_command() {
    for modifier in ["export-format", "export-include-graph", "export-template"] {
        let table = modifier_requires();
        let row = table
            .iter()
            .find(|(name, _)| *name == modifier)
            .unwrap_or_else(|| panic!("{modifier} missing from the modifier rules"));
        assert_eq!(row.1, &["export", "export-md"]);
    }
}

#[test]
fn search_min_score_requires_search() {
    let table = modifier_requires();
    let row = table
        .iter()
        .find(|(name, _)| *name == "search-min-score")
        .expect("search-min-score missing from the modifier rules");
    assert_eq!(row.1, &["search"]);
}

const EXPECTED_MODIFIER_RULE_ORDER: &[&str] = &[
    "export-format",
    "export-include-graph",
    "export-template",
    "robot-diff",
    "robot-search",
    "search-limit",
    "search-min-score",
    "search-mode",
    "search-preset",
    "search-weights",
    "attention-limit",
    "schema-command",
    "suggest-type",
    "suggest-confidence",
    "suggest-bead",
    "graph-format",
    "graph-root",
    "graph-depth",
    "graph-preset",
    "graph-title",
    "severity",
    "alert-type",
    "alert-label",
    "profile-json",
    "robot-drift",
    "history-since",
    "history-limit",
    "brief",
    "robot-history-timeout-ms",
    "robot-not-ready-labels",
    "min-confidence",
    "correlation-by",
    "correlation-reason",
    "orphans-min-score",
    "file-beads-limit",
    "hotspots-limit",
    "relations-threshold",
    "relations-limit",
    "related-min-relevance",
    "related-max-results",
    "related-include-closed",
    "network-depth",
    "forecast-label",
    "forecast-sprint",
    "forecast-agents",
    "agents",
    "capacity-label",
    "robot-by-label",
    "robot-by-assignee",
    "script-limit",
    "script-format",
    "pages-title",
    "pages-include-closed",
    "pages-include-history",
    "no-live-reload",
    "watch-export",
    "debug-width",
    "debug-height",
];

#[test]
fn modifier_rules_are_in_go_evaluation_order() {
    let actual: Vec<&str> = modifier_requires().iter().map(|(name, _)| *name).collect();
    assert_eq!(actual, EXPECTED_MODIFIER_RULE_ORDER);
    assert_eq!(actual.len(), 58, "there are 58 modifier rules");
}

#[test]
fn first_violation_follows_table_order() {
    let hits: Vec<&str> = modifier_requires()
        .iter()
        .filter(|(modifier, _)| matches!(*modifier, "graph-preset" | "severity"))
        .map(|(modifier, _)| *modifier)
        .collect();
    assert_eq!(hits, ["graph-preset", "severity"]);

    let hits: Vec<&str> = modifier_requires()
        .iter()
        .filter(|(modifier, _)| {
            matches!(*modifier, "robot-history-timeout-ms" | "min-confidence")
        })
        .map(|(modifier, _)| *modifier)
        .collect();
    assert_eq!(hits, ["robot-history-timeout-ms", "min-confidence"]);

    let hits: Vec<&str> = modifier_requires()
        .iter()
        .filter(|(modifier, _)| matches!(*modifier, "pages-title" | "no-live-reload"))
        .map(|(modifier, _)| *modifier)
        .collect();
    assert_eq!(hits, ["pages-title", "no-live-reload"]);
}

#[test]
fn every_modifier_rule_has_a_distinct_name() {
    let mut names: Vec<&str> = modifier_requires().iter().map(|(name, _)| *name).collect();
    let total = names.len();
    names.sort_unstable();
    names.dedup();
    assert_eq!(
        names.len(),
        total,
        "duplicate modifier in the modifier rules"
    );
    for (_, required) in modifier_requires() {
        assert!(
            !required.is_empty(),
            "a rule with no co-flag can never pass"
        );
    }
}

const HINTED_MODIFIERS: &[&str] = &[
    "robot-search",
    "search-limit",
    "search-min-score",
    "search-mode",
    "search-preset",
    "search-weights",
    "robot-diff",
    "schema-command",
    "graph-format",
    "graph-depth",
    "graph-root",
    "severity",
    "alert-type",
    "alert-label",
    "robot-drift",
    "history-since",
    "history-limit",
    "min-confidence",
    "robot-history-timeout-ms",
    "brief",
    "correlation-by",
    "correlation-reason",
    "orphans-min-score",
    "file-beads-limit",
    "hotspots-limit",
    "relations-threshold",
    "relations-limit",
    "related-min-relevance",
    "related-max-results",
    "related-include-closed",
    "network-depth",
    "forecast-label",
    "forecast-sprint",
    "forecast-agents",
    "agents",
    "capacity-label",
    "robot-by-label",
    "robot-by-assignee",
    "script-limit",
    "script-format",
    "pages-title",
    "pages-include-closed",
    "pages-include-history",
    "no-live-reload",
    "watch-export",
    "debug-width",
    "debug-height",
];

#[test]
fn recovery_hints_cover_exactly_gos_switch_arms() {
    let covered: Vec<&str> = modifier_recovery_table()
        .iter()
        .map(|(name, _)| *name)
        .collect();
    let mut expected: Vec<&str> = HINTED_MODIFIERS.to_vec();
    expected.sort_unstable();
    let mut actual = covered.clone();
    actual.sort_unstable();
    assert_eq!(actual, expected);
    assert_eq!(covered.len(), 47, "recovery hints cover 47 modifiers");

    let unhinted: Vec<&str> = modifier_requires()
        .iter()
        .map(|(name, _)| *name)
        .filter(|name| !covered.contains(name))
        .collect();
    assert_eq!(
        unhinted,
        [
            "export-format",
            "export-include-graph",
            "export-template",
            "attention-limit",
            "suggest-type",
            "suggest-confidence",
            "suggest-bead",
            "graph-preset",
            "graph-title",
            "profile-json",
            "robot-not-ready-labels",
        ],
        "the unhinted set is exactly these modifiers"
    );
}

#[test]
fn recovery_hint_text_matches_go() {
    assert_eq!(
        format_modifier_recovery_examples("search-min-score"),
        "\nTry one of:\n  `bv robot-search \"login oauth\" --json`\n  `bv --search \"login oauth\" --robot-search --format json`"
    );
    assert_eq!(
        format_modifier_recovery_examples("robot-diff"),
        "\nTry one of:\n  `bv robot-diff HEAD~1 --json`\n  `bv --robot-diff --diff-since HEAD~1 --format json`"
    );
    assert_eq!(
        format_modifier_recovery_examples("schema-command"),
        "\nTry: `bv robot-schema triage --json`."
    );
    assert_eq!(
        format_modifier_recovery_examples("brief"),
        "\nTry: `bv robot-triage --brief --json`."
    );
    assert_eq!(
        format_modifier_recovery_examples("history-limit"),
        "\nTry: `bv robot-history --history-since \"30 days ago\" --json`."
    );
    assert_eq!(
        format_modifier_recovery_examples("pages-title"),
        "\nTry: `bv --export-pages ./bv-pages --pages-title \"Nightly Build\"`."
    );
}

#[test]
fn unmapped_modifiers_get_no_recovery_hint() {
    for modifier in [
        "export-format",
        "export-include-graph",
        "export-template",
        "attention-limit",
        "suggest-type",
        "suggest-confidence",
        "suggest-bead",
        "graph-preset",
        "graph-title",
        "profile-json",
        "robot-not-ready-labels",
    ] {
        assert!(
            modifier_recovery_examples(modifier).is_empty(),
            "{modifier} must carry no recovery examples"
        );
        assert_eq!(
            format_modifier_recovery_examples(modifier),
            "",
            "{modifier}"
        );
    }
    assert_eq!(format_modifier_recovery_examples("not-a-flag"), "");
}

#[test]
fn recovery_example_rows_are_shared_across_each_go_case() {
    for group in [
        &["graph-format", "graph-depth"][..],
        &["severity", "alert-type", "alert-label"][..],
        &["history-since", "history-limit", "min-confidence"][..],
        &["relations-threshold", "relations-limit"][..],
        &[
            "related-min-relevance",
            "related-max-results",
            "related-include-closed",
        ][..],
        &["forecast-label", "forecast-sprint", "forecast-agents"][..],
        &["agents", "capacity-label"][..],
        &["robot-by-label", "robot-by-assignee"][..],
        &["script-limit", "script-format"][..],
        &[
            "pages-title",
            "pages-include-closed",
            "pages-include-history",
        ][..],
        &["debug-width", "debug-height"][..],
    ] {
        let first = modifier_recovery_examples(group[0]);
        for name in &group[1..] {
            assert_eq!(modifier_recovery_examples(name), first, "{name}");
        }
    }
    for name in [
        "robot-search",
        "search-limit",
        "search-min-score",
        "search-mode",
        "search-preset",
        "search-weights",
    ] {
        assert_eq!(modifier_recovery_examples(name).len(), 2, "{name}");
    }
}

#[test]
fn enum_rules_match_go() {
    assert_eq!(enum_rules().len(), 2);
    assert_eq!(enum_rules()[0].name, "graph-format");
    assert_eq!(enum_rules()[0].allowed, &["json", "dot", "mermaid"]);
    assert_eq!(enum_rules()[1].name, "script-format");
    assert_eq!(enum_rules()[1].allowed, &["bash", "fish", "zsh"]);
}

#[test]
fn enum_accepts_every_allowed_value_case_insensitively() {
    for rule in enum_rules() {
        let flag = rule.name;
        for value in rule.allowed {
            assert_eq!(
                validate_enum_flags(&[(flag, value)]),
                None,
                "--{flag} {value} must be accepted"
            );
            let shouty = value.to_uppercase();
            assert_eq!(validate_enum_flags(&[(flag, &shouty)]), None, "--{flag}");
            let padded = format!("  {value}\t");
            assert_eq!(validate_enum_flags(&[(flag, &padded)]), None, "--{flag}");
        }
    }
}

#[test]
fn script_format_rejects_an_unknown_shell() {
    let err = validate_enum_flags(&[("script-format", "sh")])
        .expect("sh is not one of bash|fish|zsh");
    assert_eq!(err.name, "script-format");
    assert_eq!(err.value, "sh");
    assert_eq!(
        err.message(),
        "invalid --script-format \"sh\" (expected one of bash, fish, zsh); did you mean \"zsh\"?"
    );
}

#[test]
fn enum_suggestion_follows_gos_distance_ceiling() {
    let far = validate_enum_flags(&[("script-format", "x")]).expect("x is invalid");
    assert_eq!(far.did_you_mean, "");
    assert_eq!(
        far.message(),
        "invalid --script-format \"x\" (expected one of bash, fish, zsh)"
    );

    let edge = validate_enum_flags(&[("script-format", "gh")]).expect("gh is invalid");
    assert_eq!(
        edge.message(),
        "invalid --script-format \"gh\" (expected one of bash, fish, zsh); did you mean \"zsh\"?"
    );

    let near = validate_enum_flags(&[("script-format", "bashh")]).expect("bashh is invalid");
    assert_eq!(
        near.message(),
        "invalid --script-format \"bashh\" (expected one of bash, fish, zsh); did you mean \"bash\"?"
    );
}

#[test]
fn empty_enum_value_gets_no_did_you_mean() {
    for blank in ["", "   ", "\t\n"] {
        let err = validate_enum_flags(&[("script-format", blank)]).expect("blank is invalid");
        assert_eq!(err.did_you_mean, "", "{blank:?}");
        assert_eq!(
            err.message(),
            format!(
                "invalid --script-format {} (expected one of bash, fish, zsh)",
                go_quote(blank)
            )
        );
    }
}

#[test]
fn graph_format_is_validated_too() {
    let err = validate_enum_flags(&[("graph-format", "jsonn")]).expect("jsonn is invalid");
    assert_eq!(
        err.message(),
        "invalid --graph-format \"jsonn\" (expected one of json, dot, mermaid); did you mean \"json\"?"
    );
}

#[test]
fn first_failing_enum_rule_wins() {
    let err = validate_enum_flags(&[("script-format", "sh"), ("graph-format", "svg")])
        .expect("both are invalid");
    assert_eq!(err.name, "graph-format");
    assert_eq!(
        validate_enum_flags(&[("script-format", "sh")]).map(|e| e.name),
        Some("script-format")
    );
}

#[test]
fn unsupplied_enum_flags_are_not_checked() {
    assert_eq!(validate_enum_flags(&[]), None);
    assert_eq!(validate_enum_flags(&[("severity", "nonsense")]), None);
}

#[test]
fn repeated_enum_flags_use_the_last_value() {
    assert_eq!(
        validate_enum_flags(&[("script-format", "sh"), ("script-format", "zsh")]),
        None
    );
    let err = validate_enum_flags(&[("script-format", "zsh"), ("script-format", "sh")])
        .expect("last value is invalid");
    assert_eq!(err.value, "sh");
}

#[test]
fn levenshtein_is_byte_wise_like_go() {
    assert_eq!(levenshtein_distance("sh", "zsh"), 1);
    assert_eq!(levenshtein_distance("sh", "bash"), 2);
    assert_eq!(levenshtein_distance("sh", "fish"), 2);
    assert_eq!(levenshtein_distance("gh", "bash"), 3);
    assert_eq!(levenshtein_distance("", "fish"), 4);
    assert_eq!(levenshtein_distance("kitten", "sitting"), 3);
    assert_eq!(levenshtein_distance("e", "é"), 2);
    assert_eq!(levenshtein_distance("é", "è"), 1);
}

#[test]
fn suggestion_ceiling_is_length_tiered_by_bytes() {
    assert_eq!(max_suggestion_distance(""), 2);
    assert_eq!(max_suggestion_distance("sh"), 2);
    assert_eq!(max_suggestion_distance("merm"), 2);
    assert_eq!(max_suggestion_distance("bashh"), 3);
    assert_eq!(max_suggestion_distance("mermai"), 3);
    assert_eq!(max_suggestion_distance("jsonnnn"), 3);
    assert_eq!(max_suggestion_distance("a-very-long-value"), 4);
    assert_eq!(max_suggestion_distance("ééé"), 3);
}

#[test]
fn go_quote_matches_strconv_quote() {
    assert_eq!(go_quote("sh"), "\"sh\"");
    assert_eq!(go_quote(""), "\"\"");
    assert_eq!(go_quote("say \"hi\""), "\"say \\\"hi\\\"\"");
    assert_eq!(go_quote("back\\slash"), "\"back\\\\slash\"");
    assert_eq!(go_quote("line\nfeed"), "\"line\\nfeed\"");
    assert_eq!(go_quote("tab\there"), "\"tab\\there\"");
    assert_eq!(
        go_quote("\u{1}\u{7}\u{8}\u{b}\u{c}\u{7f}"),
        "\"\\x01\\a\\b\\v\\f\\x7f\""
    );
    assert_eq!(go_quote("it's"), "\"it's\"");
    assert_eq!(go_quote("naïve café"), "\"naïve café\"");
}
