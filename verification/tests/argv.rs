use bv::argv::{
    go_string_flag_active, go_string_flag_value, rewrite_args, rewrite_flag_aliases,
    unconsumed_positional,
};

fn s(v: &[&str]) -> Vec<String> {
    v.iter().map(|x| x.to_string()).collect()
}

#[test]
fn single_dash_long_flag_normalized() {
    assert_eq!(rewrite_args(&s(&["-robot-triage"])), s(&["--robot-triage"]));
}

#[test]
fn negative_value_is_not_rewritten_into_a_flag() {
    for value in [
        "-1e400", "-Inf", "-1e-400", "-NaN", "-0.5", "-1.5", "-foo", "-a.b", "-a_b", "-1e400x",
    ] {
        assert_eq!(
            rewrite_args(&s(&["--relations-threshold", value])),
            s(&["--relations-threshold", value]),
            "value {value} must survive normalization untouched"
        );
    }
}

#[test]
fn registered_single_dash_flags_are_still_rewritten() {
    for arg in [
        "-robot-triage",
        "-relations-threshold=-1e400",
        "-db",
        "-version",
    ] {
        assert_eq!(
            rewrite_args(&s(&[arg])),
            s(&[&format!("-{arg}")]),
            "{arg} names a registered flag and must be rewritten"
        );
    }
}

#[test]
fn cobra_help_is_absent_from_the_rewrite_registry() {
    assert_eq!(rewrite_args(&s(&["-help"])), s(&["-help"]));
    assert_eq!(rewrite_args(&s(&["-h"])), s(&["-h"]));
}

#[test]
fn short_flags_untouched() {
    assert_eq!(rewrite_args(&s(&["-x"])), s(&["-x"]));
}

#[test]
fn unknown_positional_is_reported() {
    for word in ["version", "help", "check-update", "rollback", "bogusxyz"] {
        let args = rewrite_args(&s(&[word]));
        assert_eq!(
            unconsumed_positional(&args).as_deref(),
            Some(word),
            "expected {word} to be reported as an unknown command"
        );
    }
}

#[test]
fn intent_alias_is_not_unknown() {
    let args = rewrite_args(&s(&["triage"]));
    assert_eq!(args, s(&["--robot-triage"]));
    assert_eq!(unconsumed_positional(&args), None);
}

#[test]
fn flag_value_is_not_unknown() {
    for argv in [
        vec!["--label", "triage"],
        vec!["--format", "toon"],
        vec!["--repo", "myrepo"],
        vec!["--label=triage"],
    ] {
        let args = rewrite_args(&s(&argv));
        assert_eq!(
            unconsumed_positional(&args),
            None,
            "expected {argv:?} to be fully consumed"
        );
    }
}

#[test]
fn bool_flag_does_not_swallow_next() {
    let args = rewrite_args(&s(&["--brief", "version"]));
    assert_eq!(unconsumed_positional(&args).as_deref(), Some("version"));
}

#[test]
fn cpu_profile_takes_a_value() {
    for argv in [
        vec!["--cpu-profile", "out.pprof"],
        vec!["--cpu-profile", "out.pprof", "--robot-triage"],
        vec!["--cpu-profile=out.pprof"],
    ] {
        let args = rewrite_args(&s(&argv));
        assert_eq!(
            unconsumed_positional(&args),
            None,
            "expected {argv:?} to be fully consumed"
        );
    }
}

#[test]
fn baseline_info_is_a_boolean_switch() {
    let args = rewrite_args(&s(&["--baseline-info", "foo"]));
    assert_eq!(unconsumed_positional(&args).as_deref(), Some("foo"));
    let args = rewrite_args(&s(&["--baseline-info=true", "bar"]));
    assert_eq!(unconsumed_positional(&args).as_deref(), Some("bar"));
}

#[test]
fn no_args_is_clean() {
    assert_eq!(unconsumed_positional(&rewrite_args(&[])), None);
}

#[test]
fn short_flag_aliases_expanded() {
    assert_eq!(rewrite_args(&s(&["-f", "toon"])), s(&["--format", "toon"]));
    assert_eq!(
        rewrite_args(&s(&["-l", "backend"])),
        s(&["--label", "backend"])
    );
    assert_eq!(
        rewrite_args(&s(&["-r", "mytable"])),
        s(&["--recipe", "mytable"])
    );
}

#[test]
fn short_flag_alias_with_equals_expanded() {
    assert_eq!(rewrite_args(&s(&["-f=toon"])), s(&["--format=toon"]));
    assert_eq!(rewrite_args(&s(&["-l=backend"])), s(&["--label=backend"]));
}

#[test]
fn agent_intent_alias_rewritten() {
    assert_eq!(rewrite_args(&s(&["triage"])), s(&["--robot-triage"]));
    assert_eq!(rewrite_args(&s(&["next"])), s(&["--robot-next"]));
}

#[test]
fn double_dash_passthrough() {
    assert_eq!(
        rewrite_args(&s(&["--robot-insights", "--format", "toon"])),
        s(&["--robot-insights", "--format", "toon"])
    );
}

#[test]
fn bare_json_auto_promotes_to_triage() {
    assert_eq!(
        rewrite_args(&s(&["--json"])),
        s(&["--robot-triage", "--format", "json"])
    );
}

#[test]
fn bare_toon_auto_promotes_to_triage() {
    assert_eq!(
        rewrite_args(&s(&["--toon"])),
        s(&["--robot-triage", "--format", "toon"])
    );
}

#[test]
fn output_json_auto_promotes_to_triage() {
    assert_eq!(
        rewrite_args(&s(&["--output=json"])),
        s(&["--robot-triage", "--format=json"])
    );
}

#[test]
fn o_json_auto_promotes_to_triage() {
    assert_eq!(
        rewrite_args(&s(&["-o=json"])),
        s(&["--robot-triage", "--format=json"])
    );
}

#[test]
fn json_with_existing_primary_not_promoted() {
    assert_eq!(
        rewrite_args(&s(&["--robot-insights", "--format", "json"])),
        s(&["--robot-insights", "--format", "json"])
    );
}

#[test]
fn output_space_json_auto_promotes() {
    assert_eq!(
        rewrite_args(&s(&["--output", "json"])),
        s(&["--robot-triage", "--format", "json"])
    );
}

#[test]
fn alias_recommend_goes_to_triage() {
    assert_eq!(rewrite_args(&s(&["recommend"])), s(&["--robot-triage"]));
}

#[test]
fn alias_pick_goes_to_next() {
    assert_eq!(rewrite_args(&s(&["pick"])), s(&["--robot-next"]));
}

#[test]
fn alias_diff_goes_to_robot_diff() {
    assert_eq!(rewrite_args(&s(&["diff"])), s(&["--robot-diff"]));
}

#[test]
fn alias_find_goes_to_robot_search() {
    assert_eq!(rewrite_args(&s(&["find"])), s(&["--robot-search"]));
}

#[test]
fn no_auto_promote_when_version() {
    assert_eq!(rewrite_args(&s(&["--version"])), s(&["--version"]));
}

#[test]
fn alias_capabilities_goes_to_robot_capabilities() {
    assert_eq!(
        rewrite_args(&s(&["capabilities"])),
        s(&["--robot-capabilities"])
    );
}

#[test]
fn alias_blockers_goes_to_robot_blocker_chain() {
    assert_eq!(
        rewrite_args(&s(&["blockers"])),
        s(&["--robot-blocker-chain"])
    );
}

#[test]
fn upgrade_subcommand_variants() {
    assert_eq!(
        rewrite_args(&s(&["upgrade", "check"])),
        s(&["--check-update"])
    );
    assert_eq!(
        rewrite_args(&s(&["upgrade", "dry-run"])),
        s(&["--update-dry-run"])
    );
    assert_eq!(
        rewrite_args(&s(&["upgrade", "rollback"])),
        s(&["--rollback"])
    );
    assert_eq!(
        rewrite_args(&s(&["upgrade", "--yes"])),
        s(&["--update", "--yes"])
    );
    assert_eq!(
        rewrite_args(&s(&["upgrade", "-y"])),
        s(&["--update", "--yes"])
    );
}

#[test]
fn upgrade_flag_forms_match_go() {
    assert_eq!(rewrite_args(&s(&["upgrade"])), s(&["--update"]));
    assert_eq!(
        rewrite_args(&s(&["upgrade", "--check"])),
        s(&["--check-update"])
    );
    assert_eq!(
        rewrite_args(&s(&["upgrade", "--dry-run"])),
        s(&["--update-dry-run"])
    );
    assert_eq!(
        rewrite_args(&s(&["upgrade", "--rollback"])),
        s(&["--rollback"])
    );
    assert_eq!(rewrite_args(&s(&["self-update"])), s(&["--update"]));
    assert_eq!(
        rewrite_args(&s(&["upgrade", "--bogus"])),
        s(&["--update", "--bogus"])
    );
}

#[test]
fn non_robot_primary_suppresses_auto_promote() {
    for argv in [
        vec!["--version", "--json"],
        vec!["--export-md", "out.md", "--json"],
        vec!["--export", "out.md", "--json"],
        vec!["--export-graph", "g.html", "--toon"],
        vec!["--pages", "--json"],
        vec!["--export-pages", "./dash", "--json"],
        vec!["--preview-pages", "./dash", "--json"],
        vec!["--update-dry-run", "--json"],
    ] {
        let want = rewrite_flag_aliases(&s(&argv), "");
        assert_eq!(
            rewrite_args(&s(&argv)),
            want,
            "expected {argv:?} to keep its own primary"
        );
    }
}

#[test]
fn triage_subcommand_rewrites_flag_aliases() {
    assert_eq!(
        rewrite_args(&s(&[
            "triage", "--json", "--name", "backend", "--limit", "3"
        ])),
        s(&[
            "--robot-triage",
            "--format",
            "json",
            "--label",
            "backend",
            "--robot-max-results",
            "3"
        ])
    );
}

#[test]
fn canonical_robot_command_name() {
    assert_eq!(
        rewrite_args(&s(&["robot-triage", "--json"])),
        s(&["--robot-triage", "--format", "json"])
    );
    assert_eq!(
        rewrite_args(&s(&["robot-triage-by-track", "--json", "--limit=2"])),
        s(&[
            "--robot-triage-by-track",
            "--format",
            "json",
            "--robot-max-results=2"
        ])
    );
}

#[test]
fn canonical_robot_help_with_json_becomes_docs() {
    assert_eq!(
        rewrite_args(&s(&["robot-help", "--json"])),
        s(&["--robot-docs", "guide", "--format", "json"])
    );
}

#[test]
fn json_false_still_avoids_tui() {
    assert_eq!(
        rewrite_args(&s(&["--json=false"])),
        s(&["--robot-triage", "--format=json"])
    );
}

#[test]
fn toon_false_keeps_structured_output_without_forcing_toon() {
    assert_eq!(
        rewrite_args(&s(&["--toon=false"])),
        s(&["--robot-triage", "--format=json"])
    );
}

#[test]
fn schema_subcommand() {
    assert_eq!(
        rewrite_args(&s(&["schema", "triage", "--json"])),
        s(&[
            "--robot-schema",
            "--schema-command",
            "robot-triage",
            "--format",
            "json"
        ])
    );
    assert_eq!(
        rewrite_args(&s(&["robot-schema", "triage", "--json"])),
        s(&[
            "--robot-schema",
            "--schema-command",
            "robot-triage",
            "--format",
            "json"
        ])
    );
    assert_eq!(
        rewrite_args(&s(&["schema", "--json", "triage"])),
        s(&[
            "--robot-schema",
            "--schema-command",
            "robot-triage",
            "--format",
            "json"
        ])
    );
    assert_eq!(
        rewrite_args(&s(&["schema", "Robot-Triage", "--json"])),
        s(&[
            "--robot-schema",
            "--schema-command",
            "robot-triage",
            "--format",
            "json"
        ])
    );
}

#[test]
fn search_subcommand_collects_query_words() {
    assert_eq!(
        rewrite_args(&s(&["search", "login", "oauth", "--json", "--limit=5"])),
        s(&[
            "--search",
            "login oauth",
            "--robot-search",
            "--format",
            "json",
            "--search-limit=5"
        ])
    );
    assert_eq!(
        rewrite_args(&s(&["search", "--limit", "5", "login", "oauth", "--json"])),
        s(&[
            "--search",
            "login oauth",
            "--robot-search",
            "--search-limit",
            "5",
            "--format",
            "json"
        ])
    );
    assert_eq!(
        rewrite_args(&s(&["search", "login", "--json", "oauth"])),
        s(&[
            "--search",
            "login oauth",
            "--robot-search",
            "--format",
            "json"
        ])
    );
    assert_eq!(
        rewrite_args(&s(&[
            "robot-search",
            "login",
            "oauth",
            "--json",
            "--limit",
            "5"
        ])),
        s(&[
            "--search",
            "login oauth",
            "--robot-search",
            "--format",
            "json",
            "--search-limit",
            "5"
        ])
    );
}

#[test]
fn canonical_search_command_with_query_is_not_an_unknown_command() {
    let args = rewrite_args(&s(&["robot-search", "Q"]));
    assert_eq!(args, s(&["--search", "Q", "--robot-search"]));
    assert_eq!(unconsumed_positional(&args), None);
}

#[test]
fn diff_subcommand_consumes_its_positional() {
    let args = rewrite_args(&s(&["diff", "HEAD~1", "--json"]));
    assert_eq!(
        args,
        s(&["--robot-diff", "--diff-since", "HEAD~1", "--format", "json"])
    );
    assert_eq!(unconsumed_positional(&args), None);
}

#[test]
fn graph_format_positional() {
    assert_eq!(
        rewrite_args(&s(&["graph", "mermaid", "--output", "json"])),
        s(&[
            "--robot-graph",
            "--graph-format",
            "mermaid",
            "--format",
            "json"
        ])
    );
    assert_eq!(
        rewrite_args(&s(&["robot-graph", "mermaid", "--json"])),
        s(&[
            "--robot-graph",
            "--graph-format",
            "mermaid",
            "--format",
            "json"
        ])
    );
    assert_eq!(
        rewrite_args(&s(&["graph", "--json", "mermaid"])),
        s(&[
            "--robot-graph",
            "--graph-format",
            "mermaid",
            "--format",
            "json"
        ])
    );
}

#[test]
fn value_commands_consume_their_target() {
    assert_eq!(
        rewrite_args(&s(&["related", "--json", "bv-123"])),
        s(&["--robot-related", "bv-123", "--format", "json"])
    );
    assert_eq!(
        rewrite_args(&s(&["robot-related", "bv-123", "--json", "--limit=2"])),
        s(&[
            "--robot-related",
            "bv-123",
            "--format",
            "json",
            "--related-max-results=2"
        ])
    );
}

#[test]
fn missing_value_command_parks_the_flag_last() {
    assert_eq!(
        rewrite_args(&s(&["robot-related", "--json"])),
        s(&["--format", "json", "--robot-related"])
    );
    assert_eq!(
        rewrite_args(&s(&[
            "robot-confirm-correlation",
            "--correlation-by",
            "agent",
            "--json"
        ])),
        s(&[
            "--correlation-by",
            "agent",
            "--format",
            "json",
            "--robot-confirm-correlation"
        ])
    );
}

#[test]
fn canonical_diff_and_drift_commands() {
    assert_eq!(
        rewrite_args(&s(&["robot-diff", "HEAD~1", "--json"])),
        s(&["--robot-diff", "--diff-since", "HEAD~1", "--format", "json"])
    );
    assert_eq!(
        rewrite_args(&s(&["robot-drift", "--json"])),
        s(&["--check-drift", "--robot-drift", "--format", "json"])
    );
}

#[test]
fn docs_subcommand() {
    assert_eq!(
        rewrite_args(&s(&["docs", "--json", "guide"])),
        s(&["--robot-docs", "guide", "--format", "json"])
    );
    assert_eq!(
        rewrite_args(&s(&["robot-docs", "guide", "--json"])),
        s(&["--robot-docs", "guide", "--format", "json"])
    );
    assert_eq!(rewrite_args(&s(&["docs"])), s(&["--robot-docs", "guide"]));
}

#[test]
fn update_dry_run_stays_non_robot_with_structured_alias() {
    assert_eq!(
        rewrite_args(&s(&["--update-dry-run", "--json"])),
        s(&["--update-dry-run", "--format", "json"])
    );
}

#[test]
fn name_equals_form_maps_to_label() {
    assert_eq!(
        rewrite_args(&s(&["triage", "--name=backend"])),
        s(&["--robot-triage", "--label=backend"])
    );
}

#[test]
fn structured_output_aliases_normalise_to_format() {
    assert_eq!(
        rewrite_args(&s(&["--toon"])),
        s(&["--robot-triage", "--format", "toon"])
    );
    assert_eq!(
        rewrite_args(&s(&["--json"])),
        s(&["--robot-triage", "--format", "json"])
    );
    assert_eq!(
        rewrite_args(&s(&["--output", "toon"])),
        s(&["--robot-triage", "--format", "toon"])
    );
    assert_eq!(
        rewrite_args(&s(&["--output", "TOON"])),
        s(&["--robot-triage", "--format", "toon"])
    );
}

#[test]
fn format_alias_rewrite_respects_an_explicit_primary() {
    assert_eq!(
        rewrite_args(&s(&["--robot-next", "--toon"])),
        s(&["--robot-next", "--format", "toon"])
    );
}

#[test]
fn output_without_a_format_value_is_not_an_alias() {
    assert_eq!(
        rewrite_args(&s(&["--robot-next", "--output", "report.md"])),
        s(&["--robot-next", "--output", "report.md"])
    );
}

#[test]
fn a_bare_format_flag_does_not_auto_promote() {
    assert_eq!(
        rewrite_args(&s(&["--format", "toon"])),
        s(&["--format", "toon"])
    );
}

#[test]
fn multibyte_positional_is_left_alone() {
    assert_eq!(rewrite_args(&s(&["ü"])), s(&["ü"]));
    assert_eq!(
        unconsumed_positional(&rewrite_args(&s(&["ü"]))),
        Some("ü".into())
    );
}

#[test]
fn string_flag_is_active_only_when_the_value_survives_trimspace() {
    assert!(!go_string_flag_active(&s(&["--db", ""]), "db"));
    assert!(!go_string_flag_active(&s(&["--db", "   "]), "db"));
    assert!(!go_string_flag_active(&s(&["--db="]), "db"));
    assert!(!go_string_flag_active(&s(&["--other", "x"]), "db"));
    assert!(go_string_flag_active(&s(&["--db", "/tmp/x"]), "db"));
    assert!(go_string_flag_active(&s(&["--db=/tmp/x"]), "db"));
    assert!(!go_string_flag_active(&s(&["--db"]), "db"));
}

#[test]
fn string_flag_value_reads_both_spellings() {
    assert_eq!(
        go_string_flag_value(&s(&["--db", "/tmp/x"]), "db"),
        Some("/tmp/x")
    );
    assert_eq!(
        go_string_flag_value(&s(&["--db=/tmp/x"]), "db"),
        Some("/tmp/x")
    );
    assert_eq!(
        go_string_flag_value(&s(&["--db=/tmp/a=b"]), "db"),
        Some("/tmp/a=b")
    );
    assert_eq!(go_string_flag_value(&s(&["--other", "1"]), "db"), None);
}
