use bv::argv::{
    consume_leading_flag_aliases, flag_takes_value, go_bool_flag, has_non_robot_primary_arg,
    has_primary_robot_arg, limit_flag_for_context, normalize_flag_spelling,
    normalize_robot_command_name, primary_flag_name, rewrite_canonical_robot_command,
    rewrite_equals_arg, rewrite_flag_aliases, rewrite_leading_equals_alias,
};
use bv::enums::{EnumFlagError, levenshtein_distance, validate_enum_flags};
use bv::help::{wrap, wrap_n};
use bv::validation::{Presence, ValidationError, validate_exclusive_primaries};

fn s(v: &[&str]) -> Vec<String> {
    v.iter().map(|x| x.to_string()).collect()
}

fn chars(t: &str) -> Vec<char> {
    t.chars().collect()
}

fn text(v: &[char]) -> String {
    v.iter().collect()
}

#[test]
fn normalizing_twice_equals_normalizing_once() {
    for arg in [
        "-robot-triage",
        "-f",
        "-f=toon",
        "-l=backend",
        "-r",
        "-1e400",
        "-x",
        "--json",
        "triage",
        "-relations-threshold=-1e400",
        "-",
        "",
        "ü",
    ] {
        let once = normalize_flag_spelling(arg);
        assert_eq!(normalize_flag_spelling(&once), once, "{arg:?}");
    }
}

#[test]
fn edit_distance_is_symmetric() {
    for (a, b) in [("sh", "zsh"), ("kitten", "sitting"), ("", "fish"), ("é", "e"), ("gh", "bash")] {
        assert_eq!(levenshtein_distance(a, b), levenshtein_distance(b, a), "{a} {b}");
    }
    assert_eq!(levenshtein_distance("mermaid", "mermaid"), 0);
}

#[test]
fn enum_values_are_refused_exactly_when_outside_their_set() {
    assert_eq!(validate_enum_flags(&[("graph-format", " DOT "), ("script-format", "Fish")]), None);
    let err: EnumFlagError = validate_enum_flags(&[("graph-format", "dot"), ("script-format", "ksh")])
        .expect("ksh is not a supported shell");
    assert_eq!(err.name, "script-format");
    assert_eq!(err.did_you_mean, "; did you mean \"zsh\"?");
}

#[test]
fn exclusive_conflicts_need_two_members_of_one_group() {
    let conflicts = |argv: &[&str]| validate_exclusive_primaries(&Presence::from_args(&s(argv)));
    assert!(conflicts(&["--robot-triage"]).is_empty());
    assert!(conflicts(&["--robot-triage", "--robot-docs", "guide"]).is_empty());
    assert!(conflicts(&["--robot-triage", "--robot-plan"]).is_empty());
    assert_eq!(conflicts(&["--robot-triage", "--robot-triage-by-label"]).len(), 1);
    assert!(conflicts(&["--robot-triage", "--robot-triage"]).is_empty());
}

#[test]
fn each_validation_error_prints_its_text() {
    let missing = ValidationError::MissingRequirement {
        modifier: "brief".to_string(),
        required: "--robot-triage".to_string(),
        message: "--brief requires --robot-triage".to_string(),
    };
    assert_eq!(missing.message(), "--brief requires --robot-triage");
    let conflict = ValidationError::ExclusivePrimaries { count: 3, found: "a, b, c".to_string() };
    assert_eq!(conflict.message(), "only one primary command allowed (found 3: a, b, c)");
    assert_eq!(
        ValidationError::WatchExportWithAsOf.message(),
        "--watch-export cannot be combined with --as-of; omit --watch-export to export a fixed historical snapshot."
    );
    let bad = ValidationError::BadEnum { flag: "graph-format".to_string(), value: "svg".to_string() };
    assert_eq!(bad.message(), "invalid value for --graph-format: svg");
}

#[test]
fn leading_aliases_stop_at_the_first_other_token() {
    let args = s(&["--json", "--limit", "5", "login", "--toon"]);
    let (aliases, rest) = consume_leading_flag_aliases(&args, "search");
    assert_eq!(aliases, s(&["--format", "json", "--search-limit", "5"]));
    assert_eq!(rest, &args[3..]);
    let args = s(&["--output", "report.md"]);
    let (aliases, rest) = consume_leading_flag_aliases(&args, "");
    assert!(aliases.is_empty());
    assert_eq!(rest, &args[..]);
}

#[test]
fn canonical_robot_words_only() {
    assert_eq!(rewrite_canonical_robot_command("robot-next", &[]), Some(s(&["--robot-next"])));
    assert_eq!(
        rewrite_canonical_robot_command("robot-forecast", &s(&["--json"])),
        Some(s(&["--robot-forecast", "all", "--format", "json"]))
    );
    assert_eq!(rewrite_canonical_robot_command("triage", &[]), None);
    assert_eq!(rewrite_canonical_robot_command("robot-bogus", &[]), None);
}

#[test]
fn wrap_n_splits_at_the_last_break_before_the_width() {
    let (head, tail) = wrap_n(10, 5, &chars("aaaa bbbb cccc dddd"));
    assert_eq!(text(&head), "aaaa bbbb");
    assert_eq!(text(&tail), "cccc dddd");
    let (head, tail) = wrap_n(10, 5, &chars("short"));
    assert_eq!(text(&head), "short");
    assert!(tail.is_empty());
    let (head, tail) = wrap_n(10, 5, &chars("line\none two three four"));
    assert_eq!(text(&head), "line");
    assert_eq!(text(&tail), "one two three four");
}

#[test]
fn wrap_indents_continuation_lines() {
    let out = text(&wrap(4, 40, &chars(
        "alpha beta gamma delta epsilon zeta eta theta iota kappa lambda",
    )));
    assert_eq!(out, "alpha beta gamma delta epsilon\n    zeta eta theta iota kappa lambda");
    let out = text(&wrap(2, 0, &chars("a\nb")));
    assert_eq!(out, "a\n  b");
    let out = text(&wrap(30, 40, &chars("x\ny")));
    assert_eq!(out, format!("\n{}x\n{}y", " ".repeat(16), " ".repeat(30)));
}

#[test]
fn bool_flags_read_the_last_occurrence() {
    assert_eq!(go_bool_flag(&s(&[]), "no-cache", false), Ok(false));
    assert_eq!(go_bool_flag(&s(&[]), "no-cache", true), Ok(true));
    assert_eq!(go_bool_flag(&s(&["--no-cache"]), "no-cache", false), Ok(true));
    assert_eq!(go_bool_flag(&s(&["--no-cache", "--no-cache=false"]), "no-cache", true), Ok(false));
    assert_eq!(go_bool_flag(&s(&["--no-cache=F", "--no-cache"]), "no-cache", false), Ok(true));
    assert_eq!(
        go_bool_flag(&s(&["--no-cache=maybe"]), "no-cache", false),
        Err("invalid argument \"maybe\" for \"--no-cache\" flag: strconv.ParseBool: parsing \"maybe\": invalid syntax".to_string())
    );
}

#[test]
fn limit_aliases_follow_the_command_context() {
    assert_eq!(limit_flag_for_context("search"), "--search-limit");
    assert_eq!(limit_flag_for_context(""), "--robot-max-results");
    assert_eq!(rewrite_equals_arg("--limit=7", "search"), "--search-limit=7");
    assert_eq!(rewrite_equals_arg("--name=x", ""), "--label=x");
    assert_eq!(rewrite_equals_arg("--other=x", ""), "--other=x");
    assert_eq!(rewrite_leading_equals_alias("-o=TOON", ""), Some("--format=toon".to_string()));
    assert_eq!(rewrite_leading_equals_alias("--output=report.md", ""), None);
}

#[test]
fn primaries_are_recognized_in_any_spelling() {
    assert!(has_primary_robot_arg(&s(&["--robot-next"])));
    assert!(has_primary_robot_arg(&s(&["--robot-docs=guide"])));
    assert!(!has_primary_robot_arg(&s(&["--format", "json"])));
    assert!(has_non_robot_primary_arg(&s(&["--export-md", "x.md"])));
    assert!(!has_non_robot_primary_arg(&s(&["--robot-next"])));
    assert!(primary_flag_name("--version", &["version"]));
    assert!(primary_flag_name("version", &["version"]));
    assert!(!primary_flag_name("--versions", &["version"]));
}

#[test]
fn value_taking_flags_consume_their_next_token() {
    assert!(flag_takes_value("--label"));
    assert!(flag_takes_value("--cpu-profile"));
    assert!(!flag_takes_value("--brief"));
    assert!(!flag_takes_value("--label=x"));
    assert!(!flag_takes_value("-version"));
    assert!(!flag_takes_value("--robot-triage"));
    assert!(!flag_takes_value("--pages"));
    assert!(!flag_takes_value("--robot-robot"));
    assert!(flag_takes_value("--robot-docs"));
}

#[test]
fn schema_names_gain_the_robot_prefix() {
    assert_eq!(normalize_robot_command_name("triage"), "robot-triage");
    assert_eq!(normalize_robot_command_name("Robot-Triage"), "robot-triage");
    assert_eq!(normalize_robot_command_name(" plan "), "robot-plan");
}

#[test]
fn boolean_primaries_do_not_swallow_the_next_token() {
    for (flag, word) in [("--robot-triage", "foo"), ("--pages", "x"), ("--update", "y"), ("--robot-next", "z")] {
        let args = bv::argv::rewrite_args(&s(&[flag, word]));
        assert_eq!(bv::argv::unconsumed_positional(&args), Some(word.to_string()), "{flag} {word}");
    }
    let args = bv::argv::rewrite_args(&s(&["--robot-docs", "guide"]));
    assert_eq!(bv::argv::unconsumed_positional(&args), None);
}

#[test]
fn leading_aliases_rewrite_like_the_alias_pass() {
    let args: Vec<String> = ["--json", "--limit", "5", "--toon=true", "foo", "--json"]
        .iter()
        .map(|s| s.to_string())
        .collect();
    let (rewritten, rest) = consume_leading_flag_aliases(&args, "search");
    assert_eq!(rest, &args[4..]);
    assert_eq!(rewritten, rewrite_flag_aliases(&args[..4], "search"));
    assert_eq!(
        rewritten,
        vec!["--format", "json", "--search-limit", "5", "--format=toon"]
            .into_iter()
            .map(|s| s.to_string())
            .collect::<Vec<String>>()
    );
}

#[test]
fn enum_check_reports_first_bad_flag_by_last_value() {
    assert_eq!(validate_enum_flags(&[("graph-format", "bogus"), ("graph-format", "json")]), None);
    let err = validate_enum_flags(&[("script-format", "nope"), ("graph-format", " ")])
        .expect("the blank graph format fails first");
    assert_eq!(err.name, "graph-format");
    assert_eq!(err.value, " ");
    assert_eq!(err.did_you_mean, "");
    let err = validate_enum_flags(&[("script-format", "nope"), ("graph-format", "dot")])
        .expect("the script format fails");
    assert_eq!(err.name, "script-format");
    assert_eq!(err.value, "nope");
}

#[test]
fn boolean_flag_follows_its_last_setting() {
    let a = s(&["--pages-include-history=false"]);
    assert_eq!(go_bool_flag(&a, "pages-include-history", true), Ok(false));
    let b = s(&["--pages-include-history=false", "--pages-include-history"]);
    assert_eq!(go_bool_flag(&b, "pages-include-history", false), Ok(true));
    let c = s(&["--other"]);
    assert_eq!(go_bool_flag(&c, "pages-include-history", true), Ok(true));
}
