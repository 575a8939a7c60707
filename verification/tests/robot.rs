use bv::robot::{
    SearchConfigError, SearchEmbedderConfig, flag_value, go_escape_string, go_track_id,
    html_escape, jiff_now, output_format, parse_go_bool, parse_i64, search_embedder_config,
    search_embedder_dim, search_flag, search_go_rfc3339_nano, search_min_score_error,
    second_precision, set_output_format, trim_fraction,
};

fn s(v: &[&str]) -> Vec<String> {
    v.iter().map(|x| x.to_string()).collect()
}

#[test]
fn html_escape_replaces_the_four_special_characters() {
    assert_eq!(html_escape("a<b>&\"c\""), "a&lt;b&gt;&amp;&quot;c&quot;");
    assert_eq!(html_escape("plain text"), "plain text");
    assert_eq!(html_escape(""), "");
    assert_eq!(html_escape("&amp;"), "&amp;amp;");
}

#[test]
fn html_escape_output_has_no_markup_characters() {
    let out = html_escape("<script>alert(\"x & y\")</script>");
    assert!(!out.contains('<') && !out.contains('>') && !out.contains('"'));
}

#[test]
fn go_escape_string_quotes_like_go_json() {
    assert_eq!(go_escape_string("plain"), "\"plain\"");
    assert_eq!(go_escape_string("a<=b"), "\"a\\u003c=b\"");
    assert_eq!(go_escape_string("x>y&z"), "\"x\\u003ey\\u0026z\"");
    assert_eq!(go_escape_string("say \"hi\"\\"), "\"say \\\"hi\\\"\\\\\"");
    assert_eq!(go_escape_string("l1\nl2\r\tend"), "\"l1\\nl2\\r\\tend\"");
    assert_eq!(go_escape_string("\u{1}\u{1f}"), "\"\\u0001\\u001f\"");
    assert_eq!(go_escape_string("café"), "\"café\"");
}

#[test]
fn go_escape_string_output_is_html_safe() {
    let out = go_escape_string("<a href=\"x\">&\u{0}</a>");
    assert!(!out.contains('<') && !out.contains('>') && !out.contains('&'));
    assert!(out.chars().all(|c| (c as u32) >= 0x20));
}

#[test]
fn track_ids_are_bijective_base_26() {
    assert_eq!(go_track_id(0), "");
    assert_eq!(go_track_id(1), "A");
    assert_eq!(go_track_id(2), "B");
    assert_eq!(go_track_id(26), "Z");
    assert_eq!(go_track_id(27), "AA");
    assert_eq!(go_track_id(52), "AZ");
    assert_eq!(go_track_id(53), "BA");
    assert_eq!(go_track_id(702), "ZZ");
    assert_eq!(go_track_id(703), "AAA");
}

#[test]
fn distinct_tracks_get_distinct_labels() {
    let labels: Vec<String> = (1..=800).map(go_track_id).collect();
    let mut sorted = labels.clone();
    sorted.sort();
    sorted.dedup();
    assert_eq!(sorted.len(), labels.len());
}

#[test]
fn output_format_round_trips() {
    let mut slot = 0u8;
    set_output_format(&mut slot, "toon");
    assert_eq!(output_format(slot), "toon");
    set_output_format(&mut slot, "json");
    assert_eq!(output_format(slot), "json");
    set_output_format(&mut slot, "yaml");
    assert_eq!(output_format(slot), "json");
    set_output_format(&mut slot, "TOON");
    assert_eq!(output_format(slot), "json");
}

#[test]
fn parse_go_bool_accepts_exactly_the_strconv_set() {
    for t in ["1", "t", "T", "TRUE", "true", "True"] {
        assert_eq!(parse_go_bool(t), Some(true), "{t}");
    }
    for f in ["0", "f", "F", "FALSE", "false", "False"] {
        assert_eq!(parse_go_bool(f), Some(false), "{f}");
    }
    for bad in ["", "yes", "tRUE", " true", "2"] {
        assert_eq!(parse_go_bool(bad), None, "{bad}");
    }
}

#[test]
fn flag_lookups_read_both_spellings_and_the_first_occurrence() {
    let args = s(&["--search", "login oauth", "--as-of=HEAD", "--search", "second"]);
    assert_eq!(flag_value(&args, "search"), Some("login oauth"));
    assert_eq!(search_flag(&args, "search"), Some("login oauth".to_string()));
    assert_eq!(flag_value(&args, "as-of"), Some("HEAD"));
    assert_eq!(flag_value(&args, "limit"), None);
    assert_eq!(search_flag(&s(&["--search"]), "search"), None);
    assert_eq!(flag_value(&s(&["--x=a=b"]), "x"), Some("a=b"));
}

#[test]
fn parse_i64_matches_str_parse() {
    for raw in [
        "0",
        "42",
        "+42",
        "-42",
        "007",
        "9223372036854775807",
        "-9223372036854775808",
        "9223372036854775808",
        "-9223372036854775809",
        "",
        "-",
        "+",
        " 5",
        "5 ",
        "1e3",
        "12a",
        "99999999999999999999999",
    ] {
        assert_eq!(parse_i64(raw), raw.parse::<i64>().ok(), "{raw:?}");
    }
}

#[test]
fn embedder_config_normalizes_the_raw_settings() {
    let cfg = search_embedder_config("  OpenAI ", " mini ", Some("12"));
    assert_eq!(cfg.provider, "openai");
    assert_eq!(cfg.model, "mini");
    assert_eq!(cfg.dim, 12);
    let cfg = search_embedder_config("", "", None);
    assert_eq!(cfg.provider, "hash");
    assert_eq!(cfg.model, "");
    assert_eq!(cfg.dim, 384);
    assert_eq!(search_embedder_config("hash", "", Some("0")).dim, 384);
    assert_eq!(search_embedder_config("hash", "", Some("-5")).dim, 384);
    assert_eq!(search_embedder_config("hash", "", Some(" 64")).dim, 384);
    assert_eq!(search_embedder_config("hash", "", Some("abc")).dim, 384);
}

#[test]
fn embedder_dim_accepts_only_the_hash_provider() {
    let cfg = |provider: &str| SearchEmbedderConfig {
        provider: provider.to_string(),
        model: String::new(),
        dim: 256,
    };
    assert_eq!(search_embedder_dim(&cfg("hash")), Ok(256));
    assert_eq!(search_embedder_dim(&cfg("")), Ok(256));
    assert_eq!(
        search_embedder_dim(&cfg("openai")),
        Err("semantic embedder \"openai\" not implemented (placeholder); set BV_SEMANTIC_EMBEDDER=\"hash\" for deterministic fallback".to_string())
    );
    assert_eq!(
        search_embedder_dim(&cfg("python-sentence-transformers")),
        Err("semantic embedder \"python-sentence-transformers\" not implemented (mvp placeholder); set BV_SEMANTIC_EMBEDDER=\"hash\" for deterministic fallback".to_string())
    );
    assert_eq!(
        search_embedder_dim(&cfg("bert\"x")),
        Err("unknown semantic embedder \"bert\\\"x\"; expected \"hash\"".to_string())
    );
}

#[test]
fn min_score_error_quotes_the_raw_value() {
    assert_eq!(
        search_min_score_error("abc"),
        "invalid --search-min-score \"abc\" (expected a finite number from -1 to 1)"
    );
    assert_eq!(
        search_min_score_error("a\"b"),
        "invalid --search-min-score \"a\\\"b\" (expected a finite number from -1 to 1)"
    );
}

#[test]
fn search_config_errors_carry_their_exit_codes() {
    let e = SearchConfigError::go("bad mode".to_string());
    assert_eq!(e.message, "bad mode");
    assert_eq!(e.exit_code, 1);
    let e = SearchConfigError::usage("unknown preset".to_string());
    assert_eq!(e.message, "unknown preset");
    assert_eq!(e.exit_code, 2);
}

#[test]
fn second_precision_drops_the_fraction() {
    assert_eq!(second_precision("2026-08-22T14:07:01.790741Z"), "2026-08-22T14:07:01Z");
    assert_eq!(second_precision("2026-08-22T14:07:01Z"), "2026-08-22T14:07:01Z");
    let once = second_precision("1970-01-01T00:00:00.5Z");
    assert_eq!(second_precision(&once), once);
    assert!(!once.contains('.'));
}

#[test]
fn jiff_now_renders_whole_seconds() {
    assert_eq!(jiff_now(123_456_789, 0), Some("1973-11-29T21:33:09Z".to_string()));
    assert_eq!(jiff_now(1, 500_000_000), Some("1970-01-01T00:00:01Z".to_string()));
    assert_eq!(jiff_now(0, 0), Some("1970-01-01T00:00:00Z".to_string()));
    assert_eq!(jiff_now(i64::MAX, 0), None);
}

#[test]
fn fractions_are_cut_to_their_shortest_exact_form() {
    assert_eq!(trim_fraction("2026-01-02T03:04:05.500000000Z"), "2026-01-02T03:04:05.5Z");
    assert_eq!(trim_fraction("2026-01-02T03:04:05.000Z"), "2026-01-02T03:04:05Z");
    assert_eq!(trim_fraction("2026-01-02T03:04:05.120300Z"), "2026-01-02T03:04:05.1203Z");
    assert_eq!(trim_fraction("2026-01-02T03:04:05Z"), "2026-01-02T03:04:05Z");
    assert_eq!(trim_fraction("1.50"), "1.5Z");
}

#[test]
fn nano_rendering_keeps_only_significant_digits() {
    assert_eq!(search_go_rfc3339_nano(1, 500_000_000), Some("1970-01-01T00:00:01.5Z".to_string()));
    assert_eq!(search_go_rfc3339_nano(1, 0), Some("1970-01-01T00:00:01Z".to_string()));
    assert_eq!(search_go_rfc3339_nano(0, 123), Some("1970-01-01T00:00:00.000000123Z".to_string()));
    assert_eq!(search_go_rfc3339_nano(i64::MAX, 0), None);
}

#[test]
fn blank_search_query_is_refused() {
    assert_eq!(
        bv::robot::search_query_error(None),
        Some("--search requires a non-empty query".to_string())
    );
    assert_eq!(
        bv::robot::search_query_error(Some("  \t")),
        Some("--search requires a non-empty query".to_string())
    );
    assert_eq!(bv::robot::search_query_error(Some(" login ")), None);
}
