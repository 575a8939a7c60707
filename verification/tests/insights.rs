use bv::insights::{coverage_set, cycle_break, k_paths, parallel_cut, topk_set, InsightIssue};

fn issue(id: &str, open: bool, blocking: &[&str]) -> InsightIssue {
    InsightIssue {
        id: id.to_string(),
        open,
        blocking: blocking.iter().map(|x| x.to_string()).collect(),
    }
}

fn diamond() -> Vec<InsightIssue> {
    vec![
        issue("a", true, &[]),
        issue("b", true, &["a"]),
        issue("c", true, &["a"]),
        issue("d", true, &["b", "c"]),
        issue("e", false, &[]),
        issue("f", true, &["e"]),
    ]
}

fn strings(v: &[&str]) -> Vec<String> {
    v.iter().map(|x| x.to_string()).collect()
}

#[test]
fn topk_works_in_readiness_order() {
    let set = topk_set(&diamond());
    assert_eq!(set.candidates, 5);
    let picks: Vec<(String, usize, Vec<String>)> = set
        .items
        .into_iter()
        .map(|t| (t.id, t.marginal_gain, t.unblocks))
        .collect();
    assert_eq!(
        picks,
        vec![
            ("a".to_string(), 2, strings(&["b", "c"])),
            ("b".to_string(), 0, Vec::new()),
            ("c".to_string(), 1, strings(&["d"])),
            ("d".to_string(), 0, Vec::new()),
            ("f".to_string(), 0, Vec::new()),
        ]
    );
}

#[test]
fn topk_of_nothing_open_is_empty() {
    let set = topk_set(&[issue("x", false, &[])]);
    assert!(set.items.is_empty());
    assert_eq!(set.candidates, 0);
}

#[test]
fn coverage_picks_highest_degree_then_smaller_id() {
    let cov = coverage_set(&diamond());
    assert_eq!(cov.total_edges, 4);
    assert_eq!(cov.edges_covered, 4);
    assert!(!cov.capped);
    let picks: Vec<(String, usize, usize)> = cov
        .items
        .into_iter()
        .map(|c| (c.id, c.edges_added, c.total_degree))
        .collect();
    assert_eq!(picks, vec![("a".to_string(), 2, 2), ("d".to_string(), 2, 2)]);
}

#[test]
fn coverage_without_edges_is_empty() {
    let cov = coverage_set(&[issue("x", true, &["missing"]), issue("y", true, &[])]);
    assert_eq!(cov.total_edges, 0);
    assert_eq!(cov.edges_covered, 0);
    assert!(cov.items.is_empty());
    assert!(!cov.capped);
}

#[test]
fn coverage_stops_after_five_picks() {
    let issues: Vec<InsightIssue> = vec![
        issue("h1", true, &[]),
        issue("h2", true, &[]),
        issue("h3", true, &[]),
        issue("h4", true, &[]),
        issue("h5", true, &[]),
        issue("h6", true, &[]),
        issue("t1", true, &["h1"]),
        issue("t2", true, &["h2"]),
        issue("t3", true, &["h3"]),
        issue("t4", true, &["h4"]),
        issue("t5", true, &["h5"]),
        issue("t6", true, &["h6"]),
    ];
    let cov = coverage_set(&issues);
    assert_eq!(cov.items.len(), 5);
    assert_eq!(cov.total_edges, 6);
    assert_eq!(cov.edges_covered, 5);
    assert!(cov.capped);
    assert_eq!(cov.items[0].id, "h1");
}

#[test]
fn parallel_cut_suggests_issues_freeing_several() {
    let cut = parallel_cut(&diamond());
    assert_eq!(cut.total, 1);
    assert_eq!(cut.suggestions.len(), 1);
    assert_eq!(cut.suggestions[0].id, "a");
    assert_eq!(cut.suggestions[0].parallel_gain, 1);
    assert_eq!(cut.suggestions[0].enabled_tracks, strings(&["b", "c"]));
    assert_eq!(cut.max_parallel, 3);
}

#[test]
fn parallel_cut_orders_by_gain_then_id() {
    let issues = vec![
        issue("z", true, &[]),
        issue("y", true, &[]),
        issue("x", true, &[]),
        issue("z1", true, &["z"]),
        issue("z2", true, &["z"]),
        issue("z3", true, &["z"]),
        issue("y1", true, &["y"]),
        issue("y2", true, &["y"]),
        issue("x1", true, &["x"]),
        issue("x2", true, &["x"]),
        issue("x3", true, &["x"]),
        issue("w", true, &["x", "y"]),
    ];
    let cut = parallel_cut(&issues);
    let order: Vec<(String, usize)> = cut
        .suggestions
        .iter()
        .map(|c| (c.id.clone(), c.parallel_gain))
        .collect();
    assert_eq!(
        order,
        vec![("x".to_string(), 2), ("z".to_string(), 2), ("y".to_string(), 1)]
    );
    assert_eq!(cut.total, 3);
    // Every issue but the three completed ones is then ready.
    assert_eq!(cut.max_parallel, 9);
}

#[test]
fn cycle_break_ranks_shared_edges_first() {
    let issues = vec![
        issue("a", true, &["c"]),
        issue("b", true, &["a"]),
        issue("c", true, &["b"]),
        issue("d", true, &["b"]),
    ];
    let cycles = vec![
        strings(&["a", "b", "c"]),
        strings(&["a", "b"]),
        strings(&["CYCLE_DETECTION_TIMEOUT", "x"]),
        strings(&["solo"]),
    ];
    let out = cycle_break(&issues, &cycles);
    assert_eq!(out.total, 4);
    let got: Vec<(String, String, Vec<usize>, usize)> = out
        .suggestions
        .into_iter()
        .map(|e| (e.from, e.to, e.cycles, e.collateral))
        .collect();
    assert_eq!(
        got,
        vec![
            ("a".to_string(), "b".to_string(), vec![0, 1], 2),
            ("b".to_string(), "a".to_string(), vec![1], 1),
            ("b".to_string(), "c".to_string(), vec![0], 1),
            ("c".to_string(), "a".to_string(), vec![0], 1),
        ]
    );
}

#[test]
fn cycle_break_counts_each_appearance() {
    let out = cycle_break(&[], &[strings(&["x", "y", "x", "y"])]);
    assert_eq!(out.total, 2);
    assert_eq!(out.suggestions[0].from, "x");
    assert_eq!(out.suggestions[0].cycles, vec![0, 0]);
    assert_eq!(out.suggestions[1].from, "y");
    assert_eq!(out.suggestions[1].collateral, 0);
}

#[test]
fn cycle_break_without_cycles_is_empty() {
    let out = cycle_break(&[], &[]);
    assert_eq!(out.total, 0);
    assert!(out.suggestions.is_empty());
}

#[test]
fn topk_total_gain_sums_the_picks() {
    assert_eq!(topk_set(&diamond()).total_gain, 3);
}

#[test]
fn k_paths_keep_one_path_per_source() {
    let kp = k_paths(&diamond());
    assert_eq!(kp.total_paths, 3);
    assert_eq!(kp.representative_sources, 1);
    assert_eq!(kp.paths.len(), 1);
    assert_eq!(kp.paths[0].issue_ids, strings(&["a", "b", "d"]));
    assert!(!kp.paths[0].truncated);
}

#[test]
fn k_paths_rank_by_length_then_id() {
    let issues = vec![
        issue("x", true, &[]),
        issue("y", true, &["x"]),
        issue("p", true, &[]),
        issue("q", true, &["p"]),
        issue("r", true, &["q"]),
    ];
    let kp = k_paths(&issues);
    assert_eq!(kp.total_paths, 3);
    assert_eq!(kp.representative_sources, 2);
    let got: Vec<Vec<String>> = kp.paths.into_iter().map(|p| p.issue_ids).collect();
    assert_eq!(got, vec![strings(&["p", "q", "r"]), strings(&["x", "y"])]);
}

#[test]
fn k_paths_cut_long_chains_at_fifty() {
    let mut issues: Vec<InsightIssue> = Vec::new();
    for i in 0..60 {
        let id = format!("n{:02}", i);
        let prev = format!("n{:02}", if i > 0 { i - 1 } else { 0 });
        let deps: Vec<&str> = if i > 0 { vec![prev.as_str()] } else { Vec::new() };
        issues.push(issue(&id, true, &deps));
    }
    let kp = k_paths(&issues);
    assert_eq!(kp.total_paths, 59);
    assert_eq!(kp.representative_sources, 1);
    assert_eq!(kp.paths.len(), 1);
    assert!(kp.paths[0].truncated);
    assert_eq!(kp.paths[0].issue_ids.len(), 50);
    assert_eq!(kp.paths[0].issue_ids[0], "n00");
    assert_eq!(kp.paths[0].issue_ids[49], "n49");
}

#[test]
fn k_paths_of_a_cycle_is_empty() {
    let kp = k_paths(&[issue("a", true, &["b"]), issue("b", true, &["a"])]);
    assert_eq!(kp.total_paths, 0);
    assert!(kp.paths.is_empty());
}
