use bv::next::{
    blockers_of, claimability_reasons, direct_unblocks, next_choice, no_claim_route_message,
    sort_strings, ClaimIssue,
};

fn s(v: &[&str]) -> Vec<String> {
    v.iter().map(|x| x.to_string()).collect()
}

fn issue(open: bool, issue_type: &str, assignee: &str, deps: &[&str]) -> ClaimIssue {
    ClaimIssue {
        open,
        status_text: if open { "Open".to_string() } else { "Closed".to_string() },
        issue_type: issue_type.to_string(),
        assignee: assignee.to_string(),
        blocking_deps: s(deps),
    }
}

#[test]
fn next_sort_strings_orders_bytewise() {
    assert_eq!(sort_strings(s(&["b", "a", "B", "ab", "a"])), s(&["B", "a", "a", "ab", "b"]));
    assert_eq!(sort_strings(Vec::new()), Vec::<String>::new());
}

#[test]
fn next_claimable_issue_has_no_reasons() {
    let known = s(&["bd-1", "bd-2"]);
    let i = issue(true, "task", "  ", &["bd-2"]);
    assert!(claimability_reasons("bd-1", Some(&i), Vec::new(), &known).is_empty());
}

#[test]
fn next_absent_issue_is_reported() {
    assert_eq!(
        claimability_reasons("bd-9", None, Vec::new(), &[]),
        s(&["bd-9 is absent from loaded Beads records"])
    );
}

#[test]
fn next_every_reason_in_order() {
    let known = s(&["bd-1"]);
    let i = issue(false, "EPIC", " alice ", &["bd-7", " ", "bd-1"]);
    assert_eq!(
        claimability_reasons("bd-1", Some(&i), s(&["bd-3"]), &known),
        s(&[
            "bd-1 status is Closed",
            "bd-1 is an epic",
            "bd-1 is already assigned to alice",
            "bd-1 is blocked by <missing blocker id>, bd-3, bd-7 (missing)",
        ])
    );
}

#[test]
fn next_dangling_blockers_are_listed_once_per_dependency() {
    let known = s(&["bd-1"]);
    assert_eq!(
        blockers_of(s(&["bd-4"]), &s(&["bd-4", "bd-5", "", "bd-1"]), &known),
        s(&["bd-4", "bd-5 (missing)", "<missing blocker id>"])
    );
}

#[test]
fn next_choice_takes_first_claimable_pick() {
    let reasons = vec![s(&["a is an epic", "a is already assigned to x"]), Vec::new(), s(&["c is an epic"])];
    assert_eq!(next_choice(&reasons), (Some(1), "a is an epic; a is already assigned to x".to_string()));
    let first_clear = vec![Vec::new(), s(&["b is an epic"])];
    assert_eq!(next_choice(&first_clear), (Some(0), String::new()));
}

#[test]
fn next_choice_without_claimable_pick_reports_first_reasons() {
    let reasons = vec![s(&["a status is Closed"]), s(&["b is an epic"])];
    assert_eq!(next_choice(&reasons), (None, "a status is Closed".to_string()));
    assert_eq!(next_choice(&[]), (None, String::new()));
}

#[test]
fn next_direct_unblocks_counts_dependents() {
    let deps = vec![s(&["bd-1"]), s(&["bd-2", "bd-1"]), s(&["bd-3"]), Vec::new()];
    assert_eq!(direct_unblocks("bd-1", &deps), 2);
    assert_eq!(direct_unblocks("bd-9", &deps), 0);
}

#[test]
fn next_missing_route_message() {
    assert_eq!(
        no_claim_route_message("no tracker metadata"),
        "No claim command emitted: no tracker metadata"
    );
}
