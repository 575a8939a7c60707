use bv::plan::{
    execution_plan, impact_reason_text, plan_input_valid, track_label, track_reason_text, unblocks_of,
    ImpactReason, PlanIssue, TrackReason,
};

fn issue(id: &str, priority: i64, open: bool, blocked: bool, links: &[&str]) -> PlanIssue {
    PlanIssue {
        id: id.to_string(),
        priority,
        open,
        closed_like: !open,
        blocked,
        links: links.iter().map(|x| x.to_string()).collect(),
        dependents: Vec::new(),
        blockers: Vec::new(),
    }
}

#[test]
fn plan_single_issue_is_one_track() {
    let issues = vec![issue("bd-1", 2, true, false, &[])];
    let plan = execution_plan(&issues);
    assert_eq!(plan.tracks.len(), 1);
    assert_eq!(plan.tracks[0].number, 1);
    assert_eq!(plan.tracks[0].items, vec![0]);
    assert_eq!(plan.tracks[0].reason, TrackReason::Single);
    assert_eq!(plan.total_actionable, 1);
    assert_eq!(plan.total_blocked, 0);
    assert_eq!(plan.highest, Some((0, 0)));
    assert_eq!(plan.impact, ImpactReason::Nothing);
}

#[test]
fn plan_components_follow_links_and_id_order() {
    // bd-c links to bd-a; bd-b stands alone; bd-d is blocked.
    let mut issues = vec![
        issue("bd-c", 1, true, false, &["bd-a"]),
        issue("bd-b", 0, true, false, &[]),
        issue("bd-a", 2, true, false, &["bd-zz"]),
        issue("bd-d", 0, true, true, &["bd-b"]),
    ];
    // bd-d depends on bd-b by a blocking edge.
    issues[1].dependents = vec![3];
    issues[3].blockers = vec![1];
    let plan = execution_plan(&issues);
    assert_eq!(plan.tracks.len(), 2);
    // Root bd-a: members bd-a (priority 2) and bd-c (priority 1).
    assert_eq!(plan.tracks[0].items, vec![0, 2]);
    assert_eq!(plan.tracks[0].reason, TrackReason::Independent);
    // Root bd-b: bd-b only, bd-d being blocked.
    assert_eq!(plan.tracks[1].items, vec![1]);
    assert_eq!(plan.tracks[1].reason, TrackReason::Single);
    assert_eq!(plan.tracks[1].number, 2);
    assert_eq!(plan.unblocks[1], vec!["bd-d".to_string()]);
    assert_eq!(plan.highest, Some((1, 1)));
    assert_eq!(plan.impact, ImpactReason::One);
    assert_eq!(plan.total_actionable, 3);
    assert_eq!(plan.total_blocked, 1);
}

#[test]
fn plan_one_component_is_connected() {
    let issues = vec![
        issue("x-2", 1, true, false, &["x-1"]),
        issue("x-1", 1, true, false, &[]),
    ];
    let plan = execution_plan(&issues);
    assert_eq!(plan.tracks.len(), 1);
    assert_eq!(plan.tracks[0].items, vec![1, 0]);
    assert_eq!(plan.tracks[0].reason, TrackReason::Connected);
}

#[test]
fn plan_closed_issues_make_no_track() {
    let issues = vec![issue("a", 1, false, false, &[])];
    let plan = execution_plan(&issues);
    assert!(plan.tracks.is_empty());
    assert_eq!(plan.highest, None);
    assert_eq!(plan.total_actionable, 0);
    assert_eq!(plan.total_blocked, 0);
}

#[test]
fn plan_unblocks_need_every_other_blocker_closed() {
    let mut issues = vec![
        issue("a", 1, true, false, &[]),
        issue("b", 1, true, false, &[]),
        issue("c", 1, true, true, &[]),
        issue("d", 1, true, true, &[]),
    ];
    // c waits on a only; d waits on a and b.
    issues[0].dependents = vec![3, 2];
    issues[2].blockers = vec![0];
    issues[3].blockers = vec![0, 1];
    assert_eq!(unblocks_of(&issues, 0), vec!["c".to_string()]);
    issues[1].open = false;
    issues[1].closed_like = true;
    assert_eq!(unblocks_of(&issues, 0), vec!["c".to_string(), "d".to_string()]);
}

#[test]
fn plan_texts() {
    assert_eq!(track_label(1), "track-A");
    assert_eq!(track_label(27), "track-AA");
    assert_eq!(track_reason_text(TrackReason::Single), "Single actionable item");
    assert_eq!(track_reason_text(TrackReason::Connected), "All issues in connected graph");
    assert_eq!(track_reason_text(TrackReason::Independent), "Independent work stream");
    assert_eq!(impact_reason_text(ImpactReason::One), "Unblocks 1 task");
    assert_eq!(impact_reason_text(ImpactReason::Several), "Unblocks multiple tasks");
    assert_eq!(impact_reason_text(ImpactReason::Nothing), "No downstream dependencies");
}

#[test]
fn plan_input_check() {
    let mut issues = vec![issue("a", 1, true, false, &[]), issue("b", 1, true, false, &[])];
    assert!(plan_input_valid(&issues));
    issues[1].dependents = vec![2];
    assert!(!plan_input_valid(&issues));
    issues[1].dependents = vec![0];
    assert!(plan_input_valid(&issues));
    issues[1].id = "a".to_string();
    assert!(!plan_input_valid(&issues));
    issues[1].id = "b".to_string();
    issues[0].closed_like = true;
    assert!(!plan_input_valid(&issues));
}
