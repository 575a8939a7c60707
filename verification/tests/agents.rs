use bv::agents::{
    agents_cancelled, agents_confirmed, agents_outcome, agents_step, AgentDetection,
    AgentFileAction, AgentsRequest, AgentsStep,
};

fn request(add: bool, update: bool, remove: bool) -> AgentsRequest {
    AgentsRequest {
        add,
        update,
        remove,
        check: false,
        robot: false,
        dry_run: false,
        force: false,
    }
}

fn found(has_blurb: bool, legacy: bool, version: u32) -> AgentDetection {
    AgentDetection {
        found: true,
        file_path: "/w/AGENTS.md".to_string(),
        file_type: "AGENTS.md".to_string(),
        has_blurb,
        has_legacy_blurb: legacy,
        blurb_version: version,
    }
}

fn missing() -> AgentDetection {
    AgentDetection {
        found: false,
        file_path: String::new(),
        file_type: String::new(),
        has_blurb: false,
        has_legacy_blurb: false,
        blurb_version: 0,
    }
}

fn reply_lines(step: AgentsStep) -> (Vec<String>, Vec<String>, u8) {
    match step {
        AgentsStep::Reply(r) => (r.stdout, r.stderr, r.exit),
        _ => panic!("expected a reply"),
    }
}

#[test]
fn agents_robot_flag_reports_detection() {
    let mut q = request(true, false, false);
    q.robot = true;
    assert!(matches!(agents_step(&q, &missing(), 3, "/w", "/w/AGENTS.md"), AgentsStep::Report));
}

#[test]
fn agents_check_without_file() {
    let q = request(false, false, false);
    let (out, err, exit) = reply_lines(agents_step(&q, &missing(), 3, "/w", "/w/AGENTS.md"));
    assert_eq!(
        out,
        vec![
            "No agent file found (searched up to 3 parent directories from /w)".to_string(),
            "Run 'bvr --agents-add' to create AGENTS.md with beads workflow instructions."
                .to_string(),
        ]
    );
    assert!(err.is_empty());
    assert_eq!(exit, 0);
}

#[test]
fn agents_check_reports_outdated_and_current_blurbs() {
    let q = request(false, false, false);
    let (out, _, _) = reply_lines(agents_step(&q, &found(true, false, 1), 3, "/w", ""));
    assert_eq!(
        out[0],
        "Found AGENTS.md at /w/AGENTS.md (blurb v1, current v3 \u{2014} needs update)"
    );
    let (out, _, exit) = reply_lines(agents_step(&q, &found(true, false, 3), 3, "/w", ""));
    assert_eq!(out, vec!["Found AGENTS.md at /w/AGENTS.md (blurb v3 \u{2014} up to date)".to_string()]);
    assert_eq!(exit, 0);
    let (out, _, _) = reply_lines(agents_step(&q, &found(false, true, 0), 3, "/w", ""));
    assert_eq!(out[0], "Found AGENTS.md at /w/AGENTS.md (legacy blurb \u{2014} needs upgrade)");
}

#[test]
fn agents_check_flag_wins_over_add() {
    let mut q = request(true, false, false);
    q.check = true;
    let (out, _, _) = reply_lines(agents_step(&q, &found(false, false, 0), 3, "/w", ""));
    assert_eq!(out[0], "Found AGENTS.md at /w/AGENTS.md (no beads workflow instructions)");
}

#[test]
fn agents_add_creates_with_prompt_or_force() {
    let q = request(true, false, false);
    match agents_step(&q, &missing(), 3, "/w", "/w/AGENTS.md") {
        AgentsStep::Act { action, prompt } => {
            assert_eq!(action, AgentFileAction::Create("/w/AGENTS.md".to_string()));
            assert_eq!(prompt, Some("Create /w/AGENTS.md? [Y/n]: ".to_string()));
        }
        _ => panic!("expected an action"),
    }
    let mut q = request(true, false, false);
    q.force = true;
    match agents_step(&q, &found(false, false, 0), 3, "/w", "/w/AGENTS.md") {
        AgentsStep::Act { action, prompt } => {
            assert_eq!(action, AgentFileAction::Append("/w/AGENTS.md".to_string()));
            assert_eq!(prompt, None);
        }
        _ => panic!("expected an action"),
    }
}

#[test]
fn agents_add_refuses_outdated_and_skips_current() {
    let q = request(true, false, false);
    let (out, _, exit) = reply_lines(agents_step(&q, &found(true, false, 1), 3, "/w", ""));
    assert_eq!(out, vec!["Existing blurb found but outdated. Use --agents-update instead.".to_string()]);
    assert_eq!(exit, 1);
    let (out, _, exit) = reply_lines(agents_step(&q, &found(true, false, 3), 3, "/w", ""));
    assert_eq!(
        out,
        vec!["/w/AGENTS.md already has current blurb (v3) \u{2014} no action needed.".to_string()]
    );
    assert_eq!(exit, 0);
}

#[test]
fn agents_add_dry_run() {
    let mut q = request(true, false, false);
    q.dry_run = true;
    let (out, _, exit) = reply_lines(agents_step(&q, &missing(), 3, "/w", "/w/AGENTS.md"));
    assert_eq!(
        out,
        vec!["[dry-run] Would create /w/AGENTS.md with beads workflow instructions.".to_string()]
    );
    assert_eq!(exit, 0);
}

#[test]
fn agents_update_paths() {
    let q = request(false, true, false);
    let (out, _, exit) = reply_lines(agents_step(&q, &missing(), 3, "/w", ""));
    assert_eq!(out, vec!["No agent file found. Use --agents-add to create one.".to_string()]);
    assert_eq!(exit, 1);
    let mut dq = request(false, true, false);
    dq.dry_run = true;
    let (out, _, _) = reply_lines(agents_step(&dq, &found(true, false, 1), 3, "/w", ""));
    assert_eq!(out, vec!["[dry-run] Would update blurb from v1 to v3 in /w/AGENTS.md.".to_string()]);
    match agents_step(&q, &found(false, true, 0), 3, "/w", "") {
        AgentsStep::Act { action, prompt } => {
            assert_eq!(action, AgentFileAction::Update("/w/AGENTS.md".to_string()));
            assert_eq!(prompt, Some("Update blurb in /w/AGENTS.md? [Y/n]: ".to_string()));
        }
        _ => panic!("expected an action"),
    }
}

#[test]
fn agents_remove_paths() {
    let q = request(false, false, true);
    let (out, _, exit) = reply_lines(agents_step(&q, &found(false, false, 0), 3, "/w", ""));
    assert_eq!(out, vec!["/w/AGENTS.md has no blurb \u{2014} nothing to remove.".to_string()]);
    assert_eq!(exit, 0);
    match agents_step(&q, &found(true, false, 3), 3, "/w", "") {
        AgentsStep::Act { action, .. } => {
            assert_eq!(action, AgentFileAction::Remove("/w/AGENTS.md".to_string()))
        }
        _ => panic!("expected an action"),
    }
}

#[test]
fn agents_confirmation_answers() {
    assert!(agents_confirmed(""));
    assert!(agents_confirmed("  Y \n"));
    assert!(agents_confirmed("YES"));
    assert!(!agents_confirmed("no"));
    assert!(!agents_confirmed("yep"));
}

#[test]
fn agents_cancel_and_outcomes() {
    let c = agents_cancelled();
    assert_eq!(c.stdout, vec!["Cancelled.".to_string()]);
    assert_eq!(c.exit, 0);
    let a = AgentFileAction::Update("/w/AGENTS.md".to_string());
    let ok = agents_outcome(&a, 3, None, true);
    assert_eq!(ok.stdout, vec!["Updated blurb to v3 in /w/AGENTS.md.".to_string()]);
    assert_eq!(ok.exit, 0);
    let warn = agents_outcome(&AgentFileAction::Create("/w/A.md".to_string()), 3, None, false);
    assert_eq!(warn.stdout, vec!["Created /w/A.md with beads workflow instructions.".to_string()]);
    assert_eq!(warn.exit, 1);
    assert_eq!(warn.stderr.len(), 1);
    let err = agents_outcome(&a, 3, Some("disk full"), true);
    assert_eq!(err.stderr, vec!["Error: disk full".to_string()]);
    assert_eq!(err.exit, 1);
    let removed = agents_outcome(&AgentFileAction::Remove("/w/A.md".to_string()), 3, None, false);
    assert_eq!(removed.exit, 0);
}
