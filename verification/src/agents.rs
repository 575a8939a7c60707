//! The agent-file commands (`--agents-check`, `--agents-add`,
//! `--agents-update`, `--agents-remove`): from the detected agent file and
//! the flags, what to print, which file action to take and what to report
//! after it. Detecting the file, asking for confirmation and editing the
//! file are done by the caller.

use vstd::prelude::*;
use vstd::string::*;
use crate::text::{append, decimal, owned, trim_lower, usize_to_decimal, views};

verus! {

broadcast use vstd::seq_lib::group_seq_properties;

/// What was found when looking for an agent file.
pub struct AgentDetection {
    pub found: bool,
    pub file_path: String,
    pub file_type: String,
    pub has_blurb: bool,
    pub has_legacy_blurb: bool,
    pub blurb_version: u32,
}

/// The agent-file flags of an invocation.
pub struct AgentsRequest {
    pub add: bool,
    pub update: bool,
    pub remove: bool,
    pub check: bool,
    /// Structured output was asked for (`--robot-robot` or `BV_ROBOT=1`).
    pub robot: bool,
    pub dry_run: bool,
    pub force: bool,
}

/// A change to the agent file.
#[derive(Debug, Clone, PartialEq, Eq)]
pub enum AgentFileAction {
    Create(String),
    Append(String),
    Update(String),
    Remove(String),
}

/// Lines to print and the exit code.
#[derive(Debug, Clone, PartialEq, Eq)]
pub struct AgentsReply {
    pub stdout: Vec<String>,
    pub stderr: Vec<String>,
    pub exit: u8,
}

/// The next step of an agent-file command.
pub enum AgentsStep {
    /// Report the detection as structured data.
    Report,
    /// Print and exit.
    Reply(AgentsReply),
    /// Take the action; when `prompt` is given, ask it first and go on only
    /// on a confirming answer.
    Act { action: AgentFileAction, prompt: Option<String> },
}

/// A step as a tag, its reply, its action as a tag and path, and its prompt.
pub type StepView = (int, Seq<Seq<char>>, Seq<Seq<char>>, u8, int, Seq<char>, Option<Seq<char>>);

pub open spec fn reply_view(r: AgentsReply) -> (Seq<Seq<char>>, Seq<Seq<char>>, u8) {
    (views(r.stdout@), views(r.stderr@), r.exit)
}

pub open spec fn action_view(a: AgentFileAction) -> (int, Seq<char>) {
    match a {
        AgentFileAction::Create(p) => (0, p@),
        AgentFileAction::Append(p) => (1, p@),
        AgentFileAction::Update(p) => (2, p@),
        AgentFileAction::Remove(p) => (3, p@),
    }
}

pub open spec fn step_view(s: AgentsStep) -> StepView {
    match s {
        AgentsStep::Report => (0, Seq::empty(), Seq::empty(), 0, 0, Seq::empty(), None),
        AgentsStep::Reply(r) => (1, reply_view(r).0, reply_view(r).1, r.exit, 0, Seq::empty(), None),
        AgentsStep::Act { action, prompt } => (
            2,
            Seq::empty(),
            Seq::empty(),
            0,
            action_view(action).0,
            action_view(action).1,
            match prompt {
                Some(p) => Some(p@),
                None => None,
            },
        ),
    }
}

pub open spec fn say(out: Seq<Seq<char>>, exit: u8) -> StepView {
    (1, out, Seq::empty(), exit, 0, Seq::empty(), None)
}

pub open spec fn act(kind: int, path: Seq<char>, prompt: Option<Seq<char>>) -> StepView {
    (2, Seq::empty(), Seq::empty(), 0, kind, path, prompt)
}

/// The `--agents-check` report (also used when no other agent flag is set).
pub open spec fn check_step(d: AgentDetection, current: u32, cwd: Seq<char>) -> StepView {
    let t = d.file_type@;
    let p = d.file_path@;
    if !d.found {
        say(
            seq![
                "No agent file found (searched up to 3 parent directories from "@ + cwd + ")"@,
                "Run 'bvr --agents-add' to create AGENTS.md with beads workflow instructions."@,
            ],
            0,
        )
    } else if d.has_legacy_blurb {
        say(
            seq![
                "Found "@ + t + " at "@ + p + " (legacy blurb \u{2014} needs upgrade)"@,
                "Run 'bvr --agents-update' to upgrade to the current format."@,
            ],
            0,
        )
    } else if d.has_blurb && d.blurb_version < current {
        say(
            seq![
                "Found "@ + t + " at "@ + p + " (blurb v"@ + decimal(d.blurb_version as nat)
                    + ", current v"@ + decimal(current as nat) + " \u{2014} needs update)"@,
                "Run 'bvr --agents-update' to update to the latest version."@,
            ],
            0,
        )
    } else if d.has_blurb {
        say(
            seq![
                "Found "@ + t + " at "@ + p + " (blurb v"@ + decimal(d.blurb_version as nat)
                    + " \u{2014} up to date)"@,
            ],
            0,
        )
    } else {
        say(
            seq![
                "Found "@ + t + " at "@ + p + " (no beads workflow instructions)"@,
                "Run 'bvr --agents-add' to add beads workflow instructions."@,
            ],
            0,
        )
    }
}

/// The `--agents-add` step; `preferred` is the path a new file would get.
pub open spec fn add_step(
    q: AgentsRequest,
    d: AgentDetection,
    current: u32,
    preferred: Seq<char>,
) -> StepView {
    if d.found && d.has_blurb && d.blurb_version >= current {
        say(
            seq![
                d.file_path@ + " already has current blurb (v"@ + decimal(d.blurb_version as nat)
                    + ") \u{2014} no action needed."@,
            ],
            0,
        )
    } else if d.found && (d.has_legacy_blurb || (d.has_blurb && d.blurb_version < current)) {
        say(seq!["Existing blurb found but outdated. Use --agents-update instead."@], 1)
    } else {
        let target = if d.found {
            d.file_path@
        } else {
            preferred
        };
        let creating = !d.found;
        if q.dry_run {
            if creating {
                say(
                    seq!["[dry-run] Would create "@ + target + " with beads workflow instructions."@],
                    0,
                )
            } else {
                say(
                    seq![
                        "[dry-run] Would append beads workflow instructions to "@ + target + "."@,
                    ],
                    0,
                )
            }
        } else {
            let prompt = if q.force {
                None
            } else if creating {
                Some("Create "@ + target + "? [Y/n]: "@)
            } else {
                Some("Append blurb to "@ + target + "? [Y/n]: "@)
            };
            act(
                if creating {
                    0
                } else {
                    1
                },
                target,
                prompt,
            )
        }
    }
}

/// The `--agents-update` step.
pub open spec fn update_step(q: AgentsRequest, d: AgentDetection, current: u32) -> StepView {
    let p = d.file_path@;
    if !d.found {
        say(seq!["No agent file found. Use --agents-add to create one."@], 1)
    } else if !d.has_blurb && !d.has_legacy_blurb {
        say(seq![p + " has no blurb to update. Use --agents-add to add one."@], 1)
    } else if d.has_blurb && d.blurb_version >= current {
        say(
            seq![
                p + " already has current blurb (v"@ + decimal(d.blurb_version as nat)
                    + ") \u{2014} no update needed."@,
            ],
            0,
        )
    } else if q.dry_run {
        if d.has_legacy_blurb {
            say(
                seq![
                    "[dry-run] Would upgrade legacy blurb to v"@ + decimal(current as nat) + " in "@
                        + p + "."@,
                ],
                0,
            )
        } else {
            say(
                seq![
                    "[dry-run] Would update blurb from v"@ + decimal(d.blurb_version as nat)
                        + " to v"@ + decimal(current as nat) + " in "@ + p + "."@,
                ],
                0,
            )
        }
    } else {
        act(
            2,
            p,
            if q.force {
                None
            } else {
                Some("Update blurb in "@ + p + "? [Y/n]: "@)
            },
        )
    }
}

/// The `--agents-remove` step.
pub open spec fn remove_step(q: AgentsRequest, d: AgentDetection) -> StepView {
    let p = d.file_path@;
    if !d.found {
        say(seq!["No agent file found \u{2014} nothing to remove."@], 0)
    } else if !d.has_blurb && !d.has_legacy_blurb {
        say(seq![p + " has no blurb \u{2014} nothing to remove."@], 0)
    } else if q.dry_run {
        say(seq!["[dry-run] Would remove blurb from "@ + p + "."@], 0)
    } else {
        act(
            3,
            p,
            if q.force {
                None
            } else {
                Some("Remove blurb from "@ + p + "? [Y/n]: "@)
            },
        )
    }
}

/// The first step of an agent-file command: structured output wins, then
/// the check report (also when no other agent flag is set), then add,
/// update and remove, in that order.
pub open spec fn agents_step_spec(
    q: AgentsRequest,
    d: AgentDetection,
    current: u32,
    cwd: Seq<char>,
    preferred: Seq<char>,
) -> StepView {
    if q.robot {
        (0, Seq::empty(), Seq::empty(), 0, 0, Seq::empty(), None)
    } else if (!q.add && !q.update && !q.remove) || q.check {
        check_step(d, current, cwd)
    } else if q.add {
        add_step(q, d, current, preferred)
    } else if q.update {
        update_step(q, d, current)
    } else if q.remove {
        remove_step(q, d)
    } else {
        (
            1,
            Seq::empty(),
            seq![
                "No agents action specified. Use --agents-add, --agents-remove, --agents-update, or --agents-check."@,
            ],
            1,
            0,
            Seq::empty(),
            None,
        )
    }
}

fn dec(n: u32) -> (r: String)
    ensures
        r@ == decimal(n as nat),
{
    usize_to_decimal(n as usize)
}

fn one(line: String) -> (r: Vec<String>)
    ensures
        views(r@) == seq![line@],
{
    let mut v: Vec<String> = Vec::new();
    v.push(line);
    assert(views(v@) =~= seq![v@[0]@]);
    v
}

fn two(a: String, b: String) -> (r: Vec<String>)
    ensures
        views(r@) == seq![a@, b@],
{
    let mut v: Vec<String> = Vec::new();
    v.push(a);
    v.push(b);
    assert(views(v@) =~= seq![v@[0]@, v@[1]@]);
    v
}

fn reply(stdout: Vec<String>, exit: u8) -> (r: AgentsStep)
    ensures
        step_view(r) == say(views(stdout@), exit),
{
    let stderr: Vec<String> = Vec::new();
    assert(views(stderr@) =~= Seq::<Seq<char>>::empty());
    AgentsStep::Reply(AgentsReply { stdout, stderr, exit })
}

fn cat(a: &str, b: &str) -> (r: String)
    ensures
        r@ == a@ + b@,
{
    crate::text::concat2(a, b)
}

fn cat3(a: &str, b: &str, c: &str) -> (r: String)
    ensures
        r@ == a@ + b@ + c@,
{
    crate::text::concat3(a, b, c)
}

/// The check report.
fn check_reply(d: &AgentDetection, current: u32, cwd: &str) -> (r: AgentsStep)
    ensures
        step_view(r) == check_step(*d, current, cwd@),
{
    let t = d.file_type.as_str();
    let p = d.file_path.as_str();
    if !d.found {
        let a = cat3("No agent file found (searched up to 3 parent directories from ", cwd, ")");
        let b = owned("Run 'bvr --agents-add' to create AGENTS.md with beads workflow instructions.");
        reply(two(a, b), 0)
    } else if d.has_legacy_blurb {
        let mut a = cat3("Found ", t, " at ");
        append(&mut a, p);
        append(&mut a, " (legacy blurb \u{2014} needs upgrade)");
        let b = owned("Run 'bvr --agents-update' to upgrade to the current format.");
        reply(two(a, b), 0)
    } else if d.has_blurb && d.blurb_version < current {
        let mut a = cat3("Found ", t, " at ");
        append(&mut a, p);
        append(&mut a, " (blurb v");
        append(&mut a, dec(d.blurb_version).as_str());
        append(&mut a, ", current v");
        append(&mut a, dec(current).as_str());
        append(&mut a, " \u{2014} needs update)");
        let b = owned("Run 'bvr --agents-update' to update to the latest version.");
        reply(two(a, b), 0)
    } else if d.has_blurb {
        let mut a = cat3("Found ", t, " at ");
        append(&mut a, p);
        append(&mut a, " (blurb v");
        append(&mut a, dec(d.blurb_version).as_str());
        append(&mut a, " \u{2014} up to date)");
        reply(one(a), 0)
    } else {
        let mut a = cat3("Found ", t, " at ");
        append(&mut a, p);
        append(&mut a, " (no beads workflow instructions)");
        let b = owned("Run 'bvr --agents-add' to add beads workflow instructions.");
        reply(two(a, b), 0)
    }
}

/// The add step.
fn add_reply(q: &AgentsRequest, d: &AgentDetection, current: u32, preferred: &str) -> (r: AgentsStep)
    ensures
        step_view(r) == add_step(*q, *d, current, preferred@),
{
    if d.found && d.has_blurb && d.blurb_version >= current {
        let mut a = cat(d.file_path.as_str(), " already has current blurb (v");
        append(&mut a, dec(d.blurb_version).as_str());
        append(&mut a, ") \u{2014} no action needed.");
        return reply(one(a), 0);
    }
    if d.found && (d.has_legacy_blurb || (d.has_blurb && d.blurb_version < current)) {
        return reply(one(owned("Existing blurb found but outdated. Use --agents-update instead.")), 1);
    }
    let target: &str = if d.found {
        d.file_path.as_str()
    } else {
        preferred
    };
    let creating = !d.found;
    if q.dry_run {
        if creating {
            return reply(
                one(cat3("[dry-run] Would create ", target, " with beads workflow instructions.")),
                0,
            );
        } else {
            return reply(
                one(cat3("[dry-run] Would append beads workflow instructions to ", target, ".")),
                0,
            );
        }
    }
    let prompt = if q.force {
        None
    } else if creating {
        Some(cat3("Create ", target, "? [Y/n]: "))
    } else {
        Some(cat3("Append blurb to ", target, "? [Y/n]: "))
    };
    let action = if creating {
        AgentFileAction::Create(owned(target))
    } else {
        AgentFileAction::Append(owned(target))
    };
    AgentsStep::Act { action, prompt }
}

/// The update step.
fn update_reply(q: &AgentsRequest, d: &AgentDetection, current: u32) -> (r: AgentsStep)
    ensures
        step_view(r) == update_step(*q, *d, current),
{
    let p = d.file_path.as_str();
    if !d.found {
        return reply(one(owned("No agent file found. Use --agents-add to create one.")), 1);
    }
    if !d.has_blurb && !d.has_legacy_blurb {
        return reply(one(cat(p, " has no blurb to update. Use --agents-add to add one.")), 1);
    }
    if d.has_blurb && d.blurb_version >= current {
        let mut a = cat(p, " already has current blurb (v");
        append(&mut a, dec(d.blurb_version).as_str());
        append(&mut a, ") \u{2014} no update needed.");
        return reply(one(a), 0);
    }
    if q.dry_run {
        if d.has_legacy_blurb {
            let mut a = cat("[dry-run] Would upgrade legacy blurb to v", dec(current).as_str());
            append(&mut a, " in ");
            append(&mut a, p);
            append(&mut a, ".");
            return reply(one(a), 0);
        } else {
            let mut a = cat("[dry-run] Would update blurb from v", dec(d.blurb_version).as_str());
            append(&mut a, " to v");
            append(&mut a, dec(current).as_str());
            append(&mut a, " in ");
            append(&mut a, p);
            append(&mut a, ".");
            return reply(one(a), 0);
        }
    }
    let prompt = if q.force {
        None
    } else {
        Some(cat3("Update blurb in ", p, "? [Y/n]: "))
    };
    AgentsStep::Act { action: AgentFileAction::Update(owned(p)), prompt }
}

/// The remove step.
fn remove_reply(q: &AgentsRequest, d: &AgentDetection) -> (r: AgentsStep)
    ensures
        step_view(r) == remove_step(*q, *d),
{
    let p = d.file_path.as_str();
    if !d.found {
        return reply(one(owned("No agent file found \u{2014} nothing to remove.")), 0);
    }
    if !d.has_blurb && !d.has_legacy_blurb {
        return reply(one(cat(p, " has no blurb \u{2014} nothing to remove.")), 0);
    }
    if q.dry_run {
        return reply(one(cat3("[dry-run] Would remove blurb from ", p, ".")), 0);
    }
    let prompt = if q.force {
        None
    } else {
        Some(cat3("Remove blurb from ", p, "? [Y/n]: "))
    };
    AgentsStep::Act { action: AgentFileAction::Remove(owned(p)), prompt }
}

/// The first step of an agent-file command, from the flags, the detected
/// agent file, the current blurb version, the working directory (for the
/// not-found report) and the path a new agent file would get.
pub fn agents_step(
    q: &AgentsRequest,
    d: &AgentDetection,
    current: u32,
    cwd: &str,
    preferred: &str,
) -> (r: AgentsStep)
    ensures
        step_view(r) == agents_step_spec(*q, *d, current, cwd@, preferred@),
{
    if q.robot {
        AgentsStep::Report
    } else if (!q.add && !q.update && !q.remove) || q.check {
        check_reply(d, current, cwd)
    } else if q.add {
        add_reply(q, d, current, preferred)
    } else if q.update {
        update_reply(q, d, current)
    } else if q.remove {
        remove_reply(q, d)
    } else {
        let e = one(
            owned(
                "No agents action specified. Use --agents-add, --agents-remove, --agents-update, or --agents-check.",
            ),
        );
        let stdout: Vec<String> = Vec::new();
        assert(views(stdout@) =~= Seq::<Seq<char>>::empty());
        AgentsStep::Reply(AgentsReply { stdout, stderr: e, exit: 1 })
    }
}

/// Whether an answer to a confirmation prompt confirms: empty, `y` or
/// `yes`, after trimming and lowercasing.
pub fn agents_confirmed(answer: &str) -> (r: bool)
    ensures
        r == (trim_lower(answer@).len() == 0 || trim_lower(answer@) == "y"@ || trim_lower(answer@)
            == "yes"@),
{
    let t = crate::text::to_lowercase(crate::text::trim_str(answer));
    let s = t.as_str();
    s.unicode_len() == 0 || crate::text::str_eq(s, "y") || crate::text::str_eq(s, "yes")
}

/// What is printed after a declined prompt.
pub open spec fn cancelled_view() -> (Seq<Seq<char>>, Seq<Seq<char>>, u8) {
    (seq!["Cancelled."@], Seq::empty(), 0)
}

/// Prints `Cancelled.` and exits 0.
pub fn agents_cancelled() -> (r: AgentsReply)
    ensures
        reply_view(r) == cancelled_view(),
{
    let r = AgentsReply { stdout: one(owned("Cancelled.")), stderr: Vec::new(), exit: 0 };
    assert(views(r.stderr@) =~= Seq::<Seq<char>>::empty());
    r
}

/// What is printed after an action ran: its error, or the confirmation
/// line and, for a written blurb that could not be found again, a warning
/// with exit 1.
pub open spec fn outcome_view(
    a: (int, Seq<char>),
    current: u32,
    error: Option<Seq<char>>,
    verified: bool,
) -> (Seq<Seq<char>>, Seq<Seq<char>>, u8) {
    let warning = "Warning: verification failed \u{2014} blurb may not have been written correctly."@;
    match error {
        Some(e) => (Seq::empty(), seq!["Error: "@ + e], 1),
        None => {
            let line = if a.0 == 0 {
                "Created "@ + a.1 + " with beads workflow instructions."@
            } else if a.0 == 1 {
                "Appended beads workflow instructions to "@ + a.1 + "."@
            } else if a.0 == 2 {
                "Updated blurb to v"@ + decimal(current as nat) + " in "@ + a.1 + "."@
            } else {
                "Removed beads workflow instructions from "@ + a.1 + "."@
            };
            if a.0 != 3 && !verified {
                (seq![line], seq![warning], 1)
            } else {
                (seq![line], Seq::empty(), 0)
            }
        },
    }
}

/// What is printed after `action` ran with the given error (if any) and
/// the result of checking that the blurb is present; the check is not
/// consulted for a removal.
pub fn agents_outcome(
    action: &AgentFileAction,
    current: u32,
    error: Option<&str>,
    verified: bool,
) -> (r: AgentsReply)
    ensures
        reply_view(r) == outcome_view(
            action_view(*action),
            current,
            match error {
                Some(e) => Some(e@),
                None => None,
            },
            verified,
        ),
{
    match error {
        Some(e) => {
            let r = AgentsReply { stdout: Vec::new(), stderr: one(cat("Error: ", e)), exit: 1 };
            assert(views(r.stdout@) =~= Seq::<Seq<char>>::empty());
            return r;
        },
        None => {},
    }
    let (line, checked) = match action {
        AgentFileAction::Create(p) => (
            cat3("Created ", p.as_str(), " with beads workflow instructions."),
            true,
        ),
        AgentFileAction::Append(p) => (
            cat3("Appended beads workflow instructions to ", p.as_str(), "."),
            true,
        ),
        AgentFileAction::Update(p) => {
            let mut l = cat("Updated blurb to v", dec(current).as_str());
            append(&mut l, " in ");
            append(&mut l, p.as_str());
            append(&mut l, ".");
            (l, true)
        },
        AgentFileAction::Remove(p) => (
            cat3("Removed beads workflow instructions from ", p.as_str(), "."),
            false,
        ),
    };
    if checked && !verified {
        AgentsReply {
            stdout: one(line),
            stderr: one(
                owned(
                    "Warning: verification failed \u{2014} blurb may not have been written correctly.",
                ),
            ),
            exit: 1,
        }
    } else {
        let r = AgentsReply { stdout: one(line), stderr: Vec::new(), exit: 0 };
        assert(views(r.stderr@) =~= Seq::<Seq<char>>::empty());
        r
    }
}

/// What the first step of an agent-file command may do: structured output
/// exactly when asked for; a dry run never touches the file; a file action
/// asks first exactly when not forced; creating happens only when no agent
/// file was found, and appending, updating or removing only on the file
/// that was found; removing and updating need a blurb to act on.
pub proof fn law_agent_actions_follow_the_detection(
    q: AgentsRequest,
    d: AgentDetection,
    current: u32,
    cwd: Seq<char>,
    preferred: Seq<char>,
)
    ensures
        ({
            let v = agents_step_spec(q, d, current, cwd, preferred);
            &&& (v.0 == 0 <==> q.robot)
            &&& q.dry_run ==> v.0 != 2
            &&& v.0 == 2 ==> {
                &&& (v.6 is None <==> q.force)
                &&& (v.4 == 0 ==> !d.found && v.5 == preferred)
                &&& (v.4 != 0 ==> d.found && v.5 == d.file_path@)
                &&& (v.4 == 2 || v.4 == 3 ==> d.has_blurb || d.has_legacy_blurb)
                &&& (v.4 == 1 ==> !d.has_blurb && !d.has_legacy_blurb)
            }
        }),
{
}

} // verus!
