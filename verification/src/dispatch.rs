//! Which command an accepted invocation runs. The checks happen in a fixed
//! order, split in two by the `--format` check: `early_route` decides what
//! runs before it, `late_route` what runs after it.

use vstd::prelude::*;
use vstd::string::*;
use crate::argv::{first_string_value, unconsumed_from, unconsumed_positional};
use crate::cli::{position_of, presence_of};
use crate::registry::{robot_primaries, spec_robot_primaries};
use crate::robot::search_flag;
use crate::text::{owned, str_eq, trim, trim_str, views};
use crate::validation::Presence;

verus! {

broadcast use vstd::seq_lib::group_seq_properties;

/// One dispatch row: the flags that select it and the command it runs.
pub type Row = (&'static [&'static str], &'static str);

/// The commands checked before the export steps, in order.
pub open spec fn spec_early_rows() -> Seq<(Seq<&'static str>, &'static str)> {
    seq![
        (seq!["check-update"], "check-update"),
        (seq!["update-dry-run"], "update-dry-run"),
        (seq!["update"], "update"),
        (seq!["rollback"], "rollback"),
        (seq!["robot-help"], "robot-help"),
        (seq!["agents-add", "agents-remove", "agents-update", "agents-check"], "agents"),
        (seq!["robot-capabilities"], "robot-capabilities"),
        (seq!["robot-schema"], "robot-schema"),
        (seq!["robot-metrics"], "robot-metrics"),
        (seq!["robot-docs"], "robot-docs"),
        (seq!["generate-docs"], "generate-docs"),
    ]
}

/// The drift commands, checked right after the `--format` check.
pub open spec fn spec_drift_rows() -> Seq<(Seq<&'static str>, &'static str)> {
    seq![(seq!["robot-drift"], "robot-drift"), (seq!["check-drift"], "check-drift")]
}

/// The commands checked after `--save-baseline`, up to `--robot-search`.
pub open spec fn spec_main_rows() -> Seq<(Seq<&'static str>, &'static str)> {
    seq![
        (seq!["robot-history", "bead-history"], "robot-history"),
        (seq!["robot-orphans"], "robot-orphans"),
        (seq!["robot-next"], "robot-next"),
        (seq!["robot-triage", "robot-triage-by-track", "robot-triage-by-label"], "robot-triage"),
        (seq!["robot-insights"], "robot-insights"),
        (seq!["robot-plan"], "robot-plan"),
        (seq!["robot-priority"], "robot-priority"),
        (seq!["robot-suggest"], "robot-suggest"),
        (seq!["robot-alerts"], "robot-alerts"),
        (seq!["robot-graph"], "robot-graph"),
        (seq!["robot-recipes"], "robot-recipes"),
        (seq!["robot-label-health"], "robot-label-health"),
        (seq!["robot-label-flow"], "robot-label-flow"),
        (seq!["robot-label-attention"], "robot-label-attention"),
        (seq!["robot-blocker-chain"], "robot-blocker-chain"),
        (seq!["robot-confirm-correlation"], "robot-confirm-correlation"),
        (seq!["robot-reject-correlation"], "robot-reject-correlation"),
        (seq!["robot-explain-correlation"], "robot-explain-correlation"),
        (seq!["robot-correlation-stats"], "robot-correlation-stats"),
        (seq!["robot-file-beads"], "robot-file-beads"),
        (seq!["robot-file-hotspots"], "robot-file-hotspots"),
        (seq!["robot-file-relations"], "robot-file-relations"),
        (seq!["robot-search"], "robot-search"),
    ]
}

/// The commands checked after the plain-`--search` check.
pub open spec fn spec_tail_rows() -> Seq<(Seq<&'static str>, &'static str)> {
    seq![
        (seq!["robot-causality"], "robot-causality"),
        (seq!["robot-related"], "robot-related"),
        (seq!["robot-impact-network"], "robot-impact-network"),
        (seq!["robot-sprint-list"], "robot-sprint-list"),
        (seq!["robot-sprint-show"], "robot-sprint-show"),
        (seq!["robot-burndown"], "robot-burndown"),
        (seq!["robot-forecast"], "robot-forecast"),
        (seq!["robot-capacity"], "robot-capacity"),
        (seq!["robot-impact"], "robot-impact"),
        (seq!["robot-diff"], "robot-diff"),
        (seq!["robot-not-ready-labels"], "robot-not-ready-labels"),
    ]
}

/// Whether one of `flags` is present.
pub open spec fn any_present(present: Set<Seq<char>>, flags: Seq<&'static str>) -> bool {
    exists|j: int| 0 <= j < flags.len() && present.contains(#[trigger] flags[j]@)
}

/// The command of the first row, from `k` on, one of whose flags is present.
pub open spec fn first_row_from(
    present: Set<Seq<char>>,
    rows: Seq<(Seq<&'static str>, &'static str)>,
    k: int,
) -> Option<&'static str>
    decreases rows.len() - k,
{
    if k < 0 || k >= rows.len() {
        None
    } else if any_present(present, rows[k].0) {
        Some(rows[k].1)
    } else {
        first_row_from(present, rows, k + 1)
    }
}

/// The token after the first `t`, if there is one.
pub open spec fn value_after(a: Seq<Seq<char>>, t: Seq<char>) -> Option<Seq<char>> {
    match position_of(a, t) {
        Some(i) => if i + 1 < a.len() {
            Some(a[i + 1])
        } else {
            None
        },
        None => None,
    }
}

/// The token after the first `t`, or `default` when `t` is last.
pub open spec fn value_or(a: Seq<Seq<char>>, t: Seq<char>, default: Seq<char>) -> Seq<char> {
    match value_after(a, t) {
        Some(v) => v,
        None => default,
    }
}

pub proof fn lemma_position_of(a: Seq<Seq<char>>, t: Seq<char>)
    ensures
        match position_of(a, t) {
            Some(i) => 0 <= i < a.len() && a[i] == t && forall|j: int| 0 <= j < i ==> a[j] != t,
            None => !a.contains(t),
        },
    decreases a.len(),
{
    if a.len() > 0 {
        let d = a.drop_last();
        lemma_position_of(d, t);
        match position_of(d, t) {
            Some(i) => {
                assert(a[i] == d[i]);
                assert forall|j: int| 0 <= j < i implies a[j] != t by {
                    assert(a[j] == d[j]);
                }
            },
            None => {
                assert forall|j: int| 0 <= j < a.len() - 1 implies a[j] != t by {
                    assert(a[j] == d[j]);
                    assert(!d.contains(t));
                }
                if a.last() != t {
                    assert forall|j: int| 0 <= j < a.len() implies a[j] != t by {
                        if j < a.len() - 1 {
                            assert(a[j] == d[j]);
                        }
                    }
                }
            },
        }
    }
}

// ---------------------------------------------------------------------------
// Tables
// ---------------------------------------------------------------------------

/// Row `k` of the commands checked before the export steps.
fn early_row(k: usize) -> (r: Row)
    requires
        k < spec_early_rows().len(),
    ensures
        r.0@ == spec_early_rows()[k as int].0,
        r.1 == spec_early_rows()[k as int].1,
{
    match k {
        0 => (&["check-update"], "check-update"),
        1 => (&["update-dry-run"], "update-dry-run"),
        2 => (&["update"], "update"),
        3 => (&["rollback"], "rollback"),
        4 => (&["robot-help"], "robot-help"),
        5 => (&["agents-add", "agents-remove", "agents-update", "agents-check"], "agents"),
        6 => (&["robot-capabilities"], "robot-capabilities"),
        7 => (&["robot-schema"], "robot-schema"),
        8 => (&["robot-metrics"], "robot-metrics"),
        9 => (&["robot-docs"], "robot-docs"),
        _ => (&["generate-docs"], "generate-docs"),
    }
}

/// Row `k` of the drift commands.
fn drift_row(k: usize) -> (r: Row)
    requires
        k < spec_drift_rows().len(),
    ensures
        r.0@ == spec_drift_rows()[k as int].0,
        r.1 == spec_drift_rows()[k as int].1,
{
    match k {
        0 => (&["robot-drift"], "robot-drift"),
        _ => (&["check-drift"], "check-drift"),
    }
}

/// Row `k` of the commands from the history rows to `robot-search`.
fn main_row(k: usize) -> (r: Row)
    requires
        k < spec_main_rows().len(),
    ensures
        r.0@ == spec_main_rows()[k as int].0,
        r.1 == spec_main_rows()[k as int].1,
{
    match k {
        0 => (&["robot-history", "bead-history"], "robot-history"),
        1 => (&["robot-orphans"], "robot-orphans"),
        2 => (&["robot-next"], "robot-next"),
        3 => (&["robot-triage", "robot-triage-by-track", "robot-triage-by-label"], "robot-triage"),
        4 => (&["robot-insights"], "robot-insights"),
        5 => (&["robot-plan"], "robot-plan"),
        6 => (&["robot-priority"], "robot-priority"),
        7 => (&["robot-suggest"], "robot-suggest"),
        8 => (&["robot-alerts"], "robot-alerts"),
        9 => (&["robot-graph"], "robot-graph"),
        10 => (&["robot-recipes"], "robot-recipes"),
        11 => (&["robot-label-health"], "robot-label-health"),
        12 => (&["robot-label-flow"], "robot-label-flow"),
        13 => (&["robot-label-attention"], "robot-label-attention"),
        14 => (&["robot-blocker-chain"], "robot-blocker-chain"),
        15 => (&["robot-confirm-correlation"], "robot-confirm-correlation"),
        16 => (&["robot-reject-correlation"], "robot-reject-correlation"),
        17 => (&["robot-explain-correlation"], "robot-explain-correlation"),
        18 => (&["robot-correlation-stats"], "robot-correlation-stats"),
        19 => (&["robot-file-beads"], "robot-file-beads"),
        20 => (&["robot-file-hotspots"], "robot-file-hotspots"),
        21 => (&["robot-file-relations"], "robot-file-relations"),
        _ => (&["robot-search"], "robot-search"),
    }
}

/// Row `k` of the commands from `robot-causality` on.
fn tail_row(k: usize) -> (r: Row)
    requires
        k < spec_tail_rows().len(),
    ensures
        r.0@ == spec_tail_rows()[k as int].0,
        r.1 == spec_tail_rows()[k as int].1,
{
    match k {
        0 => (&["robot-causality"], "robot-causality"),
        1 => (&["robot-related"], "robot-related"),
        2 => (&["robot-impact-network"], "robot-impact-network"),
        3 => (&["robot-sprint-list"], "robot-sprint-list"),
        4 => (&["robot-sprint-show"], "robot-sprint-show"),
        5 => (&["robot-burndown"], "robot-burndown"),
        6 => (&["robot-forecast"], "robot-forecast"),
        7 => (&["robot-capacity"], "robot-capacity"),
        8 => (&["robot-impact"], "robot-impact"),
        9 => (&["robot-diff"], "robot-diff"),
        _ => (&["robot-not-ready-labels"], "robot-not-ready-labels"),
    }
}

// ---------------------------------------------------------------------------
// Routes
// ---------------------------------------------------------------------------

/// What runs before the `--format` check.
pub enum EarlyRoute {
    /// The command a flag selects (`check-update`, `robot-help`, `agents`, ...).
    Command(&'static str),
    /// `--export PATH` together with `--export-md`: a usage error (exit 2).
    ExportConflict,
    /// `--export`: write the report to this path.
    Export(String),
    /// `--export-md`: write the markdown report to this path.
    ExportMarkdown(String),
    /// `--export-graph`: write the dependency graph to this path.
    ExportGraph(String),
}

/// A route before the `--format` check as a tag and its text.
pub open spec fn early_view(r: EarlyRoute) -> (int, Seq<char>) {
    match r {
        EarlyRoute::Command(c) => (0, c@),
        EarlyRoute::ExportConflict => (1, Seq::empty()),
        EarlyRoute::Export(p) => (2, p@),
        EarlyRoute::ExportMarkdown(p) => (3, p@),
        EarlyRoute::ExportGraph(p) => (4, p@),
    }
}

/// The route before the `--format` check, if any: a selected command, then
/// the export steps.
pub open spec fn spec_early_route(a: Seq<Seq<char>>) -> Option<(int, Seq<char>)> {
    match first_row_from(presence_of(a), spec_early_rows(), 0) {
        Some(c) => Some((0, c@)),
        None => if a.contains("--export"@) {
            let out = value_or(a, "--export"@, ""@);
            if out.len() > 0 && a.contains("--export-md"@) {
                Some((1, Seq::empty()))
            } else {
                Some((2, out))
            }
        } else if a.contains("--export-md"@) {
            Some((3, value_or(a, "--export-md"@, "report.md"@)))
        } else if a.contains("--export-graph"@) {
            Some((4, value_or(a, "--export-graph"@, ""@)))
        } else {
            None
        },
    }
}

/// What runs after the `--format` check.
pub enum LateRoute {
    /// The command a flag selects (`robot-drift`, `robot-triage`, ...).
    Command(&'static str),
    /// `--save-baseline DESCRIPTION`.
    SaveBaseline(String),
    /// `--search` with a query but no robot command: a usage error (exit 2).
    SearchWithoutRobot,
    /// `--export-pages`: the output directory, the page title, and whether
    /// closed issues are listed.
    ExportPages { out_dir: String, title: String, include_closed: bool },
    /// `--preview-pages`: the directory to serve.
    PreviewPages(String),
    /// A robot command no route handles: an error naming it (exit 2).
    Unimplemented(&'static str),
    /// A bare token no flag consumed: `unknown command` (exit 1).
    Unknown(String),
    /// Nothing asked for: the interactive viewer.
    Tui,
}

/// A route after the `--format` check as a tag, two texts and a flag.
pub open spec fn late_view(r: LateRoute) -> (int, Seq<char>, Seq<char>, bool) {
    match r {
        LateRoute::Command(c) => (0, c@, Seq::empty(), false),
        LateRoute::SaveBaseline(d) => (1, d@, Seq::empty(), false),
        LateRoute::SearchWithoutRobot => (2, Seq::empty(), Seq::empty(), false),
        LateRoute::ExportPages { out_dir, title, include_closed } => (
            3,
            out_dir@,
            title@,
            include_closed,
        ),
        LateRoute::PreviewPages(d) => (4, d@, Seq::empty(), false),
        LateRoute::Unimplemented(c) => (5, c@, Seq::empty(), false),
        LateRoute::Unknown(t) => (6, t@, Seq::empty(), false),
        LateRoute::Tui => (7, Seq::empty(), Seq::empty(), false),
    }
}

/// Some robot primary command is present.
pub open spec fn any_robot_primary(present: Set<Seq<char>>) -> bool {
    exists|k: int|
        0 <= k < spec_robot_primaries().len() && present.contains(
            #[trigger] spec_robot_primaries()[k].name@,
        )
}

/// `--search` has a non-blank query but no robot command is present.
pub open spec fn search_without_robot(a: Seq<Seq<char>>) -> bool {
    match first_string_value(a, "search"@) {
        Some(q) => trim(q).len() > 0 && !any_robot_primary(presence_of(a)),
        None => false,
    }
}

/// The first present robot primary other than `robot-help`, from table
/// index `k` on.
pub open spec fn first_unhandled_from(present: Set<Seq<char>>, k: int) -> Option<&'static str>
    decreases spec_robot_primaries().len() - k,
{
    if k < 0 || k >= spec_robot_primaries().len() {
        None
    } else {
        let n = spec_robot_primaries()[k].name;
        if n@ != "robot-help"@ && present.contains(n@) {
            Some(n)
        } else {
            first_unhandled_from(present, k + 1)
        }
    }
}

/// The route after the `--format` check.
pub open spec fn spec_late_route(a: Seq<Seq<char>>) -> (int, Seq<char>, Seq<char>, bool) {
    let p = presence_of(a);
    match first_row_from(p, spec_drift_rows(), 0) {
        Some(c) => (0, c@, Seq::empty(), false),
        None => match value_after(a, "--save-baseline"@) {
            Some(d) => (1, d, Seq::empty(), false),
            None => match first_row_from(p, spec_main_rows(), 0) {
                Some(c) => (0, c@, Seq::empty(), false),
                None => if search_without_robot(a) {
                    (2, Seq::empty(), Seq::empty(), false)
                } else {
                    match first_row_from(p, spec_tail_rows(), 0) {
                        Some(c) => (0, c@, Seq::empty(), false),
                        None => spec_final_route(a),
                    }
                },
            },
        },
    }
}

/// The last steps of the route: the pages exports, an unhandled robot
/// command, an unknown token, else the interactive viewer.
pub open spec fn spec_final_route(a: Seq<Seq<char>>) -> (int, Seq<char>, Seq<char>, bool) {
    if a.contains("--export-pages"@) {
        (
            3,
            value_or(a, "--export-pages"@, "./bv-pages"@),
            value_or(a, "--pages-title"@, "Beads Dashboard"@),
            a.contains("--pages-include-closed"@),
        )
    } else if a.contains("--preview-pages"@) {
        (4, value_or(a, "--preview-pages"@, "./bv-pages"@), Seq::empty(), false)
    } else {
        match first_unhandled_from(presence_of(a), 0) {
            Some(n) => (5, n@, Seq::empty(), false),
            None => match unconsumed_from(a, false) {
                Some(u) => (6, u, Seq::empty(), false),
                None => (7, Seq::empty(), Seq::empty(), false),
            },
        }
    }
}

/// Whether one of `flags` is present.
fn row_present(presence: &Presence, flags: &[&'static str]) -> (r: bool)
    ensures
        r == any_present(presence@, flags@),
{
    let mut j: usize = 0;
    while j < flags.len()
        invariant
            j <= flags@.len(),
            forall|t: int| 0 <= t < j ==> !presence@.contains(#[trigger] flags@[t]@),
        decreases flags@.len() - j,
    {
        if presence.has(flags[j]) {
            return true;
        }
        j += 1;
    }
    false
}

/// Index of the first token equal to `t`.
fn token_position(args: &[String], t: &str) -> (r: Option<usize>)
    ensures
        match r {
            Some(i) => i < args@.len() && position_of(views(args@), t@) == Some(i as int),
            None => position_of(views(args@), t@) is None,
        },
{
    let ghost a = views(args@);
    let mut k: usize = 0;
    while k < args.len()
        invariant
            a == views(args@),
            k <= args@.len(),
            forall|j: int| 0 <= j < k ==> a[j] != t@,
        decreases args@.len() - k,
    {
        if str_eq(args[k].as_str(), t) {
            proof {
                lemma_position_of(a, t@);
                assert(a[k as int] == t@);
            }
            return Some(k);
        }
        k += 1;
    }
    proof {
        lemma_position_of(a, t@);
    }
    None
}

/// The token after the first `t`, or `default`.
fn token_after_or(args: &[String], t: &str, default: &str) -> (r: String)
    ensures
        r@ == value_or(views(args@), t@, default@),
{
    let n = args.len();
    match token_position(args, t) {
        Some(i) => if i + 1 < n {
            owned(args[i + 1].as_str())
        } else {
            owned(default)
        },
        None => owned(default),
    }
}

/// Whether some token equals `t`.
fn has_token(args: &[String], t: &str) -> (r: bool)
    ensures
        r == views(args@).contains(t@),
{
    proof {
        lemma_position_of(views(args@), t@);
    }
    token_position(args, t).is_some()
}

/// Decides what runs before the `--format` check: the first selected
/// command of the early table (self-update, robot help, agents, ...), then
/// `--export` (refused together with `--export-md` when it names a path),
/// `--export-md` and `--export-graph`; `None` when none applies.
pub fn early_route(args: &[String], presence: &Presence) -> (r: Option<EarlyRoute>)
    requires
        presence@ == presence_of(views(args@)),
    ensures
        match r {
            Some(x) => spec_early_route(views(args@)) == Some(early_view(x)),
            None => spec_early_route(views(args@)) is None,
        },
{
    let mut k: usize = 0;
    while k < 11
        invariant
            k <= 11,
            presence@ == presence_of(views(args@)),
            spec_early_rows().len() == 11,
            first_row_from(presence@, spec_early_rows(), 0) == first_row_from(
                presence@,
                spec_early_rows(),
                k as int,
            ),
        decreases 11 - k,
    {
        let row = early_row(k);
        if row_present(presence, row.0) {
            return Some(EarlyRoute::Command(row.1));
        }
        k += 1;
    }
    if has_token(args, "--export") {
        let out = token_after_or(args, "--export", "");
        if out.unicode_len() > 0 && has_token(args, "--export-md") {
            return Some(EarlyRoute::ExportConflict);
        }
        return Some(EarlyRoute::Export(out));
    }
    if has_token(args, "--export-md") {
        return Some(EarlyRoute::ExportMarkdown(token_after_or(args, "--export-md", "report.md")));
    }
    if has_token(args, "--export-graph") {
        return Some(EarlyRoute::ExportGraph(token_after_or(args, "--export-graph", "")));
    }
    None
}

/// Whether some robot primary command is present.
fn robot_primary_present(presence: &Presence) -> (r: bool)
    ensures
        r == any_robot_primary(presence@),
{
    let table = robot_primaries();
    let mut k: usize = 0;
    while k < table.len()
        invariant
            table@ == spec_robot_primaries(),
            k <= table@.len(),
            forall|j: int| 0 <= j < k ==> !presence@.contains(#[trigger] spec_robot_primaries()[j].name@),
        decreases table@.len() - k,
    {
        if presence.has(table[k].name) {
            return true;
        }
        k += 1;
    }
    false
}

/// The first present robot primary other than `robot-help`.
fn first_unhandled(presence: &Presence) -> (r: Option<&'static str>)
    ensures
        r == first_unhandled_from(presence@, 0),
{
    let table = robot_primaries();
    let mut k: usize = 0;
    while k < table.len()
        invariant
            table@ == spec_robot_primaries(),
            k <= table@.len(),
            first_unhandled_from(presence@, 0) == first_unhandled_from(presence@, k as int),
        decreases table@.len() - k,
    {
        let name = table[k].name;
        if !str_eq(name, "robot-help") && presence.has(name) {
            return Some(name);
        }
        k += 1;
    }
    None
}

/// The first selected drift command.
fn first_of_drift(presence: &Presence) -> (r: Option<&'static str>)
    ensures
        r == first_row_from(presence@, spec_drift_rows(), 0),
{
    let mut k: usize = 0;
    while k < 2
        invariant
            k <= 2,
            spec_drift_rows().len() == 2,
            first_row_from(presence@, spec_drift_rows(), 0) == first_row_from(
                presence@,
                spec_drift_rows(),
                k as int,
            ),
        decreases 2 - k,
    {
        let row = drift_row(k);
        if row_present(presence, row.0) {
            return Some(row.1);
        }
        k += 1;
    }
    None
}

/// The first selected command from the history rows to `robot-search`.
fn first_of_main(presence: &Presence) -> (r: Option<&'static str>)
    ensures
        r == first_row_from(presence@, spec_main_rows(), 0),
{
    let mut k: usize = 0;
    while k < 23
        invariant
            k <= 23,
            spec_main_rows().len() == 23,
            first_row_from(presence@, spec_main_rows(), 0) == first_row_from(
                presence@,
                spec_main_rows(),
                k as int,
            ),
        decreases 23 - k,
    {
        let row = main_row(k);
        if row_present(presence, row.0) {
            return Some(row.1);
        }
        k += 1;
    }
    None
}

/// The first selected command from `robot-causality` on.
fn first_of_tail(presence: &Presence) -> (r: Option<&'static str>)
    ensures
        r == first_row_from(presence@, spec_tail_rows(), 0),
{
    let mut k: usize = 0;
    while k < 11
        invariant
            k <= 11,
            spec_tail_rows().len() == 11,
            first_row_from(presence@, spec_tail_rows(), 0) == first_row_from(
                presence@,
                spec_tail_rows(),
                k as int,
            ),
        decreases 11 - k,
    {
        let row = tail_row(k);
        if row_present(presence, row.0) {
            return Some(row.1);
        }
        k += 1;
    }
    None
}

/// Decides what runs after the `--format` check: the drift commands,
/// `--save-baseline`, the robot commands in their fixed order (`--search`
/// without any robot command is refused among them), the pages exports, an
/// error for a robot command no route handles, an unknown bare token, and
/// otherwise the interactive viewer.
pub fn late_route(args: &[String], presence: &Presence) -> (r: LateRoute)
    requires
        presence@ == presence_of(views(args@)),
    ensures
        late_view(r) == spec_late_route(views(args@)),
{
    let ghost a = views(args@);
    let n = args.len();
    if let Some(c) = first_of_drift(presence) {
        return LateRoute::Command(c);
    }
    match token_position(args, "--save-baseline") {
        Some(i) => if i + 1 < n {
            return LateRoute::SaveBaseline(owned(args[i + 1].as_str()));
        },
        None => {},
    }
    if let Some(c) = first_of_main(presence) {
        return LateRoute::Command(c);
    }
    let query_given = match search_flag(args, "search") {
        Some(q) => trim_str(q.as_str()).unicode_len() > 0,
        None => false,
    };
    if query_given && !robot_primary_present(presence) {
        return LateRoute::SearchWithoutRobot;
    }
    if let Some(c) = first_of_tail(presence) {
        return LateRoute::Command(c);
    }
    if has_token(args, "--export-pages") {
        return LateRoute::ExportPages {
            out_dir: token_after_or(args, "--export-pages", "./bv-pages"),
            title: token_after_or(args, "--pages-title", "Beads Dashboard"),
            include_closed: has_token(args, "--pages-include-closed"),
        };
    }
    if has_token(args, "--preview-pages") {
        return LateRoute::PreviewPages(token_after_or(args, "--preview-pages", "./bv-pages"));
    }
    if let Some(n) = first_unhandled(presence) {
        return LateRoute::Unimplemented(n);
    }
    match unconsumed_positional(args) {
        Some(u) => LateRoute::Unknown(u),
        None => LateRoute::Tui,
    }
}

} // verus!
