//! The flag registry: every long flag the command line accepts, the robot
//! primary commands with their exclusive groups, the `--help` table, the
//! ordered modifier-requires rules, the recovery hints attached to them, and
//! the enum-valued flags.

use vstd::prelude::*;



verus! {

/// Value kind of a flag.
#[derive(Debug, Clone, Copy, PartialEq, Eq)]
pub enum FlagKind {
    Bool,
    Str,
    Int,
    Float,
    RepeatableStr,
}

/// A single CLI flag definition.
#[derive(Debug, Clone, Copy)]
pub struct FlagDef {
    /// Long name without leading dashes.
    pub name: &'static str,
    /// Value kind.
    pub kind: FlagKind,
    /// True when this flag alone is a primary command.
    pub primary: bool,
    /// Exclusive group when primary.
    pub group: Option<&'static str>,
}

/// One row of the two-column `--help` listing.
#[derive(Debug, Clone, Copy, PartialEq, Eq)]
pub struct HelpFlag {
    /// Long name without leading dashes.
    pub name: &'static str,
    /// Single-letter alias, when one is registered.
    pub short: Option<char>,
    /// A section title from `help_sections`.
    pub section: &'static str,
    /// The value type printed after the flag name; empty for booleans.
    pub type_word: &'static str,
    /// Usage text, including any `(default ...)` suffix.
    pub help: &'static str,
}

/// Program name printed in the `--help` banner.
pub const HELP_PROGRAM: &'static str = "bv";

/// Column budget for the wrapped `--help` text.
pub const HELP_COLS: usize = 100;

/// A boolean modifier flag.
pub open spec fn bool_flag(name: &'static str) -> FlagDef {
    FlagDef { name, kind: FlagKind::Bool, primary: false, group: None }
}

/// A string modifier flag.
pub open spec fn str_flag(name: &'static str) -> FlagDef {
    FlagDef { name, kind: FlagKind::Str, primary: false, group: None }
}

/// An integer modifier flag.
pub open spec fn int_flag(name: &'static str) -> FlagDef {
    FlagDef { name, kind: FlagKind::Int, primary: false, group: None }
}

/// A floating-point modifier flag.
pub open spec fn float_flag(name: &'static str) -> FlagDef {
    FlagDef { name, kind: FlagKind::Float, primary: false, group: None }
}

/// A primary robot command in an exclusive group.
pub open spec fn primary_flag(name: &'static str, kind: FlagKind, group: &'static str) -> FlagDef {
    FlagDef { name, kind, primary: true, group: Some(group) }
}

/// Builds a boolean modifier definition.
pub fn b(name: &'static str) -> (f: FlagDef)
    ensures
        f == bool_flag(name),
{
    FlagDef { name, kind: FlagKind::Bool, primary: false, group: None }
}

/// Builds a string modifier definition.
pub fn s(name: &'static str) -> (f: FlagDef)
    ensures
        f == str_flag(name),
{
    FlagDef { name, kind: FlagKind::Str, primary: false, group: None }
}

/// Builds an integer modifier definition.
pub fn i(name: &'static str) -> (f: FlagDef)
    ensures
        f == int_flag(name),
{
    FlagDef { name, kind: FlagKind::Int, primary: false, group: None }
}

/// Builds a floating-point modifier definition.
pub fn f2(name: &'static str) -> (f: FlagDef)
    ensures
        f == float_flag(name),
{
    FlagDef { name, kind: FlagKind::Float, primary: false, group: None }
}

/// Builds a primary command definition.
pub fn p(name: &'static str, kind: FlagKind, group: &'static str) -> (f: FlagDef)
    ensures
        f == primary_flag(name, kind, group),
{
    FlagDef { name, kind, primary: true, group: Some(group) }
}

/// The robot primary commands, in registration order.
pub open spec fn spec_robot_primaries() -> Seq<FlagDef> {
    seq![
        primary_flag("robot-help", FlagKind::Bool, "meta"),
        primary_flag("robot-capabilities", FlagKind::Bool, "meta"),
        primary_flag("robot-docs", FlagKind::Str, "meta"),
        primary_flag("robot-schema", FlagKind::Bool, "meta"),
        primary_flag("robot-recipes", FlagKind::Bool, "meta"),
        primary_flag("robot-metrics", FlagKind::Bool, "meta"),
        primary_flag("robot-triage", FlagKind::Bool, "triage"),
        primary_flag("robot-next", FlagKind::Bool, "triage"),
        primary_flag("robot-triage-by-track", FlagKind::Bool, "triage"),
        primary_flag("robot-triage-by-label", FlagKind::Bool, "triage"),
        primary_flag("robot-insights", FlagKind::Bool, "insights"),
        primary_flag("robot-plan", FlagKind::Bool, "plan"),
        primary_flag("robot-priority", FlagKind::Bool, "priority"),
        primary_flag("robot-alerts", FlagKind::Bool, "alerts"),
        primary_flag("robot-suggest", FlagKind::Bool, "suggest"),
        primary_flag("robot-graph", FlagKind::Bool, "graph"),
        primary_flag("robot-search", FlagKind::Bool, "search"),
        primary_flag("robot-diff", FlagKind::Bool, "diff"),
        primary_flag("robot-drift", FlagKind::Bool, "drift"),
        primary_flag("robot-history", FlagKind::Bool, "history"),
        primary_flag("robot-explain-correlation", FlagKind::Str, "corr-feedback"),
        primary_flag("robot-confirm-correlation", FlagKind::Str, "corr-feedback"),
        primary_flag("robot-reject-correlation", FlagKind::Str, "corr-feedback"),
        primary_flag("robot-correlation-stats", FlagKind::Bool, "corr-stats"),
        primary_flag("robot-orphans", FlagKind::Bool, "orphans"),
        primary_flag("robot-file-beads", FlagKind::Str, "file-beads"),
        primary_flag("robot-file-hotspots", FlagKind::Bool, "hotspots"),
        primary_flag("robot-impact", FlagKind::Str, "impact"),
        primary_flag("robot-file-relations", FlagKind::Str, "file-relations"),
        primary_flag("robot-related", FlagKind::Str, "related"),
        primary_flag("robot-blocker-chain", FlagKind::Str, "blocker-chain"),
        primary_flag("robot-impact-network", FlagKind::Str, "impact-network"),
        primary_flag("robot-causality", FlagKind::Str, "causality"),
        primary_flag("robot-sprint-list", FlagKind::Bool, "sprints"),
        primary_flag("robot-sprint-show", FlagKind::Str, "sprints"),
        primary_flag("robot-forecast", FlagKind::Str, "forecast"),
        primary_flag("robot-capacity", FlagKind::Bool, "capacity"),
        primary_flag("robot-burndown", FlagKind::Str, "burndown"),
        primary_flag("robot-label-health", FlagKind::Bool, "label-health"),
        primary_flag("robot-label-flow", FlagKind::Bool, "label-flow"),
        primary_flag("robot-label-attention", FlagKind::Bool, "label-attention"),
    ]
}

/// The robot primary commands, in registration order.
pub fn robot_primaries() -> (r: Vec<FlagDef>)
    ensures
        r@ == spec_robot_primaries(),
{
    vec![
        p("robot-help", FlagKind::Bool, "meta"),
        p("robot-capabilities", FlagKind::Bool, "meta"),
        p("robot-docs", FlagKind::Str, "meta"),
        p("robot-schema", FlagKind::Bool, "meta"),
        p("robot-recipes", FlagKind::Bool, "meta"),
        p("robot-metrics", FlagKind::Bool, "meta"),
        p("robot-triage", FlagKind::Bool, "triage"),
        p("robot-next", FlagKind::Bool, "triage"),
        p("robot-triage-by-track", FlagKind::Bool, "triage"),
        p("robot-triage-by-label", FlagKind::Bool, "triage"),
        p("robot-insights", FlagKind::Bool, "insights"),
        p("robot-plan", FlagKind::Bool, "plan"),
        p("robot-priority", FlagKind::Bool, "priority"),
        p("robot-alerts", FlagKind::Bool, "alerts"),
        p("robot-suggest", FlagKind::Bool, "suggest"),
        p("robot-graph", FlagKind::Bool, "graph"),
        p("robot-search", FlagKind::Bool, "search"),
        p("robot-diff", FlagKind::Bool, "diff"),
        p("robot-drift", FlagKind::Bool, "drift"),
        p("robot-history", FlagKind::Bool, "history"),
        p("robot-explain-correlation", FlagKind::Str, "corr-feedback"),
        p("robot-confirm-correlation", FlagKind::Str, "corr-feedback"),
        p("robot-reject-correlation", FlagKind::Str, "corr-feedback"),
        p("robot-correlation-stats", FlagKind::Bool, "corr-stats"),
        p("robot-orphans", FlagKind::Bool, "orphans"),
        p("robot-file-beads", FlagKind::Str, "file-beads"),
        p("robot-file-hotspots", FlagKind::Bool, "hotspots"),
        p("robot-impact", FlagKind::Str, "impact"),
        p("robot-file-relations", FlagKind::Str, "file-relations"),
        p("robot-related", FlagKind::Str, "related"),
        p("robot-blocker-chain", FlagKind::Str, "blocker-chain"),
        p("robot-impact-network", FlagKind::Str, "impact-network"),
        p("robot-causality", FlagKind::Str, "causality"),
        p("robot-sprint-list", FlagKind::Bool, "sprints"),
        p("robot-sprint-show", FlagKind::Str, "sprints"),
        p("robot-forecast", FlagKind::Str, "forecast"),
        p("robot-capacity", FlagKind::Bool, "capacity"),
        p("robot-burndown", FlagKind::Str, "burndown"),
        p("robot-label-health", FlagKind::Bool, "label-health"),
        p("robot-label-flow", FlagKind::Bool, "label-flow"),
        p("robot-label-attention", FlagKind::Bool, "label-attention"),
    ]
}

/// The non-primary flags: general switches, scoping and modifiers.
pub open spec fn spec_modifier_flags() -> Seq<FlagDef> {
    seq![
        bool_flag("version"),
        str_flag("db"),
        bool_flag("update"),
        bool_flag("check-update"),
        bool_flag("rollback"),
        bool_flag("update-dry-run"),
        bool_flag("yes"),
        str_flag("format"),
        bool_flag("stats"),
        bool_flag("profile-startup"),
        bool_flag("profile-json"),
        bool_flag("no-cache"),
        bool_flag("force-full-analysis"),
        str_flag("theme"),
        bool_flag("background-mode"),
        bool_flag("no-background-mode"),
        str_flag("cpu-profile"),
        bool_flag("generate-docs"),
        bool_flag("brief"),
        int_flag("attention-limit"),
        str_flag("robot-not-ready-labels"),
        int_flag("robot-history-timeout-ms"),
        str_flag("graph-format"),
        str_flag("graph-root"),
        int_flag("graph-depth"),
        str_flag("graph-preset"),
        str_flag("graph-title"),
        str_flag("export-graph"),
        str_flag("export"),
        str_flag("export-format"),
        bool_flag("export-include-graph"),
        str_flag("export-template"),
        str_flag("severity"),
        str_flag("alert-type"),
        str_flag("alert-label"),
        str_flag("suggest-type"),
        str_flag("suggest-confidence"),
        str_flag("suggest-bead"),
        str_flag("label"),
        str_flag("recipe"),
        str_flag("workspace"),
        str_flag("repo"),
        str_flag("as-of"),
        str_flag("diff-since"),
        str_flag("save-baseline"),
        bool_flag("baseline-info"),
        bool_flag("check-drift"),
        str_flag("bead-history"),
        str_flag("history-since"),
        int_flag("history-limit"),
        str_flag("min-confidence"),
        str_flag("id-pattern"),
        str_flag("correlation-by"),
        str_flag("correlation-reason"),
        int_flag("orphans-min-score"),
        int_flag("file-beads-limit"),
        int_flag("hotspots-limit"),
        str_flag("relations-threshold"),
        int_flag("relations-limit"),
        str_flag("related-min-relevance"),
        int_flag("related-max-results"),
        bool_flag("related-include-closed"),
        int_flag("network-depth"),
        str_flag("search"),
        int_flag("search-limit"),
        str_flag("search-min-score"),
        str_flag("search-mode"),
        str_flag("search-preset"),
        str_flag("search-weights"),
        str_flag("forecast-label"),
        str_flag("forecast-sprint"),
        int_flag("forecast-agents"),
        int_flag("agents"),
        str_flag("capacity-label"),
        str_flag("robot-by-label"),
        str_flag("robot-by-assignee"),
        float_flag("robot-min-confidence"),
        int_flag("robot-max-results"),
        bool_flag("emit-script"),
        int_flag("script-limit"),
        str_flag("script-format"),
        str_flag("feedback-accept"),
        str_flag("feedback-ignore"),
        bool_flag("feedback-reset"),
        bool_flag("feedback-show"),
        str_flag("export-md"),
        bool_flag("no-hooks"),
        str_flag("priority-brief"),
        str_flag("agent-brief"),
        str_flag("export-pages"),
        str_flag("pages-title"),
        bool_flag("pages-include-closed"),
        bool_flag("pages-include-history"),
        str_flag("preview-pages"),
        bool_flag("no-live-reload"),
        bool_flag("watch-export"),
        bool_flag("pages"),
        str_flag("schema-command"),
        str_flag("debug-render"),
        int_flag("debug-width"),
        int_flag("debug-height"),
        bool_flag("agents-add"),
        bool_flag("agents-remove"),
        bool_flag("agents-update"),
        bool_flag("agents-check"),
        bool_flag("agents-dry-run"),
        bool_flag("agents-force"),
    ]
}

/// The non-primary flags: general switches, scoping and modifiers.
pub fn modifier_flags() -> (r: Vec<FlagDef>)
    ensures
        r@ == spec_modifier_flags(),
{
    vec![
        b("version"),
        s("db"),
        b("update"),
        b("check-update"),
        b("rollback"),
        b("update-dry-run"),
        b("yes"),
        s("format"),
        b("stats"),
        b("profile-startup"),
        b("profile-json"),
        b("no-cache"),
        b("force-full-analysis"),
        s("theme"),
        b("background-mode"),
        b("no-background-mode"),
        s("cpu-profile"),
        b("generate-docs"),
        b("brief"),
        i("attention-limit"),
        s("robot-not-ready-labels"),
        i("robot-history-timeout-ms"),
        s("graph-format"),
        s("graph-root"),
        i("graph-depth"),
        s("graph-preset"),
        s("graph-title"),
        s("export-graph"),
        s("export"),
        s("export-format"),
        b("export-include-graph"),
        s("export-template"),
        s("severity"),
        s("alert-type"),
        s("alert-label"),
        s("suggest-type"),
        s("suggest-confidence"),
        s("suggest-bead"),
        s("label"),
        s("recipe"),
        s("workspace"),
        s("repo"),
        s("as-of"),
        s("diff-since"),
        s("save-baseline"),
        b("baseline-info"),
        b("check-drift"),
        s("bead-history"),
        s("history-since"),
        i("history-limit"),
        s("min-confidence"),
        s("id-pattern"),
        s("correlation-by"),
        s("correlation-reason"),
        i("orphans-min-score"),
        i("file-beads-limit"),
        i("hotspots-limit"),
        s("relations-threshold"),
        i("relations-limit"),
        s("related-min-relevance"),
        i("related-max-results"),
        b("related-include-closed"),
        i("network-depth"),
        s("search"),
        i("search-limit"),
        s("search-min-score"),
        s("search-mode"),
        s("search-preset"),
        s("search-weights"),
        s("forecast-label"),
        s("forecast-sprint"),
        i("forecast-agents"),
        i("agents"),
        s("capacity-label"),
        s("robot-by-label"),
        s("robot-by-assignee"),
        f2("robot-min-confidence"),
        i("robot-max-results"),
        b("emit-script"),
        i("script-limit"),
        s("script-format"),
        s("feedback-accept"),
        s("feedback-ignore"),
        b("feedback-reset"),
        b("feedback-show"),
        s("export-md"),
        b("no-hooks"),
        s("priority-brief"),
        s("agent-brief"),
        s("export-pages"),
        s("pages-title"),
        b("pages-include-closed"),
        b("pages-include-history"),
        s("preview-pages"),
        b("no-live-reload"),
        b("watch-export"),
        b("pages"),
        s("schema-command"),
        s("debug-render"),
        i("debug-width"),
        i("debug-height"),
        b("agents-add"),
        b("agents-remove"),
        b("agents-update"),
        b("agents-check"),
        b("agents-dry-run"),
        b("agents-force"),
    ]
}

/// Section headers of `--help`, in the order they are printed.
pub open spec fn spec_help_sections() -> Seq<&'static str> {
    seq!["General Flags", "Search & Filters", "Robot & Planning Flags", "History & Drift", "Export & Reporting", "Agent File Management", "Other Flags"]
}

/// Section headers of `--help`, in the order they are printed.
pub fn help_sections() -> (r: Vec<&'static str>)
    ensures
        r@ == spec_help_sections(),
{
    vec!["General Flags", "Search & Filters", "Robot & Planning Flags", "History & Drift", "Export & Reporting", "Agent File Management", "Other Flags"]
}

/// Every advertised flag, in registration order (the `--help` order).
pub open spec fn spec_help_flags() -> Seq<HelpFlag> {
    seq![
        HelpFlag { name: "cpu-profile", short: None, section: "General Flags", type_word: "string", help: "Write CPU profile to file" },
        HelpFlag { name: "generate-docs", short: None, section: "Other Flags", type_word: "", help: "Generate documentation markdown and JSON artifacts" },
        HelpFlag { name: "db", short: None, section: "General Flags", type_word: "string", help: "Path to beads database file or .beads directory (overrides BEADS_DB and BEADS_DIR env vars)" },
        HelpFlag { name: "version", short: None, section: "General Flags", type_word: "", help: "Show version" },
        HelpFlag { name: "update", short: None, section: "General Flags", type_word: "", help: "Update bv to the latest version" },
        HelpFlag { name: "check-update", short: None, section: "General Flags", type_word: "", help: "Check if a new version is available" },
        HelpFlag { name: "rollback", short: None, section: "General Flags", type_word: "", help: "Rollback to the previous version (from backup)" },
        HelpFlag { name: "update-dry-run", short: None, section: "General Flags", type_word: "", help: "Show what an update would do without installing (use via 'bv upgrade --dry-run')" },
        HelpFlag { name: "yes", short: None, section: "General Flags", type_word: "", help: "Skip confirmation prompts (use with --update)" },
        HelpFlag { name: "export-md", short: None, section: "Export & Reporting", type_word: "string", help: "Export issues to a Markdown file (e.g., report.md)" },
        HelpFlag { name: "export", short: None, section: "Export & Reporting", type_word: "string", help: "Export a report using recipe defaults or explicit export options" },
        HelpFlag { name: "export-format", short: None, section: "Export & Reporting", type_word: "string", help: "Report format: markdown, json, csv or mermaid" },
        HelpFlag { name: "export-include-graph", short: None, section: "Export & Reporting", type_word: "", help: "Include dependency context in the report (explicit false overrides recipe) (default true)" },
        HelpFlag { name: "export-template", short: None, section: "Export & Reporting", type_word: "string", help: "Markdown template path; explicit empty disables a recipe template" },
        HelpFlag { name: "robot-help", short: None, section: "Robot & Planning Flags", type_word: "", help: "Show AI agent help" },
        HelpFlag { name: "robot-capabilities", short: None, section: "Robot & Planning Flags", type_word: "", help: "Output machine-readable command capabilities for AI agents" },
        HelpFlag { name: "robot-docs", short: None, section: "Robot & Planning Flags", type_word: "string", help: "Machine-readable JSON docs for AI agents. Topics: guide, commands, examples, env, exit-codes, all" },
        HelpFlag { name: "format", short: Some('f'), section: "General Flags", type_word: "string", help: "Structured output format for --robot-* commands: json or toon (env: BV_OUTPUT_FORMAT, TOON_DEFAULT_FORMAT)" },
        HelpFlag { name: "stats", short: None, section: "General Flags", type_word: "", help: "Show JSON vs TOON token estimates on stderr (env: TOON_STATS=1)" },
        HelpFlag { name: "robot-insights", short: None, section: "Robot & Planning Flags", type_word: "", help: "Output graph analysis and insights as JSON for AI agents" },
        HelpFlag { name: "robot-plan", short: None, section: "Robot & Planning Flags", type_word: "", help: "Output dependency-respecting execution plan as JSON for AI agents" },
        HelpFlag { name: "robot-priority", short: None, section: "Robot & Planning Flags", type_word: "", help: "Output priority recommendations as JSON for AI agents" },
        HelpFlag { name: "robot-triage", short: None, section: "Robot & Planning Flags", type_word: "", help: "Output unified triage as JSON (the mega-command for AI agents)" },
        HelpFlag { name: "robot-triage-by-track", short: None, section: "Robot & Planning Flags", type_word: "", help: "Group triage recommendations by execution track (bv-87)" },
        HelpFlag { name: "robot-triage-by-label", short: None, section: "Robot & Planning Flags", type_word: "", help: "Group triage recommendations by label (bv-87)" },
        HelpFlag { name: "robot-next", short: None, section: "Robot & Planning Flags", type_word: "", help: "Output only the top pick recommendation as JSON (minimal triage)" },
        HelpFlag { name: "brief", short: None, section: "Robot & Planning Flags", type_word: "", help: "Compact --robot-triage output: only decision-relevant fields (id, title, status, assignee, blockers, unblocks) (#183)" },
        HelpFlag { name: "robot-not-ready-labels", short: None, section: "Robot & Planning Flags", type_word: "string", help: "Comma-separated labels marking a bead not-ready: excluded from claimable --robot-next/--robot-triage top picks (env: BV_ROBOT_NOT_READY_LABELS; #173)" },
        HelpFlag { name: "robot-diff", short: None, section: "Robot & Planning Flags", type_word: "", help: "Output diff as JSON (use with --diff-since)" },
        HelpFlag { name: "robot-recipes", short: None, section: "Robot & Planning Flags", type_word: "", help: "Output available recipes as JSON for AI agents" },
        HelpFlag { name: "robot-label-health", short: None, section: "Robot & Planning Flags", type_word: "", help: "Output label health metrics as JSON for AI agents" },
        HelpFlag { name: "robot-label-flow", short: None, section: "Robot & Planning Flags", type_word: "", help: "Output cross-label dependency flow as JSON for AI agents" },
        HelpFlag { name: "robot-label-attention", short: None, section: "Robot & Planning Flags", type_word: "", help: "Output attention-ranked labels as JSON for AI agents" },
        HelpFlag { name: "attention-limit", short: None, section: "Robot & Planning Flags", type_word: "int", help: "Limit number of labels in --robot-label-attention output (default 5)" },
        HelpFlag { name: "robot-alerts", short: None, section: "Robot & Planning Flags", type_word: "", help: "Output alerts (drift + proactive) as JSON for AI agents" },
        HelpFlag { name: "robot-metrics", short: None, section: "Robot & Planning Flags", type_word: "", help: "Output performance metrics (timing, cache, memory) as JSON" },
        HelpFlag { name: "robot-schema", short: None, section: "Robot & Planning Flags", type_word: "", help: "Output JSON Schema definitions for all robot commands" },
        HelpFlag { name: "schema-command", short: None, section: "Robot & Planning Flags", type_word: "string", help: "Output schema for specific command only (e.g., robot-triage)" },
        HelpFlag { name: "robot-suggest", short: None, section: "Robot & Planning Flags", type_word: "", help: "Output smart suggestions (duplicates, dependencies, labels, cycles) as JSON" },
        HelpFlag { name: "suggest-type", short: None, section: "Robot & Planning Flags", type_word: "string", help: "Filter suggestions by type: duplicate, dependency, label, cycle" },
        HelpFlag { name: "suggest-confidence", short: None, section: "Robot & Planning Flags", type_word: "float", help: "Minimum confidence for suggestions (0.0-1.0)" },
        HelpFlag { name: "suggest-bead", short: None, section: "Robot & Planning Flags", type_word: "string", help: "Filter suggestions for specific bead ID" },
        HelpFlag { name: "robot-graph", short: None, section: "Robot & Planning Flags", type_word: "", help: "Output dependency graph as JSON/DOT/Mermaid for AI agents" },
        HelpFlag { name: "graph-format", short: None, section: "Robot & Planning Flags", type_word: "string", help: "Graph output format: json, dot, mermaid (default \"json\")" },
        HelpFlag { name: "graph-root", short: None, section: "Robot & Planning Flags", type_word: "string", help: "Subgraph from specific root issue ID" },
        HelpFlag { name: "graph-depth", short: None, section: "Robot & Planning Flags", type_word: "int", help: "Max depth for subgraph (0 = unlimited)" },
        HelpFlag { name: "export-graph", short: None, section: "Export & Reporting", type_word: "string", help: "Export graph: .html for interactive, .png/.svg for static (auto-names if empty)" },
        HelpFlag { name: "graph-preset", short: None, section: "Export & Reporting", type_word: "string", help: "Graph layout preset: compact (default) or roomy (default \"compact\")" },
        HelpFlag { name: "graph-title", short: None, section: "Export & Reporting", type_word: "string", help: "Title for graph export (default: project name)" },
        HelpFlag { name: "robot-min-confidence", short: None, section: "Search & Filters", type_word: "float", help: "Filter robot outputs by minimum confidence (0.0-1.0)" },
        HelpFlag { name: "robot-max-results", short: None, section: "Search & Filters", type_word: "int", help: "Limit robot output count (0 = use defaults)" },
        HelpFlag { name: "robot-by-label", short: None, section: "Search & Filters", type_word: "string", help: "Filter robot outputs by label (exact match)" },
        HelpFlag { name: "robot-by-assignee", short: None, section: "Search & Filters", type_word: "string", help: "Filter robot outputs by assignee (exact match)" },
        HelpFlag { name: "label", short: Some('l'), section: "Search & Filters", type_word: "string", help: "Scope analysis to label's subgraph (applies to every --robot-* command that loads issues, e.g. --robot-insights, --robot-plan, --robot-priority, --robot-orphans)" },
        HelpFlag { name: "severity", short: None, section: "Search & Filters", type_word: "string", help: "Filter robot alerts by severity (info|warning|critical)" },
        HelpFlag { name: "alert-type", short: None, section: "Search & Filters", type_word: "string", help: "Filter robot alerts by alert type (e.g., stale_issue)" },
        HelpFlag { name: "alert-label", short: None, section: "Search & Filters", type_word: "string", help: "Filter robot alerts by label match" },
        HelpFlag { name: "recipe", short: Some('r'), section: "Search & Filters", type_word: "string", help: "Apply a recipe by name (e.g., triage, actionable, high-impact) or by .yaml/.yml file path (e.g., .beads/recipes/sprint.yaml)" },
        HelpFlag { name: "search", short: None, section: "Search & Filters", type_word: "string", help: "Hashed keyword search query (builds/updates index on first run)" },
        HelpFlag { name: "robot-search", short: None, section: "Robot & Planning Flags", type_word: "", help: "Output keyword or hybrid search results as JSON for AI agents (use with --search)" },
        HelpFlag { name: "search-limit", short: None, section: "Search & Filters", type_word: "int", help: "Max results for --search/--robot-search (default 10)" },
        HelpFlag { name: "search-min-score", short: None, section: "Search & Filters", type_word: "string", help: "Minimum text similarity before hybrid ranking (-1..1); exact IDs also obey this threshold" },
        HelpFlag { name: "search-mode", short: None, section: "Search & Filters", type_word: "string", help: "Search ranking mode: text or hybrid (default: BV_SEARCH_MODE or text)" },
        HelpFlag { name: "search-preset", short: None, section: "Search & Filters", type_word: "string", help: "Hybrid preset name (default: BV_SEARCH_PRESET or default)" },
        HelpFlag { name: "search-weights", short: None, section: "Search & Filters", type_word: "string", help: "Hybrid weights JSON (overrides preset; keys: text,pagerank,status,impact,priority,recency)" },
        HelpFlag { name: "diff-since", short: None, section: "History & Drift", type_word: "string", help: "Show changes since historical point (commit SHA, branch, tag, or date)" },
        HelpFlag { name: "as-of", short: None, section: "History & Drift", type_word: "string", help: "View state at point in time (commit SHA, branch, tag, or date)" },
        HelpFlag { name: "no-cache", short: None, section: "General Flags", type_word: "", help: "Bypass disk cache for robot triage (also: BV_NO_CACHE=1)" },
        HelpFlag { name: "force-full-analysis", short: None, section: "General Flags", type_word: "", help: "Compute all metrics regardless of graph size (may be slow for large graphs)" },
        HelpFlag { name: "profile-startup", short: None, section: "General Flags", type_word: "", help: "Output detailed startup timing profile for diagnostics" },
        HelpFlag { name: "profile-json", short: None, section: "General Flags", type_word: "", help: "Output profile in JSON format (use with --profile-startup)" },
        HelpFlag { name: "no-hooks", short: None, section: "Export & Reporting", type_word: "", help: "Skip running hooks during export" },
        HelpFlag { name: "workspace", short: None, section: "Search & Filters", type_word: "string", help: "Load issues from workspace config file (.bv/workspace.yaml)" },
        HelpFlag { name: "repo", short: None, section: "Search & Filters", type_word: "string", help: "Filter issues by repository prefix (e.g., 'api-' or 'api')" },
        HelpFlag { name: "save-baseline", short: None, section: "History & Drift", type_word: "string", help: "Save current metrics as baseline with optional description" },
        HelpFlag { name: "baseline-info", short: None, section: "History & Drift", type_word: "", help: "Show information about the current baseline" },
        HelpFlag { name: "check-drift", short: None, section: "History & Drift", type_word: "", help: "Check for drift from baseline (exit codes: 0=OK, 1=critical, 2=warning)" },
        HelpFlag { name: "robot-drift", short: None, section: "Robot & Planning Flags", type_word: "", help: "Output drift check as JSON (use with --check-drift)" },
        HelpFlag { name: "robot-history", short: None, section: "Robot & Planning Flags", type_word: "", help: "Output bead-to-commit correlations as JSON" },
        HelpFlag { name: "bead-history", short: None, section: "History & Drift", type_word: "string", help: "Show history for specific bead ID" },
        HelpFlag { name: "history-since", short: None, section: "History & Drift", type_word: "string", help: "Limit history to commits after this date/ref (e.g., '30 days ago', '2024-01-01')" },
        HelpFlag { name: "history-limit", short: None, section: "History & Drift", type_word: "int", help: "Max commits to analyze (0 = unlimited) (default 500)" },
        HelpFlag { name: "robot-history-timeout-ms", short: None, section: "Robot & Planning Flags", type_word: "int", help: "Budget in ms for the git-history prologue of robot triage (0 = unbounded; default 10000, env BV_ROBOT_HISTORY_TIMEOUT_MS) (default -1)" },
        HelpFlag { name: "min-confidence", short: None, section: "History & Drift", type_word: "float", help: "Filter correlations by minimum confidence (0.0-1.0)" },
        HelpFlag { name: "id-pattern", short: None, section: "Other Flags", type_word: "stringArray", help: "Custom bead ID regex for commit-message matching, e.g. 'bh-[a-z0-9]{5}' (repeatable; capture group 1 is the ID, else the whole match) (#188)" },
        HelpFlag { name: "robot-explain-correlation", short: None, section: "Robot & Planning Flags", type_word: "string", help: "Explain why a commit is linked to a bead (format: SHA:beadID)" },
        HelpFlag { name: "robot-confirm-correlation", short: None, section: "Robot & Planning Flags", type_word: "string", help: "Confirm a correlation is correct (format: SHA:beadID)" },
        HelpFlag { name: "robot-reject-correlation", short: None, section: "Robot & Planning Flags", type_word: "string", help: "Reject an incorrect correlation (format: SHA:beadID)" },
        HelpFlag { name: "correlation-by", short: None, section: "Robot & Planning Flags", type_word: "string", help: "Agent/user identifier for correlation feedback" },
        HelpFlag { name: "correlation-reason", short: None, section: "Robot & Planning Flags", type_word: "string", help: "Reason for correlation feedback" },
        HelpFlag { name: "robot-correlation-stats", short: None, section: "Robot & Planning Flags", type_word: "", help: "Output correlation feedback statistics as JSON" },
        HelpFlag { name: "robot-orphans", short: None, section: "Robot & Planning Flags", type_word: "", help: "Output orphan commit candidates (commits that should be linked but aren't) as JSON" },
        HelpFlag { name: "orphans-min-score", short: None, section: "Robot & Planning Flags", type_word: "int", help: "Minimum suspicion score for orphan candidates (0-100) (default 30)" },
        HelpFlag { name: "robot-file-beads", short: None, section: "Robot & Planning Flags", type_word: "string", help: "Output beads that touched a file path as JSON" },
        HelpFlag { name: "file-beads-limit", short: None, section: "Robot & Planning Flags", type_word: "int", help: "Max closed beads to show (use with --robot-file-beads) (default 20)" },
        HelpFlag { name: "robot-file-hotspots", short: None, section: "Robot & Planning Flags", type_word: "", help: "Output files touched by most beads as JSON" },
        HelpFlag { name: "hotspots-limit", short: None, section: "Robot & Planning Flags", type_word: "int", help: "Max hotspots to show (use with --robot-file-hotspots) (default 10)" },
        HelpFlag { name: "robot-impact", short: None, section: "Robot & Planning Flags", type_word: "string", help: "Analyze impact of modifying files (comma-separated paths)" },
        HelpFlag { name: "robot-file-relations", short: None, section: "Robot & Planning Flags", type_word: "string", help: "Output files that frequently co-change with the given file path" },
        HelpFlag { name: "relations-threshold", short: None, section: "Robot & Planning Flags", type_word: "float", help: "Minimum correlation threshold (0.0-1.0) for related files (default 0.5)" },
        HelpFlag { name: "relations-limit", short: None, section: "Robot & Planning Flags", type_word: "int", help: "Max related files to show (default 10)" },
        HelpFlag { name: "robot-related", short: None, section: "Robot & Planning Flags", type_word: "string", help: "Output beads related to a specific bead ID as JSON" },
        HelpFlag { name: "related-min-relevance", short: None, section: "Robot & Planning Flags", type_word: "percent_or_fraction", help: "Minimum relevance score for related work (int 0-100 percent OR float 0.0-1.0 fraction) (default 20)" },
        HelpFlag { name: "related-max-results", short: None, section: "Robot & Planning Flags", type_word: "int", help: "Max results per category for related work (default 10)" },
        HelpFlag { name: "related-include-closed", short: None, section: "Robot & Planning Flags", type_word: "", help: "Include closed beads in related work results" },
        HelpFlag { name: "robot-blocker-chain", short: None, section: "Robot & Planning Flags", type_word: "string", help: "Output full blocker chain analysis for issue ID as JSON" },
        HelpFlag { name: "robot-impact-network", short: None, section: "Robot & Planning Flags", type_word: "string", help: "Output bead impact network as JSON (empty for full, or bead ID for subnetwork)" },
        HelpFlag { name: "network-depth", short: None, section: "Other Flags", type_word: "int", help: "Depth of subnetwork when querying specific bead (1-3) (default 2)" },
        HelpFlag { name: "robot-causality", short: None, section: "Robot & Planning Flags", type_word: "string", help: "Output causal chain analysis for bead ID as JSON" },
        HelpFlag { name: "robot-sprint-list", short: None, section: "Robot & Planning Flags", type_word: "", help: "Output sprints as JSON" },
        HelpFlag { name: "robot-sprint-show", short: None, section: "Robot & Planning Flags", type_word: "string", help: "Output specific sprint details as JSON" },
        HelpFlag { name: "robot-forecast", short: None, section: "Robot & Planning Flags", type_word: "string", help: "Output ETA forecast for bead ID, or 'all' for all open issues" },
        HelpFlag { name: "forecast-label", short: None, section: "Robot & Planning Flags", type_word: "string", help: "Filter forecast by label" },
        HelpFlag { name: "forecast-sprint", short: None, section: "Robot & Planning Flags", type_word: "string", help: "Filter forecast by sprint ID" },
        HelpFlag { name: "forecast-agents", short: None, section: "Robot & Planning Flags", type_word: "int", help: "Number of parallel agents for capacity calculation (default 1)" },
        HelpFlag { name: "robot-capacity", short: None, section: "Robot & Planning Flags", type_word: "", help: "Output capacity simulation and completion projection as JSON" },
        HelpFlag { name: "agents", short: None, section: "Robot & Planning Flags", type_word: "int", help: "Number of parallel agents for capacity simulation (default 1)" },
        HelpFlag { name: "capacity-label", short: None, section: "Robot & Planning Flags", type_word: "string", help: "Filter capacity simulation by label" },
        HelpFlag { name: "robot-burndown", short: None, section: "Robot & Planning Flags", type_word: "string", help: "Output burndown data for sprint ID, or 'current' for active sprint" },
        HelpFlag { name: "emit-script", short: None, section: "Export & Reporting", type_word: "", help: "Emit shell script for top-N recommendations (agent workflows)" },
        HelpFlag { name: "script-limit", short: None, section: "Export & Reporting", type_word: "int", help: "Limit number of items in emitted script (use with --emit-script) (default 5)" },
        HelpFlag { name: "script-format", short: None, section: "Export & Reporting", type_word: "string", help: "Script format: bash, fish, or zsh (use with --emit-script) (default \"bash\")" },
        HelpFlag { name: "feedback-accept", short: None, section: "Other Flags", type_word: "string", help: "Record accept feedback for issue ID (tunes recommendation weights)" },
        HelpFlag { name: "feedback-ignore", short: None, section: "Other Flags", type_word: "string", help: "Record ignore feedback for issue ID (tunes recommendation weights)" },
        HelpFlag { name: "feedback-reset", short: None, section: "Other Flags", type_word: "", help: "Reset all feedback data to defaults" },
        HelpFlag { name: "feedback-show", short: None, section: "Other Flags", type_word: "", help: "Show current feedback status and weight adjustments" },
        HelpFlag { name: "priority-brief", short: None, section: "Export & Reporting", type_word: "string", help: "Export priority brief to Markdown file (e.g., brief.md)" },
        HelpFlag { name: "agent-brief", short: None, section: "Export & Reporting", type_word: "string", help: "Export agent brief bundle to directory (includes triage.json, insights.json, brief.md, helpers.md)" },
        HelpFlag { name: "export-pages", short: None, section: "Export & Reporting", type_word: "string", help: "Export static site to directory (e.g., ./bv-pages)" },
        HelpFlag { name: "pages-title", short: None, section: "Export & Reporting", type_word: "string", help: "Custom title for static site" },
        HelpFlag { name: "pages-include-closed", short: None, section: "Export & Reporting", type_word: "", help: "Include closed issues in export (default: true) (default true)" },
        HelpFlag { name: "pages-include-history", short: None, section: "Export & Reporting", type_word: "", help: "Include git history for time-travel (default: true) (default true)" },
        HelpFlag { name: "preview-pages", short: None, section: "Export & Reporting", type_word: "string", help: "Preview existing static site bundle" },
        HelpFlag { name: "no-live-reload", short: None, section: "Export & Reporting", type_word: "", help: "Disable live-reload in preview mode" },
        HelpFlag { name: "watch-export", short: None, section: "Export & Reporting", type_word: "", help: "Watch for beads changes and auto-regenerate export (use with --export-pages)" },
        HelpFlag { name: "pages", short: None, section: "Export & Reporting", type_word: "", help: "Launch interactive Pages deployment wizard" },
        HelpFlag { name: "debug-render", short: None, section: "Export & Reporting", type_word: "string", help: "Render a view and output to file (views: insights, board)" },
        HelpFlag { name: "debug-width", short: None, section: "Export & Reporting", type_word: "int", help: "Width for debug render (default 180)" },
        HelpFlag { name: "debug-height", short: None, section: "Export & Reporting", type_word: "int", help: "Height for debug render (default 50)" },
        HelpFlag { name: "theme", short: None, section: "General Flags", type_word: "string", help: "Color theme: light, dark, or auto (default: detect terminal background)" },
        HelpFlag { name: "background-mode", short: None, section: "General Flags", type_word: "", help: "Enable experimental background snapshot loading (TUI only)" },
        HelpFlag { name: "no-background-mode", short: None, section: "General Flags", type_word: "", help: "Disable experimental background snapshot loading (TUI only)" },
        HelpFlag { name: "agents-add", short: None, section: "Agent File Management", type_word: "", help: "Add beads workflow instructions to AGENTS.md (creates file if needed)" },
        HelpFlag { name: "agents-remove", short: None, section: "Agent File Management", type_word: "", help: "Remove beads workflow instructions from AGENTS.md" },
        HelpFlag { name: "agents-update", short: None, section: "Agent File Management", type_word: "", help: "Update beads workflow instructions to latest version" },
        HelpFlag { name: "agents-check", short: None, section: "Agent File Management", type_word: "", help: "Check AGENTS.md blurb status (default if no --agents-* action)" },
        HelpFlag { name: "agents-dry-run", short: None, section: "Agent File Management", type_word: "", help: "Show what would happen without executing (use with --agents-*)" },
        HelpFlag { name: "agents-force", short: None, section: "Agent File Management", type_word: "", help: "Skip confirmation prompts (use with --agents-*)" },
        HelpFlag { name: "help", short: Some('h'), section: "General Flags", type_word: "", help: "help for bv" },
    ]
}

/// Every advertised flag, in registration order (the `--help` order).
pub fn help_flags() -> (r: Vec<HelpFlag>)
    ensures
        r@ == spec_help_flags(),
{
    vec![
        HelpFlag { name: "cpu-profile", short: None, section: "General Flags", type_word: "string", help: "Write CPU profile to file" },
        HelpFlag { name: "generate-docs", short: None, section: "Other Flags", type_word: "", help: "Generate documentation markdown and JSON artifacts" },
        HelpFlag { name: "db", short: None, section: "General Flags", type_word: "string", help: "Path to beads database file or .beads directory (overrides BEADS_DB and BEADS_DIR env vars)" },
        HelpFlag { name: "version", short: None, section: "General Flags", type_word: "", help: "Show version" },
        HelpFlag { name: "update", short: None, section: "General Flags", type_word: "", help: "Update bv to the latest version" },
        HelpFlag { name: "check-update", short: None, section: "General Flags", type_word: "", help: "Check if a new version is available" },
        HelpFlag { name: "rollback", short: None, section: "General Flags", type_word: "", help: "Rollback to the previous version (from backup)" },
        HelpFlag { name: "update-dry-run", short: None, section: "General Flags", type_word: "", help: "Show what an update would do without installing (use via 'bv upgrade --dry-run')" },
        HelpFlag { name: "yes", short: None, section: "General Flags", type_word: "", help: "Skip confirmation prompts (use with --update)" },
        HelpFlag { name: "export-md", short: None, section: "Export & Reporting", type_word: "string", help: "Export issues to a Markdown file (e.g., report.md)" },
        HelpFlag { name: "export", short: None, section: "Export & Reporting", type_word: "string", help: "Export a report using recipe defaults or explicit export options" },
        HelpFlag { name: "export-format", short: None, section: "Export & Reporting", type_word: "string", help: "Report format: markdown, json, csv or mermaid" },
        HelpFlag { name: "export-include-graph", short: None, section: "Export & Reporting", type_word: "", help: "Include dependency context in the report (explicit false overrides recipe) (default true)" },
        HelpFlag { name: "export-template", short: None, section: "Export & Reporting", type_word: "string", help: "Markdown template path; explicit empty disables a recipe template" },
        HelpFlag { name: "robot-help", short: None, section: "Robot & Planning Flags", type_word: "", help: "Show AI agent help" },
        HelpFlag { name: "robot-capabilities", short: None, section: "Robot & Planning Flags", type_word: "", help: "Output machine-readable command capabilities for AI agents" },
        HelpFlag { name: "robot-docs", short: None, section: "Robot & Planning Flags", type_word: "string", help: "Machine-readable JSON docs for AI agents. Topics: guide, commands, examples, env, exit-codes, all" },
        HelpFlag { name: "format", short: Some('f'), section: "General Flags", type_word: "string", help: "Structured output format for --robot-* commands: json or toon (env: BV_OUTPUT_FORMAT, TOON_DEFAULT_FORMAT)" },
        HelpFlag { name: "stats", short: None, section: "General Flags", type_word: "", help: "Show JSON vs TOON token estimates on stderr (env: TOON_STATS=1)" },
        HelpFlag { name: "robot-insights", short: None, section: "Robot & Planning Flags", type_word: "", help: "Output graph analysis and insights as JSON for AI agents" },
        HelpFlag { name: "robot-plan", short: None, section: "Robot & Planning Flags", type_word: "", help: "Output dependency-respecting execution plan as JSON for AI agents" },
        HelpFlag { name: "robot-priority", short: None, section: "Robot & Planning Flags", type_word: "", help: "Output priority recommendations as JSON for AI agents" },
        HelpFlag { name: "robot-triage", short: None, section: "Robot & Planning Flags", type_word: "", help: "Output unified triage as JSON (the mega-command for AI agents)" },
        HelpFlag { name: "robot-triage-by-track", short: None, section: "Robot & Planning Flags", type_word: "", help: "Group triage recommendations by execution track (bv-87)" },
        HelpFlag { name: "robot-triage-by-label", short: None, section: "Robot & Planning Flags", type_word: "", help: "Group triage recommendations by label (bv-87)" },
        HelpFlag { name: "robot-next", short: None, section: "Robot & Planning Flags", type_word: "", help: "Output only the top pick recommendation as JSON (minimal triage)" },
        HelpFlag { name: "brief", short: None, section: "Robot & Planning Flags", type_word: "", help: "Compact --robot-triage output: only decision-relevant fields (id, title, status, assignee, blockers, unblocks) (#183)" },
        HelpFlag { name: "robot-not-ready-labels", short: None, section: "Robot & Planning Flags", type_word: "string", help: "Comma-separated labels marking a bead not-ready: excluded from claimable --robot-next/--robot-triage top picks (env: BV_ROBOT_NOT_READY_LABELS; #173)" },
        HelpFlag { name: "robot-diff", short: None, section: "Robot & Planning Flags", type_word: "", help: "Output diff as JSON (use with --diff-since)" },
        HelpFlag { name: "robot-recipes", short: None, section: "Robot & Planning Flags", type_word: "", help: "Output available recipes as JSON for AI agents" },
        HelpFlag { name: "robot-label-health", short: None, section: "Robot & Planning Flags", type_word: "", help: "Output label health metrics as JSON for AI agents" },
        HelpFlag { name: "robot-label-flow", short: None, section: "Robot & Planning Flags", type_word: "", help: "Output cross-label dependency flow as JSON for AI agents" },
        HelpFlag { name: "robot-label-attention", short: None, section: "Robot & Planning Flags", type_word: "", help: "Output attention-ranked labels as JSON for AI agents" },
        HelpFlag { name: "attention-limit", short: None, section: "Robot & Planning Flags", type_word: "int", help: "Limit number of labels in --robot-label-attention output (default 5)" },
        HelpFlag { name: "robot-alerts", short: None, section: "Robot & Planning Flags", type_word: "", help: "Output alerts (drift + proactive) as JSON for AI agents" },
        HelpFlag { name: "robot-metrics", short: None, section: "Robot & Planning Flags", type_word: "", help: "Output performance metrics (timing, cache, memory) as JSON" },
        HelpFlag { name: "robot-schema", short: None, section: "Robot & Planning Flags", type_word: "", help: "Output JSON Schema definitions for all robot commands" },
        HelpFlag { name: "schema-command", short: None, section: "Robot & Planning Flags", type_word: "string", help: "Output schema for specific command only (e.g., robot-triage)" },
        HelpFlag { name: "robot-suggest", short: None, section: "Robot & Planning Flags", type_word: "", help: "Output smart suggestions (duplicates, dependencies, labels, cycles) as JSON" },
        HelpFlag { name: "suggest-type", short: None, section: "Robot & Planning Flags", type_word: "string", help: "Filter suggestions by type: duplicate, dependency, label, cycle" },
        HelpFlag { name: "suggest-confidence", short: None, section: "Robot & Planning Flags", type_word: "float", help: "Minimum confidence for suggestions (0.0-1.0)" },
        HelpFlag { name: "suggest-bead", short: None, section: "Robot & Planning Flags", type_word: "string", help: "Filter suggestions for specific bead ID" },
        HelpFlag { name: "robot-graph", short: None, section: "Robot & Planning Flags", type_word: "", help: "Output dependency graph as JSON/DOT/Mermaid for AI agents" },
        HelpFlag { name: "graph-format", short: None, section: "Robot & Planning Flags", type_word: "string", help: "Graph output format: json, dot, mermaid (default \"json\")" },
        HelpFlag { name: "graph-root", short: None, section: "Robot & Planning Flags", type_word: "string", help: "Subgraph from specific root issue ID" },
        HelpFlag { name: "graph-depth", short: None, section: "Robot & Planning Flags", type_word: "int", help: "Max depth for subgraph (0 = unlimited)" },
        HelpFlag { name: "export-graph", short: None, section: "Export & Reporting", type_word: "string", help: "Export graph: .html for interactive, .png/.svg for static (auto-names if empty)" },
        HelpFlag { name: "graph-preset", short: None, section: "Export & Reporting", type_word: "string", help: "Graph layout preset: compact (default) or roomy (default \"compact\")" },
        HelpFlag { name: "graph-title", short: None, section: "Export & Reporting", type_word: "string", help: "Title for graph export (default: project name)" },
        HelpFlag { name: "robot-min-confidence", short: None, section: "Search & Filters", type_word: "float", help: "Filter robot outputs by minimum confidence (0.0-1.0)" },
        HelpFlag { name: "robot-max-results", short: None, section: "Search & Filters", type_word: "int", help: "Limit robot output count (0 = use defaults)" },
        HelpFlag { name: "robot-by-label", short: None, section: "Search & Filters", type_word: "string", help: "Filter robot outputs by label (exact match)" },
        HelpFlag { name: "robot-by-assignee", short: None, section: "Search & Filters", type_word: "string", help: "Filter robot outputs by assignee (exact match)" },
        HelpFlag { name: "label", short: Some('l'), section: "Search & Filters", type_word: "string", help: "Scope analysis to label's subgraph (applies to every --robot-* command that loads issues, e.g. --robot-insights, --robot-plan, --robot-priority, --robot-orphans)" },
        HelpFlag { name: "severity", short: None, section: "Search & Filters", type_word: "string", help: "Filter robot alerts by severity (info|warning|critical)" },
        HelpFlag { name: "alert-type", short: None, section: "Search & Filters", type_word: "string", help: "Filter robot alerts by alert type (e.g., stale_issue)" },
        HelpFlag { name: "alert-label", short: None, section: "Search & Filters", type_word: "string", help: "Filter robot alerts by label match" },
        HelpFlag { name: "recipe", short: Some('r'), section: "Search & Filters", type_word: "string", help: "Apply a recipe by name (e.g., triage, actionable, high-impact) or by .yaml/.yml file path (e.g., .beads/recipes/sprint.yaml)" },
        HelpFlag { name: "search", short: None, section: "Search & Filters", type_word: "string", help: "Hashed keyword search query (builds/updates index on first run)" },
        HelpFlag { name: "robot-search", short: None, section: "Robot & Planning Flags", type_word: "", help: "Output keyword or hybrid search results as JSON for AI agents (use with --search)" },
        HelpFlag { name: "search-limit", short: None, section: "Search & Filters", type_word: "int", help: "Max results for --search/--robot-search (default 10)" },
        HelpFlag { name: "search-min-score", short: None, section: "Search & Filters", type_word: "string", help: "Minimum text similarity before hybrid ranking (-1..1); exact IDs also obey this threshold" },
        HelpFlag { name: "search-mode", short: None, section: "Search & Filters", type_word: "string", help: "Search ranking mode: text or hybrid (default: BV_SEARCH_MODE or text)" },
        HelpFlag { name: "search-preset", short: None, section: "Search & Filters", type_word: "string", help: "Hybrid preset name (default: BV_SEARCH_PRESET or default)" },
        HelpFlag { name: "search-weights", short: None, section: "Search & Filters", type_word: "string", help: "Hybrid weights JSON (overrides preset; keys: text,pagerank,status,impact,priority,recency)" },
        HelpFlag { name: "diff-since", short: None, section: "History & Drift", type_word: "string", help: "Show changes since historical point (commit SHA, branch, tag, or date)" },
        HelpFlag { name: "as-of", short: None, section: "History & Drift", type_word: "string", help: "View state at point in time (commit SHA, branch, tag, or date)" },
        HelpFlag { name: "no-cache", short: None, section: "General Flags", type_word: "", help: "Bypass disk cache for robot triage (also: BV_NO_CACHE=1)" },
        HelpFlag { name: "force-full-analysis", short: None, section: "General Flags", type_word: "", help: "Compute all metrics regardless of graph size (may be slow for large graphs)" },
        HelpFlag { name: "profile-startup", short: None, section: "General Flags", type_word: "", help: "Output detailed startup timing profile for diagnostics" },
        HelpFlag { name: "profile-json", short: None, section: "General Flags", type_word: "", help: "Output profile in JSON format (use with --profile-startup)" },
        HelpFlag { name: "no-hooks", short: None, section: "Export & Reporting", type_word: "", help: "Skip running hooks during export" },
        HelpFlag { name: "workspace", short: None, section: "Search & Filters", type_word: "string", help: "Load issues from workspace config file (.bv/workspace.yaml)" },
        HelpFlag { name: "repo", short: None, section: "Search & Filters", type_word: "string", help: "Filter issues by repository prefix (e.g., 'api-' or 'api')" },
        HelpFlag { name: "save-baseline", short: None, section: "History & Drift", type_word: "string", help: "Save current metrics as baseline with optional description" },
        HelpFlag { name: "baseline-info", short: None, section: "History & Drift", type_word: "", help: "Show information about the current baseline" },
        HelpFlag { name: "check-drift", short: None, section: "History & Drift", type_word: "", help: "Check for drift from baseline (exit codes: 0=OK, 1=critical, 2=warning)" },
        HelpFlag { name: "robot-drift", short: None, section: "Robot & Planning Flags", type_word: "", help: "Output drift check as JSON (use with --check-drift)" },
        HelpFlag { name: "robot-history", short: None, section: "Robot & Planning Flags", type_word: "", help: "Output bead-to-commit correlations as JSON" },
        HelpFlag { name: "bead-history", short: None, section: "History & Drift", type_word: "string", help: "Show history for specific bead ID" },
        HelpFlag { name: "history-since", short: None, section: "History & Drift", type_word: "string", help: "Limit history to commits after this date/ref (e.g., '30 days ago', '2024-01-01')" },
        HelpFlag { name: "history-limit", short: None, section: "History & Drift", type_word: "int", help: "Max commits to analyze (0 = unlimited) (default 500)" },
        HelpFlag { name: "robot-history-timeout-ms", short: None, section: "Robot & Planning Flags", type_word: "int", help: "Budget in ms for the git-history prologue of robot triage (0 = unbounded; default 10000, env BV_ROBOT_HISTORY_TIMEOUT_MS) (default -1)" },
        HelpFlag { name: "min-confidence", short: None, section: "History & Drift", type_word: "float", help: "Filter correlations by minimum confidence (0.0-1.0)" },
        HelpFlag { name: "id-pattern", short: None, section: "Other Flags", type_word: "stringArray", help: "Custom bead ID regex for commit-message matching, e.g. 'bh-[a-z0-9]{5}' (repeatable; capture group 1 is the ID, else the whole match) (#188)" },
        HelpFlag { name: "robot-explain-correlation", short: None, section: "Robot & Planning Flags", type_word: "string", help: "Explain why a commit is linked to a bead (format: SHA:beadID)" },
        HelpFlag { name: "robot-confirm-correlation", short: None, section: "Robot & Planning Flags", type_word: "string", help: "Confirm a correlation is correct (format: SHA:beadID)" },
        HelpFlag { name: "robot-reject-correlation", short: None, section: "Robot & Planning Flags", type_word: "string", help: "Reject an incorrect correlation (format: SHA:beadID)" },
        HelpFlag { name: "correlation-by", short: None, section: "Robot & Planning Flags", type_word: "string", help: "Agent/user identifier for correlation feedback" },
        HelpFlag { name: "correlation-reason", short: None, section: "Robot & Planning Flags", type_word: "string", help: "Reason for correlation feedback" },
        HelpFlag { name: "robot-correlation-stats", short: None, section: "Robot & Planning Flags", type_word: "", help: "Output correlation feedback statistics as JSON" },
        HelpFlag { name: "robot-orphans", short: None, section: "Robot & Planning Flags", type_word: "", help: "Output orphan commit candidates (commits that should be linked but aren't) as JSON" },
        HelpFlag { name: "orphans-min-score", short: None, section: "Robot & Planning Flags", type_word: "int", help: "Minimum suspicion score for orphan candidates (0-100) (default 30)" },
        HelpFlag { name: "robot-file-beads", short: None, section: "Robot & Planning Flags", type_word: "string", help: "Output beads that touched a file path as JSON" },
        HelpFlag { name: "file-beads-limit", short: None, section: "Robot & Planning Flags", type_word: "int", help: "Max closed beads to show (use with --robot-file-beads) (default 20)" },
        HelpFlag { name: "robot-file-hotspots", short: None, section: "Robot & Planning Flags", type_word: "", help: "Output files touched by most beads as JSON" },
        HelpFlag { name: "hotspots-limit", short: None, section: "Robot & Planning Flags", type_word: "int", help: "Max hotspots to show (use with --robot-file-hotspots) (default 10)" },
        HelpFlag { name: "robot-impact", short: None, section: "Robot & Planning Flags", type_word: "string", help: "Analyze impact of modifying files (comma-separated paths)" },
        HelpFlag { name: "robot-file-relations", short: None, section: "Robot & Planning Flags", type_word: "string", help: "Output files that frequently co-change with the given file path" },
        HelpFlag { name: "relations-threshold", short: None, section: "Robot & Planning Flags", type_word: "float", help: "Minimum correlation threshold (0.0-1.0) for related files (default 0.5)" },
        HelpFlag { name: "relations-limit", short: None, section: "Robot & Planning Flags", type_word: "int", help: "Max related files to show (default 10)" },
        HelpFlag { name: "robot-related", short: None, section: "Robot & Planning Flags", type_word: "string", help: "Output beads related to a specific bead ID as JSON" },
        HelpFlag { name: "related-min-relevance", short: None, section: "Robot & Planning Flags", type_word: "percent_or_fraction", help: "Minimum relevance score for related work (int 0-100 percent OR float 0.0-1.0 fraction) (default 20)" },
        HelpFlag { name: "related-max-results", short: None, section: "Robot & Planning Flags", type_word: "int", help: "Max results per category for related work (default 10)" },
        HelpFlag { name: "related-include-closed", short: None, section: "Robot & Planning Flags", type_word: "", help: "Include closed beads in related work results" },
        HelpFlag { name: "robot-blocker-chain", short: None, section: "Robot & Planning Flags", type_word: "string", help: "Output full blocker chain analysis for issue ID as JSON" },
        HelpFlag { name: "robot-impact-network", short: None, section: "Robot & Planning Flags", type_word: "string", help: "Output bead impact network as JSON (empty for full, or bead ID for subnetwork)" },
        HelpFlag { name: "network-depth", short: None, section: "Other Flags", type_word: "int", help: "Depth of subnetwork when querying specific bead (1-3) (default 2)" },
        HelpFlag { name: "robot-causality", short: None, section: "Robot & Planning Flags", type_word: "string", help: "Output causal chain analysis for bead ID as JSON" },
        HelpFlag { name: "robot-sprint-list", short: None, section: "Robot & Planning Flags", type_word: "", help: "Output sprints as JSON" },
        HelpFlag { name: "robot-sprint-show", short: None, section: "Robot & Planning Flags", type_word: "string", help: "Output specific sprint details as JSON" },
        HelpFlag { name: "robot-forecast", short: None, section: "Robot & Planning Flags", type_word: "string", help: "Output ETA forecast for bead ID, or 'all' for all open issues" },
        HelpFlag { name: "forecast-label", short: None, section: "Robot & Planning Flags", type_word: "string", help: "Filter forecast by label" },
        HelpFlag { name: "forecast-sprint", short: None, section: "Robot & Planning Flags", type_word: "string", help: "Filter forecast by sprint ID" },
        HelpFlag { name: "forecast-agents", short: None, section: "Robot & Planning Flags", type_word: "int", help: "Number of parallel agents for capacity calculation (default 1)" },
        HelpFlag { name: "robot-capacity", short: None, section: "Robot & Planning Flags", type_word: "", help: "Output capacity simulation and completion projection as JSON" },
        HelpFlag { name: "agents", short: None, section: "Robot & Planning Flags", type_word: "int", help: "Number of parallel agents for capacity simulation (default 1)" },
        HelpFlag { name: "capacity-label", short: None, section: "Robot & Planning Flags", type_word: "string", help: "Filter capacity simulation by label" },
        HelpFlag { name: "robot-burndown", short: None, section: "Robot & Planning Flags", type_word: "string", help: "Output burndown data for sprint ID, or 'current' for active sprint" },
        HelpFlag { name: "emit-script", short: None, section: "Export & Reporting", type_word: "", help: "Emit shell script for top-N recommendations (agent workflows)" },
        HelpFlag { name: "script-limit", short: None, section: "Export & Reporting", type_word: "int", help: "Limit number of items in emitted script (use with --emit-script) (default 5)" },
        HelpFlag { name: "script-format", short: None, section: "Export & Reporting", type_word: "string", help: "Script format: bash, fish, or zsh (use with --emit-script) (default \"bash\")" },
        HelpFlag { name: "feedback-accept", short: None, section: "Other Flags", type_word: "string", help: "Record accept feedback for issue ID (tunes recommendation weights)" },
        HelpFlag { name: "feedback-ignore", short: None, section: "Other Flags", type_word: "string", help: "Record ignore feedback for issue ID (tunes recommendation weights)" },
        HelpFlag { name: "feedback-reset", short: None, section: "Other Flags", type_word: "", help: "Reset all feedback data to defaults" },
        HelpFlag { name: "feedback-show", short: None, section: "Other Flags", type_word: "", help: "Show current feedback status and weight adjustments" },
        HelpFlag { name: "priority-brief", short: None, section: "Export & Reporting", type_word: "string", help: "Export priority brief to Markdown file (e.g., brief.md)" },
        HelpFlag { name: "agent-brief", short: None, section: "Export & Reporting", type_word: "string", help: "Export agent brief bundle to directory (includes triage.json, insights.json, brief.md, helpers.md)" },
        HelpFlag { name: "export-pages", short: None, section: "Export & Reporting", type_word: "string", help: "Export static site to directory (e.g., ./bv-pages)" },
        HelpFlag { name: "pages-title", short: None, section: "Export & Reporting", type_word: "string", help: "Custom title for static site" },
        HelpFlag { name: "pages-include-closed", short: None, section: "Export & Reporting", type_word: "", help: "Include closed issues in export (default: true) (default true)" },
        HelpFlag { name: "pages-include-history", short: None, section: "Export & Reporting", type_word: "", help: "Include git history for time-travel (default: true) (default true)" },
        HelpFlag { name: "preview-pages", short: None, section: "Export & Reporting", type_word: "string", help: "Preview existing static site bundle" },
        HelpFlag { name: "no-live-reload", short: None, section: "Export & Reporting", type_word: "", help: "Disable live-reload in preview mode" },
        HelpFlag { name: "watch-export", short: None, section: "Export & Reporting", type_word: "", help: "Watch for beads changes and auto-regenerate export (use with --export-pages)" },
        HelpFlag { name: "pages", short: None, section: "Export & Reporting", type_word: "", help: "Launch interactive Pages deployment wizard" },
        HelpFlag { name: "debug-render", short: None, section: "Export & Reporting", type_word: "string", help: "Render a view and output to file (views: insights, board)" },
        HelpFlag { name: "debug-width", short: None, section: "Export & Reporting", type_word: "int", help: "Width for debug render (default 180)" },
        HelpFlag { name: "debug-height", short: None, section: "Export & Reporting", type_word: "int", help: "Height for debug render (default 50)" },
        HelpFlag { name: "theme", short: None, section: "General Flags", type_word: "string", help: "Color theme: light, dark, or auto (default: detect terminal background)" },
        HelpFlag { name: "background-mode", short: None, section: "General Flags", type_word: "", help: "Enable experimental background snapshot loading (TUI only)" },
        HelpFlag { name: "no-background-mode", short: None, section: "General Flags", type_word: "", help: "Disable experimental background snapshot loading (TUI only)" },
        HelpFlag { name: "agents-add", short: None, section: "Agent File Management", type_word: "", help: "Add beads workflow instructions to AGENTS.md (creates file if needed)" },
        HelpFlag { name: "agents-remove", short: None, section: "Agent File Management", type_word: "", help: "Remove beads workflow instructions from AGENTS.md" },
        HelpFlag { name: "agents-update", short: None, section: "Agent File Management", type_word: "", help: "Update beads workflow instructions to latest version" },
        HelpFlag { name: "agents-check", short: None, section: "Agent File Management", type_word: "", help: "Check AGENTS.md blurb status (default if no --agents-* action)" },
        HelpFlag { name: "agents-dry-run", short: None, section: "Agent File Management", type_word: "", help: "Show what would happen without executing (use with --agents-*)" },
        HelpFlag { name: "agents-force", short: None, section: "Agent File Management", type_word: "", help: "Skip confirmation prompts (use with --agents-*)" },
        HelpFlag { name: "help", short: Some('h'), section: "General Flags", type_word: "", help: "help for bv" },
    ]
}

/// Number of modifier-requires rules.
pub const MODIFIER_RULE_COUNT: usize = 58;

/// The modifier of rule `k` of the modifier-requires table.
pub open spec fn rule_modifier(k: int) -> &'static str {
    if k == 0 { "export-format" } else
    if k == 1 { "export-include-graph" } else
    if k == 2 { "export-template" } else
    if k == 3 { "robot-diff" } else
    if k == 4 { "robot-search" } else
    if k == 5 { "search-limit" } else
    if k == 6 { "search-min-score" } else
    if k == 7 { "search-mode" } else
    if k == 8 { "search-preset" } else
    if k == 9 { "search-weights" } else
    if k == 10 { "attention-limit" } else
    if k == 11 { "schema-command" } else
    if k == 12 { "suggest-type" } else
    if k == 13 { "suggest-confidence" } else
    if k == 14 { "suggest-bead" } else
    if k == 15 { "graph-format" } else
    if k == 16 { "graph-root" } else
    if k == 17 { "graph-depth" } else
    if k == 18 { "graph-preset" } else
    if k == 19 { "graph-title" } else
    if k == 20 { "severity" } else
    if k == 21 { "alert-type" } else
    if k == 22 { "alert-label" } else
    if k == 23 { "profile-json" } else
    if k == 24 { "robot-drift" } else
    if k == 25 { "history-since" } else
    if k == 26 { "history-limit" } else
    if k == 27 { "brief" } else
    if k == 28 { "robot-history-timeout-ms" } else
    if k == 29 { "robot-not-ready-labels" } else
    if k == 30 { "min-confidence" } else
    if k == 31 { "correlation-by" } else
    if k == 32 { "correlation-reason" } else
    if k == 33 { "orphans-min-score" } else
    if k == 34 { "file-beads-limit" } else
    if k == 35 { "hotspots-limit" } else
    if k == 36 { "relations-threshold" } else
    if k == 37 { "relations-limit" } else
    if k == 38 { "related-min-relevance" } else
    if k == 39 { "related-max-results" } else
    if k == 40 { "related-include-closed" } else
    if k == 41 { "network-depth" } else
    if k == 42 { "forecast-label" } else
    if k == 43 { "forecast-sprint" } else
    if k == 44 { "forecast-agents" } else
    if k == 45 { "agents" } else
    if k == 46 { "capacity-label" } else
    if k == 47 { "robot-by-label" } else
    if k == 48 { "robot-by-assignee" } else
    if k == 49 { "script-limit" } else
    if k == 50 { "script-format" } else
    if k == 51 { "pages-title" } else
    if k == 52 { "pages-include-closed" } else
    if k == 53 { "pages-include-history" } else
    if k == 54 { "no-live-reload" } else
    if k == 55 { "watch-export" } else
    if k == 56 { "debug-width" } else
    if k == 57 { "debug-height" } else
    { "" }
}

/// The co-flags, any one of which satisfies rule `k`.
pub open spec fn rule_required(k: int) -> Seq<&'static str> {
    if k == 0 { seq!["export", "export-md"] } else
    if k == 1 { seq!["export", "export-md"] } else
    if k == 2 { seq!["export", "export-md"] } else
    if k == 3 { seq!["diff-since"] } else
    if k == 4 { seq!["search"] } else
    if k == 5 { seq!["search"] } else
    if k == 6 { seq!["search"] } else
    if k == 7 { seq!["search"] } else
    if k == 8 { seq!["search"] } else
    if k == 9 { seq!["search"] } else
    if k == 10 { seq!["robot-label-attention"] } else
    if k == 11 { seq!["robot-schema"] } else
    if k == 12 { seq!["robot-suggest"] } else
    if k == 13 { seq!["robot-suggest"] } else
    if k == 14 { seq!["robot-suggest"] } else
    if k == 15 { seq!["robot-graph"] } else
    if k == 16 { seq!["robot-graph", "robot-triage", "robot-triage-by-track", "robot-triage-by-label", "robot-next"] } else
    if k == 17 { seq!["robot-graph"] } else
    if k == 18 { seq!["export-graph"] } else
    if k == 19 { seq!["export-graph"] } else
    if k == 20 { seq!["robot-alerts"] } else
    if k == 21 { seq!["robot-alerts"] } else
    if k == 22 { seq!["robot-alerts"] } else
    if k == 23 { seq!["profile-startup"] } else
    if k == 24 { seq!["check-drift"] } else
    if k == 25 { seq!["robot-history", "bead-history", "robot-causality"] } else
    if k == 26 { seq!["robot-history", "bead-history", "robot-causality"] } else
    if k == 27 { seq!["robot-triage", "robot-triage-by-track", "robot-triage-by-label"] } else
    if k == 28 { seq!["robot-triage", "robot-triage-by-track", "robot-triage-by-label", "robot-next"] } else
    if k == 29 { seq!["robot-triage", "robot-triage-by-track", "robot-triage-by-label", "robot-next"] } else
    if k == 30 { seq!["robot-history", "bead-history"] } else
    if k == 31 { seq!["robot-confirm-correlation", "robot-reject-correlation"] } else
    if k == 32 { seq!["robot-confirm-correlation", "robot-reject-correlation"] } else
    if k == 33 { seq!["robot-orphans"] } else
    if k == 34 { seq!["robot-file-beads"] } else
    if k == 35 { seq!["robot-file-hotspots"] } else
    if k == 36 { seq!["robot-file-relations"] } else
    if k == 37 { seq!["robot-file-relations"] } else
    if k == 38 { seq!["robot-related"] } else
    if k == 39 { seq!["robot-related"] } else
    if k == 40 { seq!["robot-related"] } else
    if k == 41 { seq!["robot-impact-network"] } else
    if k == 42 { seq!["robot-forecast"] } else
    if k == 43 { seq!["robot-forecast"] } else
    if k == 44 { seq!["robot-forecast"] } else
    if k == 45 { seq!["robot-capacity"] } else
    if k == 46 { seq!["robot-capacity"] } else
    if k == 47 { seq!["robot-priority"] } else
    if k == 48 { seq!["robot-priority"] } else
    if k == 49 { seq!["emit-script"] } else
    if k == 50 { seq!["emit-script"] } else
    if k == 51 { seq!["export-pages"] } else
    if k == 52 { seq!["export-pages"] } else
    if k == 53 { seq!["export-pages"] } else
    if k == 54 { seq!["preview-pages"] } else
    if k == 55 { seq!["export-pages"] } else
    if k == 56 { seq!["debug-render"] } else
    if k == 57 { seq!["debug-render"] } else
    { Seq::empty() }
}

/// Rule `k` of the modifier-requires table; the order is the evaluation order.
pub fn modifier_rule(k: usize) -> (r: (&'static str, &'static [&'static str]))
    requires
        k < MODIFIER_RULE_COUNT,
    ensures
        r.0 == rule_modifier(k as int),
        r.1@ == rule_required(k as int),
{
    match k {
        0 => ("export-format", &["export", "export-md"]),
        1 => ("export-include-graph", &["export", "export-md"]),
        2 => ("export-template", &["export", "export-md"]),
        3 => ("robot-diff", &["diff-since"]),
        4 => ("robot-search", &["search"]),
        5 => ("search-limit", &["search"]),
        6 => ("search-min-score", &["search"]),
        7 => ("search-mode", &["search"]),
        8 => ("search-preset", &["search"]),
        9 => ("search-weights", &["search"]),
        10 => ("attention-limit", &["robot-label-attention"]),
        11 => ("schema-command", &["robot-schema"]),
        12 => ("suggest-type", &["robot-suggest"]),
        13 => ("suggest-confidence", &["robot-suggest"]),
        14 => ("suggest-bead", &["robot-suggest"]),
        15 => ("graph-format", &["robot-graph"]),
        16 => ("graph-root", &["robot-graph", "robot-triage", "robot-triage-by-track", "robot-triage-by-label", "robot-next"]),
        17 => ("graph-depth", &["robot-graph"]),
        18 => ("graph-preset", &["export-graph"]),
        19 => ("graph-title", &["export-graph"]),
        20 => ("severity", &["robot-alerts"]),
        21 => ("alert-type", &["robot-alerts"]),
        22 => ("alert-label", &["robot-alerts"]),
        23 => ("profile-json", &["profile-startup"]),
        24 => ("robot-drift", &["check-drift"]),
        25 => ("history-since", &["robot-history", "bead-history", "robot-causality"]),
        26 => ("history-limit", &["robot-history", "bead-history", "robot-causality"]),
        27 => ("brief", &["robot-triage", "robot-triage-by-track", "robot-triage-by-label"]),
        28 => ("robot-history-timeout-ms", &["robot-triage", "robot-triage-by-track", "robot-triage-by-label", "robot-next"]),
        29 => ("robot-not-ready-labels", &["robot-triage", "robot-triage-by-track", "robot-triage-by-label", "robot-next"]),
        30 => ("min-confidence", &["robot-history", "bead-history"]),
        31 => ("correlation-by", &["robot-confirm-correlation", "robot-reject-correlation"]),
        32 => ("correlation-reason", &["robot-confirm-correlation", "robot-reject-correlation"]),
        33 => ("orphans-min-score", &["robot-orphans"]),
        34 => ("file-beads-limit", &["robot-file-beads"]),
        35 => ("hotspots-limit", &["robot-file-hotspots"]),
        36 => ("relations-threshold", &["robot-file-relations"]),
        37 => ("relations-limit", &["robot-file-relations"]),
        38 => ("related-min-relevance", &["robot-related"]),
        39 => ("related-max-results", &["robot-related"]),
        40 => ("related-include-closed", &["robot-related"]),
        41 => ("network-depth", &["robot-impact-network"]),
        42 => ("forecast-label", &["robot-forecast"]),
        43 => ("forecast-sprint", &["robot-forecast"]),
        44 => ("forecast-agents", &["robot-forecast"]),
        45 => ("agents", &["robot-capacity"]),
        46 => ("capacity-label", &["robot-capacity"]),
        47 => ("robot-by-label", &["robot-priority"]),
        48 => ("robot-by-assignee", &["robot-priority"]),
        49 => ("script-limit", &["emit-script"]),
        50 => ("script-format", &["emit-script"]),
        51 => ("pages-title", &["export-pages"]),
        52 => ("pages-include-closed", &["export-pages"]),
        53 => ("pages-include-history", &["export-pages"]),
        54 => ("no-live-reload", &["preview-pages"]),
        55 => ("watch-export", &["export-pages"]),
        56 => ("debug-width", &["debug-render"]),
        _ => ("debug-height", &["debug-render"]),
    }
}

/// Number of modifiers that carry recovery examples.
pub const RECOVERY_ROW_COUNT: usize = 47;

/// The modifier of recovery row `k`.
pub open spec fn recovery_modifier(k: int) -> &'static str {
    if k == 0 { "robot-search" } else
    if k == 1 { "search-limit" } else
    if k == 2 { "search-min-score" } else
    if k == 3 { "search-mode" } else
    if k == 4 { "search-preset" } else
    if k == 5 { "search-weights" } else
    if k == 6 { "robot-diff" } else
    if k == 7 { "schema-command" } else
    if k == 8 { "graph-format" } else
    if k == 9 { "graph-depth" } else
    if k == 10 { "graph-root" } else
    if k == 11 { "severity" } else
    if k == 12 { "alert-type" } else
    if k == 13 { "alert-label" } else
    if k == 14 { "robot-drift" } else
    if k == 15 { "history-since" } else
    if k == 16 { "history-limit" } else
    if k == 17 { "min-confidence" } else
    if k == 18 { "robot-history-timeout-ms" } else
    if k == 19 { "brief" } else
    if k == 20 { "correlation-by" } else
    if k == 21 { "correlation-reason" } else
    if k == 22 { "orphans-min-score" } else
    if k == 23 { "file-beads-limit" } else
    if k == 24 { "hotspots-limit" } else
    if k == 25 { "relations-threshold" } else
    if k == 26 { "relations-limit" } else
    if k == 27 { "related-min-relevance" } else
    if k == 28 { "related-max-results" } else
    if k == 29 { "related-include-closed" } else
    if k == 30 { "network-depth" } else
    if k == 31 { "forecast-label" } else
    if k == 32 { "forecast-sprint" } else
    if k == 33 { "forecast-agents" } else
    if k == 34 { "agents" } else
    if k == 35 { "capacity-label" } else
    if k == 36 { "robot-by-label" } else
    if k == 37 { "robot-by-assignee" } else
    if k == 38 { "script-limit" } else
    if k == 39 { "script-format" } else
    if k == 40 { "pages-title" } else
    if k == 41 { "pages-include-closed" } else
    if k == 42 { "pages-include-history" } else
    if k == 43 { "no-live-reload" } else
    if k == 44 { "watch-export" } else
    if k == 45 { "debug-width" } else
    if k == 46 { "debug-height" } else
    { "" }
}

/// The example invocations of recovery row `k`.
pub open spec fn recovery_examples(k: int) -> Seq<&'static str> {
    if k == 0 { seq![r#"bv robot-search "login oauth" --json"#, r#"bv --search "login oauth" --robot-search --format json"#] } else
    if k == 1 { seq![r#"bv robot-search "login oauth" --json"#, r#"bv --search "login oauth" --robot-search --format json"#] } else
    if k == 2 { seq![r#"bv robot-search "login oauth" --json"#, r#"bv --search "login oauth" --robot-search --format json"#] } else
    if k == 3 { seq![r#"bv robot-search "login oauth" --json"#, r#"bv --search "login oauth" --robot-search --format json"#] } else
    if k == 4 { seq![r#"bv robot-search "login oauth" --json"#, r#"bv --search "login oauth" --robot-search --format json"#] } else
    if k == 5 { seq![r#"bv robot-search "login oauth" --json"#, r#"bv --search "login oauth" --robot-search --format json"#] } else
    if k == 6 { seq!["bv robot-diff HEAD~1 --json", "bv --robot-diff --diff-since HEAD~1 --format json"] } else
    if k == 7 { seq!["bv robot-schema triage --json"] } else
    if k == 8 { seq!["bv robot-graph mermaid --json"] } else
    if k == 9 { seq!["bv robot-graph mermaid --json"] } else
    if k == 10 { seq!["bv robot-graph json --graph-root A --json"] } else
    if k == 11 { seq!["bv robot-alerts --severity critical --json"] } else
    if k == 12 { seq!["bv robot-alerts --severity critical --json"] } else
    if k == 13 { seq!["bv robot-alerts --severity critical --json"] } else
    if k == 14 { seq!["bv --check-drift --robot-drift --format json"] } else
    if k == 15 { seq![r#"bv robot-history --history-since "30 days ago" --json"#] } else
    if k == 16 { seq![r#"bv robot-history --history-since "30 days ago" --json"#] } else
    if k == 17 { seq![r#"bv robot-history --history-since "30 days ago" --json"#] } else
    if k == 18 { seq!["bv robot-triage --robot-history-timeout-ms 10000 --json"] } else
    if k == 19 { seq!["bv robot-triage --brief --json"] } else
    if k == 20 { seq!["bv robot-confirm-correlation deadbeef:A --correlation-by agent --json"] } else
    if k == 21 { seq!["bv robot-confirm-correlation deadbeef:A --correlation-by agent --json"] } else
    if k == 22 { seq!["bv robot-orphans --orphans-min-score 30 --json"] } else
    if k == 23 { seq!["bv robot-file-beads README.md --file-beads-limit 10 --json"] } else
    if k == 24 { seq!["bv robot-file-hotspots --hotspots-limit 10 --json"] } else
    if k == 25 { seq!["bv robot-file-relations README.md --relations-limit 10 --json"] } else
    if k == 26 { seq!["bv robot-file-relations README.md --relations-limit 10 --json"] } else
    if k == 27 { seq!["bv robot-related A --related-max-results 5 --json"] } else
    if k == 28 { seq!["bv robot-related A --related-max-results 5 --json"] } else
    if k == 29 { seq!["bv robot-related A --related-max-results 5 --json"] } else
    if k == 30 { seq!["bv robot-impact-network A --network-depth 2 --json"] } else
    if k == 31 { seq!["bv robot-forecast all --forecast-agents 3 --json"] } else
    if k == 32 { seq!["bv robot-forecast all --forecast-agents 3 --json"] } else
    if k == 33 { seq!["bv robot-forecast all --forecast-agents 3 --json"] } else
    if k == 34 { seq!["bv robot-capacity --agents 3 --json"] } else
    if k == 35 { seq!["bv robot-capacity --agents 3 --json"] } else
    if k == 36 { seq!["bv robot-priority --robot-by-label backend --json"] } else
    if k == 37 { seq!["bv robot-priority --robot-by-label backend --json"] } else
    if k == 38 { seq!["bv --emit-script --script-limit 5"] } else
    if k == 39 { seq!["bv --emit-script --script-limit 5"] } else
    if k == 40 { seq![r#"bv --export-pages ./bv-pages --pages-title "Nightly Build""#] } else
    if k == 41 { seq![r#"bv --export-pages ./bv-pages --pages-title "Nightly Build""#] } else
    if k == 42 { seq![r#"bv --export-pages ./bv-pages --pages-title "Nightly Build""#] } else
    if k == 43 { seq!["bv --preview-pages ./bv-pages --no-live-reload"] } else
    if k == 44 { seq!["bv --export-pages ./bv-pages --watch-export"] } else
    if k == 45 { seq!["bv --debug-render triage --debug-width 120 --debug-height 40"] } else
    if k == 46 { seq!["bv --debug-render triage --debug-width 120 --debug-height 40"] } else
    { Seq::empty() }
}

/// Row `k` of the recovery-example table.
pub fn recovery_row(k: usize) -> (r: (&'static str, &'static [&'static str]))
    requires
        k < RECOVERY_ROW_COUNT,
    ensures
        r.0 == recovery_modifier(k as int),
        r.1@ == recovery_examples(k as int),
{
    match k {
        0 => ("robot-search", &[r#"bv robot-search "login oauth" --json"#, r#"bv --search "login oauth" --robot-search --format json"#]),
        1 => ("search-limit", &[r#"bv robot-search "login oauth" --json"#, r#"bv --search "login oauth" --robot-search --format json"#]),
        2 => ("search-min-score", &[r#"bv robot-search "login oauth" --json"#, r#"bv --search "login oauth" --robot-search --format json"#]),
        3 => ("search-mode", &[r#"bv robot-search "login oauth" --json"#, r#"bv --search "login oauth" --robot-search --format json"#]),
        4 => ("search-preset", &[r#"bv robot-search "login oauth" --json"#, r#"bv --search "login oauth" --robot-search --format json"#]),
        5 => ("search-weights", &[r#"bv robot-search "login oauth" --json"#, r#"bv --search "login oauth" --robot-search --format json"#]),
        6 => ("robot-diff", &["bv robot-diff HEAD~1 --json", "bv --robot-diff --diff-since HEAD~1 --format json"]),
        7 => ("schema-command", &["bv robot-schema triage --json"]),
        8 => ("graph-format", &["bv robot-graph mermaid --json"]),
        9 => ("graph-depth", &["bv robot-graph mermaid --json"]),
        10 => ("graph-root", &["bv robot-graph json --graph-root A --json"]),
        11 => ("severity", &["bv robot-alerts --severity critical --json"]),
        12 => ("alert-type", &["bv robot-alerts --severity critical --json"]),
        13 => ("alert-label", &["bv robot-alerts --severity critical --json"]),
        14 => ("robot-drift", &["bv --check-drift --robot-drift --format json"]),
        15 => ("history-since", &[r#"bv robot-history --history-since "30 days ago" --json"#]),
        16 => ("history-limit", &[r#"bv robot-history --history-since "30 days ago" --json"#]),
        17 => ("min-confidence", &[r#"bv robot-history --history-since "30 days ago" --json"#]),
        18 => ("robot-history-timeout-ms", &["bv robot-triage --robot-history-timeout-ms 10000 --json"]),
        19 => ("brief", &["bv robot-triage --brief --json"]),
        20 => ("correlation-by", &["bv robot-confirm-correlation deadbeef:A --correlation-by agent --json"]),
        21 => ("correlation-reason", &["bv robot-confirm-correlation deadbeef:A --correlation-by agent --json"]),
        22 => ("orphans-min-score", &["bv robot-orphans --orphans-min-score 30 --json"]),
        23 => ("file-beads-limit", &["bv robot-file-beads README.md --file-beads-limit 10 --json"]),
        24 => ("hotspots-limit", &["bv robot-file-hotspots --hotspots-limit 10 --json"]),
        25 => ("relations-threshold", &["bv robot-file-relations README.md --relations-limit 10 --json"]),
        26 => ("relations-limit", &["bv robot-file-relations README.md --relations-limit 10 --json"]),
        27 => ("related-min-relevance", &["bv robot-related A --related-max-results 5 --json"]),
        28 => ("related-max-results", &["bv robot-related A --related-max-results 5 --json"]),
        29 => ("related-include-closed", &["bv robot-related A --related-max-results 5 --json"]),
        30 => ("network-depth", &["bv robot-impact-network A --network-depth 2 --json"]),
        31 => ("forecast-label", &["bv robot-forecast all --forecast-agents 3 --json"]),
        32 => ("forecast-sprint", &["bv robot-forecast all --forecast-agents 3 --json"]),
        33 => ("forecast-agents", &["bv robot-forecast all --forecast-agents 3 --json"]),
        34 => ("agents", &["bv robot-capacity --agents 3 --json"]),
        35 => ("capacity-label", &["bv robot-capacity --agents 3 --json"]),
        36 => ("robot-by-label", &["bv robot-priority --robot-by-label backend --json"]),
        37 => ("robot-by-assignee", &["bv robot-priority --robot-by-label backend --json"]),
        38 => ("script-limit", &["bv --emit-script --script-limit 5"]),
        39 => ("script-format", &["bv --emit-script --script-limit 5"]),
        40 => ("pages-title", &[r#"bv --export-pages ./bv-pages --pages-title "Nightly Build""#]),
        41 => ("pages-include-closed", &[r#"bv --export-pages ./bv-pages --pages-title "Nightly Build""#]),
        42 => ("pages-include-history", &[r#"bv --export-pages ./bv-pages --pages-title "Nightly Build""#]),
        43 => ("no-live-reload", &["bv --preview-pages ./bv-pages --no-live-reload"]),
        44 => ("watch-export", &["bv --export-pages ./bv-pages --watch-export"]),
        45 => ("debug-width", &["bv --debug-render triage --debug-width 120 --debug-height 40"]),
        _ => ("debug-height", &["bv --debug-render triage --debug-width 120 --debug-height 40"]),
    }
}

} // verus!
