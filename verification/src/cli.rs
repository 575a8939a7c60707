//! The front of the command line: rewrite argv, answer `--help` and
//! `--version`, then run the validation stages in order. What is left is the
//! rewritten argv for command dispatch.

use vstd::prelude::*;
use vstd::string::*;
use crate::argv::{first_string_value, rewrite_args, rewritten_args};
use crate::enums::{
    ENUM_RULE_COUNT, enum_error_text, enum_outcome_from, enum_rule, enum_rule_allowed,
    enum_rule_name, pair_views, validate_enum_flags,
};
use crate::help::{help_text, render_help};
use crate::registry::{FlagDef, FlagKind, HELP_PROGRAM, robot_primaries, spec_robot_primaries};
use crate::robot::flag_value;
use crate::text::{append, concat3, decimal, owned, str_eq, str_views, views};
use crate::validation::{
    Presence, ValidationError, conflict_view, conflicts_from, error_text, first_broken_rule,
    presence_key, requirement_message, validate_exclusive_primaries,
    validate_modifier_requires_with, validate_watch_export_as_of, watch_export_text,
};

verus! {

broadcast use vstd::seq_lib::group_seq_properties;

/// The version the binary reports.
pub const APP_VERSION: &'static str = "v0.25.0";

/// What the command line asks for before any command runs.
pub enum Entry {
    /// Print this help page; exit 0.
    Help(String),
    /// Print this version line; exit 0.
    Version(String),
    /// An enum-valued flag has a value outside its set: print the message as
    /// a usage error; exit 2.
    Usage(String),
    /// Validation failed: print each message; exit 1.
    Invalid(Vec<String>),
    /// Nothing was refused: dispatch on this rewritten argv.
    Run(Vec<String>),
}

/// The flags present in argv.
pub open spec fn presence_of(a: Seq<Seq<char>>) -> Set<Seq<char>> {
    a.map_values(|x: Seq<char>| presence_key(x)).to_set()
}

/// The `(flag, value)` pairs of the enum rules from `k` on whose flag has a
/// value in argv, in rule order.
pub open spec fn enum_supplied_from(a: Seq<Seq<char>>, k: int) -> Seq<(Seq<char>, Seq<char>)>
    decreases ENUM_RULE_COUNT - k,
{
    if k < 0 || k >= ENUM_RULE_COUNT {
        Seq::empty()
    } else {
        let rest = enum_supplied_from(a, k + 1);
        match first_string_value(a, enum_rule_name(k)@) {
            Some(v) => seq![(enum_rule_name(k)@, v)] + rest,
            None => rest,
        }
    }
}

/// The messages of the broken modifier rule (if any) and then of each
/// exclusive-group conflict.
pub open spec fn violation_texts(missing: Option<int>, conflicts: Seq<(nat, Seq<char>)>) -> Seq<
    Seq<char>,
> {
    let head = match missing {
        Some(k) => seq![requirement_message(k)],
        None => Seq::empty(),
    };
    head + conflicts.map_values(|c: (nat, Seq<char>)| conflict_text(c))
}

/// The message of an exclusive-group conflict with its member count and list.
pub open spec fn conflict_text(c: (nat, Seq<char>)) -> Seq<char> {
    "only one primary command allowed (found "@ + decimal(c.0) + ": "@ + c.1 + ")"@
}

/// The version line.
pub open spec fn version_line() -> Seq<char> {
    HELP_PROGRAM@ + " "@ + APP_VERSION@
}

/// Whether some token equals `t`.
fn any_token(args: &[String], t: &str) -> (r: bool)
    ensures
        r == views(args@).contains(t@),
{
    let ghost a = views(args@);
    let mut k: usize = 0;
    while k < args.len()
        invariant
            a == views(args@),
            k <= args@.len(),
            forall|j: int| 0 <= j < k ==> a[j] != t@,
        decreases args@.len() - k,
    {
        if str_eq(args[k].as_str(), t) {
            assert(a[k as int] == t@);
            return true;
        }
        k += 1;
    }
    false
}

/// The `(flag, value)` pairs the enum checks read off argv.
fn enum_values_supplied<'a>(args: &'a [String]) -> (r: Vec<(&'static str, &'a str)>)
    ensures
        pair_views(r@) == enum_supplied_from(views(args@), 0),
{
    let ghost a = views(args@);
    let mut out: Vec<(&'static str, &'a str)> = Vec::new();
    let mut k: usize = 0;
    assert(enum_supplied_from(a, 0) =~= pair_views(out@) + enum_supplied_from(a, 0));
    while k < ENUM_RULE_COUNT
        invariant
            a == views(args@),
            k <= ENUM_RULE_COUNT,
            pair_views(out@) + enum_supplied_from(a, k as int) == enum_supplied_from(a, 0),
        decreases ENUM_RULE_COUNT - k,
    {
        let rule = enum_rule(k);
        let ghost before = pair_views(out@);
        match flag_value(args, rule.name) {
            Some(v) => {
                out.push((rule.name, v));
                assert(pair_views(out@) =~= before.push((rule.name@, v@)));
                assert(before + enum_supplied_from(a, k as int) =~= pair_views(out@)
                    + enum_supplied_from(a, k + 1));
            },
            None => {},
        }
        k += 1;
    }
    assert(pair_views(out@) + Seq::<(Seq<char>, Seq<char>)>::empty() =~= pair_views(out@));
    out
}

/// Decides what the command line asks for before any command runs: the
/// help page wins over everything, then the version line; then the
/// validation stages run in order, and the first one that fails is the
/// answer: the enum-valued flags (a usage error), the modifier rules (its
/// one message), the exclusive primary groups (one message per group), and
/// `--watch-export` together with `--as-of`.
pub fn entry(raw: &[String]) -> (r: Entry)
    ensures
        ({
            let a = rewritten_args(views(raw@));
            let help = a.contains("--help"@) || a.contains("-h"@);
            let version = a.contains("--version"@);
            let missing = first_broken_rule(presence_of(a), Some(a), 0);
            let bad = enum_outcome_from(enum_supplied_from(a, 0), 0);
            let conflicts = conflicts_from(presence_of(a), 0);
            let watch = presence_of(a).contains("watch-export"@) && presence_of(a).contains(
                "as-of"@,
            );
            match r {
                Entry::Help(t) => help && t@ == help_text(HELP_PROGRAM@),
                Entry::Version(t) => !help && version && t@ == version_line(),
                Entry::Usage(t) => !help && !version && match bad {
                    Some(o) => t@ == enum_error_text(
                        enum_rule_name(o.0)@,
                        o.1,
                        str_views(enum_rule_allowed(o.0)),
                        o.2,
                    ),
                    None => false,
                },
                Entry::Invalid(msgs) => !help && !version && bad is None && if missing is Some {
                    views(msgs@) == violation_texts(missing, Seq::empty())
                } else if conflicts.len() > 0 {
                    views(msgs@) == violation_texts(None, conflicts)
                } else {
                    watch && views(msgs@) == seq![watch_export_text()]
                },
                Entry::Run(v) => !help && !version && missing is None && bad is None
                    && conflicts.len() == 0 && !watch && views(v@) == a,
            }
        }),
{
    let args = rewrite_args(raw);
    let ghost a = views(args@);
    if any_token(args.as_slice(), "--help") || any_token(args.as_slice(), "-h") {
        return Entry::Help(render_help(HELP_PROGRAM));
    }
    if any_token(args.as_slice(), "--version") {
        return Entry::Version(concat3(HELP_PROGRAM, " ", APP_VERSION));
    }
    let presence = Presence::from_args(args.as_slice());
    let supplied = enum_values_supplied(args.as_slice());
    match validate_enum_flags(supplied.as_slice()) {
        Some(err) => {
            return Entry::Usage(err.message());
        },
        None => {},
    }
    match validate_modifier_requires_with(&presence, Some(args.as_slice())) {
        Some(e) => {
            let mut msgs: Vec<String> = Vec::new();
            msgs.push(e.message());
            assert(views(msgs@) =~= violation_texts(first_broken_rule(presence@, Some(a), 0), Seq::empty()));
            return Entry::Invalid(msgs);
        },
        None => {},
    }
    let conflicts = validate_exclusive_primaries(&presence);
    if conflicts.len() > 0 {
        return Entry::Invalid(conflict_messages(&conflicts));
    }
    let watch = validate_watch_export_as_of(&presence);
    if watch.len() > 0 {
        let mut msgs: Vec<String> = Vec::new();
        msgs.push(watch[0].message());
        assert(views(msgs@) =~= seq![watch_export_text()]);
        return Entry::Invalid(msgs);
    }
    Entry::Run(args)
}

/// The messages of exclusive-group errors, in order.
fn conflict_messages(conflicts: &Vec<ValidationError>) -> (r: Vec<String>)
    requires
        forall|i: int| 0 <= i < conflicts@.len() ==> (#[trigger] conflicts@[i]) is ExclusivePrimaries,
    ensures
        views(r@) == violation_texts(None, conflicts@.map_values(|e: ValidationError| conflict_view(e))),
{
    let ghost cv = conflicts@.map_values(|e: ValidationError| conflict_view(e));
    let mut msgs: Vec<String> = Vec::new();
    let mut k: usize = 0;
    assert(views(msgs@) =~= violation_texts(None, cv.take(0)));
    while k < conflicts.len()
        invariant
            k <= conflicts@.len(),
            cv == conflicts@.map_values(|e: ValidationError| conflict_view(e)),
            forall|i: int| 0 <= i < conflicts@.len() ==> (#[trigger] conflicts@[i]) is ExclusivePrimaries,
            views(msgs@) == violation_texts(None, cv.take(k as int)),
        decreases conflicts@.len() - k,
    {
        let m = conflicts[k].message();
        let ghost before = views(msgs@);
        msgs.push(m);
        proof {
            let e = conflicts@[k as int];
            let c = cv[k as int];
            assert(e is ExclusivePrimaries);
            assert(c == conflict_view(e));
            assert(error_text(e) == conflict_text(c));
            assert(views(msgs@) =~= before.push(error_text(e)));
            assert(cv.take(k + 1) =~= cv.take(k as int).push(c));
            assert(cv.take(k + 1).map_values(|c: (nat, Seq<char>)| conflict_text(c)) =~= cv.take(
                k as int,
            ).map_values(|c: (nat, Seq<char>)| conflict_text(c)).push(conflict_text(c)));
            assert(violation_texts(None, cv.take(k + 1)) =~= violation_texts(None, cv.take(k as int)).push(
                conflict_text(c),
            ));
        }
        k += 1;
    }
    assert(cv.take(conflicts@.len() as int) =~= cv);
    msgs
}

// ---------------------------------------------------------------------------
// Robot help and the output format
// ---------------------------------------------------------------------------

/// The value placeholder printed after a primary command of kind `kind`.
pub open spec fn kind_placeholder(kind: FlagKind) -> Seq<char> {
    match kind {
        FlagKind::Str => " <value>"@,
        FlagKind::Int => " <n>"@,
        FlagKind::Float => " <f>"@,
        _ => Seq::empty(),
    }
}

/// The listing lines of the primary commands from table index `k` on.
pub open spec fn primary_lines_from(k: int) -> Seq<char>
    decreases spec_robot_primaries().len() - k,
{
    if k < 0 || k >= spec_robot_primaries().len() {
        Seq::empty()
    } else {
        let f = spec_robot_primaries()[k];
        "  --"@ + f.name@ + kind_placeholder(f.kind) + "\n"@ + primary_lines_from(k + 1)
    }
}

/// The `--robot-help` page: every primary command with its value
/// placeholder, then the output contract.
pub open spec fn robot_help_page() -> Seq<char> {
    "bvr robot commands (AI agent interface)\n\nPRIMARY COMMANDS:\n"@ + primary_lines_from(0)
        + "\nOutput contract: stdout=data only; stderr=diagnostics;\nexit 0=success, 1=error/critical-drift, 2=usage/warning-drift.\n"@
}

/// Renders the `--robot-help` page.
pub fn robot_help_text() -> (r: String)
    ensures
        r@ == robot_help_page(),
{
    let table = robot_primaries();
    let mut out = owned("bvr robot commands (AI agent interface)\n\nPRIMARY COMMANDS:\n");
    let ghost head = out@;
    let mut k: usize = 0;
    while k < table.len()
        invariant
            table@ == spec_robot_primaries(),
            k <= table@.len(),
            out@ + primary_lines_from(k as int) == head + primary_lines_from(0),
        decreases table@.len() - k,
    {
        let f: FlagDef = table[k];
        let ghost before = out@;
        append(&mut out, "  --");
        append(&mut out, f.name);
        match f.kind {
            FlagKind::Str => append(&mut out, " <value>"),
            FlagKind::Int => append(&mut out, " <n>"),
            FlagKind::Float => append(&mut out, " <f>"),
            _ => {},
        }
        append(&mut out, "\n");
        assert(out@ + primary_lines_from(k + 1) =~= before + primary_lines_from(k as int));
        k += 1;
    }
    assert(out@ + Seq::<char>::empty() =~= out@);
    append(
        &mut out,
        "\nOutput contract: stdout=data only; stderr=diagnostics;\nexit 0=success, 1=error/critical-drift, 2=usage/warning-drift.\n",
    );
    out
}

/// Index of the first token equal to `t`, if any.
pub open spec fn position_of(a: Seq<Seq<char>>, t: Seq<char>) -> Option<int>
    decreases a.len(),
{
    if a.len() == 0 {
        None
    } else if a.last() == t {
        match position_of(a.drop_last(), t) {
            Some(i) => Some(i),
            None => Some(a.len() - 1),
        }
    } else {
        position_of(a.drop_last(), t)
    }
}

/// The `--format` value: the token after the first exact `--format`, or
/// `json` when there is none.
pub open spec fn format_value(a: Seq<Seq<char>>) -> Seq<char> {
    match position_of(a, "--format"@) {
        Some(i) => if i + 1 < a.len() {
            a[i + 1]
        } else {
            "json"@
        },
        None => "json"@,
    }
}

/// The outcome of the `--format` check: `None` when the flag is absent, the
/// chosen format when it is `json` or `toon`, else the usage error text.
pub open spec fn format_outcome(a: Seq<Seq<char>>) -> Option<Result<Seq<char>, Seq<char>>> {
    if !presence_of(a).contains("format"@) {
        None
    } else {
        let v = format_value(a);
        if v == "json"@ || v == "toon"@ {
            Some(Ok(v))
        } else {
            Some(Err("Invalid --format \""@ + v + "\" (expected json|toon)"@))
        }
    }
}

/// Checks `--format`: `None` when the flag is absent, the format when it is
/// `json` or `toon`, else the usage error to print (exit 2).
pub fn format_request(args: &[String], presence: &Presence) -> (r: Option<Result<String, String>>)
    requires
        presence@ == presence_of(views(args@)),
    ensures
        match (r, format_outcome(views(args@))) {
            (None, None) => true,
            (Some(Ok(v)), Some(Ok(w))) => v@ == w,
            (Some(Err(e)), Some(Err(w))) => e@ == w,
            _ => false,
        },
{
    let ghost a = views(args@);
    if !presence.has("format") {
        return None;
    }
    let mut pos: Option<usize> = None;
    let mut k: usize = 0;
    assert(a.take(0) =~= Seq::<Seq<char>>::empty());
    while k < args.len()
        invariant
            a == views(args@),
            k <= args@.len(),
            pos matches Some(i) ==> i < k,
            match pos {
                Some(i) => position_of(a.take(k as int), "--format"@) == Some(i as int),
                None => position_of(a.take(k as int), "--format"@) is None,
            },
        decreases args@.len() - k,
    {
        let ghost t = a.take(k + 1);
        assert(t.drop_last() =~= a.take(k as int));
        assert(t.last() == args@[k as int]@);
        if pos.is_none() && str_eq(args[k].as_str(), "--format") {
            pos = Some(k);
        }
        k += 1;
    }
    assert(a.take(args@.len() as int) =~= a);
    let value: &str = match pos {
        Some(i) => if i + 1 < args.len() {
            args[i + 1].as_str()
        } else {
            "json"
        },
        None => "json",
    };
    if str_eq(value, "json") || str_eq(value, "toon") {
        Some(Ok(owned(value)))
    } else {
        let mut e = owned("Invalid --format \"");
        append(&mut e, value);
        append(&mut e, "\" (expected json|toon)");
        Some(Err(e))
    }
}

} // verus!
