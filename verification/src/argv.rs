//! The argv rewriter: single-dash spellings, short aliases, subcommand words,
//! the `robot-<command>` forms, the structured-output aliases and the
//! `--robot-triage` auto-promote, plus the raw-argv readers for boolean and
//! string flags.
//!
//! `args[0]` is always the first user argument (the program name is never
//! part of the slices handled here).

use vstd::prelude::*;
use vstd::string::*;
use crate::flags::{flag_lookup, is_registered, strip_dashes, strip_leading_dashes};
use crate::text::{
    ascii_lower, chars_eq, chars_of, concat2, concat3, has_prefix, index_of, is_dash_start,
    lemma_views_add, lemma_views_push, lemma_views_skip, lower_trim, owned, starts_with_dash,
    str_eq, strip_prefix, to_ascii_lowercase, to_lowercase, trim, trim_str, unicode_lowercase,
    views, find_char, join, join_strings, string_of, utf8_len,
};

verus! {

broadcast use vstd::seq_lib::group_seq_properties;

// ---------------------------------------------------------------------------
// Specification
// ---------------------------------------------------------------------------

/// A non-empty token that does not start with a dash.
pub open spec fn is_positional(a: Seq<char>) -> bool {
    a.len() > 0 && a[0] != '-'
}

/// A structured-output format value, compared after lowercasing and trimming.
pub open spec fn is_output_format(v: Seq<char>) -> bool {
    lower_trim(v) == "json"@ || lower_trim(v) == "toon"@
}

/// A graph output format value, compared after lowercasing and trimming.
pub open spec fn is_graph_format_value(v: Seq<char>) -> bool {
    lower_trim(v) == "json"@ || lower_trim(v) == "dot"@ || lower_trim(v) == "mermaid"@
}

/// The limit flag a subcommand context maps `--limit` to.
pub open spec fn limit_flag(context: Seq<char>) -> Seq<char> {
    if context == "search"@ {
        "--search-limit"@
    } else if context == "label-attention"@ {
        "--attention-limit"@
    } else if context == "file-beads"@ {
        "--file-beads-limit"@
    } else if context == "file-hotspots"@ {
        "--hotspots-limit"@
    } else if context == "history"@ {
        "--history-limit"@
    } else if context == "related"@ {
        "--related-max-results"@
    } else if context == "file-relations"@ {
        "--relations-limit"@
    } else {
        "--robot-max-results"@
    }
}

/// The `=`-form aliases that may lead a subcommand's arguments.
pub open spec fn leading_equals_alias(arg: Seq<char>, context: Seq<char>) -> Option<Seq<char>> {
    if arg == "--json=true"@ || arg == "--json=false"@ {
        Some("--format=json"@)
    } else if arg == "--toon=true"@ {
        Some("--format=toon"@)
    } else if arg == "--toon=false"@ {
        Some("--format=json"@)
    } else if has_prefix(arg, "--output="@) && is_output_format(arg.skip("--output="@.len() as int)) {
        Some("--format="@ + unicode_lowercase(arg.skip("--output="@.len() as int)))
    } else if has_prefix(arg, "-o="@) && is_output_format(arg.skip("-o="@.len() as int)) {
        Some("--format="@ + unicode_lowercase(arg.skip("-o="@.len() as int)))
    } else if has_prefix(arg, "--limit="@) {
        Some(limit_flag(context) + "="@ + arg.skip("--limit="@.len() as int))
    } else {
        None
    }
}

/// One token of the alias pass that is neither a bare alias nor `--output`.
pub open spec fn equals_arg(arg: Seq<char>, context: Seq<char>) -> Seq<char> {
    match leading_equals_alias(arg, context) {
        Some(a) => a,
        None => if has_prefix(arg, "--name="@) {
            "--label="@ + arg.skip("--name="@.len() as int)
        } else {
            arg
        },
    }
}

/// The agent-intent alias pass over a whole argument list.
pub open spec fn flag_aliases(args: Seq<Seq<char>>, context: Seq<char>) -> Seq<Seq<char>>
    decreases args.len(),
{
    if args.len() == 0 {
        Seq::empty()
    } else {
        let a = args[0];
        if a == "--json"@ {
            seq!["--format"@, "json"@] + flag_aliases(args.skip(1), context)
        } else if a == "--toon"@ {
            seq!["--format"@, "toon"@] + flag_aliases(args.skip(1), context)
        } else if a == "--output"@ || a == "-o"@ {
            if args.len() > 1 && is_output_format(args[1]) {
                seq!["--format"@, unicode_lowercase(args[1])] + flag_aliases(args.skip(2), context)
            } else {
                seq![a] + flag_aliases(args.skip(1), context)
            }
        } else if a == "--name"@ {
            seq!["--label"@] + flag_aliases(args.skip(1), context)
        } else if a == "--limit"@ {
            seq![limit_flag(context)] + flag_aliases(args.skip(1), context)
        } else {
            seq![equals_arg(a, context)] + flag_aliases(args.skip(1), context)
        }
    }
}

/// The alias pass restricted to a leading run of aliases: the rewritten
/// aliases and how many tokens they consumed.
pub open spec fn leading_aliases(args: Seq<Seq<char>>, context: Seq<char>) -> (Seq<Seq<char>>, int)
    decreases args.len(),
{
    if args.len() == 0 {
        (Seq::empty(), 0)
    } else {
        let a = args[0];
        if a == "--json"@ {
            let r = leading_aliases(args.skip(1), context);
            (seq!["--format"@, "json"@] + r.0, r.1 + 1)
        } else if a == "--toon"@ {
            let r = leading_aliases(args.skip(1), context);
            (seq!["--format"@, "toon"@] + r.0, r.1 + 1)
        } else if a == "--output"@ || a == "-o"@ {
            if args.len() > 1 && is_output_format(args[1]) {
                let r = leading_aliases(args.skip(2), context);
                (seq!["--format"@, unicode_lowercase(args[1])] + r.0, r.1 + 2)
            } else {
                (Seq::empty(), 0)
            }
        } else if a == "--limit"@ {
            if args.len() > 1 {
                let r = leading_aliases(args.skip(2), context);
                (seq![limit_flag(context), args[1]] + r.0, r.1 + 2)
            } else {
                (Seq::empty(), 0)
            }
        } else {
            match leading_equals_alias(a, context) {
                Some(x) => {
                    let r = leading_aliases(args.skip(1), context);
                    (seq![x] + r.0, r.1 + 1)
                },
                None => (Seq::empty(), 0),
            }
        }
    }
}

pub proof fn lemma_leading_aliases(args: Seq<Seq<char>>, context: Seq<char>)
    ensures
        0 <= leading_aliases(args, context).1 <= args.len(),
        leading_aliases(args, context).1 == 0 <==> leading_aliases(args, context).0.len() == 0,
    decreases args.len(),
{
    if args.len() > 0 {
        if args.len() > 1 {
            lemma_leading_aliases(args.skip(2), context);
        }
        lemma_leading_aliases(args.skip(1), context);
    }
}

// ---------------------------------------------------------------------------
// Execution
// ---------------------------------------------------------------------------

/// Appends an owned copy of `s`.
fn push_str(out: &mut Vec<String>, s: &str)
    ensures
        views(final(out)@) == views(old(out)@).push(s@),
{
    let t = owned(s);
    proof {
        lemma_views_push(old(out)@, t);
    }
    out.push(t);
}

/// Appends an owned string.
fn push_string(out: &mut Vec<String>, s: String)
    ensures
        views(final(out)@) == views(old(out)@).push(s@),
{
    proof {
        lemma_views_push(old(out)@, s);
    }
    out.push(s);
}

/// Appends every string of `more`.
fn extend(out: &mut Vec<String>, more: Vec<String>)
    ensures
        views(final(out)@) == views(old(out)@) + views(more@),
{
    let mut more = more;
    proof {
        lemma_views_add(old(out)@, more@);
    }
    out.append(&mut more);
}

/// The suffix of `args` starting at `n`.
fn tail(args: &[String], n: usize) -> (r: &[String])
    requires
        n <= args@.len(),
    ensures
        views(r@) == views(args@).skip(n as int),
{
    let (_, r) = args.split_at(n);
    proof {
        assert(r@ =~= args@.skip(n as int));
        lemma_views_skip(args@, n as int);
    }
    r
}

/// Whether `arg` is a positional value: non-empty and not dash-led.
pub fn is_positional_value(arg: &str) -> (r: bool)
    ensures
        r == is_positional(arg@),
{
    arg.unicode_len() > 0 && !is_dash_start(arg)
}

/// Whether `value` names a structured-output format (`json` or `toon`).
pub fn is_robot_output_format(value: &str) -> (r: bool)
    ensures
        r == is_output_format(value@),
{
    let lower = to_lowercase(value);
    let t = trim_str(lower.as_str());
    str_eq(t, "json") || str_eq(t, "toon")
}

/// Whether `value` names a graph format (`json`, `dot` or `mermaid`).
pub fn is_graph_format(value: &str) -> (r: bool)
    ensures
        r == is_graph_format_value(value@),
{
    let lower = to_lowercase(value);
    let t = trim_str(lower.as_str());
    str_eq(t, "json") || str_eq(t, "dot") || str_eq(t, "mermaid")
}

/// The limit flag of a subcommand context; `--robot-max-results` otherwise.
pub fn limit_flag_for_context(context: &str) -> (r: &'static str)
    ensures
        r@ == limit_flag(context@),
{
    if str_eq(context, "search") {
        "--search-limit"
    } else if str_eq(context, "label-attention") {
        "--attention-limit"
    } else if str_eq(context, "file-beads") {
        "--file-beads-limit"
    } else if str_eq(context, "file-hotspots") {
        "--hotspots-limit"
    } else if str_eq(context, "history") {
        "--history-limit"
    } else if str_eq(context, "related") {
        "--related-max-results"
    } else if str_eq(context, "file-relations") {
        "--relations-limit"
    } else {
        "--robot-max-results"
    }
}

/// The `=`-form agent-intent alias of `arg`, if it is one.
pub fn rewrite_leading_equals_alias(arg: &str, context: &str) -> (r: Option<String>)
    ensures
        r matches Some(x) ==> leading_equals_alias(arg@, context@) == Some(x@),
        r is None ==> leading_equals_alias(arg@, context@) is None,
{
    if str_eq(arg, "--json=true") || str_eq(arg, "--json=false") {
        return Some(owned("--format=json"));
    }
    if str_eq(arg, "--toon=true") {
        return Some(owned("--format=toon"));
    }
    if str_eq(arg, "--toon=false") {
        return Some(owned("--format=json"));
    }
    if let Some(value) = strip_prefix(arg, "--output=") {
        if is_robot_output_format(value) {
            let l = to_lowercase(value);
            return Some(concat2("--format=", l.as_str()));
        }
    }
    if let Some(value) = strip_prefix(arg, "-o=") {
        if is_robot_output_format(value) {
            let l = to_lowercase(value);
            return Some(concat2("--format=", l.as_str()));
        }
    }
    if let Some(value) = strip_prefix(arg, "--limit=") {
        return Some(concat3(limit_flag_for_context(context), "=", value));
    }
    None
}

/// `rewrite_leading_equals_alias`, then `--name=` to `--label=`, else `arg`.
pub fn rewrite_equals_arg(arg: &str, context: &str) -> (r: String)
    ensures
        r@ == equals_arg(arg@, context@),
{
    if let Some(alias) = rewrite_leading_equals_alias(arg, context) {
        return alias;
    }
    if let Some(value) = strip_prefix(arg, "--name=") {
        return concat2("--label=", value);
    }
    owned(arg)
}

/// The agent-intent alias pass: `--json`/`--toon` and `--output <fmt>`
/// become `--format`, `--name` becomes `--label`, `--limit` becomes the
/// context's limit flag, and the `=` forms are rewritten likewise.
pub fn rewrite_flag_aliases(args: &[String], context: &str) -> (r: Vec<String>)
    ensures
        views(r@) == flag_aliases(views(args@), context@),
{
    let ghost a = views(args@);
    let mut out: Vec<String> = Vec::new();
    let mut i: usize = 0;
    assert(a.skip(0) =~= a);
    while i < args.len()
        invariant
            a == views(args@),
            i <= args@.len(),
            views(out@) + flag_aliases(a.skip(i as int), context@) == flag_aliases(a, context@),
        decreases args@.len() - i,
    {
        let arg = args[i].as_str();
        let ghost s = a.skip(i as int);
        let ghost before = views(out@);
        assert(s[0] == arg@);
        assert(s.skip(1) =~= a.skip(i + 1));
        if str_eq(arg, "--json") {
            push_str(&mut out, "--format");
            push_str(&mut out, "json");
            assert(views(out@) =~= before + seq!["--format"@, "json"@]);
            i += 1;
        } else if str_eq(arg, "--toon") {
            push_str(&mut out, "--format");
            push_str(&mut out, "toon");
            assert(views(out@) =~= before + seq!["--format"@, "toon"@]);
            i += 1;
        } else if str_eq(arg, "--output") || str_eq(arg, "-o") {
            if i + 1 < args.len() && is_robot_output_format(args[i + 1].as_str()) {
                assert(s[1] == args@[i + 1]@);
                assert(s.skip(2) =~= a.skip(i + 2));
                push_str(&mut out, "--format");
                push_string(&mut out, to_lowercase(args[i + 1].as_str()));
                assert(views(out@) =~= before + seq!["--format"@, unicode_lowercase(s[1])]);
                i += 2;
            } else {
                push_str(&mut out, arg);
                assert(views(out@) =~= before + seq![s[0]]);
                i += 1;
            }
        } else if str_eq(arg, "--name") {
            push_str(&mut out, "--label");
            assert(views(out@) =~= before + seq!["--label"@]);
            i += 1;
        } else if str_eq(arg, "--limit") {
            push_str(&mut out, limit_flag_for_context(context));
            assert(views(out@) =~= before + seq![limit_flag(context@)]);
            i += 1;
        } else {
            push_string(&mut out, rewrite_equals_arg(arg, context));
            assert(views(out@) =~= before + seq![equals_arg(s[0], context@)]);
            i += 1;
        }
    }
    assert(a.skip(i as int) =~= Seq::<Seq<char>>::empty());
    assert(views(out@) + Seq::<Seq<char>>::empty() =~= views(out@));
    out
}

/// The leading run of agent-intent aliases: the rewritten aliases and how
/// many tokens of `args` they consumed.
fn leading_alias_run(args: &[String], context: &str) -> (r: (Vec<String>, usize))
    ensures
        views(r.0@) == leading_aliases(views(args@), context@).0,
        r.1 as int == leading_aliases(views(args@), context@).1,
        r.1 <= args@.len(),
{
    let ghost a = views(args@);
    let mut out: Vec<String> = Vec::new();
    let mut i: usize = 0;
    assert(a.skip(0) =~= a);
    proof {
        lemma_leading_aliases(a, context@);
    }
    while i < args.len()
        invariant
            a == views(args@),
            i <= args@.len(),
            views(out@) + leading_aliases(a.skip(i as int), context@).0 == leading_aliases(
                a,
                context@,
            ).0,
            i + leading_aliases(a.skip(i as int), context@).1 == leading_aliases(a, context@).1,
        decreases args@.len() - i,
    {
        let arg = args[i].as_str();
        let ghost s = a.skip(i as int);
        let ghost before = views(out@);
        assert(s[0] == arg@);
        assert(s.skip(1) =~= a.skip(i + 1));
        if str_eq(arg, "--json") {
            push_str(&mut out, "--format");
            push_str(&mut out, "json");
            assert(views(out@) =~= before + seq!["--format"@, "json"@]);
            i += 1;
        } else if str_eq(arg, "--toon") {
            push_str(&mut out, "--format");
            push_str(&mut out, "toon");
            assert(views(out@) =~= before + seq!["--format"@, "toon"@]);
            i += 1;
        } else if str_eq(arg, "--output") || str_eq(arg, "-o") {
            if i + 1 < args.len() && is_robot_output_format(args[i + 1].as_str()) {
                assert(s[1] == args@[i + 1]@);
                assert(s.skip(2) =~= a.skip(i + 2));
                push_str(&mut out, "--format");
                push_string(&mut out, to_lowercase(args[i + 1].as_str()));
                assert(views(out@) =~= before + seq!["--format"@, unicode_lowercase(s[1])]);
                i += 2;
            } else {
                assert(views(out@) + Seq::<Seq<char>>::empty() =~= views(out@));
                return (out, i);
            }
        } else if str_eq(arg, "--limit") {
            if i + 1 < args.len() {
                assert(s[1] == args@[i + 1]@);
                assert(s.skip(2) =~= a.skip(i + 2));
                push_str(&mut out, limit_flag_for_context(context));
                push_str(&mut out, args[i + 1].as_str());
                assert(views(out@) =~= before + seq![limit_flag(context@), s[1]]);
                i += 2;
            } else {
                assert(views(out@) + Seq::<Seq<char>>::empty() =~= views(out@));
                return (out, i);
            }
        } else {
            match rewrite_leading_equals_alias(arg, context) {
                Some(alias) => {
                    push_string(&mut out, alias);
                    i += 1;
                },
                None => {
                    assert(views(out@) + Seq::<Seq<char>>::empty() =~= views(out@));
                    return (out, i);
                },
            }
        }
    }
    assert(a.skip(i as int) =~= Seq::<Seq<char>>::empty());
    assert(views(out@) + Seq::<Seq<char>>::empty() =~= views(out@));
    (out, i)
}

/// Like `rewrite_flag_aliases`, but stops at the first token that is not an
/// alias, so a subcommand can read its positional after leading aliases:
/// the rewritten aliases and the tokens left over.
pub fn consume_leading_flag_aliases<'a>(args: &'a [String], context: &str) -> (r: (
    Vec<String>,
    &'a [String],
))
    ensures
        views(r.0@) == leading_aliases(views(args@), context@).0,
        views(r.1@) == views(args@).skip(leading_aliases(views(args@), context@).1),
{
    let (out, n) = leading_alias_run(args, context);
    (out, tail(args, n))
}

// ---------------------------------------------------------------------------
// Subcommand rewrites
// ---------------------------------------------------------------------------

/// What a subcommand word asks for.
#[derive(Debug, Clone, Copy, PartialEq, Eq)]
pub enum Intent {
    /// A primary flag followed by the alias pass over the rest.
    Lead { flag: &'static str, context: &'static str },
    /// A command taking one positional target.
    Value {
        context: &'static str,
        bool_flag: &'static str,
        value_flag: &'static str,
        default_value: &'static str,
    },
    /// `--robot-docs <topic>`.
    Docs,
    /// `--robot-schema --schema-command <command>`.
    Schema,
    /// `--search <words> --robot-search`.
    Search,
    /// `--robot-graph --graph-format <format>`.
    Graph,
    /// The self-update verb.
    Upgrade,
    /// `robot-help`, which turns into the docs guide under a structured alias.
    RobotHelp,
    /// A `robot-<command>` word whose flag is `--robot-<command>`.
    CanonicalLead,
    /// `robot-drift`, which carries its `--check-drift` companion.
    Drift,
}

/// `[flag] + alias pass`, the shape of every subcommand without a positional.
pub open spec fn lead(rest: Seq<Seq<char>>, flag: Seq<char>, context: Seq<char>) -> Seq<Seq<char>> {
    seq![flag] + flag_aliases(rest, context)
}

/// The rewrite of a command taking one positional target.
pub open spec fn value_intent(
    rest: Seq<Seq<char>>,
    context: Seq<char>,
    bool_flag: Seq<char>,
    value_flag: Seq<char>,
    default_value: Seq<char>,
) -> Seq<Seq<char>> {
    let la = leading_aliases(rest, context);
    let r = rest.skip(la.1);
    let head: Seq<Seq<char>> = if bool_flag.len() > 0 {
        seq![bool_flag]
    } else {
        Seq::empty()
    };
    if r.len() > 0 && is_positional(r[0]) {
        head + seq![value_flag, r[0]] + la.0 + flag_aliases(r.skip(1), context)
    } else if default_value.len() > 0 {
        head + seq![value_flag, default_value] + la.0 + flag_aliases(r, context)
    } else if value_flag.len() > 0 && bool_flag.len() == 0 {
        head + la.0 + flag_aliases(r, context) + seq![value_flag]
    } else {
        head + la.0 + flag_aliases(r, context)
    }
}

/// The rewrite of `docs [topic]`; the topic defaults to `guide`.
pub open spec fn docs_intent(rest: Seq<Seq<char>>) -> Seq<Seq<char>> {
    let la = leading_aliases(rest, "docs"@);
    let r = rest.skip(la.1);
    if r.len() > 0 && is_positional(r[0]) {
        seq!["--robot-docs"@, r[0]] + la.0 + flag_aliases(r.skip(1), "docs"@)
    } else {
        seq!["--robot-docs"@, "guide"@] + la.0 + flag_aliases(r, "docs"@)
    }
}

/// A command name in its `robot-` form, lowercased and trimmed.
pub open spec fn robot_command_name(value: Seq<char>) -> Seq<char> {
    let v = lower_trim(value);
    if v.len() == 0 || has_prefix(v, "robot-"@) {
        v
    } else {
        "robot-"@ + v
    }
}

/// The rewrite of `schema [command]`.
pub open spec fn schema_intent(rest: Seq<Seq<char>>) -> Seq<Seq<char>> {
    let la = leading_aliases(rest, "schema"@);
    let r = rest.skip(la.1);
    if r.len() > 0 && is_positional(r[0]) {
        seq!["--robot-schema"@, "--schema-command"@, robot_command_name(r[0])] + la.0
            + flag_aliases(r.skip(1), "schema"@)
    } else {
        seq!["--robot-schema"@] + la.0 + flag_aliases(r, "schema"@)
    }
}

/// The rewrite of `graph [format]`.
pub open spec fn graph_intent(rest: Seq<Seq<char>>) -> Seq<Seq<char>> {
    let la = leading_aliases(rest, "graph"@);
    let r = rest.skip(la.1);
    if r.len() > 0 && is_graph_format_value(r[0]) {
        seq!["--robot-graph"@, "--graph-format"@, unicode_lowercase(r[0])] + la.0 + flag_aliases(
            r.skip(1),
            "graph"@,
        )
    } else {
        seq!["--robot-graph"@] + la.0 + flag_aliases(r, "graph"@)
    }
}

/// The leading scan of `search`: query words, interleaved aliases, and the
/// number of tokens consumed.
pub open spec fn search_scan(rest: Seq<Seq<char>>) -> (Seq<Seq<char>>, Seq<Seq<char>>, int)
    decreases rest.len(),
{
    if rest.len() == 0 {
        (Seq::empty(), Seq::empty(), 0)
    } else if is_positional(rest[0]) {
        let r = search_scan(rest.skip(1));
        (seq![rest[0]] + r.0, r.1, r.2 + 1)
    } else {
        let la = leading_aliases(rest, "search"@);
        if la.0.len() == 0 {
            (Seq::empty(), Seq::empty(), 0)
        } else {
            proof {
                lemma_leading_aliases(rest, "search"@);
            }
            let r = search_scan(rest.skip(la.1));
            (r.0, la.0 + r.1, r.2 + la.1)
        }
    }
}

pub proof fn lemma_search_scan(rest: Seq<Seq<char>>)
    ensures
        0 <= search_scan(rest).2 <= rest.len(),
    decreases rest.len(),
{
    if rest.len() > 0 {
        if is_positional(rest[0]) {
            lemma_search_scan(rest.skip(1));
        } else {
            lemma_leading_aliases(rest, "search"@);
            let la = leading_aliases(rest, "search"@);
            if la.0.len() != 0 {
                lemma_search_scan(rest.skip(la.1));
            }
        }
    }
}

pub proof fn lemma_search_scan_positional(rest: Seq<Seq<char>>)
    requires
        rest.len() > 0,
        is_positional(rest[0]),
    ensures
        search_scan(rest) == (
            seq![rest[0]] + search_scan(rest.skip(1)).0,
            search_scan(rest.skip(1)).1,
            search_scan(rest.skip(1)).2 + 1,
        ),
{
}

pub proof fn lemma_search_scan_alias(rest: Seq<Seq<char>>)
    requires
        rest.len() > 0,
        !is_positional(rest[0]),
    ensures
        ({
            let la = leading_aliases(rest, "search"@);
            if la.0.len() == 0 {
                search_scan(rest) == (Seq::<Seq<char>>::empty(), Seq::<Seq<char>>::empty(), 0int)
            } else {
                search_scan(rest) == (
                    search_scan(rest.skip(la.1)).0,
                    la.0 + search_scan(rest.skip(la.1)).1,
                    search_scan(rest.skip(la.1)).2 + la.1,
                )
            }
        }),
{
}

/// The rewrite of `search <words>`: the words joined with spaces become the
/// `--search` value and `--robot-search` is the primary.
pub open spec fn search_intent(rest: Seq<Seq<char>>) -> Seq<Seq<char>> {
    let sc = search_scan(rest);
    let query: Seq<Seq<char>> = if sc.0.len() > 0 {
        seq!["--search"@, join(sc.0, " "@)]
    } else {
        Seq::empty()
    };
    query + seq!["--robot-search"@] + sc.1 + flag_aliases(rest.skip(sc.2), "search"@)
}

/// The self-update mode selected by `upgrade`.
#[derive(Debug, Clone, Copy, PartialEq, Eq)]
pub enum UpgradeMode {
    Update,
    Check,
    DryRun,
    Rollback,
}

/// `upgrade` mode words that ask for a check only.
pub open spec fn is_check_word(k: Seq<char>) -> bool {
    k == "check"@ || k == "--check"@ || k == "check-update"@ || k == "--check-update"@
}

/// `upgrade` mode words that ask for a dry run.
pub open spec fn is_dry_run_word(k: Seq<char>) -> bool {
    k == "dry-run"@ || k == "--dry-run"@ || k == "dryrun"@ || k == "--dryrun"@
}

/// `upgrade` mode words that ask for a rollback.
pub open spec fn is_rollback_word(k: Seq<char>) -> bool {
    k == "rollback"@ || k == "--rollback"@
}

/// `upgrade` words that skip confirmation.
pub open spec fn is_yes_word(k: Seq<char>) -> bool {
    k == "yes"@ || k == "--yes"@ || k == "-y"@ || k == "force"@ || k == "--force"@
}

/// One token of the `upgrade` fold: mode, confirmation, passthrough.
pub open spec fn upgrade_step(
    st: (UpgradeMode, bool, Seq<Seq<char>>),
    arg: Seq<char>,
) -> (UpgradeMode, bool, Seq<Seq<char>>) {
    let k = lower_trim(arg);
    if is_check_word(k) {
        if st.0 == UpgradeMode::Update {
            (UpgradeMode::Check, st.1, st.2)
        } else {
            st
        }
    } else if is_dry_run_word(k) {
        if st.0 == UpgradeMode::Update {
            (UpgradeMode::DryRun, st.1, st.2)
        } else {
            st
        }
    } else if is_rollback_word(k) {
        (UpgradeMode::Rollback, st.1, st.2)
    } else if is_yes_word(k) {
        (st.0, true, st.2)
    } else {
        (st.0, st.1, st.2.push(arg))
    }
}

/// The `upgrade` fold over the remaining tokens.
pub open spec fn upgrade_fold(
    st: (UpgradeMode, bool, Seq<Seq<char>>),
    args: Seq<Seq<char>>,
) -> (UpgradeMode, bool, Seq<Seq<char>>)
    decreases args.len(),
{
    if args.len() == 0 {
        st
    } else {
        upgrade_fold(upgrade_step(st, args[0]), args.skip(1))
    }
}

/// The rewrite of `upgrade [mode words]`.
pub open spec fn upgrade_intent(rest: Seq<Seq<char>>) -> Seq<Seq<char>> {
    let st = upgrade_fold((UpgradeMode::Update, false, Seq::empty()), rest);
    let head: Seq<Seq<char>> = match st.0 {
        UpgradeMode::Check => seq!["--check-update"@],
        UpgradeMode::DryRun => seq!["--update-dry-run"@],
        UpgradeMode::Rollback => seq!["--rollback"@],
        UpgradeMode::Update => if st.1 {
            seq!["--update"@, "--yes"@]
        } else {
            seq!["--update"@]
        },
    };
    head + st.2
}

/// The tokens that ask for structured output (compared ASCII-lowercased).
pub open spec fn is_structured_token(l: Seq<char>) -> bool {
    ||| l == "--json"@
    ||| l == "--json=true"@
    ||| l == "--json=false"@
    ||| l == "--toon"@
    ||| l == "--toon=true"@
    ||| l == "--toon=false"@
    ||| l == "--output=json"@
    ||| l == "--output=toon"@
    ||| l == "-o=json"@
    ||| l == "-o=toon"@
}

/// Token `i` of `args` is a structured-output alias.
pub open spec fn structured_at(args: Seq<Seq<char>>, i: int) -> bool {
    ||| is_structured_token(ascii_lower(args[i]))
    ||| ((args[i] == "--output"@ || args[i] == "-o"@) && i + 1 < args.len() && is_output_format(
        args[i + 1],
    ))
}

/// `args` carries a structured-output alias; a bare `--format` does not count.
pub open spec fn has_structured_alias(args: Seq<Seq<char>>) -> bool {
    exists|i: int| 0 <= i < args.len() && #[trigger] structured_at(args, i)
}

/// `cmd` with a leading `robot-` removed, when present.
pub open spec fn without_robot_prefix(cmd: Seq<char>) -> Seq<char> {
    if has_prefix(cmd, "robot-"@) {
        cmd.skip("robot-"@.len() as int)
    } else {
        cmd
    }
}

/// The rewrite an intent produces for the tokens after the subcommand word.
pub open spec fn intent_rewrite(intent: Intent, cmd: Seq<char>, rest: Seq<Seq<char>>) -> Seq<
    Seq<char>,
> {
    match intent {
        Intent::Lead { flag, context } => lead(rest, flag@, context@),
        Intent::Value { context, bool_flag, value_flag, default_value } => value_intent(
            rest,
            context@,
            bool_flag@,
            value_flag@,
            default_value@,
        ),
        Intent::Docs => docs_intent(rest),
        Intent::Schema => schema_intent(rest),
        Intent::Search => search_intent(rest),
        Intent::Graph => graph_intent(rest),
        Intent::Upgrade => upgrade_intent(rest),
        Intent::RobotHelp => if has_structured_alias(rest) {
            docs_intent(seq!["guide"@] + rest)
        } else {
            lead(rest, "--robot-help"@, "help"@)
        },
        Intent::CanonicalLead => lead(rest, "--"@ + cmd, without_robot_prefix(cmd)),
        Intent::Drift => seq!["--check-drift"@, "--robot-drift"@] + flag_aliases(rest, "drift"@),
    }
}

/// The rewrite of a documented `robot-<command>` word, `None` for any other.
pub open spec fn canonical_rewrite(cmd: Seq<char>, rest: Seq<Seq<char>>) -> Option<Seq<Seq<char>>> {
    match spec_canonical_intent(cmd) {
        Some(i) => Some(intent_rewrite(i, cmd, rest)),
        None => None,
    }
}

/// The subcommand rewrite: `None` when the first token is not a subcommand.
pub open spec fn agent_intent(args: Seq<Seq<char>>) -> Option<Seq<Seq<char>>> {
    if args.len() == 0 || starts_with_dash(args[0]) {
        None
    } else {
        let cmd = lower_trim(args[0]);
        let rest = args.skip(1);
        match canonical_rewrite(cmd, rest) {
            Some(v) => Some(v),
            None => match spec_short_intent(cmd) {
                Some(i) => Some(intent_rewrite(i, cmd, rest)),
                None => None,
            },
        }
    }
}

/// The intent of a documented `robot-<command>` word.
pub open spec fn spec_canonical_intent(cmd: Seq<char>) -> Option<Intent> {
    if cmd == "robot-help"@ {
        Some(Intent::RobotHelp)
    } else if cmd == "robot-triage"@
        || cmd == "robot-triage-by-track"@
        || cmd == "robot-triage-by-label"@
        || cmd == "robot-next"@
        || cmd == "robot-plan"@
        || cmd == "robot-insights"@
        || cmd == "robot-priority"@
        || cmd == "robot-alerts"@
        || cmd == "robot-suggest"@
        || cmd == "robot-recipes"@
        || cmd == "robot-metrics"@
        || cmd == "robot-label-health"@
        || cmd == "robot-label-flow"@
        || cmd == "robot-label-attention"@
        || cmd == "robot-file-hotspots"@
        || cmd == "robot-sprint-list"@
        || cmd == "robot-capacity"@
        || cmd == "robot-capabilities"@
        || cmd == "robot-orphans"@
        || cmd == "robot-correlation-stats"@ {
        Some(Intent::CanonicalLead)
    } else if cmd == "robot-docs"@ {
        Some(Intent::Docs)
    } else if cmd == "robot-schema"@ {
        Some(Intent::Schema)
    } else if cmd == "robot-search"@ {
        Some(Intent::Search)
    } else if cmd == "robot-graph"@ {
        Some(Intent::Graph)
    } else if cmd == "robot-diff"@ {
        Some(Intent::Value {
            context: "diff",
            bool_flag: "--robot-diff",
            value_flag: "--diff-since",
            default_value: "",
        })
    } else if cmd == "robot-history"@ {
        Some(Intent::Value {
            context: "history",
            bool_flag: "--robot-history",
            value_flag: "--bead-history",
            default_value: "",
        })
    } else if cmd == "robot-explain-correlation"@ {
        Some(Intent::Value {
            context: "correlation",
            bool_flag: "",
            value_flag: "--robot-explain-correlation",
            default_value: "",
        })
    } else if cmd == "robot-confirm-correlation"@ {
        Some(Intent::Value {
            context: "correlation",
            bool_flag: "",
            value_flag: "--robot-confirm-correlation",
            default_value: "",
        })
    } else if cmd == "robot-reject-correlation"@ {
        Some(Intent::Value {
            context: "correlation",
            bool_flag: "",
            value_flag: "--robot-reject-correlation",
            default_value: "",
        })
    } else if cmd == "robot-file-beads"@ {
        Some(Intent::Value {
            context: "file-beads",
            bool_flag: "",
            value_flag: "--robot-file-beads",
            default_value: "",
        })
    } else if cmd == "robot-file-relations"@ {
        Some(Intent::Value {
            context: "file-relations",
            bool_flag: "",
            value_flag: "--robot-file-relations",
            default_value: "",
        })
    } else if cmd == "robot-impact"@ {
        Some(Intent::Value {
            context: "impact",
            bool_flag: "",
            value_flag: "--robot-impact",
            default_value: "",
        })
    } else if cmd == "robot-related"@ {
        Some(Intent::Value {
            context: "related",
            bool_flag: "",
            value_flag: "--robot-related",
            default_value: "",
        })
    } else if cmd == "robot-blocker-chain"@ {
        Some(Intent::Value {
            context: "blocker-chain",
            bool_flag: "",
            value_flag: "--robot-blocker-chain",
            default_value: "",
        })
    } else if cmd == "robot-impact-network"@ {
        Some(Intent::Value {
            context: "impact-network",
            bool_flag: "",
            value_flag: "--robot-impact-network",
            default_value: "all",
        })
    } else if cmd == "robot-causality"@ {
        Some(Intent::Value {
            context: "causality",
            bool_flag: "",
            value_flag: "--robot-causality",
            default_value: "",
        })
    } else if cmd == "robot-sprint-show"@ {
        Some(Intent::Value {
            context: "sprint-show",
            bool_flag: "",
            value_flag: "--robot-sprint-show",
            default_value: "",
        })
    } else if cmd == "robot-forecast"@ {
        Some(Intent::Value {
            context: "forecast",
            bool_flag: "",
            value_flag: "--robot-forecast",
            default_value: "all",
        })
    } else if cmd == "robot-burndown"@ {
        Some(Intent::Value {
            context: "burndown",
            bool_flag: "",
            value_flag: "--robot-burndown",
            default_value: "current",
        })
    } else if cmd == "robot-drift"@ {
        Some(Intent::Drift)
    } else {
        None
    }
}

/// The intent of a short subcommand word.
pub open spec fn spec_short_intent(cmd: Seq<char>) -> Option<Intent> {
    if cmd == "triage"@
        || cmd == "recommend"@
        || cmd == "recommendations"@ {
        Some(Intent::Lead { flag: "--robot-triage", context: "triage" })
    } else if cmd == "next"@
        || cmd == "pick"@ {
        Some(Intent::Lead { flag: "--robot-next", context: "next" })
    } else if cmd == "plan"@ {
        Some(Intent::Lead { flag: "--robot-plan", context: "plan" })
    } else if cmd == "insights"@
        || cmd == "insight"@
        || cmd == "analysis"@
        || cmd == "analyze"@ {
        Some(Intent::Lead { flag: "--robot-insights", context: "insights" })
    } else if cmd == "priority"@
        || cmd == "priorities"@ {
        Some(Intent::Lead { flag: "--robot-priority", context: "priority" })
    } else if cmd == "alerts"@ {
        Some(Intent::Lead { flag: "--robot-alerts", context: "alerts" })
    } else if cmd == "suggest"@
        || cmd == "suggestions"@ {
        Some(Intent::Lead { flag: "--robot-suggest", context: "suggest" })
    } else if cmd == "recipes"@ {
        Some(Intent::Lead { flag: "--robot-recipes", context: "recipes" })
    } else if cmd == "metrics"@ {
        Some(Intent::Lead { flag: "--robot-metrics", context: "metrics" })
    } else if cmd == "capabilities"@
        || cmd == "capability"@
        || cmd == "manifest"@ {
        Some(Intent::Lead { flag: "--robot-capabilities", context: "capabilities" })
    } else if cmd == "docs"@
        || cmd == "doc"@ {
        Some(Intent::Docs)
    } else if cmd == "schema"@
        || cmd == "schemas"@ {
        Some(Intent::Schema)
    } else if cmd == "search"@
        || cmd == "find"@ {
        Some(Intent::Search)
    } else if cmd == "graph"@ {
        Some(Intent::Graph)
    } else if cmd == "diff"@
        || cmd == "changes"@ {
        Some(Intent::Value {
            context: "diff",
            bool_flag: "--robot-diff",
            value_flag: "--diff-since",
            default_value: "",
        })
    } else if cmd == "history"@ {
        Some(Intent::Value {
            context: "history",
            bool_flag: "--robot-history",
            value_flag: "--bead-history",
            default_value: "",
        })
    } else if cmd == "labels"@
        || cmd == "label-health"@ {
        Some(Intent::Lead { flag: "--robot-label-health", context: "label-health" })
    } else if cmd == "label-flow"@ {
        Some(Intent::Lead { flag: "--robot-label-flow", context: "label-flow" })
    } else if cmd == "label-attention"@ {
        Some(Intent::Lead { flag: "--robot-label-attention", context: "label-attention" })
    } else if cmd == "hotspots"@
        || cmd == "file-hotspots"@ {
        Some(Intent::Lead { flag: "--robot-file-hotspots", context: "file-hotspots" })
    } else if cmd == "file-beads"@ {
        Some(Intent::Value {
            context: "file-beads",
            bool_flag: "",
            value_flag: "--robot-file-beads",
            default_value: "",
        })
    } else if cmd == "file-relations"@ {
        Some(Intent::Value {
            context: "file-relations",
            bool_flag: "",
            value_flag: "--robot-file-relations",
            default_value: "",
        })
    } else if cmd == "impact"@ {
        Some(Intent::Value {
            context: "impact",
            bool_flag: "",
            value_flag: "--robot-impact",
            default_value: "",
        })
    } else if cmd == "related"@ {
        Some(Intent::Value {
            context: "related",
            bool_flag: "",
            value_flag: "--robot-related",
            default_value: "",
        })
    } else if cmd == "blockers"@
        || cmd == "blocker-chain"@ {
        Some(Intent::Value {
            context: "blocker-chain",
            bool_flag: "",
            value_flag: "--robot-blocker-chain",
            default_value: "",
        })
    } else if cmd == "impact-network"@ {
        Some(Intent::Value {
            context: "impact-network",
            bool_flag: "",
            value_flag: "--robot-impact-network",
            default_value: "all",
        })
    } else if cmd == "causality"@ {
        Some(Intent::Value {
            context: "causality",
            bool_flag: "",
            value_flag: "--robot-causality",
            default_value: "",
        })
    } else if cmd == "sprints"@
        || cmd == "sprint-list"@ {
        Some(Intent::Lead { flag: "--robot-sprint-list", context: "sprint-list" })
    } else if cmd == "sprint"@
        || cmd == "sprint-show"@ {
        Some(Intent::Value {
            context: "sprint-show",
            bool_flag: "",
            value_flag: "--robot-sprint-show",
            default_value: "",
        })
    } else if cmd == "forecast"@ {
        Some(Intent::Value {
            context: "forecast",
            bool_flag: "",
            value_flag: "--robot-forecast",
            default_value: "all",
        })
    } else if cmd == "capacity"@ {
        Some(Intent::Lead { flag: "--robot-capacity", context: "capacity" })
    } else if cmd == "burndown"@ {
        Some(Intent::Value {
            context: "burndown",
            bool_flag: "",
            value_flag: "--robot-burndown",
            default_value: "current",
        })
    } else if cmd == "upgrade"@
        || cmd == "self-update"@
        || cmd == "selfupdate"@ {
        Some(Intent::Upgrade)
    } else if cmd == "drift"@ {
        Some(Intent::Lead { flag: "--robot-drift", context: "drift" })
    } else if cmd == "orphans"@ {
        Some(Intent::Lead { flag: "--robot-orphans", context: "orphans" })
    } else if cmd == "correlation-stats"@ {
        Some(Intent::Lead { flag: "--robot-correlation-stats", context: "correlation-stats" })
    } else {
        None
    }
}

/// The intent of a documented `robot-<command>` word.
pub fn canonical_intent(cmd: &str) -> (r: Option<Intent>)
    ensures
        r == spec_canonical_intent(cmd@),
{
    if str_eq(cmd, "robot-help") {
        Some(Intent::RobotHelp)
    } else if str_eq(cmd, "robot-triage")
        || str_eq(cmd, "robot-triage-by-track")
        || str_eq(cmd, "robot-triage-by-label")
        || str_eq(cmd, "robot-next")
        || str_eq(cmd, "robot-plan")
        || str_eq(cmd, "robot-insights")
        || str_eq(cmd, "robot-priority")
        || str_eq(cmd, "robot-alerts")
        || str_eq(cmd, "robot-suggest")
        || str_eq(cmd, "robot-recipes")
        || str_eq(cmd, "robot-metrics")
        || str_eq(cmd, "robot-label-health")
        || str_eq(cmd, "robot-label-flow")
        || str_eq(cmd, "robot-label-attention")
        || str_eq(cmd, "robot-file-hotspots")
        || str_eq(cmd, "robot-sprint-list")
        || str_eq(cmd, "robot-capacity")
        || str_eq(cmd, "robot-capabilities")
        || str_eq(cmd, "robot-orphans")
        || str_eq(cmd, "robot-correlation-stats") {
        Some(Intent::CanonicalLead)
    } else if str_eq(cmd, "robot-docs") {
        Some(Intent::Docs)
    } else if str_eq(cmd, "robot-schema") {
        Some(Intent::Schema)
    } else if str_eq(cmd, "robot-search") {
        Some(Intent::Search)
    } else if str_eq(cmd, "robot-graph") {
        Some(Intent::Graph)
    } else if str_eq(cmd, "robot-diff") {
        Some(Intent::Value {
            context: "diff",
            bool_flag: "--robot-diff",
            value_flag: "--diff-since",
            default_value: "",
        })
    } else if str_eq(cmd, "robot-history") {
        Some(Intent::Value {
            context: "history",
            bool_flag: "--robot-history",
            value_flag: "--bead-history",
            default_value: "",
        })
    } else if str_eq(cmd, "robot-explain-correlation") {
        Some(Intent::Value {
            context: "correlation",
            bool_flag: "",
            value_flag: "--robot-explain-correlation",
            default_value: "",
        })
    } else if str_eq(cmd, "robot-confirm-correlation") {
        Some(Intent::Value {
            context: "correlation",
            bool_flag: "",
            value_flag: "--robot-confirm-correlation",
            default_value: "",
        })
    } else if str_eq(cmd, "robot-reject-correlation") {
        Some(Intent::Value {
            context: "correlation",
            bool_flag: "",
            value_flag: "--robot-reject-correlation",
            default_value: "",
        })
    } else if str_eq(cmd, "robot-file-beads") {
        Some(Intent::Value {
            context: "file-beads",
            bool_flag: "",
            value_flag: "--robot-file-beads",
            default_value: "",
        })
    } else if str_eq(cmd, "robot-file-relations") {
        Some(Intent::Value {
            context: "file-relations",
            bool_flag: "",
            value_flag: "--robot-file-relations",
            default_value: "",
        })
    } else if str_eq(cmd, "robot-impact") {
        Some(Intent::Value {
            context: "impact",
            bool_flag: "",
            value_flag: "--robot-impact",
            default_value: "",
        })
    } else if str_eq(cmd, "robot-related") {
        Some(Intent::Value {
            context: "related",
            bool_flag: "",
            value_flag: "--robot-related",
            default_value: "",
        })
    } else if str_eq(cmd, "robot-blocker-chain") {
        Some(Intent::Value {
            context: "blocker-chain",
            bool_flag: "",
            value_flag: "--robot-blocker-chain",
            default_value: "",
        })
    } else if str_eq(cmd, "robot-impact-network") {
        Some(Intent::Value {
            context: "impact-network",
            bool_flag: "",
            value_flag: "--robot-impact-network",
            default_value: "all",
        })
    } else if str_eq(cmd, "robot-causality") {
        Some(Intent::Value {
            context: "causality",
            bool_flag: "",
            value_flag: "--robot-causality",
            default_value: "",
        })
    } else if str_eq(cmd, "robot-sprint-show") {
        Some(Intent::Value {
            context: "sprint-show",
            bool_flag: "",
            value_flag: "--robot-sprint-show",
            default_value: "",
        })
    } else if str_eq(cmd, "robot-forecast") {
        Some(Intent::Value {
            context: "forecast",
            bool_flag: "",
            value_flag: "--robot-forecast",
            default_value: "all",
        })
    } else if str_eq(cmd, "robot-burndown") {
        Some(Intent::Value {
            context: "burndown",
            bool_flag: "",
            value_flag: "--robot-burndown",
            default_value: "current",
        })
    } else if str_eq(cmd, "robot-drift") {
        Some(Intent::Drift)
    } else {
        None
    }
}

/// The intent of a short subcommand word.
pub fn short_intent(cmd: &str) -> (r: Option<Intent>)
    ensures
        r == spec_short_intent(cmd@),
{
    if str_eq(cmd, "triage")
        || str_eq(cmd, "recommend")
        || str_eq(cmd, "recommendations") {
        Some(Intent::Lead { flag: "--robot-triage", context: "triage" })
    } else if str_eq(cmd, "next")
        || str_eq(cmd, "pick") {
        Some(Intent::Lead { flag: "--robot-next", context: "next" })
    } else if str_eq(cmd, "plan") {
        Some(Intent::Lead { flag: "--robot-plan", context: "plan" })
    } else if str_eq(cmd, "insights")
        || str_eq(cmd, "insight")
        || str_eq(cmd, "analysis")
        || str_eq(cmd, "analyze") {
        Some(Intent::Lead { flag: "--robot-insights", context: "insights" })
    } else if str_eq(cmd, "priority")
        || str_eq(cmd, "priorities") {
        Some(Intent::Lead { flag: "--robot-priority", context: "priority" })
    } else if str_eq(cmd, "alerts") {
        Some(Intent::Lead { flag: "--robot-alerts", context: "alerts" })
    } else if str_eq(cmd, "suggest")
        || str_eq(cmd, "suggestions") {
        Some(Intent::Lead { flag: "--robot-suggest", context: "suggest" })
    } else if str_eq(cmd, "recipes") {
        Some(Intent::Lead { flag: "--robot-recipes", context: "recipes" })
    } else if str_eq(cmd, "metrics") {
        Some(Intent::Lead { flag: "--robot-metrics", context: "metrics" })
    } else if str_eq(cmd, "capabilities")
        || str_eq(cmd, "capability")
        || str_eq(cmd, "manifest") {
        Some(Intent::Lead { flag: "--robot-capabilities", context: "capabilities" })
    } else if str_eq(cmd, "docs")
        || str_eq(cmd, "doc") {
        Some(Intent::Docs)
    } else if str_eq(cmd, "schema")
        || str_eq(cmd, "schemas") {
        Some(Intent::Schema)
    } else if str_eq(cmd, "search")
        || str_eq(cmd, "find") {
        Some(Intent::Search)
    } else if str_eq(cmd, "graph") {
        Some(Intent::Graph)
    } else if str_eq(cmd, "diff")
        || str_eq(cmd, "changes") {
        Some(Intent::Value {
            context: "diff",
            bool_flag: "--robot-diff",
            value_flag: "--diff-since",
            default_value: "",
        })
    } else if str_eq(cmd, "history") {
        Some(Intent::Value {
            context: "history",
            bool_flag: "--robot-history",
            value_flag: "--bead-history",
            default_value: "",
        })
    } else if str_eq(cmd, "labels")
        || str_eq(cmd, "label-health") {
        Some(Intent::Lead { flag: "--robot-label-health", context: "label-health" })
    } else if str_eq(cmd, "label-flow") {
        Some(Intent::Lead { flag: "--robot-label-flow", context: "label-flow" })
    } else if str_eq(cmd, "label-attention") {
        Some(Intent::Lead { flag: "--robot-label-attention", context: "label-attention" })
    } else if str_eq(cmd, "hotspots")
        || str_eq(cmd, "file-hotspots") {
        Some(Intent::Lead { flag: "--robot-file-hotspots", context: "file-hotspots" })
    } else if str_eq(cmd, "file-beads") {
        Some(Intent::Value {
            context: "file-beads",
            bool_flag: "",
            value_flag: "--robot-file-beads",
            default_value: "",
        })
    } else if str_eq(cmd, "file-relations") {
        Some(Intent::Value {
            context: "file-relations",
            bool_flag: "",
            value_flag: "--robot-file-relations",
            default_value: "",
        })
    } else if str_eq(cmd, "impact") {
        Some(Intent::Value {
            context: "impact",
            bool_flag: "",
            value_flag: "--robot-impact",
            default_value: "",
        })
    } else if str_eq(cmd, "related") {
        Some(Intent::Value {
            context: "related",
            bool_flag: "",
            value_flag: "--robot-related",
            default_value: "",
        })
    } else if str_eq(cmd, "blockers")
        || str_eq(cmd, "blocker-chain") {
        Some(Intent::Value {
            context: "blocker-chain",
            bool_flag: "",
            value_flag: "--robot-blocker-chain",
            default_value: "",
        })
    } else if str_eq(cmd, "impact-network") {
        Some(Intent::Value {
            context: "impact-network",
            bool_flag: "",
            value_flag: "--robot-impact-network",
            default_value: "all",
        })
    } else if str_eq(cmd, "causality") {
        Some(Intent::Value {
            context: "causality",
            bool_flag: "",
            value_flag: "--robot-causality",
            default_value: "",
        })
    } else if str_eq(cmd, "sprints")
        || str_eq(cmd, "sprint-list") {
        Some(Intent::Lead { flag: "--robot-sprint-list", context: "sprint-list" })
    } else if str_eq(cmd, "sprint")
        || str_eq(cmd, "sprint-show") {
        Some(Intent::Value {
            context: "sprint-show",
            bool_flag: "",
            value_flag: "--robot-sprint-show",
            default_value: "",
        })
    } else if str_eq(cmd, "forecast") {
        Some(Intent::Value {
            context: "forecast",
            bool_flag: "",
            value_flag: "--robot-forecast",
            default_value: "all",
        })
    } else if str_eq(cmd, "capacity") {
        Some(Intent::Lead { flag: "--robot-capacity", context: "capacity" })
    } else if str_eq(cmd, "burndown") {
        Some(Intent::Value {
            context: "burndown",
            bool_flag: "",
            value_flag: "--robot-burndown",
            default_value: "current",
        })
    } else if str_eq(cmd, "upgrade")
        || str_eq(cmd, "self-update")
        || str_eq(cmd, "selfupdate") {
        Some(Intent::Upgrade)
    } else if str_eq(cmd, "drift") {
        Some(Intent::Lead { flag: "--robot-drift", context: "drift" })
    } else if str_eq(cmd, "orphans") {
        Some(Intent::Lead { flag: "--robot-orphans", context: "orphans" })
    } else if str_eq(cmd, "correlation-stats") {
        Some(Intent::Lead { flag: "--robot-correlation-stats", context: "correlation-stats" })
    } else {
        None
    }
}

/// `[flag] + alias pass over rest`.
pub fn lead_flag(rest: &[String], flag: &str, context: &str) -> (r: Vec<String>)
    ensures
        views(r@) == lead(views(rest@), flag@, context@),
{
    let mut out: Vec<String> = Vec::new();
    push_str(&mut out, flag);
    extend(&mut out, rewrite_flag_aliases(rest, context));
    out
}

/// The rewrite of a subcommand that takes one positional target: the
/// boolean companion (if any), the value flag bound to the positional or to
/// its default, then the leading aliases and the alias pass. With neither a
/// value nor a default and no boolean companion, the bare value flag goes
/// last so the parser reports the missing value against it.
pub fn rewrite_value_intent(
    rest: &[String],
    context: &str,
    bool_flag: &str,
    value_flag: &str,
    default_value: &str,
) -> (r: Vec<String>)
    ensures
        views(r@) == value_intent(views(rest@), context@, bool_flag@, value_flag@, default_value@),
{
    let ghost a = views(rest@);
    let (prefix, n) = leading_alias_run(rest, context);
    let ghost la = leading_aliases(a, context@);
    let r = tail(rest, n);
    let ghost rv = a.skip(n as int);
    let mut out: Vec<String> = Vec::new();
    if !bool_flag.is_empty() {
        push_str(&mut out, bool_flag);
    }
    let ghost head = views(out@);
    assert(head =~= (if bool_flag@.len() > 0 {
        seq![bool_flag@]
    } else {
        Seq::<Seq<char>>::empty()
    }));
    if r.len() > 0 && is_positional_value(r[0].as_str()) {
        assert(views(r@)[0] == r@[0]@);
        push_str(&mut out, value_flag);
        push_str(&mut out, r[0].as_str());
        extend(&mut out, prefix);
        let t = tail(r, 1);
        extend(&mut out, rewrite_flag_aliases(t, context));
        assert(views(out@) =~= head + seq![value_flag@, rv[0]] + la.0 + flag_aliases(
            rv.skip(1),
            context@,
        ));
    } else if !default_value.is_empty() {
        push_str(&mut out, value_flag);
        push_str(&mut out, default_value);
        extend(&mut out, prefix);
        extend(&mut out, rewrite_flag_aliases(r, context));
        assert(views(out@) =~= head + seq![value_flag@, default_value@] + la.0 + flag_aliases(
            rv,
            context@,
        ));
    } else if !value_flag.is_empty() && bool_flag.is_empty() {
        extend(&mut out, prefix);
        extend(&mut out, rewrite_flag_aliases(r, context));
        push_str(&mut out, value_flag);
        assert(views(out@) =~= head + la.0 + flag_aliases(rv, context@) + seq![value_flag@]);
    } else {
        extend(&mut out, prefix);
        extend(&mut out, rewrite_flag_aliases(r, context));
        assert(views(out@) =~= head + la.0 + flag_aliases(rv, context@));
    }
    out
}

/// The rewrite of `docs [topic]`.
pub fn rewrite_docs_intent(rest: &[String]) -> (r: Vec<String>)
    ensures
        views(r@) == docs_intent(views(rest@)),
{
    let ghost a = views(rest@);
    let (prefix, n) = leading_alias_run(rest, "docs");
    let ghost la = leading_aliases(a, "docs"@);
    let r = tail(rest, n);
    let ghost rv = a.skip(n as int);
    let mut out: Vec<String> = Vec::new();
    push_str(&mut out, "--robot-docs");
    if r.len() > 0 && is_positional_value(r[0].as_str()) {
        assert(views(r@)[0] == r@[0]@);
        push_str(&mut out, r[0].as_str());
        extend(&mut out, prefix);
        extend(&mut out, rewrite_flag_aliases(tail(r, 1), "docs"));
        assert(views(out@) =~= seq!["--robot-docs"@, rv[0]] + la.0 + flag_aliases(
            rv.skip(1),
            "docs"@,
        ));
    } else {
        push_str(&mut out, "guide");
        extend(&mut out, prefix);
        extend(&mut out, rewrite_flag_aliases(r, "docs"));
        assert(views(out@) =~= seq!["--robot-docs"@, "guide"@] + la.0 + flag_aliases(
            rv,
            "docs"@,
        ));
    }
    out
}

/// A schema command name in its canonical `robot-` form.
pub fn normalize_robot_command_name(value: &str) -> (r: String)
    ensures
        r@ == robot_command_name(value@),
{
    let lower = to_lowercase(value);
    let v = trim_str(lower.as_str());
    if v.is_empty() || crate::text::starts_with(v, "robot-") {
        owned(v)
    } else {
        concat2("robot-", v)
    }
}

/// The rewrite of `schema [command]`.
pub fn rewrite_schema_intent(rest: &[String]) -> (r: Vec<String>)
    ensures
        views(r@) == schema_intent(views(rest@)),
{
    let ghost a = views(rest@);
    let (prefix, n) = leading_alias_run(rest, "schema");
    let ghost la = leading_aliases(a, "schema"@);
    let r = tail(rest, n);
    let ghost rv = a.skip(n as int);
    let mut out: Vec<String> = Vec::new();
    push_str(&mut out, "--robot-schema");
    if r.len() > 0 && is_positional_value(r[0].as_str()) {
        assert(views(r@)[0] == r@[0]@);
        push_str(&mut out, "--schema-command");
        push_string(&mut out, normalize_robot_command_name(r[0].as_str()));
        extend(&mut out, prefix);
        extend(&mut out, rewrite_flag_aliases(tail(r, 1), "schema"));
        assert(views(out@) =~= seq!["--robot-schema"@, "--schema-command"@, robot_command_name(rv[0])]
            + la.0 + flag_aliases(rv.skip(1), "schema"@));
        return out;
    }
    extend(&mut out, prefix);
    extend(&mut out, rewrite_flag_aliases(r, "schema"));
    assert(views(out@) =~= seq!["--robot-schema"@] + la.0 + flag_aliases(rv, "schema"@));
    out
}

/// The rewrite of `graph [format]`.
pub fn rewrite_graph_intent(rest: &[String]) -> (r: Vec<String>)
    ensures
        views(r@) == graph_intent(views(rest@)),
{
    let ghost a = views(rest@);
    let (prefix, n) = leading_alias_run(rest, "graph");
    let ghost la = leading_aliases(a, "graph"@);
    let r = tail(rest, n);
    let ghost rv = a.skip(n as int);
    let mut out: Vec<String> = Vec::new();
    push_str(&mut out, "--robot-graph");
    if r.len() > 0 && is_graph_format(r[0].as_str()) {
        assert(views(r@)[0] == r@[0]@);
        push_str(&mut out, "--graph-format");
        push_string(&mut out, to_lowercase(r[0].as_str()));
        extend(&mut out, prefix);
        extend(&mut out, rewrite_flag_aliases(tail(r, 1), "graph"));
        assert(views(out@) =~= seq!["--robot-graph"@, "--graph-format"@, unicode_lowercase(rv[0])]
            + la.0 + flag_aliases(rv.skip(1), "graph"@));
        return out;
    }
    extend(&mut out, prefix);
    extend(&mut out, rewrite_flag_aliases(r, "graph"));
    assert(views(out@) =~= seq!["--robot-graph"@] + la.0 + flag_aliases(rv, "graph"@));
    out
}

/// The rewrite of `search <words>`: every bare word before the first
/// non-alias flag is query text.
pub fn rewrite_search_intent(rest: &[String]) -> (r: Vec<String>)
    ensures
        views(r@) == search_intent(views(rest@)),
{
    let ghost a = views(rest@);
    let mut prefix: Vec<String> = Vec::new();
    let mut query: Vec<String> = Vec::new();
    let mut i: usize = 0;
    let mut done = false;
    assert(a.skip(0) =~= a);
    proof {
        lemma_search_scan(a);
    }
    while i < rest.len() && !done
        invariant
            a == views(rest@),
            i <= rest@.len(),
            views(query@) + search_scan(a.skip(i as int)).0 == search_scan(a).0,
            views(prefix@) + search_scan(a.skip(i as int)).1 == search_scan(a).1,
            i + search_scan(a.skip(i as int)).2 == search_scan(a).2,
            done ==> search_scan(a.skip(i as int)) == (
                Seq::<Seq<char>>::empty(),
                Seq::<Seq<char>>::empty(),
                0int,
            ),
        decreases rest@.len() - i + (if done { 0int } else { 1int }),
    {
        let ghost s = a.skip(i as int);
        assert(s[0] == rest@[i as int]@);
        if is_positional_value(rest[i].as_str()) {
            let ghost before = views(query@);
            push_str(&mut query, rest[i].as_str());
            proof {
                assert(s.skip(1) =~= a.skip(i + 1));
                lemma_search_scan_positional(s);
                let t = search_scan(s.skip(1));
                assert(views(query@) + t.0 =~= before + (seq![s[0]] + t.0));
            }
            i += 1;
        } else {
            let (aliases, k) = leading_alias_run(tail(rest, i), "search");
            proof {
                lemma_leading_aliases(s, "search"@);
            }
            if aliases.len() == 0 {
                proof {
                    lemma_search_scan_alias(s);
                }
                done = true;
            } else {
                let ghost before = views(prefix@);
                extend(&mut prefix, aliases);
                proof {
                    assert(s.skip(k as int) =~= a.skip(i + k));
                    lemma_search_scan_alias(s);
                    let t = search_scan(s.skip(k as int));
                    assert(views(prefix@) + t.1 =~= before + (leading_aliases(s, "search"@).0
                        + t.1));
                }
                i += k;
            }
        }
    }
    if !done {
        assert(a.skip(i as int) =~= Seq::<Seq<char>>::empty());
    }
    let ghost sc = search_scan(a);
    let mut out: Vec<String> = Vec::new();
    if query.len() > 0 {
        push_str(&mut out, "--search");
        push_string(&mut out, join_strings(query.as_slice(), " "));
    }
    let ghost head = views(out@);
    assert(head =~= (if sc.0.len() > 0 {
        seq!["--search"@, join(sc.0, " "@)]
    } else {
        Seq::<Seq<char>>::empty()
    }));
    push_str(&mut out, "--robot-search");
    extend(&mut out, prefix);
    extend(&mut out, rewrite_flag_aliases(tail(rest, i), "search"));
    assert(views(out@) =~= head + seq!["--robot-search"@] + sc.1 + flag_aliases(
        a.skip(sc.2),
        "search"@,
    ));
    out
}

/// The rewrite of `upgrade [mode words]`: `--update` (with `--yes` when
/// asked), `--check-update`, `--update-dry-run` or `--rollback`, followed by
/// every token that is not a mode word.
pub fn rewrite_upgrade_intent(rest: &[String]) -> (r: Vec<String>)
    ensures
        views(r@) == upgrade_intent(views(rest@)),
{
    let ghost a = views(rest@);
    let ghost init = (UpgradeMode::Update, false, Seq::<Seq<char>>::empty());
    let mut mode = UpgradeMode::Update;
    let mut yes = false;
    let mut passthrough: Vec<String> = Vec::new();
    let mut i: usize = 0;
    assert(a.skip(0) =~= a);
    assert(views(passthrough@) =~= Seq::<Seq<char>>::empty());
    while i < rest.len()
        invariant
            a == views(rest@),
            i <= rest@.len(),
            upgrade_fold((mode, yes, views(passthrough@)), a.skip(i as int)) == upgrade_fold(
                init,
                a,
            ),
        decreases rest@.len() - i,
    {
        let ghost s = a.skip(i as int);
        let ghost st = (mode, yes, views(passthrough@));
        assert(s[0] == rest@[i as int]@);
        assert(s.skip(1) =~= a.skip(i + 1));
        let lower = to_lowercase(rest[i].as_str());
        let k = trim_str(lower.as_str());
        if str_eq(k, "check") || str_eq(k, "--check") || str_eq(k, "check-update") || str_eq(
            k,
            "--check-update",
        ) {
            if matches!(mode, UpgradeMode::Update) {
                mode = UpgradeMode::Check;
            }
        } else if str_eq(k, "dry-run") || str_eq(k, "--dry-run") || str_eq(k, "dryrun") || str_eq(
            k,
            "--dryrun",
        ) {
            if matches!(mode, UpgradeMode::Update) {
                mode = UpgradeMode::DryRun;
            }
        } else if str_eq(k, "rollback") || str_eq(k, "--rollback") {
            mode = UpgradeMode::Rollback;
        } else if str_eq(k, "yes") || str_eq(k, "--yes") || str_eq(k, "-y") || str_eq(k, "force")
            || str_eq(k, "--force") {
            yes = true;
        } else {
            push_str(&mut passthrough, rest[i].as_str());
        }
        assert((mode, yes, views(passthrough@)) == upgrade_step(st, s[0]));
        i += 1;
    }
    assert(a.skip(i as int) =~= Seq::<Seq<char>>::empty());
    let mut out: Vec<String> = Vec::new();
    match mode {
        UpgradeMode::Check => push_str(&mut out, "--check-update"),
        UpgradeMode::DryRun => push_str(&mut out, "--update-dry-run"),
        UpgradeMode::Rollback => push_str(&mut out, "--rollback"),
        UpgradeMode::Update => {
            push_str(&mut out, "--update");
            if yes {
                push_str(&mut out, "--yes");
            }
        },
    }
    extend(&mut out, passthrough);
    out
}

/// Whether `args` carries a structured-output alias (`--json`, `--toon`,
/// their `=true`/`=false` forms, `--output`/`-o` with a format value). A
/// bare `--format` does not count.
pub fn contains_structured_output_alias(args: &[String]) -> (r: bool)
    ensures
        r == has_structured_alias(views(args@)),
{
    let ghost a = views(args@);
    let mut i: usize = 0;
    while i < args.len()
        invariant
            a == views(args@),
            i <= args@.len(),
            forall|j: int| 0 <= j < i ==> !#[trigger] structured_at(a, j),
        decreases args@.len() - i,
    {
        let arg = args[i].as_str();
        assert(a[i as int] == arg@);
        let lower = to_ascii_lowercase(arg);
        let l = lower.as_str();
        if str_eq(l, "--json") || str_eq(l, "--json=true") || str_eq(l, "--json=false") || str_eq(
            l,
            "--toon",
        ) || str_eq(l, "--toon=true") || str_eq(l, "--toon=false") || str_eq(l, "--output=json")
            || str_eq(l, "--output=toon") || str_eq(l, "-o=json") || str_eq(l, "-o=toon") {
            assert(structured_at(a, i as int));
            return true;
        }
        if (str_eq(arg, "--output") || str_eq(arg, "-o")) && i + 1 < args.len()
            && is_robot_output_format(args[i + 1].as_str()) {
            assert(a[i + 1] == args@[i + 1]@);
            assert(structured_at(a, i as int));
            return true;
        }
        assert(!structured_at(a, i as int));
        i += 1;
    }
    false
}

/// Runs the rewrite an intent selects over the tokens after the word.
pub fn run_intent(intent: Intent, cmd: &str, rest: &[String]) -> (r: Vec<String>)
    ensures
        views(r@) == intent_rewrite(intent, cmd@, views(rest@)),
{
    match intent {
        Intent::Lead { flag, context } => lead_flag(rest, flag, context),
        Intent::Value { context, bool_flag, value_flag, default_value } => rewrite_value_intent(
            rest,
            context,
            bool_flag,
            value_flag,
            default_value,
        ),
        Intent::Docs => rewrite_docs_intent(rest),
        Intent::Schema => rewrite_schema_intent(rest),
        Intent::Search => rewrite_search_intent(rest),
        Intent::Graph => rewrite_graph_intent(rest),
        Intent::Upgrade => rewrite_upgrade_intent(rest),
        Intent::RobotHelp => {
            if contains_structured_output_alias(rest) {
                let ghost a = views(rest@);
                let mut with_guide: Vec<String> = Vec::new();
                push_str(&mut with_guide, "guide");
                let mut k: usize = 0;
                while k < rest.len()
                    invariant
                        a == views(rest@),
                        k <= rest@.len(),
                        views(with_guide@) == seq!["guide"@] + a.take(k as int),
                    decreases rest@.len() - k,
                {
                    push_string(&mut with_guide, rest[k].clone());
                    assert(a.take(k + 1) =~= a.take(k as int).push(rest@[k as int]@));
                    k += 1;
                }
                assert(a.take(rest@.len() as int) =~= a);
                rewrite_docs_intent(with_guide.as_slice())
            } else {
                lead_flag(rest, "--robot-help", "help")
            }
        },
        Intent::CanonicalLead => {
            let flag = concat2("--", cmd);
            let context = match strip_prefix(cmd, "robot-") {
                Some(c) => c,
                None => cmd,
            };
            lead_flag(rest, flag.as_str(), context)
        },
        Intent::Drift => {
            let mut out: Vec<String> = Vec::new();
            push_str(&mut out, "--check-drift");
            push_str(&mut out, "--robot-drift");
            extend(&mut out, rewrite_flag_aliases(rest, "drift"));
            out
        },
    }
}

/// The documented `robot-<command>` spellings, which take the same trailing
/// tokens as their short forms; `None` for any other word.
pub fn rewrite_canonical_robot_command(command: &str, rest: &[String]) -> (r: Option<Vec<String>>)
    ensures
        r matches Some(v) ==> canonical_rewrite(command@, views(rest@)) == Some(views(v@)),
        r is None ==> canonical_rewrite(command@, views(rest@)) is None,
{
    match canonical_intent(command) {
        Some(intent) => Some(run_intent(intent, command, rest)),
        None => None,
    }
}

/// The subcommand rewrite: the first bare token names a subcommand, a
/// documented `robot-<command>` form, or nothing (`None`).
pub fn rewrite_agent_intent_command(args: &[String]) -> (r: Option<Vec<String>>)
    ensures
        r matches Some(v) ==> agent_intent(views(args@)) == Some(views(v@)),
        r is None ==> agent_intent(views(args@)) is None,
{
    let ghost a = views(args@);
    if args.len() == 0 {
        return None;
    }
    let first = args[0].as_str();
    assert(a[0] == first@);
    if is_dash_start(first) {
        return None;
    }
    let lower = to_lowercase(first);
    let command = trim_str(lower.as_str());
    let rest = tail(args, 1);
    if let Some(rewritten) = rewrite_canonical_robot_command(command, rest) {
        return Some(rewritten);
    }
    match short_intent(command) {
        Some(intent) => Some(run_intent(intent, command, rest)),
        None => None,
    }
}

// ---------------------------------------------------------------------------
// Flag spelling, the auto-promote and the top-level rewrite
// ---------------------------------------------------------------------------

/// The long flag a one-letter short alias expands to (`-f`, `-l`, `-r`).
pub open spec fn short_alias(name: Seq<char>) -> Option<Seq<char>> {
    if strip_dashes("-f"@) == name {
        Some("--format"@)
    } else if strip_dashes("-l"@) == name {
        Some("--label"@)
    } else if strip_dashes("-r"@) == name {
        Some("--recipe"@)
    } else {
        None
    }
}

/// The spelling normalization of one token: a single-dash long flag that
/// the registry knows gets a second dash, a one-byte name that is a short
/// alias expands to its long flag (keeping any `=value`), and everything
/// else (values such as `-1e400`, unknown names, `--` flags, positionals)
/// is left alone.
pub open spec fn normalized_spelling(arg: Seq<char>) -> Seq<char> {
    if !starts_with_dash(arg) {
        arg
    } else {
        let rest = arg.skip(1);
        if starts_with_dash(rest) {
            arg
        } else {
            let k = index_of(rest, '=');
            let name = rest.take(k);
            let tail = rest.skip(k);
            if utf8_len(name) == 1 && short_alias(name) is Some {
                short_alias(name)->0 + tail
            } else if utf8_len(name) > 1 && is_registered(name) {
                "-"@ + arg
            } else {
                arg
            }
        }
    }
}

/// The robot primary flag names consulted by the auto-promote.
pub open spec fn spec_robot_primary_names() -> Seq<&'static str> {
    seq![
        "robot-help",
        "robot-capabilities",
        "robot-docs",
        "robot-insights",
        "robot-plan",
        "robot-priority",
        "robot-triage",
        "robot-next",
        "robot-triage-by-track",
        "robot-triage-by-label",
        "robot-diff",
        "robot-recipes",
        "robot-metrics",
        "robot-schema",
        "robot-suggest",
        "robot-graph",
        "robot-search",
        "robot-drift",
        "robot-history",
        "robot-explain-correlation",
        "robot-confirm-correlation",
        "robot-reject-correlation",
        "robot-correlation-stats",
        "robot-orphans",
        "robot-file-beads",
        "robot-file-hotspots",
        "robot-impact",
        "robot-file-relations",
        "robot-related",
        "robot-blocker-chain",
        "robot-impact-network",
        "robot-causality",
        "robot-sprint-list",
        "robot-sprint-show",
        "robot-forecast",
        "robot-capacity",
        "robot-burndown",
        "robot-label-health",
        "robot-label-flow",
        "robot-label-attention",
    ]
}

/// The robot primary flag names consulted by the auto-promote.
pub fn robot_primary_names() -> (r: Vec<&'static str>)
    ensures
        r@ == spec_robot_primary_names(),
{
    vec![
        "robot-help",
        "robot-capabilities",
        "robot-docs",
        "robot-insights",
        "robot-plan",
        "robot-priority",
        "robot-triage",
        "robot-next",
        "robot-triage-by-track",
        "robot-triage-by-label",
        "robot-diff",
        "robot-recipes",
        "robot-metrics",
        "robot-schema",
        "robot-suggest",
        "robot-graph",
        "robot-search",
        "robot-drift",
        "robot-history",
        "robot-explain-correlation",
        "robot-confirm-correlation",
        "robot-reject-correlation",
        "robot-correlation-stats",
        "robot-orphans",
        "robot-file-beads",
        "robot-file-hotspots",
        "robot-impact",
        "robot-file-relations",
        "robot-related",
        "robot-blocker-chain",
        "robot-impact-network",
        "robot-causality",
        "robot-sprint-list",
        "robot-sprint-show",
        "robot-forecast",
        "robot-capacity",
        "robot-burndown",
        "robot-label-health",
        "robot-label-flow",
        "robot-label-attention",
    ]
}

/// Flags that claim an invocation on their own, so no auto-promote happens.
pub open spec fn spec_non_robot_primary_names() -> Seq<&'static str> {
    seq![
        "version",
        "help",
        "check-update",
        "update",
        "update-dry-run",
        "rollback",
        "pages",
        "export-pages",
        "preview-pages",
        "export",
        "export-md",
        "export-graph",
    ]
}

/// Flags that claim an invocation on their own, so no auto-promote happens.
pub fn non_robot_primary_names() -> (r: Vec<&'static str>)
    ensures
        r@ == spec_non_robot_primary_names(),
{
    vec![
        "version",
        "help",
        "check-update",
        "update",
        "update-dry-run",
        "rollback",
        "pages",
        "export-pages",
        "preview-pages",
        "export",
        "export-md",
        "export-graph",
    ]
}

/// A `--flag=value` token reduced to its bare name: the text before the
/// first `=`, without a leading `--`.
pub open spec fn bare_flag_name(arg: Seq<char>) -> Seq<char> {
    let n = arg.take(index_of(arg, '='));
    if has_prefix(n, "--"@) {
        n.skip("--"@.len() as int)
    } else {
        n
    }
}

/// The bare name of `arg` is one of `names`.
pub open spec fn names_flag(arg: Seq<char>, names: Seq<&'static str>) -> bool {
    crate::text::str_views(names).contains(bare_flag_name(arg))
}

/// Some token of `args` is a robot primary.
pub open spec fn has_robot_primary(args: Seq<Seq<char>>) -> bool {
    exists|i: int| 0 <= i < args.len() && #[trigger] names_flag(args[i], spec_robot_primary_names())
}

/// Some token of `args` is a non-robot primary.
pub open spec fn has_non_robot_primary(args: Seq<Seq<char>>) -> bool {
    exists|i: int|
        0 <= i < args.len() && #[trigger] names_flag(args[i], spec_non_robot_primary_names())
}

/// Every token with its spelling normalized.
pub open spec fn normalized_args(args: Seq<Seq<char>>) -> Seq<Seq<char>> {
    args.map_values(|a: Seq<char>| normalized_spelling(a))
}

/// The canonical form of an argument list: spelling normalized, then the
/// subcommand rewrite when the first token is a subcommand; otherwise the
/// alias pass, led by `--robot-triage` when a structured-output alias was
/// given and no robot or non-robot primary claims the invocation.
pub open spec fn rewritten_args(args: Seq<Seq<char>>) -> Seq<Seq<char>> {
    let n = normalized_args(args);
    match agent_intent(n) {
        Some(r) => r,
        None => {
            let rw = flag_aliases(n, ""@);
            if has_structured_alias(n) && !has_robot_primary(rw) && !has_non_robot_primary(rw) {
                seq!["--robot-triage"@] + rw
            } else {
                rw
            }
        },
    }
}

/// Boolean switches, which never consume the next token: every Bool flag of
/// the registry, plus `help` and `robot-robot`.
pub open spec fn is_bool_switch(name: Seq<char>) -> bool {
    ||| name == "help"@
    ||| name == "robot-robot"@
    ||| crate::flags::is_registered_bool(name)
}

/// A dash-led token written without `=` that is not a boolean switch
/// consumes the next token as its value.
pub open spec fn takes_value(tok: Seq<char>) -> bool {
    index_of(tok, '=') == tok.len() && !is_bool_switch(strip_dashes(tok))
}

/// The first bare token not consumed as a flag value, scanning from a state
/// in which the previous token did (`prev`) or did not await a value.
pub open spec fn unconsumed_from(toks: Seq<Seq<char>>, prev: bool) -> Option<Seq<char>>
    decreases toks.len(),
{
    if toks.len() == 0 {
        None
    } else {
        let t = toks[0];
        if prev && !starts_with_dash(t) {
            unconsumed_from(toks.skip(1), false)
        } else if starts_with_dash(t) {
            unconsumed_from(toks.skip(1), takes_value(t))
        } else {
            Some(t)
        }
    }
}

/// The boolean spellings: `1 t T TRUE true True` and `0 f F FALSE false False`.
pub open spec fn go_bool(raw: Seq<char>) -> Option<bool> {
    if raw == "1"@ || raw == "t"@ || raw == "T"@ || raw == "TRUE"@ || raw == "true"@ || raw
        == "True"@ {
        Some(true)
    } else if raw == "0"@ || raw == "f"@ || raw == "F"@ || raw == "FALSE"@ || raw == "false"@
        || raw == "False"@ {
        Some(false)
    } else {
        None
    }
}

/// The error text for a malformed boolean flag value.
pub open spec fn bool_parse_error(flag: Seq<char>, raw: Seq<char>) -> Seq<char> {
    "invalid argument "@ + crate::text::debug_quoted(raw) + " for \"--"@ + flag
        + "\" flag: strconv.ParseBool: parsing "@ + crate::text::debug_quoted(raw)
        + ": invalid syntax"@
}

/// The raw value of the last `--name` / `--name=value` occurrence; a bare
/// switch reads as `true`.
pub open spec fn last_bool_raw(args: Seq<Seq<char>>, name: Seq<char>) -> Option<Seq<char>>
    decreases args.len(),
{
    if args.len() == 0 {
        None
    } else {
        let l = args.last();
        let with_eq = "--"@ + name + "="@;
        if has_prefix(l, with_eq) {
            Some(l.skip(with_eq.len() as int))
        } else if l == "--"@ + name {
            Some("true"@)
        } else {
            last_bool_raw(args.drop_last(), name)
        }
    }
}

/// The effective value of a boolean flag read off raw argv.
pub open spec fn bool_flag_outcome(args: Seq<Seq<char>>, name: Seq<char>, default: bool) -> Result<
    bool,
    Seq<char>,
> {
    match last_bool_raw(args, name) {
        None => Ok(default),
        Some(v) => match go_bool(v) {
            Some(b) => Ok(b),
            None => Err(bool_parse_error(name, v)),
        },
    }
}

/// The value of the first `--name value` / `--name=value` occurrence.
pub open spec fn first_string_value(args: Seq<Seq<char>>, name: Seq<char>) -> Option<Seq<char>>
    decreases args.len(),
{
    if args.len() == 0 {
        None
    } else {
        let a = args[0];
        let with_eq = "--"@ + name + "="@;
        if has_prefix(a, with_eq) {
            Some(a.skip(with_eq.len() as int))
        } else if a == "--"@ + name {
            if args.len() > 1 {
                Some(args[1])
            } else {
                None
            }
        } else {
            first_string_value(args.skip(1), name)
        }
    }
}

/// The spelling normalization of one token.
pub fn normalize_flag_spelling(arg: &str) -> (r: String)
    ensures
        r@ == normalized_spelling(arg@),
{
    if !is_dash_start(arg) {
        return owned(arg);
    }
    let n = arg.unicode_len();
    let rest = arg.substring_char(1, n);
    assert(rest@ =~= arg@.skip(1));
    if is_dash_start(rest) {
        return owned(arg);
    }
    let k = find_char(rest, '=');
    proof {
        crate::text::lemma_index_of(rest@, '=');
    }
    let m = rest.unicode_len();
    let name = rest.substring_char(0, k);
    let tail = rest.substring_char(k, m);
    assert(name@ =~= rest@.take(k as int));
    assert(tail@ =~= rest@.skip(k as int));
    let nm = chars_of(name);
    proof {
        crate::text::lemma_utf8_len(name@);
    }
    let one_byte = nm.len() == 1 && (nm[0] as u32) < 0x80;
    if one_byte {
        let f = strip_leading_dashes("-f");
        if chars_eq(f.as_slice(), nm.as_slice()) {
            return concat2("--format", tail);
        }
        let l = strip_leading_dashes("-l");
        if chars_eq(l.as_slice(), nm.as_slice()) {
            return concat2("--label", tail);
        }
        let rr = strip_leading_dashes("-r");
        if chars_eq(rr.as_slice(), nm.as_slice()) {
            return concat2("--recipe", tail);
        }
    }
    if nm.len() >= 1 && !one_byte && flag_lookup(name) {
        return concat2("-", arg);
    }
    owned(arg)
}

/// Whether the bare name of `arg` is one of `names`.
pub fn primary_flag_name(arg: &str, names: &[&'static str]) -> (r: bool)
    ensures
        r == crate::text::str_views(names@).contains(bare_flag_name(arg@)),
{
    let k = find_char(arg, '=');
    proof {
        crate::text::lemma_index_of(arg@, '=');
    }
    let head = arg.substring_char(0, k);
    assert(head@ =~= arg@.take(k as int));
    let name = match strip_prefix(head, "--") {
        Some(x) => x,
        None => head,
    };
    let ghost sv = crate::text::str_views(names@);
    let mut j: usize = 0;
    while j < names.len()
        invariant
            sv == crate::text::str_views(names@),
            j <= names@.len(),
            name@ == bare_flag_name(arg@),
            forall|t: int| 0 <= t < j ==> sv[t] != name@,
        decreases names@.len() - j,
    {
        if str_eq(names[j], name) {
            assert(sv[j as int] == name@);
            return true;
        }
        j += 1;
    }
    false
}

/// Whether some token names a robot primary.
pub fn has_primary_robot_arg(args: &[String]) -> (r: bool)
    ensures
        r == has_robot_primary(views(args@)),
{
    let ghost a = views(args@);
    let names = robot_primary_names();
    let mut i: usize = 0;
    while i < args.len()
        invariant
            a == views(args@),
            names@ == spec_robot_primary_names(),
            i <= args@.len(),
            forall|j: int| 0 <= j < i ==> !#[trigger] names_flag(a[j], spec_robot_primary_names()),
        decreases args@.len() - i,
    {
        assert(a[i as int] == args@[i as int]@);
        if primary_flag_name(args[i].as_str(), names.as_slice()) {
            assert(names_flag(a[i as int], spec_robot_primary_names()));
            return true;
        }
        i += 1;
    }
    false
}

/// Whether some token names a non-robot primary.
pub fn has_non_robot_primary_arg(args: &[String]) -> (r: bool)
    ensures
        r == has_non_robot_primary(views(args@)),
{
    let ghost a = views(args@);
    let names = non_robot_primary_names();
    let mut i: usize = 0;
    while i < args.len()
        invariant
            a == views(args@),
            names@ == spec_non_robot_primary_names(),
            i <= args@.len(),
            forall|j: int|
                0 <= j < i ==> !#[trigger] names_flag(a[j], spec_non_robot_primary_names()),
        decreases args@.len() - i,
    {
        assert(a[i as int] == args@[i as int]@);
        if primary_flag_name(args[i].as_str(), names.as_slice()) {
            assert(names_flag(a[i as int], spec_non_robot_primary_names()));
            return true;
        }
        i += 1;
    }
    false
}

/// Rewrites raw arguments (without the program name) into canonical form.
pub fn rewrite_args(args: &[String]) -> (r: Vec<String>)
    ensures
        views(r@) == rewritten_args(views(args@)),
{
    let ghost a = views(args@);
    let mut normalized: Vec<String> = Vec::new();
    let mut i: usize = 0;
    while i < args.len()
        invariant
            a == views(args@),
            i <= args@.len(),
            views(normalized@) == normalized_args(a.take(i as int)),
        decreases args@.len() - i,
    {
        push_string(&mut normalized, normalize_flag_spelling(args[i].as_str()));
        assert(normalized_args(a.take(i + 1)) =~= normalized_args(a.take(i as int)).push(
            normalized_spelling(a[i as int]),
        ));
        i += 1;
    }
    assert(a.take(args@.len() as int) =~= a);
    if let Some(rewritten) = rewrite_agent_intent_command(normalized.as_slice()) {
        return rewritten;
    }
    let wants_structured_output = contains_structured_output_alias(normalized.as_slice());
    let rewritten = rewrite_flag_aliases(normalized.as_slice(), "");
    if wants_structured_output && !has_primary_robot_arg(rewritten.as_slice())
        && !has_non_robot_primary_arg(rewritten.as_slice()) {
        let mut promoted: Vec<String> = Vec::new();
        push_str(&mut promoted, "--robot-triage");
        extend(&mut promoted, rewritten);
        return promoted;
    }
    rewritten
}

/// Whether a dash-led token consumes the following token as its value.
pub fn flag_takes_value(tok: &str) -> (r: bool)
    ensures
        r == takes_value(tok@),
{
    let k = find_char(tok, '=');
    proof {
        crate::text::lemma_index_of(tok@, '=');
    }
    if k < tok.unicode_len() {
        return false;
    }
    let name = strip_leading_dashes(tok);
    let s = string_of(name.as_slice());
    let n = s.as_str();
    !(str_eq(n, "help") || str_eq(n, "robot-robot") || crate::flags::flag_is_bool(n))
}

/// The first bare token left unconsumed after `rewrite_args`: a token that
/// is neither dash-led nor the value of a preceding value-taking flag.
pub fn unconsumed_positional(rewritten: &[String]) -> (r: Option<String>)
    ensures
        r matches Some(t) ==> unconsumed_from(views(rewritten@), false) == Some(t@),
        r is None ==> unconsumed_from(views(rewritten@), false) is None,
{
    let ghost a = views(rewritten@);
    let mut prev_is_flag = false;
    let mut i: usize = 0;
    assert(a.skip(0) =~= a);
    while i < rewritten.len()
        invariant
            a == views(rewritten@),
            i <= rewritten@.len(),
            unconsumed_from(a, false) == unconsumed_from(a.skip(i as int), prev_is_flag),
        decreases rewritten@.len() - i,
    {
        let tok = rewritten[i].as_str();
        let ghost s = a.skip(i as int);
        assert(s[0] == tok@);
        assert(s.skip(1) =~= a.skip(i + 1));
        if prev_is_flag && !is_dash_start(tok) {
            prev_is_flag = false;
        } else if is_dash_start(tok) {
            prev_is_flag = flag_takes_value(tok);
        } else {
            return Some(owned(tok));
        }
        i += 1;
    }
    None
}

/// Parses a boolean flag value (`1 t T TRUE true True` / `0 f F FALSE false False`).
pub fn go_parse_bool(raw: &str) -> (r: Option<bool>)
    ensures
        r == go_bool(raw@),
{
    if str_eq(raw, "1") || str_eq(raw, "t") || str_eq(raw, "T") || str_eq(raw, "TRUE") || str_eq(
        raw,
        "true",
    ) || str_eq(raw, "True") {
        Some(true)
    } else if str_eq(raw, "0") || str_eq(raw, "f") || str_eq(raw, "F") || str_eq(raw, "FALSE")
        || str_eq(raw, "false") || str_eq(raw, "False") {
        Some(false)
    } else {
        None
    }
}

/// The error text for a malformed boolean flag value.
pub fn go_bool_parse_error(flag: &str, raw: &str) -> (r: String)
    ensures
        r@ == bool_parse_error(flag@, raw@),
{
    let q = crate::text::debug_quote(raw);
    let mut out = owned("invalid argument ");
    crate::text::append(&mut out, q.as_str());
    crate::text::append(&mut out, " for \"--");
    crate::text::append(&mut out, flag);
    crate::text::append(&mut out, "\" flag: strconv.ParseBool: parsing ");
    crate::text::append(&mut out, q.as_str());
    crate::text::append(&mut out, ": invalid syntax");
    out
}

/// The effective value of boolean flag `name` read off raw argv: the last
/// occurrence wins, a bare switch is `true`, an absent flag is `default`,
/// and a malformed `=value` is the parse error.
pub fn go_bool_flag(args: &[String], name: &str, default: bool) -> (r: Result<bool, String>)
    ensures
        match r {
            Ok(b) => bool_flag_outcome(views(args@), name@, default) == Ok::<bool, Seq<char>>(b),
            Err(e) => bool_flag_outcome(views(args@), name@, default) == Err::<bool, Seq<char>>(
                e@,
            ),
        },
{
    let ghost a = views(args@);
    let long = concat2("--", name);
    let with_eq = concat3("--", name, "=");
    let mut raw: Option<&str> = None;
    let mut i: usize = 0;
    while i < args.len()
        invariant
            a == views(args@),
            i <= args@.len(),
            long@ == "--"@ + name@,
            with_eq@ == "--"@ + name@ + "="@,
            match raw {
                Some(v) => last_bool_raw(a.take(i as int), name@) == Some(v@),
                None => last_bool_raw(a.take(i as int), name@) is None,
            },
        decreases args@.len() - i,
    {
        let ghost t = a.take(i + 1);
        assert(t.drop_last() =~= a.take(i as int));
        assert(t.last() == args@[i as int]@);
        let arg = args[i].as_str();
        if let Some(v) = strip_prefix(arg, with_eq.as_str()) {
            raw = Some(v);
        } else if str_eq(arg, long.as_str()) {
            raw = Some("true");
        }
        i += 1;
    }
    assert(a.take(args@.len() as int) =~= a);
    match raw {
        None => Ok(default),
        Some(v) => match go_parse_bool(v) {
            Some(b) => Ok(b),
            None => Err(go_bool_parse_error(name, v)),
        },
    }
}

/// The value of string flag `name`: the first `--name value` or
/// `--name=value` occurrence (everything after the first `=`).
pub fn go_string_flag_value<'a>(args: &'a [String], name: &str) -> (r: Option<&'a str>)
    ensures
        match r {
            Some(v) => first_string_value(views(args@), name@) == Some(v@),
            None => first_string_value(views(args@), name@) is None,
        },
{
    let ghost a = views(args@);
    let long = concat2("--", name);
    let with_eq = concat3("--", name, "=");
    let mut i: usize = 0;
    assert(a.skip(0) =~= a);
    while i < args.len()
        invariant
            a == views(args@),
            i <= args@.len(),
            long@ == "--"@ + name@,
            with_eq@ == "--"@ + name@ + "="@,
            first_string_value(a, name@) == first_string_value(a.skip(i as int), name@),
        decreases args@.len() - i,
    {
        let ghost s = a.skip(i as int);
        assert(s[0] == args@[i as int]@);
        assert(s.skip(1) =~= a.skip(i + 1));
        let arg = args[i].as_str();
        if let Some(v) = strip_prefix(arg, with_eq.as_str()) {
            return Some(v);
        }
        if str_eq(arg, long.as_str()) {
            if i + 1 < args.len() {
                assert(s[1] == args@[i + 1]@);
                return Some(args[i + 1].as_str());
            }
            return None;
        }
        i += 1;
    }
    None
}

/// A string flag is active only when its value survives trimming.
pub fn go_string_flag_active(args: &[String], name: &str) -> (r: bool)
    ensures
        r == match first_string_value(views(args@), name@) {
            Some(v) => trim(v).len() > 0,
            None => false,
        },
{
    match go_string_flag_value(args, name) {
        Some(v) => trim_str(v).unicode_len() > 0,
        None => false,
    }
}

} // verus!
