//! Properties that hold across calls and over all inputs, stated over the
//! spec functions the executable functions' contracts use.

use vstd::prelude::*;
use crate::argv::{
    equals_arg, flag_aliases, leading_aliases, leading_equals_alias, lemma_leading_aliases,
    last_bool_raw, bool_flag_outcome, go_bool, normalized_spelling, short_alias, takes_value, unconsumed_from,
};
use crate::flags::{is_registered, is_registered_bool, strip_dashes};
use crate::enums::{
    ENUM_RULE_COUNT, bytes_of, edit_distance, enum_outcome_from, enum_rule_allowed, enum_rule_name,
    last_supplied, max_distance_for, suggest_from, suggestion,
};
use crate::robot::{
    format_code, format_name, go_escape_char, go_escaped, go_escaped_body, html_escape_char,
    html_escaped, to_seconds, track_id, track_letter,
};
use crate::cli::presence_of;
use crate::dispatch::{
    any_present, any_robot_primary, first_row_from, first_unhandled_from, spec_early_route,
    spec_early_rows, spec_late_route,
};
use crate::registry::spec_robot_primaries;
use crate::validation::{conflicts_from, first_of_group, members_from, selected};
use crate::text::{index_of, lemma_index_of, starts_with_dash, str_views, trim_lower};

verus! {

broadcast use vstd::seq_lib::group_seq_properties;

/// Normalizing a token's spelling twice gives the same token as normalizing
/// it once: every rewritten token already has the `--` form.
pub proof fn law_normalize_flag_spelling_idempotent(arg: Seq<char>)
    ensures
        normalized_spelling(normalized_spelling(arg)) == normalized_spelling(arg),
{
    reveal_strlit("--format");
    reveal_strlit("--label");
    reveal_strlit("--recipe");
    reveal_strlit("-");
    let out = normalized_spelling(arg);
    if out != arg {
        assert(starts_with_dash(out));
        assert(out.skip(1)[0] == '-');
        assert(starts_with_dash(out.skip(1)));
    }
}

/// The output format read back after recording `fmt` is `toon` exactly when
/// `fmt` is `toon`, and `json` for every other value.
pub proof fn law_output_format_round_trip(fmt: Seq<char>)
    ensures
        format_name(format_code(fmt)) == (if fmt == "toon"@ {
            "toon"@
        } else {
            "json"@
        }),
{
}

/// Distinct track numbers get distinct labels.
pub proof fn law_track_id_injective(n: nat, m: nat)
    requires
        track_id(n) == track_id(m),
    ensures
        n == m,
    decreases n,
{
    if n == 0 || m == 0 {
        if n != 0 {
            assert(track_id(n).len() > 0);
        }
        if m != 0 {
            assert(track_id(m).len() > 0);
        }
    } else {
        let qn = ((n - 1) / 26) as nat;
        let qm = ((m - 1) / 26) as nat;
        let dn = ((n - 1) % 26) as nat;
        let dm = ((m - 1) % 26) as nat;
        assert(track_id(n).last() == track_letter(dn));
        assert(track_id(m).last() == track_letter(dm));
        assert(dn == dm);
        assert(track_id(n).drop_last() =~= track_id(qn));
        assert(track_id(m).drop_last() =~= track_id(qm));
        law_track_id_injective(qn, qm);
    }
}

/// One escaped character is free of `<`, `>`, `&` and of control characters
/// below 0x20.
proof fn lemma_go_escape_char_safe(c: char, j: int)
    requires
        0 <= j < go_escape_char(c).len(),
    ensures
        ({
            let x = go_escape_char(c)[j];
            x != '<' && x != '>' && x != '&' && (x as u32) >= 0x20
        }),
{
    reveal_strlit("\\\"");
    reveal_strlit("\\\\");
    reveal_strlit("\\n");
    reveal_strlit("\\r");
    reveal_strlit("\\t");
    reveal_strlit("\\u003c");
    reveal_strlit("\\u003e");
    reveal_strlit("\\u0026");
    reveal_strlit("\\u00");
}

/// The JSON quoting of any string is HTML-safe: the quoted text holds no
/// `<`, `>` or `&` and no raw control character below 0x20.
pub proof fn law_go_escape_is_html_safe(s: Seq<char>, i: int)
    requires
        0 <= i < go_escaped(s).len(),
    ensures
        ({
            let x = go_escaped(s)[i];
            x != '<' && x != '>' && x != '&' && (x as u32) >= 0x20
        }),
{
    reveal_strlit("\"");
    lemma_go_escaped_body_safe(s, i - 1);
}

proof fn lemma_go_escaped_body_safe(s: Seq<char>, i: int)
    ensures
        0 <= i < go_escaped_body(s).len() ==> ({
            let x = go_escaped_body(s)[i];
            x != '<' && x != '>' && x != '&' && (x as u32) >= 0x20
        }),
    decreases s.len(),
{
    if s.len() > 0 && 0 <= i < go_escaped_body(s).len() {
        let prev = go_escaped_body(s.drop_last());
        if i < prev.len() {
            lemma_go_escaped_body_safe(s.drop_last(), i);
        } else {
            lemma_go_escape_char_safe(s.last(), i - prev.len());
        }
    }
}

/// HTML escaping leaves no `<`, `>` or `"` in its output.
pub proof fn law_html_escape_is_safe(s: Seq<char>, i: int)
    requires
        0 <= i < html_escaped(s).len(),
    ensures
        html_escaped(s)[i] != '<' && html_escaped(s)[i] != '>' && html_escaped(s)[i] != '"',
    decreases s.len(),
{
    reveal_strlit("&amp;");
    reveal_strlit("&lt;");
    reveal_strlit("&gt;");
    reveal_strlit("&quot;");
    let prev = html_escaped(s.drop_last());
    if i < prev.len() {
        law_html_escape_is_safe(s.drop_last(), i);
    } else {
        let c = s.last();
        let j = i - prev.len();
        assert(html_escaped(s)[i] == html_escape_char(c)[j]);
    }
}

/// A timestamp cut to second precision has no fractional part left, so
/// cutting it again changes nothing.
pub proof fn law_second_precision_is_final(text: Seq<char>)
    ensures
        !to_seconds(text).contains('.'),
        to_seconds(to_seconds(text)) == to_seconds(text),
{
    reveal_strlit("Z");
    lemma_index_of(text, '.');
    let t = to_seconds(text);
    if t.contains('.') {
        let j = choose|j: int| 0 <= j < t.len() && t[j] == '.';
        let dot = index_of(text, '.');
        if dot < text.len() {
            assert(t[j] == text[j]);
        }
    }
    lemma_index_of(t, '.');
}

/// The edit distance does not depend on the order of its arguments.
pub proof fn law_edit_distance_symmetric(a: Seq<u8>, b: Seq<u8>)
    ensures
        edit_distance(a, b) == edit_distance(b, a),
    decreases a.len() + b.len(),
{
    if a.len() > 0 && b.len() > 0 {
        law_edit_distance_symmetric(a, b.drop_last());
        law_edit_distance_symmetric(a.drop_last(), b);
        law_edit_distance_symmetric(a.drop_last(), b.drop_last());
    }
}

/// An enum-valued flag is refused exactly when its last supplied value is
/// blank or, trimmed and lowercased, outside its set: supplying only allowed
/// values (in any case, with surrounding spaces) is never refused.
pub proof fn law_enum_accepts_allowed_values(p: Seq<(Seq<char>, Seq<char>)>, k: int)
    requires
        0 <= k <= ENUM_RULE_COUNT,
    ensures
        enum_outcome_from(p, k) is None <==> forall|j: int|
            k <= j < ENUM_RULE_COUNT ==> match #[trigger] last_supplied(p, enum_rule_name(j)@) {
                Some(v) => trim_lower(v).len() > 0 && str_views(enum_rule_allowed(j)).contains(
                    trim_lower(v),
                ),
                None => true,
            },
    decreases ENUM_RULE_COUNT - k,
{
    if k < ENUM_RULE_COUNT {
        law_enum_accepts_allowed_values(p, k + 1);
    }
}

// ---------------------------------------------------------------------------
// Exclusive primary groups
// ---------------------------------------------------------------------------

/// Two table entries `i < j` are present primaries of one exclusive group.
pub open spec fn clash(present: Set<Seq<char>>, i: int, j: int) -> bool {
    let t = spec_robot_primaries();
    &&& 0 <= i < j < t.len()
    &&& selected(present, t[i])
    &&& selected(present, t[j])
    &&& t[i].group->0@ == t[j].group->0@
}

proof fn lemma_members_one(present: Set<Seq<char>>, g: Seq<char>, m: int, j: int)
    requires
        0 <= m <= j < spec_robot_primaries().len(),
        selected(present, spec_robot_primaries()[j]),
        spec_robot_primaries()[j].group->0@ == g,
    ensures
        members_from(present, g, m).len() >= 1,
    decreases j - m,
{
    if m < j {
        lemma_members_one(present, g, m + 1, j);
    }
}

proof fn lemma_members_two(present: Set<Seq<char>>, g: Seq<char>, m: int, i: int, j: int)
    requires
        0 <= m <= i,
        clash(present, i, j),
        spec_robot_primaries()[i].group->0@ == g,
    ensures
        members_from(present, g, m).len() >= 2,
    decreases i - m,
{
    if m < i {
        lemma_members_two(present, g, m + 1, i, j);
    } else {
        lemma_members_one(present, g, m + 1, j);
    }
}

proof fn lemma_members_witness_one(present: Set<Seq<char>>, g: Seq<char>, m: int) -> (j: int)
    requires
        0 <= m,
        members_from(present, g, m).len() >= 1,
    ensures
        m <= j < spec_robot_primaries().len(),
        selected(present, spec_robot_primaries()[j]),
        spec_robot_primaries()[j].group->0@ == g,
    decreases spec_robot_primaries().len() - m,
{
    let f = spec_robot_primaries()[m];
    if selected(present, f) && f.group->0@ == g {
        m
    } else {
        lemma_members_witness_one(present, g, m + 1)
    }
}

proof fn lemma_members_witness_two(present: Set<Seq<char>>, g: Seq<char>, m: int) -> (ij: (int, int))
    requires
        0 <= m,
        members_from(present, g, m).len() >= 2,
    ensures
        m <= ij.0,
        clash(present, ij.0, ij.1),
        spec_robot_primaries()[ij.0].group->0@ == g,
    decreases spec_robot_primaries().len() - m,
{
    let f = spec_robot_primaries()[m];
    if selected(present, f) && f.group->0@ == g {
        let j = lemma_members_witness_one(present, g, m + 1);
        (m, j)
    } else {
        lemma_members_witness_two(present, g, m + 1)
    }
}

proof fn lemma_first_of_group_exists(present: Set<Seq<char>>, i: int) -> (k: int)
    requires
        0 <= i < spec_robot_primaries().len(),
        selected(present, spec_robot_primaries()[i]),
    ensures
        0 <= k <= i,
        first_of_group(present, k),
        spec_robot_primaries()[k].group->0@ == spec_robot_primaries()[i].group->0@,
    decreases i,
{
    if first_of_group(present, i) {
        i
    } else {
        let t = spec_robot_primaries();
        let j = choose|j: int|
            0 <= j < i && selected(present, #[trigger] t[j]) && t[j].group->0@ == t[i].group->0@;
        lemma_first_of_group_exists(present, j)
    }
}

proof fn lemma_conflicts_from_nonempty(present: Set<Seq<char>>, k: int, k0: int)
    requires
        0 <= k <= k0 < spec_robot_primaries().len(),
        first_of_group(present, k0),
        members_from(present, spec_robot_primaries()[k0].group->0@, 0).len() > 1,
    ensures
        conflicts_from(present, k).len() > 0,
    decreases k0 - k,
{
    if k < k0 {
        lemma_conflicts_from_nonempty(present, k + 1, k0);
    }
}

proof fn lemma_conflicts_from_witness(present: Set<Seq<char>>, k: int) -> (k0: int)
    requires
        0 <= k,
        conflicts_from(present, k).len() > 0,
    ensures
        k <= k0 < spec_robot_primaries().len(),
        members_from(present, spec_robot_primaries()[k0].group->0@, 0).len() > 1,
    decreases spec_robot_primaries().len() - k,
{
    let f = spec_robot_primaries()[k];
    let m = members_from(present, f.group->0@, 0);
    if first_of_group(present, k) && m.len() > 1 {
        k
    } else {
        lemma_conflicts_from_witness(present, k + 1)
    }
}

/// An exclusive-group error is reported exactly when two primaries of one
/// group are present; a single primary, or primaries of different groups,
/// never conflict.
pub proof fn law_exclusive_conflict_iff_clash(present: Set<Seq<char>>)
    ensures
        conflicts_from(present, 0).len() > 0 <==> exists|i: int, j: int| clash(present, i, j),
{
    let t = spec_robot_primaries();
    if conflicts_from(present, 0).len() > 0 {
        let k0 = lemma_conflicts_from_witness(present, 0);
        let ij = lemma_members_witness_two(present, t[k0].group->0@, 0);
        assert(clash(present, ij.0, ij.1));
    }
    if exists|i: int, j: int| clash(present, i, j) {
        let (i, j) = choose|i: int, j: int| clash(present, i, j);
        let k0 = lemma_first_of_group_exists(present, i);
        lemma_members_two(present, t[i].group->0@, 0, i, j);
        lemma_conflicts_from_nonempty(present, 0, k0);
    }
}

// ---------------------------------------------------------------------------
// Dispatch
// ---------------------------------------------------------------------------

proof fn lemma_first_row_found(
    present: Set<Seq<char>>,
    rows: Seq<(Seq<&'static str>, &'static str)>,
    k: int,
    i: int,
)
    requires
        0 <= k <= i < rows.len(),
        any_present(present, rows[i].0),
    ensures
        first_row_from(present, rows, k) is Some,
    decreases i - k,
{
    if k < i && !any_present(present, rows[k].0) {
        lemma_first_row_found(present, rows, k + 1, i);
    }
}

proof fn lemma_first_unhandled_found(present: Set<Seq<char>>, k: int, j: int)
    requires
        0 <= k <= j < spec_robot_primaries().len(),
        spec_robot_primaries()[j].name@ != "robot-help"@,
        present.contains(spec_robot_primaries()[j].name@),
    ensures
        first_unhandled_from(present, k) is Some,
    decreases j - k,
{
    if k < j {
        lemma_first_unhandled_found(present, k + 1, j);
    }
}

/// A robot invocation never falls through to the interactive viewer: when a
/// robot primary command is present, either a command runs before the
/// `--format` check or the route after it is not the viewer.
pub proof fn law_robot_invocation_never_reaches_the_viewer(a: Seq<Seq<char>>)
    requires
        any_robot_primary(presence_of(a)),
    ensures
        spec_early_route(a) is Some || spec_late_route(a).0 != 7,
{
    let p = presence_of(a);
    let t = spec_robot_primaries();
    let k = choose|k: int| 0 <= k < t.len() && p.contains(#[trigger] t[k].name@);
    if t[k].name@ == "robot-help"@ {
        let help_row = spec_early_rows()[4];
        assert(help_row.0[0] == "robot-help");
        assert(any_present(p, help_row.0));
        lemma_first_row_found(p, spec_early_rows(), 0, 4);
    } else {
        lemma_first_unhandled_found(p, 0, k);
    }
}

// ---------------------------------------------------------------------------
// Argv
// ---------------------------------------------------------------------------

/// A single-dash token is left alone unless its name is a registered flag or
/// a one-letter short alias: the spelling is decided by the registry, never
/// by the shape of the token, so a negative value such as `-1e400` survives.
pub proof fn law_unregistered_single_dash_token_is_untouched(arg: Seq<char>)
    requires
        starts_with_dash(arg),
        !starts_with_dash(arg.skip(1)),
        ({
            let rest = arg.skip(1);
            let name = rest.take(index_of(rest, '='));
            !is_registered(name) && short_alias(name) is None
        }),
    ensures
        normalized_spelling(arg) == arg,
{
}

/// A flag that takes a value consumes the token after it, so that token is
/// never reported as an unknown command.
pub proof fn law_flag_value_is_consumed(flag: Seq<char>, value: Seq<char>)
    requires
        starts_with_dash(flag),
        takes_value(flag),
    ensures
        unconsumed_from(seq![flag, value], false) is None,
{
    reveal_with_fuel(unconsumed_from, 3);
    assert(seq![flag, value].skip(1) =~= seq![value]);
    assert(seq![value].skip(1) =~= Seq::<Seq<char>>::empty());
}

/// A boolean switch does not swallow the token after it: a bare word there
/// is still reported as an unknown command.
pub proof fn law_switch_does_not_swallow_next(flag: Seq<char>, word: Seq<char>)
    requires
        starts_with_dash(flag),
        !takes_value(flag),
        !starts_with_dash(word),
    ensures
        unconsumed_from(seq![flag, word], false) == Some(word),
{
    reveal_with_fuel(unconsumed_from, 2);
    assert(seq![flag, word].skip(1) =~= seq![word]);
}

/// Every boolean flag of the registry (in any dash spelling) leaves the
/// token after it alone: a bare word there is an unknown command.
pub proof fn law_registered_bool_flag_does_not_swallow_next(flag: Seq<char>, word: Seq<char>)
    requires
        starts_with_dash(flag),
        is_registered_bool(strip_dashes(flag)),
        !starts_with_dash(word),
    ensures
        unconsumed_from(seq![flag, word], false) == Some(word),
{
    assert(!takes_value(flag));
    law_switch_does_not_swallow_next(flag, word);
}

/// The last occurrence of a boolean flag decides its value, whatever came
/// before it.
pub proof fn law_last_boolean_occurrence_wins(
    args: Seq<Seq<char>>,
    name: Seq<char>,
    value: Seq<char>,
    default: bool,
)
    requires
        go_bool(value) is Some,
    ensures
        bool_flag_outcome(args.push("--"@ + name + "="@ + value), name, default) == Ok::<
            bool,
            Seq<char>,
        >(go_bool(value)->0),
{
    let t = "--"@ + name + "="@ + value;
    let p = "--"@ + name + "="@;
    assert(t =~= p + value);
    assert(args.push(t).last() == t);
    assert(t.take(p.len() as int) =~= p);
    assert(t.skip(p.len() as int) =~= value);
}

/// A token that does not start with a dash is no alias and passes the
/// alias pass unchanged.
proof fn lemma_plain_token_is_kept(a: Seq<char>, context: Seq<char>)
    requires
        !starts_with_dash(a),
    ensures
        a != "--json"@,
        a != "--toon"@,
        a != "--output"@,
        a != "-o"@,
        a != "--name"@,
        a != "--limit"@,
        leading_equals_alias(a, context) is None,
        equals_arg(a, context) == a,
{
    reveal_strlit("--json");
    reveal_strlit("--toon");
    reveal_strlit("--output");
    reveal_strlit("-o");
    reveal_strlit("--name");
    reveal_strlit("--limit");
    reveal_strlit("--json=true");
    reveal_strlit("--json=false");
    reveal_strlit("--toon=true");
    reveal_strlit("--toon=false");
    reveal_strlit("--output=");
    reveal_strlit("-o=");
    reveal_strlit("--limit=");
    reveal_strlit("--name=");
    if a.len() > 0 {
        assert(a[0] != '-');
    }
    if crate::text::has_prefix(a, "--output="@) {
        assert(a.subrange(0, 9)[0] == a[0]);
    }
    if crate::text::has_prefix(a, "-o="@) {
        assert(a.subrange(0, 3)[0] == a[0]);
    }
    if crate::text::has_prefix(a, "--limit="@) {
        assert(a.subrange(0, 8)[0] == a[0]);
    }
    if crate::text::has_prefix(a, "--name="@) {
        assert(a.subrange(0, 7)[0] == a[0]);
    }
}

/// The bare `--name` is no `=`-form alias.
proof fn lemma_name_is_no_equals_alias(context: Seq<char>)
    ensures
        leading_equals_alias("--name"@, context) is None,
{
    reveal_strlit("--name");
    reveal_strlit("--json=true");
    reveal_strlit("--json=false");
    reveal_strlit("--toon=true");
    reveal_strlit("--toon=false");
    reveal_strlit("--output=");
    reveal_strlit("-o=");
    reveal_strlit("--limit=");
    assert("--name"@.subrange(0, 3)[1] != "-o="@[1]);
}

/// The value after each `--limit` does not start with a dash.
pub open spec fn limit_values_plain(args: Seq<Seq<char>>) -> bool {
    forall|i: int, j: int|
        0 <= i && j == i + 1 && j < args.len() && #[trigger] args[i] == "--limit"@ ==> !starts_with_dash(
            #[trigger] args[j],
        )
}

proof fn lemma_limit_values_plain_skip(args: Seq<Seq<char>>, n: int)
    requires
        limit_values_plain(args),
        0 <= n <= args.len(),
    ensures
        limit_values_plain(args.skip(n)),
{
    let t = args.skip(n);
    assert forall|i: int, j: int|
        0 <= i && j == i + 1 && j < t.len() && #[trigger] t[i] == "--limit"@ implies !starts_with_dash(
            #[trigger] t[j],
        ) by {
        assert(t[i] == args[i + n] && t[j] == args[j + n]);
    }
}

/// Consuming the leading aliases of a subcommand's arguments rewrites them
/// exactly as the alias pass rewrites the consumed tokens, as long as no
/// `--limit` is followed by a dash-led value (which the alias pass would
/// read as a flag of its own).
pub proof fn law_leading_aliases_match_alias_pass(args: Seq<Seq<char>>, context: Seq<char>)
    requires
        limit_values_plain(args),
    ensures
        leading_aliases(args, context).0 == flag_aliases(
            args.take(leading_aliases(args, context).1),
            context,
        ),
    decreases args.len(),
{
    lemma_leading_aliases(args, context);
    reveal_strlit("--json");
    reveal_strlit("--toon");
    reveal_strlit("--output");
    reveal_strlit("-o");
    reveal_strlit("--name");
    reveal_strlit("--limit");
    let k = leading_aliases(args, context).1;
    if args.len() == 0 || k == 0 {
        assert(args.take(k) =~= Seq::<Seq<char>>::empty());
        return;
    }
    let a = args[0];
    let p = args.take(k);
    assert(p[0] == a);
    if a == "--json"@ || a == "--toon"@ {
        let s1 = args.skip(1);
        lemma_limit_values_plain_skip(args, 1);
        law_leading_aliases_match_alias_pass(s1, context);
        lemma_leading_aliases(s1, context);
        assert(p.skip(1) =~= s1.take(k - 1));
    } else if a == "--output"@ || a == "-o"@ {
        let s2 = args.skip(2);
        lemma_limit_values_plain_skip(args, 2);
        law_leading_aliases_match_alias_pass(s2, context);
        lemma_leading_aliases(s2, context);
        assert(p[1] == args[1]);
        assert(p.skip(2) =~= s2.take(k - 2));
    } else if a == "--limit"@ {
        let s2 = args.skip(2);
        lemma_limit_values_plain_skip(args, 2);
        law_leading_aliases_match_alias_pass(s2, context);
        lemma_leading_aliases(s2, context);
        assert(args[0] == "--limit"@);
        assert(!starts_with_dash(args[1]));
        lemma_plain_token_is_kept(args[1], context);
        let q = p.skip(1);
        assert(q[0] == args[1]);
        assert(q.skip(1) =~= s2.take(k - 2));
        assert(flag_aliases(q, context) == seq![args[1]] + flag_aliases(s2.take(k - 2), context));
    } else {
        let s1 = args.skip(1);
        lemma_limit_values_plain_skip(args, 1);
        law_leading_aliases_match_alias_pass(s1, context);
        lemma_leading_aliases(s1, context);
        lemma_name_is_no_equals_alias(context);
        assert(a != "--name"@);
        assert(p.skip(1) =~= s1.take(k - 1));
    }
}

/// The text is non-empty and does not end in white space.
pub open spec fn ends_plain(s: Seq<char>) -> bool {
    s.len() > 0 && !crate::text::is_white_space(s.last())
}

proof fn lemma_rule_required_last_plain(k: int)
    requires
        0 <= k < crate::registry::MODIFIER_RULE_COUNT,
    ensures
        crate::registry::rule_required(k).len() > 0,
        ends_plain(crate::registry::rule_required(k).last()@),
{
    reveal_strlit("bead-history");
    reveal_strlit("check-drift");
    reveal_strlit("debug-render");
    reveal_strlit("diff-since");
    reveal_strlit("emit-script");
    reveal_strlit("export");
    reveal_strlit("export-graph");
    reveal_strlit("export-md");
    reveal_strlit("export-pages");
    reveal_strlit("preview-pages");
    reveal_strlit("profile-startup");
    reveal_strlit("robot-alerts");
    reveal_strlit("robot-capacity");
    reveal_strlit("robot-causality");
    reveal_strlit("robot-confirm-correlation");
    reveal_strlit("robot-file-beads");
    reveal_strlit("robot-file-hotspots");
    reveal_strlit("robot-file-relations");
    reveal_strlit("robot-forecast");
    reveal_strlit("robot-graph");
    reveal_strlit("robot-history");
    reveal_strlit("robot-impact-network");
    reveal_strlit("robot-label-attention");
    reveal_strlit("robot-next");
    reveal_strlit("robot-orphans");
    reveal_strlit("robot-priority");
    reveal_strlit("robot-reject-correlation");
    reveal_strlit("robot-related");
    reveal_strlit("robot-schema");
    reveal_strlit("robot-suggest");
    reveal_strlit("robot-triage");
    reveal_strlit("robot-triage-by-label");
    reveal_strlit("robot-triage-by-track");
    reveal_strlit("search");
}

proof fn lemma_trim_end_plain(s: Seq<char>)
    requires
        ends_plain(s),
    ensures
        crate::text::trim_end(s) == s,
{
    crate::text::lemma_trail_ws_unique(s, 0);
    assert(s.subrange(0, s.len() as int) =~= s);
}

/// For every rule of the modifier-requires table the requirement sentence
/// ends in a flag name, so trimming its end leaves it unchanged and the
/// message is the sentence followed by the recovery hints.
pub proof fn law_requirement_sentence_is_not_trimmed(k: int)
    requires
        0 <= k < crate::registry::MODIFIER_RULE_COUNT,
    ensures
        crate::text::trim_end(crate::validation::requirement_head(k))
            == crate::validation::requirement_head(k),
        crate::validation::requirement_message(k) == crate::validation::requirement_head(k)
            + crate::flags::spec_recovery_suffix(crate::registry::rule_modifier(k)@),
{
    lemma_rule_required_last_plain(k);
    let req = str_views(crate::registry::rule_required(k));
    let last = crate::registry::rule_required(k).last()@;
    assert(req.last() == last);
    let flags = req.map_values(|r: Seq<char>| "--"@ + r);
    assert(flags.last() == "--"@ + last);
    let dashed = "--"@ + last;
    assert(dashed.last() == last.last());
    let rt = crate::validation::required_text(req);
    if req.len() == 1 {
        assert(rt == dashed);
    } else {
        let front = crate::text::join(flags.drop_last(), ", "@) + " or "@;
        assert(rt == front + dashed);
        assert(rt.last() == dashed.last());
    }
    assert(rt.len() > 0 && rt.last() == last.last());
    let h = crate::validation::requirement_head(k);
    let m = crate::registry::rule_modifier(k)@;
    if req.len() > 1 {
        assert(h == ("--"@ + m + " requires one of "@) + rt);
    } else {
        assert(h == ("--"@ + m + " requires "@) + rt);
    }
    assert(h.last() == rt.last());
    lemma_trim_end_plain(h);
}

/// The distance from `v` to allowed value `j`, both normalized.
pub open spec fn candidate_distance(v: Seq<char>, allowed: Seq<&'static str>, j: int) -> int {
    edit_distance(bytes_of(v), bytes_of(trim_lower(allowed[j]@))) as int
}

/// Allowed value `j` is not blank once normalized.
pub open spec fn candidate_counts(allowed: Seq<&'static str>, j: int) -> bool {
    trim_lower(allowed[j]@).len() > 0
}

/// The index the suggestion walk settles on.
pub open spec fn suggest_index_from(
    v: Seq<char>,
    allowed: Seq<&'static str>,
    k: int,
    best: Option<int>,
    best_dist: int,
) -> Option<int>
    decreases allowed.len() - k,
{
    if k < 0 || k >= allowed.len() {
        best
    } else if !candidate_counts(allowed, k) {
        suggest_index_from(v, allowed, k + 1, best, best_dist)
    } else {
        let d = candidate_distance(v, allowed, k);
        if d <= best_dist && (best is None || d < best_dist || crate::enums::bytes_less(
            bytes_of(trim_lower(allowed[k]@)),
            bytes_of(trim_lower(allowed[best->0]@)),
        )) {
            suggest_index_from(v, allowed, k + 1, Some(k), d)
        } else {
            suggest_index_from(v, allowed, k + 1, best, best_dist)
        }
    }
}

/// The normalized bytes of allowed value `j`.
pub open spec fn candidate_key(allowed: Seq<&'static str>, j: int) -> Seq<u8> {
    bytes_of(trim_lower(allowed[j]@))
}

/// Allowed value `i` is a nearest one: no counting value is closer, none at
/// the same distance sorts before it, and none before it is a full tie.
pub open spec fn nearest_at(v: Seq<char>, allowed: Seq<&'static str>, i: int, n: int) -> bool {
    &&& forall|j: int|
        0 <= j < n && #[trigger] candidate_counts(allowed, j) ==> candidate_distance(v, allowed, j)
            >= candidate_distance(v, allowed, i)
    &&& forall|j: int|
        0 <= j < n && #[trigger] candidate_counts(allowed, j) && candidate_distance(v, allowed, j)
            == candidate_distance(v, allowed, i) ==> !crate::enums::bytes_less(
            candidate_key(allowed, j),
            candidate_key(allowed, i),
        )
    &&& forall|j: int|
        0 <= j < i && #[trigger] candidate_counts(allowed, j) && candidate_distance(v, allowed, j)
            == candidate_distance(v, allowed, i) ==> candidate_key(allowed, j) != candidate_key(allowed, i)
}

proof fn lemma_suggest_index(
    v: Seq<char>,
    allowed: Seq<&'static str>,
    k: int,
    best: Option<int>,
    best_dist: int,
    ceiling: int,
)
    requires
        0 <= k <= allowed.len(),
        best_dist <= ceiling,
        match best {
            Some(i) => 0 <= i < k && candidate_counts(allowed, i) && candidate_distance(v, allowed, i)
                == best_dist && nearest_at(v, allowed, i, k),
            None => best_dist == ceiling && forall|j: int|
                0 <= j < k && #[trigger] candidate_counts(allowed, j) ==> candidate_distance(v, allowed, j)
                    > ceiling,
        },
    ensures
        suggest_from(v, allowed, k, best, best_dist) == match suggest_index_from(v, allowed, k, best, best_dist) {
            Some(i) => allowed[i],
            None => "",
        },
        match suggest_index_from(v, allowed, k, best, best_dist) {
            Some(i) => {
                &&& 0 <= i < allowed.len()
                &&& candidate_counts(allowed, i)
                &&& candidate_distance(v, allowed, i) <= ceiling
                &&& nearest_at(v, allowed, i, allowed.len() as int)
            },
            None => forall|j: int|
                0 <= j < allowed.len() && #[trigger] candidate_counts(allowed, j) ==> candidate_distance(
                    v,
                    allowed,
                    j,
                ) > ceiling,
        },
    decreases allowed.len() - k,
{
    if k < allowed.len() {
        if !candidate_counts(allowed, k) {
            lemma_suggest_index(v, allowed, k + 1, best, best_dist, ceiling);
        } else {
            let d = candidate_distance(v, allowed, k);
            if d <= best_dist && (best is None || d < best_dist || crate::enums::bytes_less(
                candidate_key(allowed, k),
                candidate_key(allowed, best->0),
            )) {
                assert forall|j: int|
                    0 <= j < k && #[trigger] candidate_counts(allowed, j) && candidate_distance(v, allowed, j)
                        == d implies !crate::enums::bytes_less(
                    candidate_key(allowed, j),
                    candidate_key(allowed, k),
                ) && candidate_key(allowed, j) != candidate_key(allowed, k) by {
                    let bi = best->0;
                    if crate::enums::bytes_less(candidate_key(allowed, j), candidate_key(allowed, k)) {
                        crate::recipes::lemma_bytes_less_transitive(
                            candidate_key(allowed, j),
                            candidate_key(allowed, k),
                            candidate_key(allowed, bi),
                        );
                    }
                }
                crate::recipes::lemma_bytes_less_irreflexive(candidate_key(allowed, k));
                assert forall|j: int|
                    0 <= j < k + 1 && #[trigger] candidate_counts(allowed, j) implies candidate_distance(
                    v,
                    allowed,
                    j,
                ) >= d by {
                    if j < k {
                        if best is Some {
                            assert(candidate_distance(v, allowed, j) >= best_dist);
                        }
                    }
                }
                assert(nearest_at(v, allowed, k, k + 1));
                lemma_suggest_index(v, allowed, k + 1, Some(k), d, ceiling);
            } else {
                if best is Some {
                    let bi = best->0;
                    if d == best_dist {
                        assert(!crate::enums::bytes_less(candidate_key(allowed, k), candidate_key(allowed, bi)));
                    }
                }
                lemma_suggest_index(v, allowed, k + 1, best, best_dist, ceiling);
            }
        }
    }
}

/// The enum suggestion is a nearest allowed value: when the value is not
/// blank, either the suggestion is an allowed value within the length-tiered
/// ceiling minimizing (distance, normalized value) over the non-blank
/// allowed values, the first of them on a full tie, or it is empty and
/// every non-blank allowed value lies beyond the ceiling.
pub proof fn law_suggestion_is_nearest(value: Seq<char>, allowed: Seq<&'static str>)
    ensures
        trim_lower(value).len() > 0 ==> {
            let v = trim_lower(value);
            let c = max_distance_for(crate::text::utf8_len(v)) as int;
            ||| exists|i: int|
                0 <= i < allowed.len() && suggestion(value, allowed) == allowed[i] && candidate_counts(
                    allowed,
                    i,
                ) && candidate_distance(v, allowed, i) <= c && #[trigger] nearest_at(
                    v,
                    allowed,
                    i,
                    allowed.len() as int,
                )
            ||| suggestion(value, allowed) == "" && forall|j: int|
                0 <= j < allowed.len() && #[trigger] candidate_counts(allowed, j) ==> candidate_distance(
                    v,
                    allowed,
                    j,
                ) > c
        },
        trim_lower(value).len() == 0 ==> suggestion(value, allowed) == "",
{
    let v = trim_lower(value);
    if v.len() > 0 && allowed.len() > 0 {
        let c = max_distance_for(crate::text::utf8_len(v)) as int;
        lemma_suggest_index(v, allowed, 0, None, c, c);
        match suggest_index_from(v, allowed, 0, None, c) {
            Some(i) => {
                assert(suggestion(value, allowed) == allowed[i]);
                assert(nearest_at(v, allowed, i, allowed.len() as int));
            },
            None => {},
        }
    }
}

/// Rule `k`'s last supplied value is blank or not allowed.
pub open spec fn enum_rule_fails(p: Seq<(Seq<char>, Seq<char>)>, k: int) -> bool {
    match last_supplied(p, enum_rule_name(k)@) {
        Some(v) => trim_lower(v).len() == 0 || !str_views(enum_rule_allowed(k)).contains(trim_lower(v)),
        None => false,
    }
}

proof fn lemma_enum_outcome_first_failure(p: Seq<(Seq<char>, Seq<char>)>, k: int)
    requires
        0 <= k <= ENUM_RULE_COUNT,
    ensures
        match enum_outcome_from(p, k) {
            Some(o) => {
                &&& k <= o.0 < ENUM_RULE_COUNT
                &&& enum_rule_fails(p, o.0)
                &&& last_supplied(p, enum_rule_name(o.0)@) == Some(o.1)
                &&& o.2 == if trim_lower(o.1).len() == 0 {
                    Seq::<char>::empty()
                } else {
                    crate::enums::did_you_mean(trim_lower(o.1), enum_rule_allowed(o.0))
                }
                &&& forall|j: int| k <= j < o.0 ==> !#[trigger] enum_rule_fails(p, j)
            },
            None => forall|j: int| k <= j < ENUM_RULE_COUNT ==> !#[trigger] enum_rule_fails(p, j),
        },
    decreases ENUM_RULE_COUNT - k,
{
    if k < ENUM_RULE_COUNT {
        lemma_enum_outcome_first_failure(p, k + 1);
    }
}

/// The enum check rejects an invocation exactly when some enum flag's last
/// supplied value is blank or not allowed, and it reports the first such
/// flag in rule order, with that value and, unless the value is blank, the
/// "did you mean" suggestion for its normalized form.
pub proof fn law_enum_check_reports_first_bad_flag(p: Seq<(Seq<char>, Seq<char>)>)
    ensures
        (enum_outcome_from(p, 0) is Some) <==> (exists|k: int|
            0 <= k < ENUM_RULE_COUNT && #[trigger] enum_rule_fails(p, k)),
        match enum_outcome_from(p, 0) {
            Some(o) => {
                &&& 0 <= o.0 < ENUM_RULE_COUNT
                &&& enum_rule_fails(p, o.0)
                &&& last_supplied(p, enum_rule_name(o.0)@) == Some(o.1)
                &&& forall|j: int| 0 <= j < o.0 ==> !#[trigger] enum_rule_fails(p, j)
                &&& o.2 == if trim_lower(o.1).len() == 0 {
                    Seq::<char>::empty()
                } else {
                    crate::enums::did_you_mean(trim_lower(o.1), enum_rule_allowed(o.0))
                }
            },
            None => true,
        },
{
    lemma_enum_outcome_first_failure(p, 0);
    match enum_outcome_from(p, 0) {
        Some(o) => {
            assert(enum_rule_fails(p, o.0));
        },
        None => {},
    }
}

/// The number a label spells in bijective base 26, `A` being 1 and `Z` 26.
pub open spec fn base26_value(s: Seq<char>) -> int
    decreases s.len(),
{
    if s.len() == 0 {
        0
    } else {
        base26_value(s.drop_last()) * 26 + (s.last() as int - 'A' as int + 1)
    }
}

/// Track labels are bijective base 26 over `A..Z`: the label of `n` is
/// made of capital letters, is empty only for 0, and spells `n` back.
pub proof fn law_track_id_is_bijective_base26(n: nat)
    ensures
        base26_value(track_id(n)) == n,
        n == 0 <==> track_id(n).len() == 0,
        forall|k: int| 0 <= k < track_id(n).len() ==> 'A' <= #[trigger] track_id(n)[k] <= 'Z',
    decreases n,
{
    if n > 0 {
        let q = ((n - 1) / 26) as nat;
        let d = ((n - 1) % 26) as nat;
        law_track_id_is_bijective_base26(q);
        let t = track_id(n);
        assert(t == track_id(q).push(track_letter(d)));
        assert(t.drop_last() =~= track_id(q));
        assert((track_letter(d) as int) == d + 65);
        assert(q * 26 + d == n - 1) by (nonlinear_arith)
            requires
                q == (n - 1) / 26,
                d == (n - 1) % 26,
                n >= 1,
        ;
        assert forall|k: int| 0 <= k < t.len() implies 'A' <= #[trigger] t[k] <= 'Z' by {
            if k < t.len() - 1 {
                assert(t[k] == track_id(q)[k]);
            }
        }
    }
}

/// Token `t` sets boolean flag `name`: `--name` or `--name=value`.
pub open spec fn sets_bool(t: Seq<char>, name: Seq<char>) -> bool {
    t == "--"@ + name || crate::text::has_prefix(t, "--"@ + name + "="@)
}

/// The raw value a setting token gives: `true` for the bare flag, else
/// what follows the `=`.
pub open spec fn bool_raw_of(t: Seq<char>, name: Seq<char>) -> Seq<char> {
    if t == "--"@ + name {
        "true"@
    } else {
        t.skip(name.len() as int + 3)
    }
}

/// A boolean flag read off argv follows its last setting token: with none
/// it is the default; otherwise that token's raw value (`true` for the
/// bare flag) decides, parsed as a Go boolean, and an unparsable value is
/// the parse error.
pub proof fn law_bool_flag_follows_last_occurrence(args: Seq<Seq<char>>, name: Seq<char>, default: bool)
    ensures
        (forall|j: int| 0 <= j < args.len() ==> !sets_bool(#[trigger] args[j], name))
            ==> bool_flag_outcome(args, name, default) == Ok::<bool, Seq<char>>(default),
        forall|j: int|
            0 <= j < args.len() && sets_bool(#[trigger] args[j], name) && (forall|k: int|
                j < k < args.len() ==> !sets_bool(#[trigger] args[k], name)) ==> {
                let raw = bool_raw_of(args[j], name);
                bool_flag_outcome(args, name, default) == match go_bool(raw) {
                    Some(b) => Ok::<bool, Seq<char>>(b),
                    None => Err(crate::argv::bool_parse_error(name, raw)),
                }
            },
    decreases args.len(),
{
    lemma_last_bool_raw(args, name);
}

proof fn lemma_last_bool_raw(args: Seq<Seq<char>>, name: Seq<char>)
    ensures
        (forall|j: int| 0 <= j < args.len() ==> !sets_bool(#[trigger] args[j], name))
            ==> last_bool_raw(args, name) is None,
        forall|j: int|
            0 <= j < args.len() && sets_bool(#[trigger] args[j], name) && (forall|k: int|
                j < k < args.len() ==> !sets_bool(#[trigger] args[k], name)) ==> last_bool_raw(args, name)
                == Some(bool_raw_of(args[j], name)),
    decreases args.len(),
{
    let long = "--"@ + name;
    let with_eq = "--"@ + name + "="@;
    reveal_strlit("--");
    reveal_strlit("=");
    if args.len() > 0 {
        let init = args.drop_last();
        lemma_last_bool_raw(init, name);
        let l = args.last();
        if crate::text::has_prefix(l, with_eq) {
            assert(l != long) by {
                if l == long {
                    assert(l.len() == name.len() + 2);
                }
            }
        }
        assert forall|j: int|
            0 <= j < args.len() && sets_bool(#[trigger] args[j], name) && (forall|k: int|
                j < k < args.len() ==> !sets_bool(#[trigger] args[k], name)) implies last_bool_raw(args, name)
            == Some(bool_raw_of(args[j], name)) by {
            if j < args.len() - 1 {
                assert(!sets_bool(args[args.len() - 1], name));
                assert forall|k: int| j < k < init.len() implies !sets_bool(#[trigger] init[k], name) by {
                    assert(init[k] == args[k]);
                    assert(!sets_bool(args[k], name));
                }
                assert(init[j] == args[j]);
            }
        }
        if forall|j: int| 0 <= j < args.len() ==> !sets_bool(#[trigger] args[j], name) {
            assert forall|j: int| 0 <= j < init.len() implies !sets_bool(#[trigger] init[j], name) by {
                assert(init[j] == args[j]);
            }
            assert(!sets_bool(args[args.len() - 1], name));
        }
    }
}

proof fn lemma_first_broken_rule(present: Set<Seq<char>>, args: Option<Seq<Seq<char>>>, k: int)
    requires
        0 <= k <= crate::registry::MODIFIER_RULE_COUNT,
    ensures
        match crate::validation::first_broken_rule(present, args, k) {
            Some(r) => {
                &&& k <= r < crate::registry::MODIFIER_RULE_COUNT
                &&& crate::validation::rule_broken(present, args, r)
                &&& forall|j: int| k <= j < r ==> !#[trigger] crate::validation::rule_broken(present, args, j)
            },
            None => forall|j: int|
                k <= j < crate::registry::MODIFIER_RULE_COUNT ==> !#[trigger] crate::validation::rule_broken(
                    present,
                    args,
                    j,
                ),
        },
    decreases crate::registry::MODIFIER_RULE_COUNT - k,
{
    if k < crate::registry::MODIFIER_RULE_COUNT {
        lemma_first_broken_rule(present, args, k + 1);
    }
}

/// The modifier check fails exactly when some rule is broken (its modifier
/// is present and none of its co-flags counts), and it reports the first
/// broken rule in table order, with the requirement sentence followed by
/// the rule's recovery hints.
pub proof fn law_modifier_check_reports_first_broken_rule(
    present: Set<Seq<char>>,
    args: Option<Seq<Seq<char>>>,
)
    ensures
        (crate::validation::first_broken_rule(present, args, 0) is Some) <==> (exists|k: int|
            0 <= k < crate::registry::MODIFIER_RULE_COUNT && #[trigger] crate::validation::rule_broken(
                present,
                args,
                k,
            )),
        match crate::validation::first_broken_rule(present, args, 0) {
            Some(r) => {
                &&& crate::validation::rule_broken(present, args, r)
                &&& forall|j: int| 0 <= j < r ==> !#[trigger] crate::validation::rule_broken(present, args, j)
                &&& crate::validation::requirement_message(r) == crate::validation::requirement_head(r)
                    + crate::flags::spec_recovery_suffix(crate::registry::rule_modifier(r)@)
            },
            None => true,
        },
{
    lemma_first_broken_rule(present, args, 0);
    match crate::validation::first_broken_rule(present, args, 0) {
        Some(r) => {
            assert(crate::validation::rule_broken(present, args, r));
            law_requirement_sentence_is_not_trimmed(r);
        },
        None => {},
    }
}

/// The argument list starts with an alias the leading run would consume:
/// `--json`, `--toon`, `--limit` with a value, `--output`/`-o` with an
/// output format, or an `=`-form alias.
pub open spec fn starts_alias(args: Seq<Seq<char>>, context: Seq<char>) -> bool {
    args.len() > 0 && {
        let a = args[0];
        ||| a == "--json"@
        ||| a == "--toon"@
        ||| a == "--limit"@ && args.len() > 1
        ||| (a == "--output"@ || a == "-o"@) && args.len() > 1 && crate::argv::is_output_format(args[1])
        ||| leading_equals_alias(a, context) is Some
    }
}

#[verifier::rlimit(40)]
proof fn lemma_leading_run_stops(args: Seq<Seq<char>>, context: Seq<char>)
    ensures
        !starts_alias(args.skip(leading_aliases(args, context).1), context),
    decreases args.len(),
{
    lemma_leading_aliases(args, context);
    reveal_strlit("--json");
    reveal_strlit("--toon");
    reveal_strlit("--output");
    reveal_strlit("-o");
    reveal_strlit("--limit");
    reveal_strlit("--json=true");
    reveal_strlit("--json=false");
    reveal_strlit("--toon=true");
    reveal_strlit("--toon=false");
    reveal_strlit("--output=");
    reveal_strlit("-o=");
    reveal_strlit("--limit=");
    let k = leading_aliases(args, context).1;
    if args.len() == 0 {
        return;
    }
    if k == 0 {
        assert(args.skip(0) =~= args);
        let a = args[0];
        if args.len() > 1 {
            lemma_leading_aliases(args.skip(2), context);
        }
        lemma_leading_aliases(args.skip(1), context);
        if a == "--json"@ || a == "--toon"@ {
            assert(k >= 1);
        }
        if a == "--output"@ {
            assert(a.subrange(0, 3)[1] != "-o="@[1]);
            assert(a.subrange(0, 8)[2] != "--limit="@[2]);
            assert(leading_equals_alias(a, context) is None);
        }
        if a == "--limit"@ {
            assert(a.subrange(0, 3)[1] != "-o="@[1]);
            assert(leading_equals_alias(a, context) is None);
        }
        return;
    }
    let a = args[0];
    if a == "--json"@ || a == "--toon"@ {
        let s1 = args.skip(1);
        lemma_leading_run_stops(s1, context);
        lemma_leading_aliases(s1, context);
        assert(args.skip(k) =~= s1.skip(leading_aliases(s1, context).1));
    } else if a == "--output"@ || a == "-o"@ {
        let s2 = args.skip(2);
        lemma_leading_run_stops(s2, context);
        lemma_leading_aliases(s2, context);
        assert(k == leading_aliases(s2, context).1 + 2);
        assert(args.skip(k) =~= s2.skip(leading_aliases(s2, context).1));
    } else if a == "--limit"@ {
        let s2 = args.skip(2);
        lemma_leading_run_stops(s2, context);
        lemma_leading_aliases(s2, context);
        assert(k == leading_aliases(s2, context).1 + 2);
        assert(args.skip(k) =~= s2.skip(leading_aliases(s2, context).1));
    } else {
        let s1 = args.skip(1);
        lemma_leading_run_stops(s1, context);
        lemma_leading_aliases(s1, context);
        assert(args.skip(k) =~= s1.skip(leading_aliases(s1, context).1));
    }
}

/// Consuming the leading aliases splits the arguments at some `k`: the
/// first `k` tokens come back rewritten exactly as the alias pass rewrites
/// them, the rest unchanged, and the rest does not start with an alias the
/// run would consume. (The run reads the token after `--limit` as its
/// value, so the law assumes that value does not start with a dash.)
pub proof fn law_leading_alias_split(args: Seq<Seq<char>>, context: Seq<char>)
    requires
        limit_values_plain(args),
    ensures
        exists|k: int|
            0 <= k <= args.len() && leading_aliases(args, context).1 == k && #[trigger] leading_aliases(
                args,
                context,
            ).0 == flag_aliases(args.take(k), context) && !starts_alias(args.skip(k), context),
{
    lemma_leading_aliases(args, context);
    law_leading_aliases_match_alias_pass(args, context);
    lemma_leading_run_stops(args, context);
}

/// Looking up a name that help row `j` carries finds a row at or before `j`
/// that carries it.
proof fn lemma_help_index_found(name: Seq<char>, k: int, j: int)
    requires
        0 <= k <= j < crate::registry::spec_help_flags().len(),
        crate::registry::spec_help_flags()[j].name@ == name,
    ensures
        k <= crate::flags::help_index_from(name, k) <= j,
        crate::registry::spec_help_flags()[crate::flags::help_index_from(name, k)].name@ == name,
    decreases j - k,
{
    if crate::registry::spec_help_flags()[k].name@ != name {
        lemma_help_index_found(name, k + 1, j);
    }
}


proof fn lemma_help_rows_0_20(i: int)
    requires
        0 <= i < 20,
    ensures
        0 <= crate::flags::help_index_from(crate::flags::spec_all_flags()[i].name@, 0),
        crate::registry::spec_help_flags()[crate::flags::help_index_from(crate::flags::spec_all_flags()[i].name@, 0)].name@ == crate::flags::spec_all_flags()[i].name@,
{
    if i == 0 {
        assert(crate::flags::spec_all_flags()[0].name == crate::registry::spec_help_flags()[14].name);
        lemma_help_index_found(crate::flags::spec_all_flags()[0].name@, 0, 14);
    } else if i == 1 {
        assert(crate::flags::spec_all_flags()[1].name == crate::registry::spec_help_flags()[15].name);
        lemma_help_index_found(crate::flags::spec_all_flags()[1].name@, 0, 15);
    } else if i == 2 {
        assert(crate::flags::spec_all_flags()[2].name == crate::registry::spec_help_flags()[16].name);
        lemma_help_index_found(crate::flags::spec_all_flags()[2].name@, 0, 16);
    } else if i == 3 {
        assert(crate::flags::spec_all_flags()[3].name == crate::registry::spec_help_flags()[36].name);
        lemma_help_index_found(crate::flags::spec_all_flags()[3].name@, 0, 36);
    } else if i == 4 {
        assert(crate::flags::spec_all_flags()[4].name == crate::registry::spec_help_flags()[29].name);
        lemma_help_index_found(crate::flags::spec_all_flags()[4].name@, 0, 29);
    } else if i == 5 {
        assert(crate::flags::spec_all_flags()[5].name == crate::registry::spec_help_flags()[35].name);
        lemma_help_index_found(crate::flags::spec_all_flags()[5].name@, 0, 35);
    } else if i == 6 {
        assert(crate::flags::spec_all_flags()[6].name == crate::registry::spec_help_flags()[22].name);
        lemma_help_index_found(crate::flags::spec_all_flags()[6].name@, 0, 22);
    } else if i == 7 {
        assert(crate::flags::spec_all_flags()[7].name == crate::registry::spec_help_flags()[25].name);
        lemma_help_index_found(crate::flags::spec_all_flags()[7].name@, 0, 25);
    } else if i == 8 {
        assert(crate::flags::spec_all_flags()[8].name == crate::registry::spec_help_flags()[23].name);
        lemma_help_index_found(crate::flags::spec_all_flags()[8].name@, 0, 23);
    } else if i == 9 {
        assert(crate::flags::spec_all_flags()[9].name == crate::registry::spec_help_flags()[24].name);
        lemma_help_index_found(crate::flags::spec_all_flags()[9].name@, 0, 24);
    } else if i == 10 {
        assert(crate::flags::spec_all_flags()[10].name == crate::registry::spec_help_flags()[19].name);
        lemma_help_index_found(crate::flags::spec_all_flags()[10].name@, 0, 19);
    } else if i == 11 {
        assert(crate::flags::spec_all_flags()[11].name == crate::registry::spec_help_flags()[20].name);
        lemma_help_index_found(crate::flags::spec_all_flags()[11].name@, 0, 20);
    } else if i == 12 {
        assert(crate::flags::spec_all_flags()[12].name == crate::registry::spec_help_flags()[21].name);
        lemma_help_index_found(crate::flags::spec_all_flags()[12].name@, 0, 21);
    } else if i == 13 {
        assert(crate::flags::spec_all_flags()[13].name == crate::registry::spec_help_flags()[34].name);
        lemma_help_index_found(crate::flags::spec_all_flags()[13].name@, 0, 34);
    } else if i == 14 {
        assert(crate::flags::spec_all_flags()[14].name == crate::registry::spec_help_flags()[38].name);
        lemma_help_index_found(crate::flags::spec_all_flags()[14].name@, 0, 38);
    } else if i == 15 {
        assert(crate::flags::spec_all_flags()[15].name == crate::registry::spec_help_flags()[42].name);
        lemma_help_index_found(crate::flags::spec_all_flags()[15].name@, 0, 42);
    } else if i == 16 {
        assert(crate::flags::spec_all_flags()[16].name == crate::registry::spec_help_flags()[59].name);
        lemma_help_index_found(crate::flags::spec_all_flags()[16].name@, 0, 59);
    } else if i == 17 {
        assert(crate::flags::spec_all_flags()[17].name == crate::registry::spec_help_flags()[28].name);
        lemma_help_index_found(crate::flags::spec_all_flags()[17].name@, 0, 28);
    } else if i == 18 {
        assert(crate::flags::spec_all_flags()[18].name == crate::registry::spec_help_flags()[77].name);
        lemma_help_index_found(crate::flags::spec_all_flags()[18].name@, 0, 77);
    } else if i == 19 {
        assert(crate::flags::spec_all_flags()[19].name == crate::registry::spec_help_flags()[78].name);
        lemma_help_index_found(crate::flags::spec_all_flags()[19].name@, 0, 78);
    }
}


proof fn lemma_help_rows_20_40(i: int)
    requires
        20 <= i < 40,
    ensures
        0 <= crate::flags::help_index_from(crate::flags::spec_all_flags()[i].name@, 0),
        crate::registry::spec_help_flags()[crate::flags::help_index_from(crate::flags::spec_all_flags()[i].name@, 0)].name@ == crate::flags::spec_all_flags()[i].name@,
{
    if i == 20 {
        assert(crate::flags::spec_all_flags()[20].name == crate::registry::spec_help_flags()[85].name);
        lemma_help_index_found(crate::flags::spec_all_flags()[20].name@, 0, 85);
    } else if i == 21 {
        assert(crate::flags::spec_all_flags()[21].name == crate::registry::spec_help_flags()[86].name);
        lemma_help_index_found(crate::flags::spec_all_flags()[21].name@, 0, 86);
    } else if i == 22 {
        assert(crate::flags::spec_all_flags()[22].name == crate::registry::spec_help_flags()[87].name);
        lemma_help_index_found(crate::flags::spec_all_flags()[22].name@, 0, 87);
    } else if i == 23 {
        assert(crate::flags::spec_all_flags()[23].name == crate::registry::spec_help_flags()[90].name);
        lemma_help_index_found(crate::flags::spec_all_flags()[23].name@, 0, 90);
    } else if i == 24 {
        assert(crate::flags::spec_all_flags()[24].name == crate::registry::spec_help_flags()[91].name);
        lemma_help_index_found(crate::flags::spec_all_flags()[24].name@, 0, 91);
    } else if i == 25 {
        assert(crate::flags::spec_all_flags()[25].name == crate::registry::spec_help_flags()[93].name);
        lemma_help_index_found(crate::flags::spec_all_flags()[25].name@, 0, 93);
    } else if i == 26 {
        assert(crate::flags::spec_all_flags()[26].name == crate::registry::spec_help_flags()[95].name);
        lemma_help_index_found(crate::flags::spec_all_flags()[26].name@, 0, 95);
    } else if i == 27 {
        assert(crate::flags::spec_all_flags()[27].name == crate::registry::spec_help_flags()[97].name);
        lemma_help_index_found(crate::flags::spec_all_flags()[27].name@, 0, 97);
    } else if i == 28 {
        assert(crate::flags::spec_all_flags()[28].name == crate::registry::spec_help_flags()[98].name);
        lemma_help_index_found(crate::flags::spec_all_flags()[28].name@, 0, 98);
    } else if i == 29 {
        assert(crate::flags::spec_all_flags()[29].name == crate::registry::spec_help_flags()[101].name);
        lemma_help_index_found(crate::flags::spec_all_flags()[29].name@, 0, 101);
    } else if i == 30 {
        assert(crate::flags::spec_all_flags()[30].name == crate::registry::spec_help_flags()[105].name);
        lemma_help_index_found(crate::flags::spec_all_flags()[30].name@, 0, 105);
    } else if i == 31 {
        assert(crate::flags::spec_all_flags()[31].name == crate::registry::spec_help_flags()[106].name);
        lemma_help_index_found(crate::flags::spec_all_flags()[31].name@, 0, 106);
    } else if i == 32 {
        assert(crate::flags::spec_all_flags()[32].name == crate::registry::spec_help_flags()[108].name);
        lemma_help_index_found(crate::flags::spec_all_flags()[32].name@, 0, 108);
    } else if i == 33 {
        assert(crate::flags::spec_all_flags()[33].name == crate::registry::spec_help_flags()[109].name);
        lemma_help_index_found(crate::flags::spec_all_flags()[33].name@, 0, 109);
    } else if i == 34 {
        assert(crate::flags::spec_all_flags()[34].name == crate::registry::spec_help_flags()[110].name);
        lemma_help_index_found(crate::flags::spec_all_flags()[34].name@, 0, 110);
    } else if i == 35 {
        assert(crate::flags::spec_all_flags()[35].name == crate::registry::spec_help_flags()[111].name);
        lemma_help_index_found(crate::flags::spec_all_flags()[35].name@, 0, 111);
    } else if i == 36 {
        assert(crate::flags::spec_all_flags()[36].name == crate::registry::spec_help_flags()[115].name);
        lemma_help_index_found(crate::flags::spec_all_flags()[36].name@, 0, 115);
    } else if i == 37 {
        assert(crate::flags::spec_all_flags()[37].name == crate::registry::spec_help_flags()[118].name);
        lemma_help_index_found(crate::flags::spec_all_flags()[37].name@, 0, 118);
    } else if i == 38 {
        assert(crate::flags::spec_all_flags()[38].name == crate::registry::spec_help_flags()[30].name);
        lemma_help_index_found(crate::flags::spec_all_flags()[38].name@, 0, 30);
    } else if i == 39 {
        assert(crate::flags::spec_all_flags()[39].name == crate::registry::spec_help_flags()[31].name);
        lemma_help_index_found(crate::flags::spec_all_flags()[39].name@, 0, 31);
    }
}


proof fn lemma_help_rows_40_60(i: int)
    requires
        40 <= i < 60,
    ensures
        0 <= crate::flags::help_index_from(crate::flags::spec_all_flags()[i].name@, 0),
        crate::registry::spec_help_flags()[crate::flags::help_index_from(crate::flags::spec_all_flags()[i].name@, 0)].name@ == crate::flags::spec_all_flags()[i].name@,
{
    if i == 40 {
        assert(crate::flags::spec_all_flags()[40].name == crate::registry::spec_help_flags()[32].name);
        lemma_help_index_found(crate::flags::spec_all_flags()[40].name@, 0, 32);
    } else if i == 41 {
        assert(crate::flags::spec_all_flags()[41].name == crate::registry::spec_help_flags()[3].name);
        lemma_help_index_found(crate::flags::spec_all_flags()[41].name@, 0, 3);
    } else if i == 42 {
        assert(crate::flags::spec_all_flags()[42].name == crate::registry::spec_help_flags()[2].name);
        lemma_help_index_found(crate::flags::spec_all_flags()[42].name@, 0, 2);
    } else if i == 43 {
        assert(crate::flags::spec_all_flags()[43].name == crate::registry::spec_help_flags()[4].name);
        lemma_help_index_found(crate::flags::spec_all_flags()[43].name@, 0, 4);
    } else if i == 44 {
        assert(crate::flags::spec_all_flags()[44].name == crate::registry::spec_help_flags()[5].name);
        lemma_help_index_found(crate::flags::spec_all_flags()[44].name@, 0, 5);
    } else if i == 45 {
        assert(crate::flags::spec_all_flags()[45].name == crate::registry::spec_help_flags()[6].name);
        lemma_help_index_found(crate::flags::spec_all_flags()[45].name@, 0, 6);
    } else if i == 46 {
        assert(crate::flags::spec_all_flags()[46].name == crate::registry::spec_help_flags()[7].name);
        lemma_help_index_found(crate::flags::spec_all_flags()[46].name@, 0, 7);
    } else if i == 47 {
        assert(crate::flags::spec_all_flags()[47].name == crate::registry::spec_help_flags()[8].name);
        lemma_help_index_found(crate::flags::spec_all_flags()[47].name@, 0, 8);
    } else if i == 48 {
        assert(crate::flags::spec_all_flags()[48].name == crate::registry::spec_help_flags()[17].name);
        lemma_help_index_found(crate::flags::spec_all_flags()[48].name@, 0, 17);
    } else if i == 49 {
        assert(crate::flags::spec_all_flags()[49].name == crate::registry::spec_help_flags()[18].name);
        lemma_help_index_found(crate::flags::spec_all_flags()[49].name@, 0, 18);
    } else if i == 50 {
        assert(crate::flags::spec_all_flags()[50].name == crate::registry::spec_help_flags()[69].name);
        lemma_help_index_found(crate::flags::spec_all_flags()[50].name@, 0, 69);
    } else if i == 51 {
        assert(crate::flags::spec_all_flags()[51].name == crate::registry::spec_help_flags()[70].name);
        lemma_help_index_found(crate::flags::spec_all_flags()[51].name@, 0, 70);
    } else if i == 52 {
        assert(crate::flags::spec_all_flags()[52].name == crate::registry::spec_help_flags()[67].name);
        lemma_help_index_found(crate::flags::spec_all_flags()[52].name@, 0, 67);
    } else if i == 53 {
        assert(crate::flags::spec_all_flags()[53].name == crate::registry::spec_help_flags()[68].name);
        lemma_help_index_found(crate::flags::spec_all_flags()[53].name@, 0, 68);
    } else if i == 54 {
        assert(crate::flags::spec_all_flags()[54].name == crate::registry::spec_help_flags()[139].name);
        lemma_help_index_found(crate::flags::spec_all_flags()[54].name@, 0, 139);
    } else if i == 55 {
        assert(crate::flags::spec_all_flags()[55].name == crate::registry::spec_help_flags()[140].name);
        lemma_help_index_found(crate::flags::spec_all_flags()[55].name@, 0, 140);
    } else if i == 56 {
        assert(crate::flags::spec_all_flags()[56].name == crate::registry::spec_help_flags()[141].name);
        lemma_help_index_found(crate::flags::spec_all_flags()[56].name@, 0, 141);
    } else if i == 57 {
        assert(crate::flags::spec_all_flags()[57].name == crate::registry::spec_help_flags()[0].name);
        lemma_help_index_found(crate::flags::spec_all_flags()[57].name@, 0, 0);
    } else if i == 58 {
        assert(crate::flags::spec_all_flags()[58].name == crate::registry::spec_help_flags()[1].name);
        lemma_help_index_found(crate::flags::spec_all_flags()[58].name@, 0, 1);
    } else if i == 59 {
        assert(crate::flags::spec_all_flags()[59].name == crate::registry::spec_help_flags()[26].name);
        lemma_help_index_found(crate::flags::spec_all_flags()[59].name@, 0, 26);
    }
}


proof fn lemma_help_rows_60_80(i: int)
    requires
        60 <= i < 80,
    ensures
        0 <= crate::flags::help_index_from(crate::flags::spec_all_flags()[i].name@, 0),
        crate::registry::spec_help_flags()[crate::flags::help_index_from(crate::flags::spec_all_flags()[i].name@, 0)].name@ == crate::flags::spec_all_flags()[i].name@,
{
    if i == 60 {
        assert(crate::flags::spec_all_flags()[60].name == crate::registry::spec_help_flags()[33].name);
        lemma_help_index_found(crate::flags::spec_all_flags()[60].name@, 0, 33);
    } else if i == 61 {
        assert(crate::flags::spec_all_flags()[61].name == crate::registry::spec_help_flags()[27].name);
        lemma_help_index_found(crate::flags::spec_all_flags()[61].name@, 0, 27);
    } else if i == 62 {
        assert(crate::flags::spec_all_flags()[62].name == crate::registry::spec_help_flags()[82].name);
        lemma_help_index_found(crate::flags::spec_all_flags()[62].name@, 0, 82);
    } else if i == 63 {
        assert(crate::flags::spec_all_flags()[63].name == crate::registry::spec_help_flags()[43].name);
        lemma_help_index_found(crate::flags::spec_all_flags()[63].name@, 0, 43);
    } else if i == 64 {
        assert(crate::flags::spec_all_flags()[64].name == crate::registry::spec_help_flags()[44].name);
        lemma_help_index_found(crate::flags::spec_all_flags()[64].name@, 0, 44);
    } else if i == 65 {
        assert(crate::flags::spec_all_flags()[65].name == crate::registry::spec_help_flags()[45].name);
        lemma_help_index_found(crate::flags::spec_all_flags()[65].name@, 0, 45);
    } else if i == 66 {
        assert(crate::flags::spec_all_flags()[66].name == crate::registry::spec_help_flags()[47].name);
        lemma_help_index_found(crate::flags::spec_all_flags()[66].name@, 0, 47);
    } else if i == 67 {
        assert(crate::flags::spec_all_flags()[67].name == crate::registry::spec_help_flags()[48].name);
        lemma_help_index_found(crate::flags::spec_all_flags()[67].name@, 0, 48);
    } else if i == 68 {
        assert(crate::flags::spec_all_flags()[68].name == crate::registry::spec_help_flags()[46].name);
        lemma_help_index_found(crate::flags::spec_all_flags()[68].name@, 0, 46);
    } else if i == 69 {
        assert(crate::flags::spec_all_flags()[69].name == crate::registry::spec_help_flags()[10].name);
        lemma_help_index_found(crate::flags::spec_all_flags()[69].name@, 0, 10);
    } else if i == 70 {
        assert(crate::flags::spec_all_flags()[70].name == crate::registry::spec_help_flags()[11].name);
        lemma_help_index_found(crate::flags::spec_all_flags()[70].name@, 0, 11);
    } else if i == 71 {
        assert(crate::flags::spec_all_flags()[71].name == crate::registry::spec_help_flags()[12].name);
        lemma_help_index_found(crate::flags::spec_all_flags()[71].name@, 0, 12);
    } else if i == 72 {
        assert(crate::flags::spec_all_flags()[72].name == crate::registry::spec_help_flags()[13].name);
        lemma_help_index_found(crate::flags::spec_all_flags()[72].name@, 0, 13);
    } else if i == 73 {
        assert(crate::flags::spec_all_flags()[73].name == crate::registry::spec_help_flags()[54].name);
        lemma_help_index_found(crate::flags::spec_all_flags()[73].name@, 0, 54);
    } else if i == 74 {
        assert(crate::flags::spec_all_flags()[74].name == crate::registry::spec_help_flags()[55].name);
        lemma_help_index_found(crate::flags::spec_all_flags()[74].name@, 0, 55);
    } else if i == 75 {
        assert(crate::flags::spec_all_flags()[75].name == crate::registry::spec_help_flags()[56].name);
        lemma_help_index_found(crate::flags::spec_all_flags()[75].name@, 0, 56);
    } else if i == 76 {
        assert(crate::flags::spec_all_flags()[76].name == crate::registry::spec_help_flags()[39].name);
        lemma_help_index_found(crate::flags::spec_all_flags()[76].name@, 0, 39);
    } else if i == 77 {
        assert(crate::flags::spec_all_flags()[77].name == crate::registry::spec_help_flags()[40].name);
        lemma_help_index_found(crate::flags::spec_all_flags()[77].name@, 0, 40);
    } else if i == 78 {
        assert(crate::flags::spec_all_flags()[78].name == crate::registry::spec_help_flags()[41].name);
        lemma_help_index_found(crate::flags::spec_all_flags()[78].name@, 0, 41);
    } else if i == 79 {
        assert(crate::flags::spec_all_flags()[79].name == crate::registry::spec_help_flags()[53].name);
        lemma_help_index_found(crate::flags::spec_all_flags()[79].name@, 0, 53);
    }
}


proof fn lemma_help_rows_80_100(i: int)
    requires
        80 <= i < 100,
    ensures
        0 <= crate::flags::help_index_from(crate::flags::spec_all_flags()[i].name@, 0),
        crate::registry::spec_help_flags()[crate::flags::help_index_from(crate::flags::spec_all_flags()[i].name@, 0)].name@ == crate::flags::spec_all_flags()[i].name@,
{
    if i == 80 {
        assert(crate::flags::spec_all_flags()[80].name == crate::registry::spec_help_flags()[57].name);
        lemma_help_index_found(crate::flags::spec_all_flags()[80].name@, 0, 57);
    } else if i == 81 {
        assert(crate::flags::spec_all_flags()[81].name == crate::registry::spec_help_flags()[72].name);
        lemma_help_index_found(crate::flags::spec_all_flags()[81].name@, 0, 72);
    } else if i == 82 {
        assert(crate::flags::spec_all_flags()[82].name == crate::registry::spec_help_flags()[73].name);
        lemma_help_index_found(crate::flags::spec_all_flags()[82].name@, 0, 73);
    } else if i == 83 {
        assert(crate::flags::spec_all_flags()[83].name == crate::registry::spec_help_flags()[66].name);
        lemma_help_index_found(crate::flags::spec_all_flags()[83].name@, 0, 66);
    } else if i == 84 {
        assert(crate::flags::spec_all_flags()[84].name == crate::registry::spec_help_flags()[65].name);
        lemma_help_index_found(crate::flags::spec_all_flags()[84].name@, 0, 65);
    } else if i == 85 {
        assert(crate::flags::spec_all_flags()[85].name == crate::registry::spec_help_flags()[74].name);
        lemma_help_index_found(crate::flags::spec_all_flags()[85].name@, 0, 74);
    } else if i == 86 {
        assert(crate::flags::spec_all_flags()[86].name == crate::registry::spec_help_flags()[75].name);
        lemma_help_index_found(crate::flags::spec_all_flags()[86].name@, 0, 75);
    } else if i == 87 {
        assert(crate::flags::spec_all_flags()[87].name == crate::registry::spec_help_flags()[76].name);
        lemma_help_index_found(crate::flags::spec_all_flags()[87].name@, 0, 76);
    } else if i == 88 {
        assert(crate::flags::spec_all_flags()[88].name == crate::registry::spec_help_flags()[79].name);
        lemma_help_index_found(crate::flags::spec_all_flags()[88].name@, 0, 79);
    } else if i == 89 {
        assert(crate::flags::spec_all_flags()[89].name == crate::registry::spec_help_flags()[80].name);
        lemma_help_index_found(crate::flags::spec_all_flags()[89].name@, 0, 80);
    } else if i == 90 {
        assert(crate::flags::spec_all_flags()[90].name == crate::registry::spec_help_flags()[81].name);
        lemma_help_index_found(crate::flags::spec_all_flags()[90].name@, 0, 81);
    } else if i == 91 {
        assert(crate::flags::spec_all_flags()[91].name == crate::registry::spec_help_flags()[83].name);
        lemma_help_index_found(crate::flags::spec_all_flags()[91].name@, 0, 83);
    } else if i == 92 {
        assert(crate::flags::spec_all_flags()[92].name == crate::registry::spec_help_flags()[84].name);
        lemma_help_index_found(crate::flags::spec_all_flags()[92].name@, 0, 84);
    } else if i == 93 {
        assert(crate::flags::spec_all_flags()[93].name == crate::registry::spec_help_flags()[88].name);
        lemma_help_index_found(crate::flags::spec_all_flags()[93].name@, 0, 88);
    } else if i == 94 {
        assert(crate::flags::spec_all_flags()[94].name == crate::registry::spec_help_flags()[89].name);
        lemma_help_index_found(crate::flags::spec_all_flags()[94].name@, 0, 89);
    } else if i == 95 {
        assert(crate::flags::spec_all_flags()[95].name == crate::registry::spec_help_flags()[92].name);
        lemma_help_index_found(crate::flags::spec_all_flags()[95].name@, 0, 92);
    } else if i == 96 {
        assert(crate::flags::spec_all_flags()[96].name == crate::registry::spec_help_flags()[94].name);
        lemma_help_index_found(crate::flags::spec_all_flags()[96].name@, 0, 94);
    } else if i == 97 {
        assert(crate::flags::spec_all_flags()[97].name == crate::registry::spec_help_flags()[96].name);
        lemma_help_index_found(crate::flags::spec_all_flags()[97].name@, 0, 96);
    } else if i == 98 {
        assert(crate::flags::spec_all_flags()[98].name == crate::registry::spec_help_flags()[99].name);
        lemma_help_index_found(crate::flags::spec_all_flags()[98].name@, 0, 99);
    } else if i == 99 {
        assert(crate::flags::spec_all_flags()[99].name == crate::registry::spec_help_flags()[100].name);
        lemma_help_index_found(crate::flags::spec_all_flags()[99].name@, 0, 100);
    }
}


proof fn lemma_help_rows_100_120(i: int)
    requires
        100 <= i < 120,
    ensures
        0 <= crate::flags::help_index_from(crate::flags::spec_all_flags()[i].name@, 0),
        crate::registry::spec_help_flags()[crate::flags::help_index_from(crate::flags::spec_all_flags()[i].name@, 0)].name@ == crate::flags::spec_all_flags()[i].name@,
{
    if i == 100 {
        assert(crate::flags::spec_all_flags()[100].name == crate::registry::spec_help_flags()[102].name);
        lemma_help_index_found(crate::flags::spec_all_flags()[100].name@, 0, 102);
    } else if i == 101 {
        assert(crate::flags::spec_all_flags()[101].name == crate::registry::spec_help_flags()[103].name);
        lemma_help_index_found(crate::flags::spec_all_flags()[101].name@, 0, 103);
    } else if i == 102 {
        assert(crate::flags::spec_all_flags()[102].name == crate::registry::spec_help_flags()[104].name);
        lemma_help_index_found(crate::flags::spec_all_flags()[102].name@, 0, 104);
    } else if i == 103 {
        assert(crate::flags::spec_all_flags()[103].name == crate::registry::spec_help_flags()[107].name);
        lemma_help_index_found(crate::flags::spec_all_flags()[103].name@, 0, 107);
    } else if i == 104 {
        assert(crate::flags::spec_all_flags()[104].name == crate::registry::spec_help_flags()[58].name);
        lemma_help_index_found(crate::flags::spec_all_flags()[104].name@, 0, 58);
    } else if i == 105 {
        assert(crate::flags::spec_all_flags()[105].name == crate::registry::spec_help_flags()[60].name);
        lemma_help_index_found(crate::flags::spec_all_flags()[105].name@, 0, 60);
    } else if i == 106 {
        assert(crate::flags::spec_all_flags()[106].name == crate::registry::spec_help_flags()[61].name);
        lemma_help_index_found(crate::flags::spec_all_flags()[106].name@, 0, 61);
    } else if i == 107 {
        assert(crate::flags::spec_all_flags()[107].name == crate::registry::spec_help_flags()[62].name);
        lemma_help_index_found(crate::flags::spec_all_flags()[107].name@, 0, 62);
    } else if i == 108 {
        assert(crate::flags::spec_all_flags()[108].name == crate::registry::spec_help_flags()[63].name);
        lemma_help_index_found(crate::flags::spec_all_flags()[108].name@, 0, 63);
    } else if i == 109 {
        assert(crate::flags::spec_all_flags()[109].name == crate::registry::spec_help_flags()[64].name);
        lemma_help_index_found(crate::flags::spec_all_flags()[109].name@, 0, 64);
    } else if i == 110 {
        assert(crate::flags::spec_all_flags()[110].name == crate::registry::spec_help_flags()[112].name);
        lemma_help_index_found(crate::flags::spec_all_flags()[110].name@, 0, 112);
    } else if i == 111 {
        assert(crate::flags::spec_all_flags()[111].name == crate::registry::spec_help_flags()[113].name);
        lemma_help_index_found(crate::flags::spec_all_flags()[111].name@, 0, 113);
    } else if i == 112 {
        assert(crate::flags::spec_all_flags()[112].name == crate::registry::spec_help_flags()[114].name);
        lemma_help_index_found(crate::flags::spec_all_flags()[112].name@, 0, 114);
    } else if i == 113 {
        assert(crate::flags::spec_all_flags()[113].name == crate::registry::spec_help_flags()[116].name);
        lemma_help_index_found(crate::flags::spec_all_flags()[113].name@, 0, 116);
    } else if i == 114 {
        assert(crate::flags::spec_all_flags()[114].name == crate::registry::spec_help_flags()[117].name);
        lemma_help_index_found(crate::flags::spec_all_flags()[114].name@, 0, 117);
    } else if i == 115 {
        assert(crate::flags::spec_all_flags()[115].name == crate::registry::spec_help_flags()[51].name);
        lemma_help_index_found(crate::flags::spec_all_flags()[115].name@, 0, 51);
    } else if i == 116 {
        assert(crate::flags::spec_all_flags()[116].name == crate::registry::spec_help_flags()[52].name);
        lemma_help_index_found(crate::flags::spec_all_flags()[116].name@, 0, 52);
    } else if i == 117 {
        assert(crate::flags::spec_all_flags()[117].name == crate::registry::spec_help_flags()[49].name);
        lemma_help_index_found(crate::flags::spec_all_flags()[117].name@, 0, 49);
    } else if i == 118 {
        assert(crate::flags::spec_all_flags()[118].name == crate::registry::spec_help_flags()[50].name);
        lemma_help_index_found(crate::flags::spec_all_flags()[118].name@, 0, 50);
    } else if i == 119 {
        assert(crate::flags::spec_all_flags()[119].name == crate::registry::spec_help_flags()[119].name);
        lemma_help_index_found(crate::flags::spec_all_flags()[119].name@, 0, 119);
    }
}


proof fn lemma_help_rows_120_140(i: int)
    requires
        120 <= i < 140,
    ensures
        0 <= crate::flags::help_index_from(crate::flags::spec_all_flags()[i].name@, 0),
        crate::registry::spec_help_flags()[crate::flags::help_index_from(crate::flags::spec_all_flags()[i].name@, 0)].name@ == crate::flags::spec_all_flags()[i].name@,
{
    if i == 120 {
        assert(crate::flags::spec_all_flags()[120].name == crate::registry::spec_help_flags()[120].name);
        lemma_help_index_found(crate::flags::spec_all_flags()[120].name@, 0, 120);
    } else if i == 121 {
        assert(crate::flags::spec_all_flags()[121].name == crate::registry::spec_help_flags()[121].name);
        lemma_help_index_found(crate::flags::spec_all_flags()[121].name@, 0, 121);
    } else if i == 122 {
        assert(crate::flags::spec_all_flags()[122].name == crate::registry::spec_help_flags()[122].name);
        lemma_help_index_found(crate::flags::spec_all_flags()[122].name@, 0, 122);
    } else if i == 123 {
        assert(crate::flags::spec_all_flags()[123].name == crate::registry::spec_help_flags()[123].name);
        lemma_help_index_found(crate::flags::spec_all_flags()[123].name@, 0, 123);
    } else if i == 124 {
        assert(crate::flags::spec_all_flags()[124].name == crate::registry::spec_help_flags()[124].name);
        lemma_help_index_found(crate::flags::spec_all_flags()[124].name@, 0, 124);
    } else if i == 125 {
        assert(crate::flags::spec_all_flags()[125].name == crate::registry::spec_help_flags()[125].name);
        lemma_help_index_found(crate::flags::spec_all_flags()[125].name@, 0, 125);
    } else if i == 126 {
        assert(crate::flags::spec_all_flags()[126].name == crate::registry::spec_help_flags()[9].name);
        lemma_help_index_found(crate::flags::spec_all_flags()[126].name@, 0, 9);
    } else if i == 127 {
        assert(crate::flags::spec_all_flags()[127].name == crate::registry::spec_help_flags()[71].name);
        lemma_help_index_found(crate::flags::spec_all_flags()[127].name@, 0, 71);
    } else if i == 128 {
        assert(crate::flags::spec_all_flags()[128].name == crate::registry::spec_help_flags()[126].name);
        lemma_help_index_found(crate::flags::spec_all_flags()[128].name@, 0, 126);
    } else if i == 129 {
        assert(crate::flags::spec_all_flags()[129].name == crate::registry::spec_help_flags()[127].name);
        lemma_help_index_found(crate::flags::spec_all_flags()[129].name@, 0, 127);
    } else if i == 130 {
        assert(crate::flags::spec_all_flags()[130].name == crate::registry::spec_help_flags()[128].name);
        lemma_help_index_found(crate::flags::spec_all_flags()[130].name@, 0, 128);
    } else if i == 131 {
        assert(crate::flags::spec_all_flags()[131].name == crate::registry::spec_help_flags()[129].name);
        lemma_help_index_found(crate::flags::spec_all_flags()[131].name@, 0, 129);
    } else if i == 132 {
        assert(crate::flags::spec_all_flags()[132].name == crate::registry::spec_help_flags()[130].name);
        lemma_help_index_found(crate::flags::spec_all_flags()[132].name@, 0, 130);
    } else if i == 133 {
        assert(crate::flags::spec_all_flags()[133].name == crate::registry::spec_help_flags()[131].name);
        lemma_help_index_found(crate::flags::spec_all_flags()[133].name@, 0, 131);
    } else if i == 134 {
        assert(crate::flags::spec_all_flags()[134].name == crate::registry::spec_help_flags()[132].name);
        lemma_help_index_found(crate::flags::spec_all_flags()[134].name@, 0, 132);
    } else if i == 135 {
        assert(crate::flags::spec_all_flags()[135].name == crate::registry::spec_help_flags()[133].name);
        lemma_help_index_found(crate::flags::spec_all_flags()[135].name@, 0, 133);
    } else if i == 136 {
        assert(crate::flags::spec_all_flags()[136].name == crate::registry::spec_help_flags()[134].name);
        lemma_help_index_found(crate::flags::spec_all_flags()[136].name@, 0, 134);
    } else if i == 137 {
        assert(crate::flags::spec_all_flags()[137].name == crate::registry::spec_help_flags()[135].name);
        lemma_help_index_found(crate::flags::spec_all_flags()[137].name@, 0, 135);
    } else if i == 138 {
        assert(crate::flags::spec_all_flags()[138].name == crate::registry::spec_help_flags()[37].name);
        lemma_help_index_found(crate::flags::spec_all_flags()[138].name@, 0, 37);
    } else if i == 139 {
        assert(crate::flags::spec_all_flags()[139].name == crate::registry::spec_help_flags()[136].name);
        lemma_help_index_found(crate::flags::spec_all_flags()[139].name@, 0, 136);
    }
}


proof fn lemma_help_rows_140_148(i: int)
    requires
        140 <= i < 148,
    ensures
        0 <= crate::flags::help_index_from(crate::flags::spec_all_flags()[i].name@, 0),
        crate::registry::spec_help_flags()[crate::flags::help_index_from(crate::flags::spec_all_flags()[i].name@, 0)].name@ == crate::flags::spec_all_flags()[i].name@,
{
    if i == 140 {
        assert(crate::flags::spec_all_flags()[140].name == crate::registry::spec_help_flags()[137].name);
        lemma_help_index_found(crate::flags::spec_all_flags()[140].name@, 0, 137);
    } else if i == 141 {
        assert(crate::flags::spec_all_flags()[141].name == crate::registry::spec_help_flags()[138].name);
        lemma_help_index_found(crate::flags::spec_all_flags()[141].name@, 0, 138);
    } else if i == 142 {
        assert(crate::flags::spec_all_flags()[142].name == crate::registry::spec_help_flags()[142].name);
        lemma_help_index_found(crate::flags::spec_all_flags()[142].name@, 0, 142);
    } else if i == 143 {
        assert(crate::flags::spec_all_flags()[143].name == crate::registry::spec_help_flags()[143].name);
        lemma_help_index_found(crate::flags::spec_all_flags()[143].name@, 0, 143);
    } else if i == 144 {
        assert(crate::flags::spec_all_flags()[144].name == crate::registry::spec_help_flags()[144].name);
        lemma_help_index_found(crate::flags::spec_all_flags()[144].name@, 0, 144);
    } else if i == 145 {
        assert(crate::flags::spec_all_flags()[145].name == crate::registry::spec_help_flags()[145].name);
        lemma_help_index_found(crate::flags::spec_all_flags()[145].name@, 0, 145);
    } else if i == 146 {
        assert(crate::flags::spec_all_flags()[146].name == crate::registry::spec_help_flags()[146].name);
        lemma_help_index_found(crate::flags::spec_all_flags()[146].name@, 0, 146);
    } else if i == 147 {
        assert(crate::flags::spec_all_flags()[147].name == crate::registry::spec_help_flags()[147].name);
        lemma_help_index_found(crate::flags::spec_all_flags()[147].name@, 0, 147);
    }
}


/// Every registered flag, robot primary or modifier, has a row on the
/// `--help` page: the first help row with its name.
pub proof fn law_every_registered_flag_has_help_row(i: int)
    requires
        0 <= i < crate::flags::spec_all_flags().len(),
    ensures
        crate::flags::spec_help_row(crate::flags::spec_all_flags()[i].name@) is Some,
        crate::flags::spec_help_row(crate::flags::spec_all_flags()[i].name@)->0.name@
            == crate::flags::spec_all_flags()[i].name@,
{
    assert(crate::flags::spec_all_flags().len() == 148);
    if i < 20 {
        lemma_help_rows_0_20(i);
    } else if i < 40 {
        lemma_help_rows_20_40(i);
    } else if i < 60 {
        lemma_help_rows_40_60(i);
    } else if i < 80 {
        lemma_help_rows_60_80(i);
    } else if i < 100 {
        lemma_help_rows_80_100(i);
    } else if i < 120 {
        lemma_help_rows_100_120(i);
    } else if i < 140 {
        lemma_help_rows_120_140(i);
    } else if i < 148 {
        lemma_help_rows_140_148(i);
    }
    let name = crate::flags::spec_all_flags()[i].name;
    let k = crate::flags::help_index_from(name@, 0);
    assert(crate::registry::spec_help_flags()[k].name@ == name@);
}

} // verus!
