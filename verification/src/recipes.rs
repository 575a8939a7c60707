//! The built-in recipe listing of `--robot-recipes`: the recipes sorted by
//! name and the JSON payload that lists them.

use vstd::prelude::*;
use vstd::string::*;
use crate::cli::APP_VERSION;
use crate::enums::{bytes_less, str_less};
use crate::robot::{go_escape_string, go_escaped};
use crate::text::{append, owned};

verus! {

broadcast use {vstd::seq_lib::group_seq_properties, vstd::seq_lib::group_to_multiset_ensures};

/// A recipe: its name and what it shows.
pub type Recipe = (&'static str, &'static str);

/// The built-in recipes, in declaration order.
pub open spec fn spec_builtin_recipes() -> Seq<Recipe> {
    seq![
        ("default", "Default view showing all open issues sorted by priority"),
        ("actionable", "Issues ready to work on (no open blockers)"),
        ("recent", "Issues updated in the last 7 days"),
        ("blocked", "Issues waiting on dependencies"),
        ("high-impact", "Issues with highest blocking impact (PageRank)"),
        ("stale", "Open issues not updated in 30+ days"),
        ("triage", "Issues sorted by computed triage score (high impact + unblocking potential)"),
        ("closed", "Recently closed issues"),
        ("release-cut", "Recently closed items for changelog generation"),
        ("quick-wins", "Easy items with no blockers - good for quick progress"),
        ("bottlenecks", "High betweenness nodes - potential project bottlenecks"),
    ]
}

/// The built-in recipes, in declaration order.
pub fn builtin_recipes() -> (r: Vec<Recipe>)
    ensures
        r@ == spec_builtin_recipes(),
{
    let r: Vec<Recipe> = vec![
        ("default", "Default view showing all open issues sorted by priority"),
        ("actionable", "Issues ready to work on (no open blockers)"),
        ("recent", "Issues updated in the last 7 days"),
        ("blocked", "Issues waiting on dependencies"),
        ("high-impact", "Issues with highest blocking impact (PageRank)"),
        ("stale", "Open issues not updated in 30+ days"),
        ("triage", "Issues sorted by computed triage score (high impact + unblocking potential)"),
        ("closed", "Recently closed issues"),
        ("release-cut", "Recently closed items for changelog generation"),
        ("quick-wins", "Easy items with no blockers - good for quick progress"),
        ("bottlenecks", "High betweenness nodes - potential project bottlenecks"),
    ];
    assert(r@ =~= spec_builtin_recipes());
    r
}

/// `a` does not sort after `b` by name.
pub open spec fn name_le(a: Recipe, b: Recipe) -> bool {
    !bytes_less(b.0.spec_bytes(), a.0.spec_bytes())
}

/// Sorted by name: no recipe sorts after a later one.
pub open spec fn sorted_by_name(s: Seq<Recipe>) -> bool {
    forall|i: int, j: int| 0 <= i < j < s.len() ==> name_le(#[trigger] s[i], #[trigger] s[j])
}

/// Byte-wise order is transitive.
pub proof fn lemma_bytes_less_transitive(a: Seq<u8>, b: Seq<u8>, c: Seq<u8>)
    requires
        bytes_less(a, b),
        bytes_less(b, c),
    ensures
        bytes_less(a, c),
    decreases a.len(),
{
    if a.len() > 0 && a[0] == b[0] && b[0] == c[0] {
        lemma_bytes_less_transitive(a.drop_first(), b.drop_first(), c.drop_first());
    }
}

/// No byte string sorts before itself.
pub proof fn lemma_bytes_less_irreflexive(a: Seq<u8>)
    ensures
        !bytes_less(a, a),
    decreases a.len(),
{
    if a.len() > 0 {
        lemma_bytes_less_irreflexive(a.drop_first());
    }
}

/// Sorts recipes by name, keeping recipes of equal name in their order.
pub fn sort_by_name(v: &[Recipe]) -> (r: Vec<Recipe>)
    ensures
        sorted_by_name(r@),
        r@.to_multiset() == v@.to_multiset(),
{
    let mut r: Vec<Recipe> = Vec::new();
    let mut i: usize = 0;
    while i < v.len()
        invariant
            i <= v@.len(),
            sorted_by_name(r@),
            r@.to_multiset() == v@.take(i as int).to_multiset(),
        decreases v@.len() - i,
    {
        let x = v[i];
        let mut p: usize = 0;
        while p < r.len()
            invariant
                p <= r@.len(),
                forall|t: int| 0 <= t < p ==> name_le(#[trigger] r@[t], x),
            ensures
                p <= r@.len(),
                forall|t: int| 0 <= t < p ==> name_le(#[trigger] r@[t], x),
                p < r@.len() ==> bytes_less(x.0.spec_bytes(), r@[p as int].0.spec_bytes()),
            decreases r@.len() - p,
        {
            if str_less(x.0, r[p].0) {
                break;
            }
            p += 1;
        }
        let ghost before = r@;
        proof {
            assert forall|j: int| p <= j < before.len() implies name_le(x, #[trigger] before[j]) by {
                if bytes_less(before[j].0.spec_bytes(), x.0.spec_bytes()) {
                    if j > p {
                        assert(name_le(before[p as int], before[j]));
                    }
                    lemma_bytes_less_transitive(
                        before[j].0.spec_bytes(),
                        x.0.spec_bytes(),
                        before[p as int].0.spec_bytes(),
                    );
                    lemma_bytes_less_irreflexive(before[p as int].0.spec_bytes());
                }
            }
        }
        r.insert(p, x);
        proof {
            assert(r@ == before.insert(p as int, x));
            assert forall|a: int, b: int| 0 <= a < b < r@.len() implies name_le(
                #[trigger] r@[a],
                #[trigger] r@[b],
            ) by {
                if a < p && b < p {
                    assert(name_le(before[a], before[b]));
                } else if a < p && b == p {
                } else if a < p {
                    assert(r@[b] == before[b - 1]);
                    assert(name_le(before[a], before[b - 1]));
                } else if a == p {
                    assert(r@[b] == before[b - 1]);
                } else {
                    assert(r@[a] == before[a - 1]);
                    assert(r@[b] == before[b - 1]);
                    assert(name_le(before[a - 1], before[b - 1]));
                }
            }
            vstd::seq_lib::to_multiset_insert(before, p as int, x);
            assert(v@.take(i + 1) =~= v@.take(i as int).push(x));
        }
        i += 1;
    }
    assert(v@.take(v@.len() as int) =~= v@);
    r
}

// ---------------------------------------------------------------------------
// The payload
// ---------------------------------------------------------------------------

/// One recipe as a JSON object: name, description, source.
pub open spec fn recipe_json(r: Recipe) -> Seq<char> {
    "{\"name\":"@ + go_escaped(r.0@) + ",\"description\":"@ + go_escaped(r.1@)
        + ",\"source\":\"builtin\"}"@
}

/// The recipe objects joined with commas.
pub open spec fn recipes_json(rs: Seq<Recipe>) -> Seq<char>
    decreases rs.len(),
{
    if rs.len() == 0 {
        Seq::empty()
    } else if rs.len() == 1 {
        recipe_json(rs[0])
    } else {
        recipes_json(rs.drop_last()) + ","@ + recipe_json(rs.last())
    }
}

/// The `--robot-recipes` payload: generation time, output format, version
/// and the recipes, in that key order.
pub open spec fn recipes_payload(generated_at: Seq<char>, format: Seq<char>, rs: Seq<Recipe>) -> Seq<
    char,
> {
    "{\"generated_at\":"@ + go_escaped(generated_at) + ",\"output_format\":"@ + go_escaped(format)
        + ",\"version\":"@ + go_escaped(APP_VERSION@) + ",\"recipes\":["@ + recipes_json(rs)
        + "]}"@
}

/// Renders the payload for the given recipes.
pub fn recipes_payload_text(generated_at: &str, format: &str, rs: &[Recipe]) -> (r: String)
    ensures
        r@ == recipes_payload(generated_at@, format@, rs@),
{
    let mut out = owned("{\"generated_at\":");
    append(&mut out, go_escape_string(generated_at).as_str());
    append(&mut out, ",\"output_format\":");
    append(&mut out, go_escape_string(format).as_str());
    append(&mut out, ",\"version\":");
    append(&mut out, go_escape_string(APP_VERSION).as_str());
    append(&mut out, ",\"recipes\":[");
    let ghost head = out@;
    let mut k: usize = 0;
    while k < rs.len()
        invariant
            k <= rs@.len(),
            out@ == head + recipes_json(rs@.take(k as int)),
        decreases rs@.len() - k,
    {
        let ghost prev = out@;
        if k > 0 {
            append(&mut out, ",");
        }
        append(&mut out, "{\"name\":");
        append(&mut out, go_escape_string(rs[k].0).as_str());
        append(&mut out, ",\"description\":");
        append(&mut out, go_escape_string(rs[k].1).as_str());
        append(&mut out, ",\"source\":\"builtin\"}");
        proof {
            let t = rs@.take(k + 1);
            assert(t.drop_last() =~= rs@.take(k as int));
            assert(t.last() == rs@[k as int]);
            if k == 0 {
                assert(t.len() == 1);
                assert(rs@.take(0) =~= Seq::<Recipe>::empty());
            }
            assert(out@ =~= head + recipes_json(t));
        }
        k += 1;
    }
    assert(rs@.take(rs@.len() as int) =~= rs@);
    append(&mut out, "]}");
    out
}

/// The `--robot-recipes` payload: the built-in recipes sorted by name, with
/// the generation time and output format given.
pub fn robot_recipes_json(generated_at: &str, format: &str) -> (r: String)
    ensures
        exists|rs: Seq<Recipe>|
            sorted_by_name(rs) && rs.to_multiset() == spec_builtin_recipes().to_multiset() && r@
                == recipes_payload(generated_at@, format@, rs),
{
    let all = builtin_recipes();
    let sorted = sort_by_name(all.as_slice());
    recipes_payload_text(generated_at, format, sorted.as_slice())
}

} // verus!
