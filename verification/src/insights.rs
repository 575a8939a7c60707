//! Advanced insights over the open blocking graph: the greedy coverage set
//! (issues touching the most uncovered blocking edges, at most five), the
//! greedy top-k set (issues whose completion newly frees the most
//! dependents, at most five, each chosen among the issues ready after the
//! earlier choices), the parallel cut (ready issues whose completion makes
//! several issues ready) and the cycle-break suggestions (the edges shared
//! by the most reported cycles).

use vstd::prelude::*;
use vstd::string::*;
use crate::enums::str_less;
use crate::next::{contains_text, sort_strings, sort_texts, text_less};
use crate::text::{str_eq, views};

verus! {

broadcast use vstd::seq_lib::group_seq_properties;

/// What the insights read of an issue.
pub struct InsightIssue {
    pub id: String,
    /// The status is neither `Closed` nor `Tombstone`.
    pub open: bool,
    /// The ids named by its blocking dependencies.
    pub blocking: Vec<String>,
}

/// The last of the first `n` issues with id `t` (the one an id lookup
/// finds) is open; false when there is none.
pub open spec fn open_id_within(issues: Seq<InsightIssue>, t: Seq<char>, n: int) -> bool
    decreases n,
{
    if n <= 0 || n > issues.len() {
        false
    } else if issues[n - 1].id@ == t {
        issues[n - 1].open
    } else {
        open_id_within(issues, t, n - 1)
    }
}

/// The issue with id `t` is loaded and open.
pub open spec fn open_id(issues: Seq<InsightIssue>, t: Seq<char>) -> bool {
    open_id_within(issues, t, issues.len() as int)
}

/// A blocking edge, from the blocked issue to its blocker.
pub type Edge = (Seq<char>, Seq<char>);

/// The edges of issue `i` to its open blockers, in dependency order.
pub open spec fn issue_edges(issues: Seq<InsightIssue>, i: int, deps: Seq<Seq<char>>) -> Seq<Edge>
    decreases deps.len(),
{
    if deps.len() == 0 {
        Seq::empty()
    } else {
        let rest = issue_edges(issues, i, deps.drop_last());
        if open_id(issues, deps.last()) {
            rest.push((issues[i].id@, deps.last()))
        } else {
            rest
        }
    }
}

/// The blocking edges between open issues, by blocked issue in input order.
pub open spec fn open_edges(issues: Seq<InsightIssue>, n: int) -> Seq<Edge>
    decreases n,
{
    if n <= 0 || n > issues.len() {
        Seq::empty()
    } else {
        let rest = open_edges(issues, n - 1);
        if issues[n - 1].open {
            rest + issue_edges(issues, n - 1, views(issues[n - 1].blocking@))
        } else {
            rest
        }
    }
}

/// The endpoints of the edges, each edge giving its two ends in order.
pub open spec fn endpoints(edges: Seq<Edge>) -> Seq<Seq<char>>
    decreases edges.len(),
{
    if edges.len() == 0 {
        Seq::empty()
    } else {
        endpoints(edges.drop_last()).push(edges.last().0).push(edges.last().1)
    }
}

/// How many times `x` occurs in `s`.
pub open spec fn occurrences(s: Seq<Seq<char>>, x: Seq<char>) -> int
    decreases s.len(),
{
    if s.len() == 0 {
        0
    } else {
        occurrences(s.drop_last(), x) + if s.last() == x { 1int } else { 0 }
    }
}

/// The pick over the sorted endpoint ids: the most occurrences among the
/// ends `ends`, the earlier id on a tie; `("", -1)` when there is none.
pub open spec fn pick_from(ends: Seq<Seq<char>>, keys: Seq<Seq<char>>, best: (Seq<char>, int)) -> (Seq<char>, int)
    decreases keys.len(),
{
    if keys.len() == 0 {
        best
    } else {
        let id = keys[0];
        let d = occurrences(ends, id);
        let next = if d > best.1 || (d == best.1 && (best.0.len() == 0 || text_less(id, best.0))) {
            (id, d)
        } else {
            best
        };
        pick_from(ends, keys.drop_first(), next)
    }
}

/// The issue touching the most uncovered edges, and its degree.
pub open spec fn coverage_pick(edges: Seq<Edge>) -> (Seq<char>, int) {
    pick_from(endpoints(edges), sort_texts(endpoints(edges)), (Seq::empty(), -1))
}

/// The edges that do not touch `b`.
pub open spec fn untouched(edges: Seq<Edge>, b: Seq<char>) -> Seq<Edge>
    decreases edges.len(),
{
    if edges.len() == 0 {
        Seq::empty()
    } else {
        let rest = untouched(edges.drop_last(), b);
        if edges.last().0 == b || edges.last().1 == b {
            rest
        } else {
            rest.push(edges.last())
        }
    }
}

/// One coverage pick: its id, the edges it newly covers, its degree.
pub type CoverView = (Seq<char>, int, int);

/// The greedy coverage picks over `edges`, at most `fuel` of them, and the
/// edges left uncovered.
pub open spec fn coverage_steps(edges: Seq<Edge>, fuel: nat) -> (Seq<CoverView>, Seq<Edge>)
    decreases fuel,
{
    if edges.len() == 0 || fuel == 0 {
        (Seq::empty(), edges)
    } else {
        let best = coverage_pick(edges);
        if best.0.len() == 0 {
            (Seq::empty(), edges)
        } else {
            let rest = untouched(edges, best.0);
            let tail = coverage_steps(rest, (fuel - 1) as nat);
            (seq![(best.0, edges.len() - rest.len(), best.1)] + tail.0, tail.1)
        }
    }
}

/// The edges as pairs of character sequences.
pub open spec fn edge_views(v: Seq<(String, String)>) -> Seq<Edge> {
    v.map_values(|e: (String, String)| (e.0@, e.1@))
}

proof fn lemma_edge_views_push(v: Seq<(String, String)>, e: (String, String))
    ensures
        edge_views(v.push(e)) == edge_views(v).push((e.0@, e.1@)),
{
    assert(edge_views(v.push(e)) =~= edge_views(v).push((e.0@, e.1@)));
}

/// Whether an open issue has id `t`.
fn is_open_id(issues: &[InsightIssue], t: &str) -> (r: bool)
    ensures
        r == open_id(issues@, t@),
{
    let mut k: usize = issues.len();
    while k > 0
        invariant
            k <= issues@.len(),
            open_id(issues@, t@) == open_id_within(issues@, t@, k as int),
        decreases k,
    {
        if str_eq(issues[k - 1].id.as_str(), t) {
            return issues[k - 1].open;
        }
        k -= 1;
    }
    false
}

/// The blocking edges between open issues.
fn collect_edges(issues: &[InsightIssue]) -> (r: Vec<(String, String)>)
    ensures
        edge_views(r@) == open_edges(issues@, issues@.len() as int),
{
    let mut out: Vec<(String, String)> = Vec::new();
    let mut i: usize = 0;
    while i < issues.len()
        invariant
            i <= issues@.len(),
            edge_views(out@) == open_edges(issues@, i as int),
        decreases issues@.len() - i,
    {
        if issues[i].open {
            let deps = &issues[i].blocking;
            let ghost start = edge_views(out@);
            let ghost dv = views(deps@);
            let mut k: usize = 0;
            while k < deps.len()
                invariant
                    i < issues@.len(),
                    deps == issues@[i as int].blocking,
                    dv == views(deps@),
                    k <= deps@.len(),
                    edge_views(out@) == start + issue_edges(issues@, i as int, dv.take(k as int)),
                decreases deps@.len() - k,
            {
                assert(dv.take(k + 1).drop_last() =~= dv.take(k as int));
                assert(dv.take(k + 1).last() == deps@[k as int]@);
                if is_open_id(issues, deps[k].as_str()) {
                    let e = (issues[i].id.clone(), deps[k].clone());
                    proof {
                        lemma_edge_views_push(out@, e);
                    }
                    out.push(e);
                }
                k += 1;
            }
            assert(dv.take(deps@.len() as int) =~= dv);
        }
        i += 1;
    }
    out
}

/// The ends of the edges.
fn edge_ends(edges: &Vec<(String, String)>) -> (r: Vec<String>)
    ensures
        views(r@) == endpoints(edge_views(edges@)),
{
    let ghost ev = edge_views(edges@);
    let mut out: Vec<String> = Vec::new();
    let mut k: usize = 0;
    while k < edges.len()
        invariant
            ev == edge_views(edges@),
            k <= edges@.len(),
            views(out@) == endpoints(ev.take(k as int)),
        decreases edges@.len() - k,
    {
        assert(ev.take(k + 1).drop_last() =~= ev.take(k as int));
        assert(ev.take(k + 1).last() == ev[k as int]);
        proof {
            crate::text::lemma_views_push(out@, edges@[k as int].0);
        }
        out.push(edges[k].0.clone());
        proof {
            crate::text::lemma_views_push(out@, edges@[k as int].1);
        }
        out.push(edges[k].1.clone());
        k += 1;
    }
    assert(ev.take(edges@.len() as int) =~= ev);
    out
}

/// How many times `x` occurs in `v`.
fn count_of(v: &Vec<String>, x: &str) -> (r: usize)
    ensures
        r as int == occurrences(views(v@), x@),
{
    let ghost s = views(v@);
    let mut c: usize = 0;
    let mut k: usize = 0;
    while k < v.len()
        invariant
            s == views(v@),
            k <= v@.len(),
            c as int == occurrences(s.take(k as int), x@),
            c <= k,
        decreases v@.len() - k,
    {
        assert(s.take(k + 1).drop_last() =~= s.take(k as int));
        assert(s.take(k + 1).last() == v@[k as int]@);
        if str_eq(v[k].as_str(), x) {
            c += 1;
        }
        k += 1;
    }
    assert(s.take(v@.len() as int) =~= s);
    c
}

/// The degree of a pick as an integer, `-1` for none.
pub open spec fn degree_int(d: Option<usize>) -> int {
    match d {
        Some(x) => x as int,
        None => -1,
    }
}

/// The coverage pick over `edges`, as a key and its degree (none when
/// there is no edge).
fn pick_exec(edges: &Vec<(String, String)>) -> (r: (String, Option<usize>))
    ensures
        (r.0@, degree_int(r.1)) == coverage_pick(edge_views(edges@)),
        r.0@.len() > 0 ==> r.1 is Some,
{
    let ends = edge_ends(edges);
    let keys = sort_strings(ends.clone());
    let ghost es = views(ends@);
    let ghost ks = views(keys@);
    let mut best: (String, Option<usize>) = (String::new(), None);
    let mut k: usize = 0;
    assert(ks.skip(0) =~= ks);
    while k < keys.len()
        invariant
            es == views(ends@),
            ks == views(keys@),
            es == endpoints(edge_views(edges@)),
            k <= keys@.len(),
            coverage_pick(edge_views(edges@)) == pick_from(es, ks.skip(k as int), (best.0@, degree_int(best.1))),
            best.1 is None ==> best.0@.len() == 0,
        decreases keys@.len() - k,
    {
        let id = keys[k].as_str();
        let d = count_of(&ends, id);
        proof {
            let rest = ks.skip(k as int);
            assert(rest[0] == id@);
            assert(rest.drop_first() =~= ks.skip(k + 1));
        }
        let empty = best.0.as_str().unicode_len() == 0;
        let take = match best.1 {
            None => true,
            Some(bd) => d > bd || (d == bd && (empty || str_less(id, best.0.as_str()))),
        };
        if take {
            best = (keys[k].clone(), Some(d));
        }
        k += 1;
    }
    best
}

/// The edges not touching `b`.
fn drop_touching(edges: &Vec<(String, String)>, b: &str) -> (r: Vec<(String, String)>)
    ensures
        edge_views(r@) == untouched(edge_views(edges@), b@),
        r@.len() <= edges@.len(),
{
    let ghost ev = edge_views(edges@);
    let mut out: Vec<(String, String)> = Vec::new();
    let mut k: usize = 0;
    while k < edges.len()
        invariant
            ev == edge_views(edges@),
            k <= edges@.len(),
            edge_views(out@) == untouched(ev.take(k as int), b@),
            out@.len() <= k,
        decreases edges@.len() - k,
    {
        assert(ev.take(k + 1).drop_last() =~= ev.take(k as int));
        assert(ev.take(k + 1).last() == ev[k as int]);
        if !str_eq(edges[k].0.as_str(), b) && !str_eq(edges[k].1.as_str(), b) {
            let e = (edges[k].0.clone(), edges[k].1.clone());
            proof {
                lemma_edge_views_push(out@, e);
            }
            out.push(e);
        }
        k += 1;
    }
    assert(ev.take(edges@.len() as int) =~= ev);
    out
}

/// One coverage pick.
pub struct CoverItem {
    pub id: String,
    /// The edges it newly covered.
    pub edges_added: usize,
    /// Its uncovered degree when picked.
    pub total_degree: usize,
}

/// The greedy coverage set.
pub struct CoverageSet {
    /// The picks, in selection order.
    pub items: Vec<CoverItem>,
    /// The blocking edges between open issues.
    pub total_edges: usize,
    /// The edges the picks cover.
    pub edges_covered: usize,
    /// Edges remain uncovered.
    pub capped: bool,
}

/// The picks as the specification sees them.
pub open spec fn cover_views(items: Seq<CoverItem>) -> Seq<CoverView> {
    items.map_values(|c: CoverItem| (c.id@, c.edges_added as int, c.total_degree as int))
}

/// The greedy coverage set of the open blocking graph: at most five picks,
/// each the issue touching the most uncovered edges (the smaller id on a
/// tie); the covered and total edge counts, and whether edges remain.
pub fn coverage_set(issues: &[InsightIssue]) -> (r: CoverageSet)
    ensures
        ({
            let edges = open_edges(issues@, issues@.len() as int);
            let steps = coverage_steps(edges, 5);
            &&& cover_views(r.items@) == steps.0
            &&& r.total_edges == edges.len()
            &&& r.edges_covered == edges.len() - steps.1.len()
            &&& r.capped == (steps.1.len() > 0)
        }),
{
    let edges = collect_edges(issues);
    let ghost all = edge_views(edges@);
    let total = edges.len();
    let mut uncovered: Vec<(String, String)> = edges;
    let mut items: Vec<CoverItem> = Vec::new();
    let mut fuel: usize = 5;
    let ghost mut done: Seq<CoverView> = Seq::empty();
    while uncovered.len() > 0 && fuel > 0
        invariant
            fuel <= 5,
            all == open_edges(issues@, issues@.len() as int),
            total == all.len(),
            uncovered@.len() <= total,
            cover_views(items@) == done,
            coverage_steps(all, 5).0 == done + coverage_steps(edge_views(uncovered@), fuel as nat).0,
            coverage_steps(all, 5).1 == coverage_steps(edge_views(uncovered@), fuel as nat).1,
            forall|j: int| 0 <= j < items@.len() ==> #[trigger] items@[j].edges_added <= total,
        ensures
            cover_views(items@) == coverage_steps(all, 5).0,
            edge_views(uncovered@) == coverage_steps(all, 5).1,
            uncovered@.len() <= total,
        decreases fuel,
    {
        let ghost cur = edge_views(uncovered@);
        let (best, deg) = pick_exec(&uncovered);
        if best.as_str().unicode_len() == 0 {
            assert(coverage_steps(cur, fuel as nat) == (Seq::<CoverView>::empty(), cur));
            assert(done + Seq::<CoverView>::empty() =~= done);
            break;
        }
        let rest = drop_touching(&uncovered, best.as_str());
        let added = uncovered.len() - rest.len();
        let d = match deg {
            Some(x) => x,
            None => 0,
        };
        proof {
            assert(deg is Some);
        }
        let item = CoverItem { id: best, edges_added: added, total_degree: d };
        let ghost v = (item.id@, item.edges_added as int, item.total_degree as int);
        proof {
            assert(coverage_steps(cur, fuel as nat).0 == seq![v] + coverage_steps(
                edge_views(rest@),
                (fuel - 1) as nat,
            ).0);
            assert(cover_views(items@.push(item)) =~= cover_views(items@).push(v));
            assert(done + (seq![v] + coverage_steps(edge_views(rest@), (fuel - 1) as nat).0) =~= done.push(v)
                + coverage_steps(edge_views(rest@), (fuel - 1) as nat).0);
            done = done.push(v);
        }
        items.push(item);
        uncovered = rest;
        fuel -= 1;
    }
    proof {
        if uncovered@.len() == 0 || fuel == 0 {
            assert(coverage_steps(edge_views(uncovered@), fuel as nat).0 =~= Seq::<CoverView>::empty());
            assert(done + Seq::<CoverView>::empty() =~= done);
        }
    }
    let covered = total - uncovered.len();
    let capped = uncovered.len() > 0;
    CoverageSet { items, total_edges: total, edges_covered: covered, capped }
}

// ---------------------------------------------------------------------------
// Top-k set
// ---------------------------------------------------------------------------

/// Some loaded issue with id `t` is open.
pub open spec fn any_open(issues: Seq<InsightIssue>, t: Seq<char>) -> bool {
    exists|x: int| 0 <= x < issues.len() && #[trigger] issues[x].id@ == t && issues[x].open
}

/// The first issue with id `t`.
pub open spec fn first_issue_from(issues: Seq<InsightIssue>, t: Seq<char>, k: int) -> Option<int>
    decreases issues.len() - k,
{
    if k < 0 || k >= issues.len() {
        None
    } else if issues[k].id@ == t {
        Some(k)
    } else {
        first_issue_from(issues, t, k + 1)
    }
}

/// Blocker `b` is completed or not open.
pub open spec fn blocker_settled(issues: Seq<InsightIssue>, done: Seq<Seq<char>>, b: Seq<char>) -> bool {
    done.contains(b) || !any_open(issues, b)
}

/// Every blocker of the issue with id `t` is completed or not open; false
/// when no issue has that id.
pub open spec fn blockers_resolved(issues: Seq<InsightIssue>, done: Seq<Seq<char>>, t: Seq<char>) -> bool {
    match first_issue_from(issues, t, 0) {
        None => false,
        Some(i) => forall|k: int|
            0 <= k < issues[i].blocking@.len() ==> blocker_settled(issues, done, #[trigger] issues[i].blocking@[k]@),
    }
}

/// The candidates not yet completed whose blockers are all resolved.
pub open spec fn ready_candidates(issues: Seq<InsightIssue>, done: Seq<Seq<char>>, cands: Seq<Seq<char>>) -> Seq<Seq<char>>
    decreases cands.len(),
{
    if cands.len() == 0 {
        Seq::empty()
    } else {
        let rest = ready_candidates(issues, done, cands.drop_last());
        let c = cands.last();
        if !done.contains(c) && blockers_resolved(issues, done, c) {
            rest.push(c)
        } else {
            rest
        }
    }
}

/// Issue `i` has a blocking dependency on `cand`.
pub open spec fn waits_on(issues: Seq<InsightIssue>, i: int, cand: Seq<char>) -> bool {
    exists|k: int| 0 <= k < issues[i].blocking@.len() && #[trigger] issues[i].blocking@[k]@ == cand
}

/// Blocker `b` is not `cand`, is open and is not completed.
pub open spec fn holds_open(issues: Seq<InsightIssue>, cand: Seq<char>, done: Seq<Seq<char>>, b: Seq<char>) -> bool {
    b != cand && open_id(issues, b) && !done.contains(b)
}

/// Issue `i` has another blocker that is open and not completed.
pub open spec fn held_elsewhere(issues: Seq<InsightIssue>, i: int, cand: Seq<char>, done: Seq<Seq<char>>) -> bool {
    exists|k: int|
        0 <= k < issues[i].blocking@.len() && holds_open(issues, cand, done, #[trigger] issues[i].blocking@[k]@)
}

/// The ids, among the first `n` issues, that completing `cand` would newly
/// free: open, not completed, not already ready, not `cand` itself, waiting
/// on `cand` and on nothing else still open.
pub open spec fn newly_freed(
    issues: Seq<InsightIssue>,
    done: Seq<Seq<char>>,
    ready: Seq<Seq<char>>,
    cand: Seq<char>,
    n: int,
) -> Seq<Seq<char>>
    decreases n,
{
    if n <= 0 || n > issues.len() {
        Seq::empty()
    } else {
        let rest = newly_freed(issues, done, ready, cand, n - 1);
        let i = n - 1;
        let id = issues[i].id@;
        if issues[i].open && !done.contains(id) && !ready.contains(id) && id != cand && waits_on(
            issues,
            i,
            cand,
        ) && !held_elsewhere(issues, i, cand, done) {
            rest.push(id)
        } else {
            rest
        }
    }
}

/// One top-k pick: its id, its gain and the ids it frees, sorted.
pub type TopView = (Seq<char>, int, Seq<Seq<char>>);

/// The best ready candidate from position `k` of `ready`: the largest gain,
/// the earlier id on a tie.
pub open spec fn best_ready_from(
    issues: Seq<InsightIssue>,
    done: Seq<Seq<char>>,
    ready: Seq<Seq<char>>,
    k: int,
    best: TopView,
) -> TopView
    decreases ready.len() - k,
{
    if k < 0 || k >= ready.len() {
        best
    } else {
        let c = ready[k];
        let freed = sort_texts(newly_freed(issues, done, ready, c, issues.len() as int));
        let g = freed.len() as int;
        let next = if g > best.1 || (g == best.1 && (best.0.len() == 0 || text_less(c, best.0))) {
            (c, g, freed)
        } else {
            best
        };
        best_ready_from(issues, done, ready, k + 1, next)
    }
}

/// The greedy top-k picks after the completions `done`, at most `fuel` more.
pub open spec fn topk_steps(issues: Seq<InsightIssue>, cands: Seq<Seq<char>>, done: Seq<Seq<char>>, fuel: nat) -> Seq<TopView>
    decreases fuel,
{
    if fuel == 0 {
        Seq::empty()
    } else {
        let ready = ready_candidates(issues, done, cands);
        if ready.len() == 0 {
            Seq::empty()
        } else {
            let best = best_ready_from(issues, done, ready, 0, (Seq::empty(), -1, Seq::empty()));
            if best.0.len() == 0 {
                Seq::empty()
            } else {
                seq![best] + topk_steps(issues, cands, done.push(best.0), (fuel - 1) as nat)
            }
        }
    }
}

/// The ids of the open issues among the first `n`.
pub open spec fn open_ids(issues: Seq<InsightIssue>, n: int) -> Seq<Seq<char>>
    decreases n,
{
    if n <= 0 || n > issues.len() {
        Seq::empty()
    } else if issues[n - 1].open {
        open_ids(issues, n - 1).push(issues[n - 1].id@)
    } else {
        open_ids(issues, n - 1)
    }
}

/// The sorted ids of the open issues, the top-k candidates.
pub open spec fn topk_candidates(issues: Seq<InsightIssue>) -> Seq<Seq<char>> {
    sort_texts(open_ids(issues, issues.len() as int))
}

fn any_open_exec(issues: &[InsightIssue], t: &str) -> (r: bool)
    ensures
        r == any_open(issues@, t@),
{
    let mut k: usize = 0;
    while k < issues.len()
        invariant
            k <= issues@.len(),
            forall|x: int| 0 <= x < k ==> !(#[trigger] issues@[x].id@ == t@ && issues@[x].open),
        decreases issues@.len() - k,
    {
        if issues[k].open && str_eq(issues[k].id.as_str(), t) {
            return true;
        }
        k += 1;
    }
    false
}

fn first_issue_exec(issues: &[InsightIssue], t: &str) -> (r: Option<usize>)
    ensures
        match r {
            Some(i) => first_issue_from(issues@, t@, 0) == Some(i as int) && i < issues@.len(),
            None => first_issue_from(issues@, t@, 0) is None,
        },
{
    let mut k: usize = 0;
    while k < issues.len()
        invariant
            k <= issues@.len(),
            first_issue_from(issues@, t@, 0) == first_issue_from(issues@, t@, k as int),
        decreases issues@.len() - k,
    {
        if str_eq(issues[k].id.as_str(), t) {
            return Some(k);
        }
        k += 1;
    }
    None
}

fn resolved_exec(issues: &[InsightIssue], done: &Vec<String>, t: &str) -> (r: bool)
    ensures
        r == blockers_resolved(issues@, views(done@), t@),
{
    match first_issue_exec(issues, t) {
        None => false,
        Some(i) => {
            let deps = &issues[i].blocking;
            let mut k: usize = 0;
            while k < deps.len()
                invariant
                    i < issues@.len(),
                    first_issue_from(issues@, t@, 0) == Some(i as int),
                    deps == issues@[i as int].blocking,
                    k <= deps@.len(),
                    forall|j: int|
                        0 <= j < k ==> blocker_settled(issues@, views(done@), #[trigger] issues@[i as int].blocking@[j]@),
                decreases deps@.len() - k,
            {
                let b = deps[k].as_str();
                if !contains_text(done.as_slice(), b) && any_open_exec(issues, b) {
                    proof {
                        let ii = i as int;
                        assert(!blocker_settled(issues@, views(done@), issues@[ii].blocking@[k as int]@));
                        assert(first_issue_from(issues@, t@, 0)->0 == ii);
                        assert(blockers_resolved(issues@, views(done@), t@) == (forall|j: int|
                            0 <= j < issues@[ii].blocking@.len() ==> blocker_settled(issues@, views(done@), #[trigger] issues@[ii].blocking@[j]@)));
                    }
                    return false;
                }
                k += 1;
            }
            true
        },
    }
}

fn ready_exec(issues: &[InsightIssue], done: &Vec<String>, cands: &Vec<String>) -> (r: Vec<String>)
    ensures
        views(r@) == ready_candidates(issues@, views(done@), views(cands@)),
{
    let ghost cs = views(cands@);
    let mut out: Vec<String> = Vec::new();
    let mut k: usize = 0;
    while k < cands.len()
        invariant
            cs == views(cands@),
            k <= cands@.len(),
            views(out@) == ready_candidates(issues@, views(done@), cs.take(k as int)),
        decreases cands@.len() - k,
    {
        assert(cs.take(k + 1).drop_last() =~= cs.take(k as int));
        assert(cs.take(k + 1).last() == cands@[k as int]@);
        let c = cands[k].as_str();
        if !contains_text(done.as_slice(), c) && resolved_exec(issues, done, c) {
            proof {
                crate::text::lemma_views_push(out@, cands@[k as int]);
            }
            out.push(cands[k].clone());
        }
        k += 1;
    }
    assert(cs.take(cands@.len() as int) =~= cs);
    out
}

/// Whether issue `i` waits on `cand`, and whether it is held by another
/// open blocker not yet completed.
fn wait_state(issues: &[InsightIssue], i: usize, cand: &str, done: &Vec<String>) -> (r: (bool, bool))
    requires
        i < issues@.len(),
    ensures
        r.0 == waits_on(issues@, i as int, cand@),
        r.1 == held_elsewhere(issues@, i as int, cand@, views(done@)),
{
    let deps = &issues[i].blocking;
    let mut has = false;
    let mut held = false;
    let mut k: usize = 0;
    while k < deps.len()
        invariant
            i < issues@.len(),
            deps == issues@[i as int].blocking,
            k <= deps@.len(),
            has == exists|j: int| 0 <= j < k && #[trigger] issues@[i as int].blocking@[j]@ == cand@,
            held == exists|j: int|
                0 <= j < k && holds_open(issues@, cand@, views(done@), #[trigger] issues@[i as int].blocking@[j]@),
        decreases deps@.len() - k,
    {
        let b = deps[k].as_str();
        let ghost bj = issues@[i as int].blocking@[k as int]@;
        assert(b@ == bj);
        if str_eq(b, cand) {
            has = true;
        } else if is_open_id(issues, b) && !contains_text(done.as_slice(), b) {
            held = true;
        }
        k += 1;
    }
    (has, held)
}

fn freed_exec(issues: &[InsightIssue], done: &Vec<String>, ready: &Vec<String>, cand: &str) -> (r: Vec<String>)
    ensures
        views(r@) == newly_freed(issues@, views(done@), views(ready@), cand@, issues@.len() as int),
        r@.len() <= issues@.len(),
{
    let mut out: Vec<String> = Vec::new();
    let mut n: usize = 0;
    while n < issues.len()
        invariant
            n <= issues@.len(),
            views(out@) == newly_freed(issues@, views(done@), views(ready@), cand@, n as int),
            out@.len() <= n,
        decreases issues@.len() - n,
    {
        let id = issues[n].id.as_str();
        if issues[n].open && !contains_text(done.as_slice(), id) && !contains_text(ready.as_slice(), id)
            && !str_eq(id, cand) {
            let (has, held) = wait_state(issues, n, cand, done);
            if has && !held {
                proof {
                    crate::text::lemma_views_push(out@, issues@[n as int].id);
                }
                out.push(issues[n].id.clone());
            }
        }
        n += 1;
    }
    out
}

/// One top-k pick.
pub struct TopItem {
    pub id: String,
    /// How many issues completing it newly frees.
    pub marginal_gain: usize,
    /// Those issues, sorted.
    pub unblocks: Vec<String>,
}

/// The picks as the specification sees them.
pub open spec fn top_views(items: Seq<TopItem>) -> Seq<TopView> {
    items.map_values(|t: TopItem| (t.id@, t.marginal_gain as int, views(t.unblocks@)))
}

/// The best ready candidate.
fn best_ready(issues: &[InsightIssue], done: &Vec<String>, ready: &Vec<String>) -> (r: Option<TopItem>)
    ensures
        match r {
            Some(t) => {
                &&& best_ready_from(issues@, views(done@), views(ready@), 0, (Seq::empty(), -1, Seq::empty()))
                    == (t.id@, t.marginal_gain as int, views(t.unblocks@))
                &&& t.id@.len() > 0
            },
            None => best_ready_from(issues@, views(done@), views(ready@), 0, (Seq::empty(), -1, Seq::empty())).0.len()
                == 0,
        },
{
    let ghost rs = views(ready@);
    let ghost ds = views(done@);
    let mut best: Option<TopItem> = None;
    let mut best_id: String = String::new();
    let mut k: usize = 0;
    while k < ready.len()
        invariant
            rs == views(ready@),
            ds == views(done@),
            k <= ready@.len(),
            match best {
                Some(t) => t.id@ == best_id@ && best_ready_from(issues@, ds, rs, 0, (Seq::empty(), -1, Seq::empty()))
                    == best_ready_from(issues@, ds, rs, k as int, (t.id@, t.marginal_gain as int, views(t.unblocks@))),
                None => best_id@.len() == 0 && best_ready_from(issues@, ds, rs, 0, (Seq::empty(), -1, Seq::empty()))
                    == best_ready_from(issues@, ds, rs, k as int, (Seq::empty(), -1, Seq::empty())),
            },
        decreases ready@.len() - k,
    {
        let c = ready[k].as_str();
        let raw = freed_exec(issues, done, ready, c);
        let freed = sort_strings(raw);
        proof {
            crate::next::lemma_sort_texts(views(raw@));
        }
        let g = freed.len();
        let empty = best_id.as_str().unicode_len() == 0;
        let take = match &best {
            None => true,
            Some(t) => g > t.marginal_gain || (g == t.marginal_gain && (empty || str_less(c, best_id.as_str()))),
        };
        if take {
            best_id = ready[k].clone();
            best = Some(TopItem { id: ready[k].clone(), marginal_gain: g, unblocks: freed });
        }
        k += 1;
    }
    proof {
        assert(best_ready_from(issues@, ds, rs, ready@.len() as int, (Seq::empty(), -1, Seq::empty()))
            == (Seq::<char>::empty(), -1int, Seq::<Seq<char>>::empty()));
    }
    match best {
        Some(t) => {
            if t.id.as_str().unicode_len() == 0 {
                None
            } else {
                Some(t)
            }
        },
        None => None,
    }
}

fn open_ids_exec(issues: &[InsightIssue]) -> (r: Vec<String>)
    ensures
        views(r@) == open_ids(issues@, issues@.len() as int),
{
    let mut out: Vec<String> = Vec::new();
    let mut n: usize = 0;
    while n < issues.len()
        invariant
            n <= issues@.len(),
            views(out@) == open_ids(issues@, n as int),
        decreases issues@.len() - n,
    {
        if issues[n].open {
            proof {
                crate::text::lemma_views_push(out@, issues@[n as int].id);
            }
            out.push(issues[n].id.clone());
        }
        n += 1;
    }
    out
}

/// The sum of the picks' gains.
pub open spec fn total_gain(items: Seq<TopView>) -> int
    decreases items.len(),
{
    if items.len() == 0 {
        0
    } else {
        total_gain(items.drop_last()) + items.last().1
    }
}

/// The greedy top-k set.
pub struct TopKSet {
    /// The picks, in the order to work them.
    pub items: Vec<TopItem>,
    /// The sum of their gains.
    pub total_gain: u128,
    /// How many open issues were candidates.
    pub candidates: usize,
}

/// The greedy top-k set: at most five picks, each the ready issue (open,
/// not yet picked, every blocker picked or not open) whose completion newly
/// frees the most issues, the smaller id on a tie; with the number of
/// candidates.
pub fn topk_set(issues: &[InsightIssue]) -> (r: TopKSet)
    ensures
        top_views(r.items@) == topk_steps(issues@, topk_candidates(issues@), Seq::empty(), 5),
        r.candidates == topk_candidates(issues@).len(),
        r.total_gain == total_gain(top_views(r.items@)),
{
    let ids = open_ids_exec(issues);
    let cands = sort_strings(ids);
    proof {
        crate::next::lemma_sort_texts(open_ids(issues@, issues@.len() as int));
    }
    let ghost cs = views(cands@);
    let mut done: Vec<String> = Vec::new();
    let mut items: Vec<TopItem> = Vec::new();
    let mut fuel: usize = 5;
    let ghost mut acc: Seq<TopView> = Seq::empty();
    assert(views(done@) =~= Seq::<Seq<char>>::empty());
    while fuel > 0
        invariant
            fuel <= 5,
            cs == views(cands@),
            cs == topk_candidates(issues@),
            top_views(items@) == acc,
            topk_steps(issues@, cs, Seq::empty(), 5) == acc + topk_steps(issues@, cs, views(done@), fuel as nat),
        ensures
            top_views(items@) == topk_steps(issues@, cs, Seq::empty(), 5),
        decreases fuel,
    {
        let ready = ready_exec(issues, &done, &cands);
        if ready.len() == 0 {
            assert(topk_steps(issues@, cs, views(done@), fuel as nat) =~= Seq::<TopView>::empty());
            assert(acc + Seq::<TopView>::empty() =~= acc);
            break;
        }
        match best_ready(issues, &done, &ready) {
            None => {
                assert(topk_steps(issues@, cs, views(done@), fuel as nat) =~= Seq::<TopView>::empty());
                assert(acc + Seq::<TopView>::empty() =~= acc);
                break;
            },
            Some(t) => {
                let ghost v = (t.id@, t.marginal_gain as int, views(t.unblocks@));
                proof {
                    crate::text::lemma_views_push(done@, t.id);
                    assert(topk_steps(issues@, cs, views(done@), fuel as nat) == seq![v] + topk_steps(
                        issues@,
                        cs,
                        views(done@).push(t.id@),
                        (fuel - 1) as nat,
                    ));
                    assert(top_views(items@.push(t)) =~= top_views(items@).push(v));
                    assert(acc + (seq![v] + topk_steps(issues@, cs, views(done@).push(t.id@), (fuel - 1) as nat))
                        =~= acc.push(v) + topk_steps(issues@, cs, views(done@).push(t.id@), (fuel - 1) as nat));
                    acc = acc.push(v);
                }
                done.push(t.id.clone());
                items.push(t);
            },
        }
        fuel -= 1;
        proof {
            if fuel == 0 {
                assert(acc + Seq::<TopView>::empty() =~= acc);
            }
        }
    }
    let mut total: u128 = 0;
    let mut k: usize = 0;
    while k < items.len()
        invariant
            k <= items@.len(),
            total == total_gain(top_views(items@).take(k as int)),
            total <= k * 0x1_0000_0000_0000_0000,
        decreases items@.len() - k,
    {
        assert(top_views(items@).take(k + 1).drop_last() =~= top_views(items@).take(k as int));
        let g = items[k].marginal_gain;
        total = total + g as u128;
        k += 1;
    }
    assert(top_views(items@).take(items@.len() as int) =~= top_views(items@));
    TopKSet { items, total_gain: total, candidates: cands.len() }
}

// ---------------------------------------------------------------------------
// Parallel cut
// ---------------------------------------------------------------------------

/// The open blockers of `x`, in edge order.
pub open spec fn blockers_in(edges: Seq<Edge>, x: Seq<char>) -> Seq<Seq<char>>
    decreases edges.len(),
{
    if edges.len() == 0 {
        Seq::empty()
    } else {
        let rest = blockers_in(edges.drop_last(), x);
        if edges.last().0 == x {
            rest.push(edges.last().1)
        } else {
            rest
        }
    }
}

/// Every element of `s` is `x`.
pub open spec fn all_are(s: Seq<Seq<char>>, x: Seq<char>) -> bool {
    forall|k: int| 0 <= k < s.len() ==> #[trigger] s[k] == x
}

/// The dependents of `id`, in edge order, that completing `id` would newly
/// make ready: blocked now, and by nothing but `id`.
pub open spec fn enabled_by(all: Seq<Edge>, edges: Seq<Edge>, id: Seq<char>) -> Seq<Seq<char>>
    decreases edges.len(),
{
    if edges.len() == 0 {
        Seq::empty()
    } else {
        let rest = enabled_by(all, edges.drop_last(), id);
        let e = edges.last();
        let bs = blockers_in(all, e.0);
        if e.1 == id && all_are(bs, id) && bs.len() > 0 {
            rest.push(e.0)
        } else {
            rest
        }
    }
}

/// One parallel-cut suggestion: its id, its gain and the tracks it enables.
pub type CutView = (Seq<char>, int, Seq<Seq<char>>);

/// `c` goes before `d`: larger gain first, then the smaller id.
pub open spec fn cut_before(c: CutView, d: CutView) -> bool {
    c.1 > d.1 || (c.1 == d.1 && text_less(c.0, d.0))
}

/// `x` placed before the first suggestion it goes before.
pub open spec fn insert_cut(s: Seq<CutView>, x: CutView) -> Seq<CutView>
    decreases s.len(),
{
    if s.len() == 0 {
        seq![x]
    } else if cut_before(x, s[0]) {
        seq![x] + s
    } else {
        seq![s[0]] + insert_cut(s.drop_first(), x)
    }
}

/// The suggestions from the first `n` issues, sorted by gain then id.
pub open spec fn cut_candidates(issues: Seq<InsightIssue>, all: Seq<Edge>, n: int) -> Seq<CutView>
    decreases n,
{
    if n <= 0 || n > issues.len() {
        Seq::empty()
    } else {
        let rest = cut_candidates(issues, all, n - 1);
        let i = issues[n - 1];
        let en = enabled_by(all, all, i.id@);
        if i.open && blockers_in(all, i.id@).len() == 0 && en.len() > 1 {
            insert_cut(rest, (i.id@, en.len() - 1, sort_texts(en)))
        } else {
            rest
        }
    }
}

/// The ids of the suggestions.
pub open spec fn cut_ids(s: Seq<CutView>) -> Seq<Seq<char>> {
    s.map_values(|c: CutView| c.0)
}

/// How many of the first `n` issues are open and would be ready once the
/// suggested issues are completed (the suggested ones themselves excepted).
pub open spec fn ready_after_cut(issues: Seq<InsightIssue>, all: Seq<Edge>, cut: Seq<Seq<char>>, n: int) -> nat
    decreases n,
{
    if n <= 0 || n > issues.len() {
        0
    } else {
        let i = issues[n - 1];
        let bs = blockers_in(all, i.id@);
        ready_after_cut(issues, all, cut, n - 1) + if i.open && !cut.contains(i.id@) && (forall|k: int|
            0 <= k < bs.len() ==> cut.contains(#[trigger] bs[k])) {
            1nat
        } else {
            0
        }
    }
}

fn blockers_in_exec(edges: &Vec<(String, String)>, x: &str) -> (r: Vec<String>)
    ensures
        views(r@) == blockers_in(edge_views(edges@), x@),
{
    let ghost ev = edge_views(edges@);
    let mut out: Vec<String> = Vec::new();
    let mut k: usize = 0;
    while k < edges.len()
        invariant
            ev == edge_views(edges@),
            k <= edges@.len(),
            views(out@) == blockers_in(ev.take(k as int), x@),
        decreases edges@.len() - k,
    {
        assert(ev.take(k + 1).drop_last() =~= ev.take(k as int));
        assert(ev.take(k + 1).last() == ev[k as int]);
        if str_eq(edges[k].0.as_str(), x) {
            proof {
                crate::text::lemma_views_push(out@, edges@[k as int].1);
            }
            out.push(edges[k].1.clone());
        }
        k += 1;
    }
    assert(ev.take(edges@.len() as int) =~= ev);
    out
}

fn all_are_exec(v: &Vec<String>, x: &str) -> (r: bool)
    ensures
        r == all_are(views(v@), x@),
{
    let ghost s = views(v@);
    let mut k: usize = 0;
    while k < v.len()
        invariant
            s == views(v@),
            k <= v@.len(),
            forall|j: int| 0 <= j < k ==> #[trigger] s[j] == x@,
        decreases v@.len() - k,
    {
        if !str_eq(v[k].as_str(), x) {
            assert(s[k as int] != x@);
            return false;
        }
        k += 1;
    }
    true
}

fn enabled_exec(edges: &Vec<(String, String)>, id: &str) -> (r: Vec<String>)
    ensures
        views(r@) == enabled_by(edge_views(edges@), edge_views(edges@), id@),
{
    let ghost ev = edge_views(edges@);
    let mut out: Vec<String> = Vec::new();
    let mut k: usize = 0;
    while k < edges.len()
        invariant
            ev == edge_views(edges@),
            k <= edges@.len(),
            views(out@) == enabled_by(ev, ev.take(k as int), id@),
        decreases edges@.len() - k,
    {
        assert(ev.take(k + 1).drop_last() =~= ev.take(k as int));
        assert(ev.take(k + 1).last() == ev[k as int]);
        if str_eq(edges[k].1.as_str(), id) {
            let bs = blockers_in_exec(edges, edges[k].0.as_str());
            if bs.len() > 0 && all_are_exec(&bs, id) {
                proof {
                    crate::text::lemma_views_push(out@, edges@[k as int].0);
                }
                out.push(edges[k].0.clone());
            }
        }
        k += 1;
    }
    assert(ev.take(edges@.len() as int) =~= ev);
    out
}

/// One parallel-cut suggestion.
pub struct CutSuggestion {
    pub id: String,
    /// How many more issues become ready than the one completed.
    pub parallel_gain: usize,
    /// The issues completing it makes ready, sorted.
    pub enabled_tracks: Vec<String>,
}

/// The suggestions as the specification sees them.
pub open spec fn cut_views(v: Seq<CutSuggestion>) -> Seq<CutView> {
    v.map_values(|c: CutSuggestion| (c.id@, c.parallel_gain as int, views(c.enabled_tracks@)))
}

fn insert_cut_exec(v: &mut Vec<CutSuggestion>, x: CutSuggestion)
    ensures
        cut_views(final(v)@) == insert_cut(cut_views(old(v)@), (x.id@, x.parallel_gain as int, views(x.enabled_tracks@))),
{
    let ghost s = cut_views(v@);
    let ghost xv = (x.id@, x.parallel_gain as int, views(x.enabled_tracks@));
    let mut p: usize = 0;
    assert(s.take(0) + insert_cut(s.skip(0), xv) =~= insert_cut(s, xv)) by {
        assert(s.skip(0) =~= s);
    }
    while p < v.len()
        invariant
            p <= v@.len(),
            s == cut_views(old(v)@),
            v@ == old(v)@,
            xv == (x.id@, x.parallel_gain as int, views(x.enabled_tracks@)),
            insert_cut(s, xv) == s.take(p as int) + insert_cut(s.skip(p as int), xv),
        ensures
            p <= v@.len(),
            v@ == old(v)@,
            insert_cut(s, xv) == s.take(p as int) + insert_cut(s.skip(p as int), xv),
            p < v@.len() ==> cut_before(xv, s[p as int]),
        decreases v@.len() - p,
    {
        let before = x.parallel_gain > v[p].parallel_gain || (x.parallel_gain == v[p].parallel_gain
            && str_less(x.id.as_str(), v[p].id.as_str()));
        assert(s[p as int] == (v@[p as int].id@, v@[p as int].parallel_gain as int, views(v@[p as int].enabled_tracks@)));
        if before {
            break;
        }
        proof {
            let rest = s.skip(p as int);
            assert(rest[0] == s[p as int]);
            assert(rest.drop_first() =~= s.skip(p + 1));
            assert(s.take(p + 1) =~= s.take(p as int).push(s[p as int]));
            assert(s.take(p as int) + (seq![rest[0]] + insert_cut(rest.drop_first(), xv)) =~= s.take(p + 1)
                + insert_cut(s.skip(p + 1), xv));
        }
        p += 1;
    }
    proof {
        let rest = s.skip(p as int);
        if p < s.len() {
            assert(rest[0] == s[p as int]);
        } else {
            assert(rest.len() == 0);
        }
    }
    let ghost old_v = v@;
    v.insert(p, x);
    proof {
        assert(cut_views(v@) =~= s.take(p as int) + (seq![xv] + s.skip(p as int))) by {
            assert(v@ == old_v.insert(p as int, x));
            assert forall|k: int| 0 <= k < cut_views(v@).len() implies cut_views(v@)[k] == (s.take(p as int)
                + (seq![xv] + s.skip(p as int)))[k] by {
                if k < p {
                } else if k == p {
                } else {
                    assert(v@[k] == old_v[k - 1]);
                }
            }
        }
    }
}

/// The parallel cut.
pub struct ParallelCut {
    /// At most five suggestions, by gain then id.
    pub suggestions: Vec<CutSuggestion>,
    /// How many suggestions there were before the cap.
    pub total: usize,
    /// How many issues are ready once the suggestions are completed.
    pub max_parallel: usize,
}

fn count_ready_after(issues: &[InsightIssue], edges: &Vec<(String, String)>, cut: &Vec<String>) -> (r: usize)
    ensures
        r == ready_after_cut(issues@, edge_views(edges@), views(cut@), issues@.len() as int),
{
    let mut c: usize = 0;
    let mut n: usize = 0;
    while n < issues.len()
        invariant
            n <= issues@.len(),
            c == ready_after_cut(issues@, edge_views(edges@), views(cut@), n as int),
            c <= n,
        decreases issues@.len() - n,
    {
        if issues[n].open && !contains_text(cut.as_slice(), issues[n].id.as_str()) {
            let bs = blockers_in_exec(edges, issues[n].id.as_str());
            let ghost bv = views(bs@);
            let mut all_cut = true;
            let mut k: usize = 0;
            while k < bs.len()
                invariant
                    bv == views(bs@),
                    k <= bs@.len(),
                    all_cut == forall|j: int| 0 <= j < k ==> views(cut@).contains(#[trigger] bv[j]),
                decreases bs@.len() - k,
            {
                let inside = contains_text(cut.as_slice(), bs[k].as_str());
                assert(bv[k as int] == bs@[k as int]@);
                if !inside {
                    all_cut = false;
                }
                k += 1;
            }
            if all_cut {
                c += 1;
            }
        }
        n += 1;
    }
    c
}

/// The parallel cut: the ready issues whose completion makes more than one
/// issue ready, by gain then id, at most five; how many there were; and how
/// many issues would be ready once the suggested ones are completed.
pub fn parallel_cut(issues: &[InsightIssue]) -> (r: ParallelCut)
    ensures
        ({
            let all = open_edges(issues@, issues@.len() as int);
            let cands = cut_candidates(issues@, all, issues@.len() as int);
            let shown = cands.take(if cands.len() < 5 { cands.len() as int } else { 5 });
            &&& cut_views(r.suggestions@) == shown
            &&& r.total == cands.len()
            &&& r.max_parallel == ready_after_cut(issues@, all, cut_ids(shown), issues@.len() as int)
        }),
{
    let edges = collect_edges(issues);
    let ghost all = edge_views(edges@);
    let mut cands: Vec<CutSuggestion> = Vec::new();
    let mut n: usize = 0;
    while n < issues.len()
        invariant
            n <= issues@.len(),
            all == edge_views(edges@),
            all == open_edges(issues@, issues@.len() as int),
            cut_views(cands@) == cut_candidates(issues@, all, n as int),
        decreases issues@.len() - n,
    {
        let id = issues[n].id.as_str();
        if issues[n].open {
            let bs = blockers_in_exec(&edges, id);
            if bs.len() == 0 {
                let en = enabled_exec(&edges, id);
                if en.len() > 1 {
                    let gain = en.len() - 1;
                    let sorted = sort_strings(en);
                    insert_cut_exec(&mut cands, CutSuggestion { id: issues[n].id.clone(), parallel_gain: gain, enabled_tracks: sorted });
                }
            }
        }
        n += 1;
    }
    let total = cands.len();
    let ghost cv = cut_views(cands@);
    let keep = if total < 5 { total } else { 5 };
    let mut shown = cands;
    shown.truncate(keep);
    assert(cut_views(shown@) =~= cv.take(keep as int));
    let mut ids: Vec<String> = Vec::new();
    let mut k: usize = 0;
    while k < shown.len()
        invariant
            k <= shown@.len(),
            cut_views(shown@) == cv.take(keep as int),
            views(ids@) == cut_ids(cv.take(keep as int)).take(k as int),
        decreases shown@.len() - k,
    {
        proof {
            crate::text::lemma_views_push(ids@, shown@[k as int].id);
            assert(cut_views(shown@)[k as int].0 == shown@[k as int].id@);
            assert(cut_ids(cv.take(keep as int)).take(k + 1) =~= cut_ids(cv.take(keep as int)).take(k as int).push(
                shown@[k as int].id@,
            ));
        }
        ids.push(shown[k].id.clone());
        k += 1;
    }
    assert(cut_ids(cv.take(keep as int)).take(shown@.len() as int) =~= cut_ids(cv.take(keep as int)));
    let max_parallel = count_ready_after(issues, &edges, &ids);
    ParallelCut { suggestions: shown, total, max_parallel }
}

// ---------------------------------------------------------------------------
// Cycle break
// ---------------------------------------------------------------------------

/// A reported cycle that names real issues: at least two, and not one of
/// the detector's markers.
pub open spec fn real_cycle(c: Seq<Seq<char>>) -> bool {
    c.len() >= 2 && c[0] != "CYCLE_DETECTION_TIMEOUT"@ && c[0] != "..."@
}

/// The edges of cycle `c` from position `j` on: each member to the next,
/// and the last back to the first.
pub open spec fn cycle_edges_from(c: Seq<Seq<char>>, j: int) -> Seq<Edge>
    decreases c.len() - j,
{
    if j < 0 || j >= c.len() - 1 {
        seq![(c.last(), c[0])]
    } else {
        seq![(c[j], c[j + 1])] + cycle_edges_from(c, j + 1)
    }
}

/// An edge with the cycles it appears in, once per appearance.
pub type EdgeCycles = (Seq<char>, Seq<char>, Seq<int>);

/// The position of edge `e` in the table.
pub open spec fn edge_slot(t: Seq<EdgeCycles>, e: Edge) -> Option<int>
    decreases t.len(),
{
    if t.len() == 0 {
        None
    } else if t.last().0 == e.0 && t.last().1 == e.1 {
        Some(t.len() - 1)
    } else {
        edge_slot(t.drop_last(), e)
    }
}

/// Records one appearance of edge `e` in cycle `ci`.
pub open spec fn record_edge(t: Seq<EdgeCycles>, e: Edge, ci: int) -> Seq<EdgeCycles> {
    match edge_slot(t, e) {
        Some(k) => t.update(k, (t[k].0, t[k].1, t[k].2.push(ci))),
        None => t.push((e.0, e.1, seq![ci])),
    }
}

/// Records every edge of `es` as appearing in cycle `ci`, in order.
pub open spec fn record_edges(t: Seq<EdgeCycles>, es: Seq<Edge>, ci: int) -> Seq<EdgeCycles>
    decreases es.len(),
{
    if es.len() == 0 {
        t
    } else {
        record_edges(record_edge(t, es[0], ci), es.drop_first(), ci)
    }
}

/// The edge table of the real cycles among `cycles[ci..]`.
pub open spec fn edge_table_from(t: Seq<EdgeCycles>, cycles: Seq<Seq<Seq<char>>>, ci: int) -> Seq<EdgeCycles>
    decreases cycles.len() - ci,
{
    if ci < 0 || ci >= cycles.len() {
        t
    } else if real_cycle(cycles[ci]) {
        edge_table_from(record_edges(t, cycle_edges_from(cycles[ci], 0), ci), cycles, ci + 1)
    } else {
        edge_table_from(t, cycles, ci + 1)
    }
}

/// `a` ranks before `b`: in more cycles, then by source id, then by target id.
pub open spec fn edge_before(a: EdgeCycles, b: EdgeCycles) -> bool {
    a.2.len() > b.2.len() || (a.2.len() == b.2.len() && (text_less(a.0, b.0) || (a.0 == b.0
        && text_less(a.1, b.1))))
}

/// `x` placed before the first entry it ranks before.
pub open spec fn insert_edge(s: Seq<EdgeCycles>, x: EdgeCycles) -> Seq<EdgeCycles>
    decreases s.len(),
{
    if s.len() == 0 {
        seq![x]
    } else if edge_before(x, s[0]) {
        seq![x] + s
    } else {
        seq![s[0]] + insert_edge(s.drop_first(), x)
    }
}

/// The table ranked.
pub open spec fn rank_edges(s: Seq<EdgeCycles>) -> Seq<EdgeCycles>
    decreases s.len(),
{
    if s.len() == 0 {
        Seq::empty()
    } else {
        insert_edge(rank_edges(s.drop_last()), s.last())
    }
}

/// The ranked cycle edges of the reported cycles.
pub open spec fn ranked_cycle_edges(cycles: Seq<Seq<Seq<char>>>) -> Seq<EdgeCycles> {
    rank_edges(edge_table_from(Seq::empty(), cycles, 0))
}

/// How many of the first `n` issues have a blocking dependency on `to`.
pub open spec fn collateral(issues: Seq<InsightIssue>, to: Seq<char>, n: int) -> nat
    decreases n,
{
    if n <= 0 || n > issues.len() {
        0
    } else {
        collateral(issues, to, n - 1) + if waits_on(issues, n - 1, to) { 1nat } else { 0 }
    }
}

/// The table as the specification sees it.
pub open spec fn table_view(t: Seq<(String, String, Vec<usize>)>) -> Seq<EdgeCycles> {
    t.map_values(|x: (String, String, Vec<usize>)| (x.0@, x.1@, x.2@.map_values(|c: usize| c as int)))
}

fn record_edge_exec(t: &mut Vec<(String, String, Vec<usize>)>, from: &str, to: &str, ci: usize)
    ensures
        table_view(final(t)@) == record_edge(table_view(old(t)@), (from@, to@), ci as int),
{
    let ghost tv = table_view(t@);
    let mut k: usize = t.len();
    while k > 0
        invariant
            k <= t@.len(),
            t@ == old(t)@,
            tv == table_view(t@),
            edge_slot(tv, (from@, to@)) == edge_slot(tv.take(k as int), (from@, to@)),
        decreases k,
    {
        let hit = str_eq(t[k - 1].0.as_str(), from) && str_eq(t[k - 1].1.as_str(), to);
        assert(tv.take(k as int).last() == tv[k - 1]);
        assert(tv.take(k as int).drop_last() =~= tv.take(k - 1));
        if hit {
            let ghost before = t@;
            let mut entry = t.remove(k - 1);
            let ghost old_cycles = entry.2@;
            entry.2.push(ci);
            t.insert(k - 1, entry);
            proof {
                assert(entry.2@.map_values(|c: usize| c as int) =~= old_cycles.map_values(|c: usize| c as int).push(
                    ci as int,
                ));
                assert(table_view(t@) =~= tv.update(k - 1, (tv[k - 1].0, tv[k - 1].1, tv[k - 1].2.push(ci as int)))) by {
                    assert(t@ =~= before.remove(k - 1).insert(k - 1, entry));
                    assert forall|j: int| 0 <= j < t@.len() implies table_view(t@)[j] == tv.update(
                        k - 1,
                        (tv[k - 1].0, tv[k - 1].1, tv[k - 1].2.push(ci as int)),
                    )[j] by {
                        if j != k - 1 {
                            assert(t@[j] == before[j]);
                        }
                    }
                }
            }
            return;
        }
        k -= 1;
    }
    assert(tv.take(0) =~= Seq::<EdgeCycles>::empty());
    let mut cs: Vec<usize> = Vec::new();
    cs.push(ci);
    assert(cs@.map_values(|c: usize| c as int) =~= seq![ci as int]);
    let f = crate::text::owned(from);
    let g = crate::text::owned(to);
    let ghost before = t@;
    t.push((f, g, cs));
    proof {
        assert(t@ == before.push((f, g, cs)));
        assert(table_view(t@) =~= tv.push((from@, to@, seq![ci as int])));
    }
}

fn record_cycle(t: &mut Vec<(String, String, Vec<usize>)>, c: &Vec<String>, ci: usize)
    requires
        views(c@).len() >= 2,
    ensures
        table_view(final(t)@) == record_edges(table_view(old(t)@), cycle_edges_from(views(c@), 0), ci as int),
{
    let ghost cv = views(c@);
    let mut j: usize = 0;
    let last = c.len() - 1;
    while j < last
        invariant
            cv == views(c@),
            cv.len() >= 2,
            last == c@.len() - 1,
            j <= last,
            record_edges(table_view(old(t)@), cycle_edges_from(cv, 0), ci as int) == record_edges(
                table_view(t@),
                cycle_edges_from(cv, j as int),
                ci as int,
            ),
        decreases c@.len() - j,
    {
        proof {
            let es = cycle_edges_from(cv, j as int);
            assert(es[0] == (cv[j as int], cv[j + 1]));
            assert(es.drop_first() =~= cycle_edges_from(cv, j + 1));
        }
        record_edge_exec(t, c[j].as_str(), c[j + 1].as_str(), ci);
        j += 1;
    }
    let ghost mid = table_view(t@);
    proof {
        let es = cycle_edges_from(cv, j as int);
        assert(es =~= seq![(cv.last(), cv[0])]);
        assert(es.drop_first() =~= Seq::<Edge>::empty());
        assert(record_edges(mid, es, ci as int) == record_edges(record_edge(mid, es[0], ci as int), es.drop_first(), ci as int));
    }
    record_edge_exec(t, c[last].as_str(), c[0].as_str(), ci);
    assert(c@[last as int]@ == cv.last());
}

/// The cycles as the specification sees them.
pub open spec fn cycle_views(cycles: Seq<Vec<String>>) -> Seq<Seq<Seq<char>>> {
    cycles.map_values(|c: Vec<String>| views(c@))
}

fn edge_table(cycles: &[Vec<String>]) -> (t: Vec<(String, String, Vec<usize>)>)
    ensures
        table_view(t@) == edge_table_from(Seq::empty(), cycle_views(cycles@), 0),
{
    let ghost cs = cycle_views(cycles@);
    let mut t: Vec<(String, String, Vec<usize>)> = Vec::new();
    assert(table_view(t@) =~= Seq::<EdgeCycles>::empty());
    let mut ci: usize = 0;
    while ci < cycles.len()
        invariant
            cs == cycle_views(cycles@),
            ci <= cycles@.len(),
            edge_table_from(Seq::empty(), cs, 0) == edge_table_from(table_view(t@), cs, ci as int),
        decreases cycles@.len() - ci,
    {
        let c = &cycles[ci];
        assert(cs[ci as int] == views(c@));
        let named = c.len() >= 2 && !str_eq(c[0].as_str(), "CYCLE_DETECTION_TIMEOUT") && !str_eq(
            c[0].as_str(),
            "...",
        );
        if named {
            record_cycle(&mut t, c, ci);
        }
        ci += 1;
    }
    t
}

fn insert_edge_exec(v: &mut Vec<(String, String, Vec<usize>)>, x: (String, String, Vec<usize>))
    ensures
        table_view(final(v)@) == insert_edge(table_view(old(v)@), (x.0@, x.1@, x.2@.map_values(|c: usize| c as int))),
{
    let ghost s = table_view(v@);
    let ghost xv = (x.0@, x.1@, x.2@.map_values(|c: usize| c as int));
    let mut p: usize = 0;
    assert(s.take(0) + insert_edge(s.skip(0), xv) =~= insert_edge(s, xv)) by {
        assert(s.skip(0) =~= s);
    }
    while p < v.len()
        invariant
            p <= v@.len(),
            s == table_view(old(v)@),
            v@ == old(v)@,
            xv == (x.0@, x.1@, x.2@.map_values(|c: usize| c as int)),
            insert_edge(s, xv) == s.take(p as int) + insert_edge(s.skip(p as int), xv),
        ensures
            p <= v@.len(),
            v@ == old(v)@,
            insert_edge(s, xv) == s.take(p as int) + insert_edge(s.skip(p as int), xv),
            p < v@.len() ==> edge_before(xv, s[p as int]),
        decreases v@.len() - p,
    {
        let y = &v[p];
        assert(s[p as int] == (y.0@, y.1@, y.2@.map_values(|c: usize| c as int)));
        let before = x.2.len() > y.2.len() || (x.2.len() == y.2.len() && (str_less(x.0.as_str(), y.0.as_str())
            || (str_eq(x.0.as_str(), y.0.as_str()) && str_less(x.1.as_str(), y.1.as_str()))));
        if before {
            break;
        }
        proof {
            let rest = s.skip(p as int);
            assert(rest[0] == s[p as int]);
            assert(rest.drop_first() =~= s.skip(p + 1));
            assert(s.take(p + 1) =~= s.take(p as int).push(s[p as int]));
            assert(s.take(p as int) + (seq![rest[0]] + insert_edge(rest.drop_first(), xv)) =~= s.take(p + 1)
                + insert_edge(s.skip(p + 1), xv));
        }
        p += 1;
    }
    proof {
        let rest = s.skip(p as int);
        if p < s.len() {
            assert(rest[0] == s[p as int]);
        } else {
            assert(rest.len() == 0);
        }
    }
    let ghost old_v = v@;
    v.insert(p, x);
    proof {
        assert(table_view(v@) =~= s.take(p as int) + (seq![xv] + s.skip(p as int))) by {
            assert(v@ == old_v.insert(p as int, x));
            assert forall|k: int| 0 <= k < table_view(v@).len() implies table_view(v@)[k] == (s.take(p as int)
                + (seq![xv] + s.skip(p as int)))[k] by {
                if k < p {
                } else if k == p {
                } else {
                    assert(v@[k] == old_v[k - 1]);
                }
            }
        }
    }
}

fn rank_table(t: Vec<(String, String, Vec<usize>)>) -> (r: Vec<(String, String, Vec<usize>)>)
    ensures
        table_view(r@) == rank_edges(table_view(t@)),
{
    let ghost tv = table_view(t@);
    let mut out: Vec<(String, String, Vec<usize>)> = Vec::new();
    assert(table_view(out@) =~= Seq::<EdgeCycles>::empty());
    let mut rest = t;
    let mut k: usize = 0;
    let n = rest.len();
    let mut items: Vec<(String, String, Vec<usize>)> = Vec::new();
    while rest.len() > 0
        invariant
            tv == table_view(t@),
            rest@.len() + items@.len() == n,
            n == tv.len(),
            table_view(rest@) == tv.take(rest@.len() as int),
            table_view(items@) == tv.skip(rest@.len() as int).reverse(),
        decreases rest@.len(),
    {
        let ghost before_rest = rest@;
        let ghost before_items = items@;
        let e = rest.pop().unwrap();
        proof {
            assert(rest@ == before_rest.drop_last());
            assert(e == before_rest.last());
        }
        items.push(e);
        proof {
            let m = rest@.len() as int;
            assert(table_view(rest@) =~= tv.take(m));
            assert(tv.skip(m).reverse() =~= tv.skip(m + 1).reverse().push(tv[m]));
            assert(table_view(items@) =~= table_view(before_items).push(table_view(before_rest)[m]));
        }
    }
    assert(tv.skip(0) =~= tv);
    while k < n
        invariant
            k <= n,
            n == tv.len(),
            items@.len() == n - k,
            table_view(items@) == tv.skip(k as int).reverse(),
            table_view(out@) == rank_edges(tv.take(k as int)),
        decreases n - k,
    {
        let ghost before_items = items@;
        let e = items.pop().unwrap();
        proof {
            assert(e == before_items.last());
            assert(tv.skip(k as int).reverse().last() == tv[k as int]);
            assert(table_view(items@) =~= tv.skip(k + 1).reverse()) by {
                assert(items@ == before_items.drop_last());
                assert(tv.skip(k as int).reverse().drop_last() =~= tv.skip(k + 1).reverse());
            }
            assert(tv.take(k + 1).drop_last() =~= tv.take(k as int));
            assert(tv.take(k + 1).last() == tv[k as int]);
            assert(table_view(before_items).last() == (e.0@, e.1@, e.2@.map_values(|c: usize| c as int)));
        }
        insert_edge_exec(&mut out, e);
        k += 1;
    }
    assert(tv.take(n as int) =~= tv);
    out
}

fn collateral_exec(issues: &[InsightIssue], to: &str) -> (r: usize)
    ensures
        r == collateral(issues@, to@, issues@.len() as int),
{
    let mut c: usize = 0;
    let mut n: usize = 0;
    while n < issues.len()
        invariant
            n <= issues@.len(),
            c == collateral(issues@, to@, n as int),
            c <= n,
        decreases issues@.len() - n,
    {
        let (waits, _) = wait_state(issues, n, to, &Vec::new());
        if waits {
            c += 1;
        }
        n += 1;
    }
    c
}

/// One cycle-break suggestion: the edge, the cycles it appears in (once per
/// appearance) and how many issues depend on its target.
pub struct CycleEdge {
    pub from: String,
    pub to: String,
    pub cycles: Vec<usize>,
    pub collateral: usize,
}

/// The cycle-break suggestions.
pub struct CycleBreak {
    /// At most five edges, in rank order.
    pub suggestions: Vec<CycleEdge>,
    /// How many distinct cycle edges there were.
    pub total: usize,
}

/// The suggestions as the specification sees them.
pub open spec fn cycle_edge_views(v: Seq<CycleEdge>) -> Seq<(EdgeCycles, nat)> {
    v.map_values(|e: CycleEdge| ((e.from@, e.to@, e.cycles@.map_values(|c: usize| c as int)), e.collateral as nat))
}

/// The cycle-break suggestions for the reported cycles: every edge of a
/// real cycle (each member to the next and the last back to the first),
/// ranked by the number of cycles it appears in, then by source and target
/// id; at most five, each with the number of issues blocked by its target.
pub fn cycle_break(issues: &[InsightIssue], cycles: &[Vec<String>]) -> (r: CycleBreak)
    ensures
        ({
            let ranked = ranked_cycle_edges(cycle_views(cycles@));
            let shown = ranked.take(if ranked.len() < 5 { ranked.len() as int } else { 5 });
            &&& r.total == ranked.len()
            &&& r.suggestions@.len() == shown.len()
            &&& forall|k: int|
                0 <= k < shown.len() ==> #[trigger] cycle_edge_views(r.suggestions@)[k] == (
                    shown[k],
                    collateral(issues@, shown[k].1, issues@.len() as int),
                )
        }),
{
    let table = edge_table(cycles);
    let ranked = rank_table(table);
    let ghost rv = table_view(ranked@);
    let total = ranked.len();
    let keep = if total < 5 { total } else { 5 };
    let mut shown = ranked;
    shown.truncate(keep);
    assert(table_view(shown@) =~= rv.take(keep as int));
    let mut out: Vec<CycleEdge> = Vec::new();
    let mut rest = shown;
    let ghost sv = table_view(rest@);
    let mut items: Vec<(String, String, Vec<usize>)> = Vec::new();
    while rest.len() > 0
        invariant
            rest@.len() + items@.len() == keep,
            sv.len() == keep,
            table_view(rest@) == sv.take(rest@.len() as int),
            table_view(items@) == sv.skip(rest@.len() as int).reverse(),
        decreases rest@.len(),
    {
        let ghost before_rest = rest@;
        let ghost before_items = items@;
        let e = rest.pop().unwrap();
        proof {
            assert(rest@ == before_rest.drop_last());
            assert(e == before_rest.last());
        }
        items.push(e);
        proof {
            let m = rest@.len() as int;
            assert(table_view(rest@) =~= sv.take(m));
            assert(sv.skip(m).reverse() =~= sv.skip(m + 1).reverse().push(sv[m]));
            assert(table_view(items@) =~= table_view(before_items).push(table_view(before_rest)[m]));
        }
    }
    assert(sv.skip(0) =~= sv);
    let mut k: usize = 0;
    while k < keep
        invariant
            k <= keep,
            sv.len() == keep,
            sv == rv.take(keep as int),
            items@.len() == keep - k,
            table_view(items@) == sv.skip(k as int).reverse(),
            out@.len() == k,
            forall|j: int|
                0 <= j < k ==> #[trigger] cycle_edge_views(out@)[j] == (sv[j], collateral(issues@, sv[j].1, issues@.len() as int)),
        decreases keep - k,
    {
        let ghost before_items = items@;
        let e = items.pop().unwrap();
        proof {
            assert(e == before_items.last());
            assert(sv.skip(k as int).reverse().last() == sv[k as int]);
            assert(items@ == before_items.drop_last());
            assert(table_view(items@) =~= sv.skip(k + 1).reverse()) by {
                assert(sv.skip(k as int).reverse().drop_last() =~= sv.skip(k + 1).reverse());
            }
            assert(table_view(before_items).last() == (e.0@, e.1@, e.2@.map_values(|c: usize| c as int)));
        }
        let coll = collateral_exec(issues, e.1.as_str());
        let (from, to, cs) = e;
        let ghost before_out = out@;
        out.push(CycleEdge { from, to, cycles: cs, collateral: coll });
        proof {
            assert forall|j: int| 0 <= j < k + 1 implies #[trigger] cycle_edge_views(out@)[j] == (
                sv[j],
                collateral(issues@, sv[j].1, issues@.len() as int),
            ) by {
                if j < k {
                    assert(out@[j] == before_out[j]);
                    assert(cycle_edge_views(before_out)[j] == cycle_edge_views(out@)[j]);
                }
            }
        }
        k += 1;
    }
    CycleBreak { suggestions: out, total }
}

// ---------------------------------------------------------------------------
// K-paths
// ---------------------------------------------------------------------------

/// The last position of `t` among the first `n` of `s` (an id lookup keeps
/// the last entry of an id).
pub open spec fn last_pos_within(s: Seq<Seq<char>>, t: Seq<char>, n: int) -> Option<int>
    decreases n,
{
    if n <= 0 || n > s.len() {
        None
    } else if s[n - 1] == t {
        Some(n - 1)
    } else {
        last_pos_within(s, t, n - 1)
    }
}

/// The last position of `t` in `s`.
pub open spec fn last_pos(s: Seq<Seq<char>>, t: Seq<char>) -> Option<int> {
    last_pos_within(s, t, s.len() as int)
}

/// The graph edges (blocker, blocked) given by the dependencies `deps` of
/// the node at `to`, in dependency order: one per dependency naming a node.
pub open spec fn dep_edges(nodes: Seq<Seq<char>>, to: int, deps: Seq<Seq<char>>) -> Seq<(int, int)>
    decreases deps.len(),
{
    if deps.len() == 0 {
        Seq::empty()
    } else {
        let rest = dep_edges(nodes, to, deps.drop_last());
        match last_pos(nodes, deps.last()) {
            Some(f) => rest.push((f, to)),
            None => rest,
        }
    }
}

/// The graph edges of the first `n` issues, by issue in input order; only
/// open issues give edges.
pub open spec fn kp_edges(issues: Seq<InsightIssue>, nodes: Seq<Seq<char>>, n: int) -> Seq<(int, int)>
    decreases n,
{
    if n <= 0 || n > issues.len() {
        Seq::empty()
    } else {
        let rest = kp_edges(issues, nodes, n - 1);
        let i = issues[n - 1];
        if i.open {
            match last_pos(nodes, i.id@) {
                Some(to) => rest + dep_edges(nodes, to, views(i.blocking@)),
                None => rest,
            }
        } else {
            rest
        }
    }
}

/// The targets of the edges leaving `u`, in edge order.
pub open spec fn targets_of(es: Seq<(int, int)>, u: int) -> Seq<int>
    decreases es.len(),
{
    if es.len() == 0 {
        Seq::empty()
    } else if es.last().0 == u {
        targets_of(es.drop_last(), u).push(es.last().1)
    } else {
        targets_of(es.drop_last(), u)
    }
}

/// How many edges enter `v`.
pub open spec fn in_degree(es: Seq<(int, int)>, v: int) -> int
    decreases es.len(),
{
    if es.len() == 0 {
        0
    } else {
        in_degree(es.drop_last(), v) + if es.last().1 == v { 1int } else { 0 }
    }
}

/// `x` placed before the first larger element.
pub open spec fn insert_int(s: Seq<int>, x: int) -> Seq<int>
    decreases s.len(),
{
    if s.len() == 0 {
        seq![x]
    } else if x < s[0] {
        seq![x] + s
    } else {
        seq![s[0]] + insert_int(s.drop_first(), x)
    }
}

/// Ascending order, by insertion.
pub open spec fn sort_ints(s: Seq<int>) -> Seq<int>
    decreases s.len(),
{
    if s.len() == 0 {
        Seq::empty()
    } else {
        insert_int(sort_ints(s.drop_last()), s.last())
    }
}

/// The sorted successor lists of nodes `0..m`.
pub open spec fn kp_adjacency(es: Seq<(int, int)>, m: nat) -> Seq<Seq<int>> {
    Seq::new(m, |u: int| sort_ints(targets_of(es, u)))
}

/// The in-degrees of nodes `0..m`.
pub open spec fn kp_in_degrees(es: Seq<(int, int)>, m: nat) -> Seq<int> {
    Seq::new(m, |v: int| in_degree(es, v))
}

/// The smallest node at or after `k` that is not yet taken and has no
/// remaining in-edge.
pub open spec fn min_ready_from(temp: Seq<int>, taken: Seq<bool>, k: int) -> Option<int>
    decreases temp.len() - k,
{
    if k < 0 || k >= temp.len() {
        None
    } else if temp[k] == 0 && !taken[k] {
        Some(k)
    } else {
        min_ready_from(temp, taken, k + 1)
    }
}

/// One remaining in-edge fewer for each of `vs`, in order.
pub open spec fn release(temp: Seq<int>, vs: Seq<int>) -> Seq<int>
    decreases vs.len(),
{
    if vs.len() == 0 {
        temp
    } else {
        let v = vs[0];
        let next = if 0 <= v < temp.len() && temp[v] > 0 {
            temp.update(v, temp[v] - 1)
        } else {
            temp
        };
        release(next, vs.drop_first())
    }
}

/// Kahn's topological order, always taking the smallest ready node, for at
/// most `fuel` more steps (each step takes a node not yet taken, so `m`
/// steps take every node that can be taken).
pub open spec fn kahn(adj: Seq<Seq<int>>, temp: Seq<int>, taken: Seq<bool>, topo: Seq<int>, fuel: nat) -> Seq<int>
    decreases fuel,
{
    if fuel == 0 {
        topo
    } else {
        match min_ready_from(temp, taken, 0) {
            None => topo,
            Some(u) => kahn(adj, release(temp, adj[u]), taken.update(u, true), topo.push(u), (fuel - 1) as nat),
        }
    }
}

/// Relaxes the edges from `u` to each of `vs`: a longer distance wins, and
/// on an equal one the smaller predecessor.
pub open spec fn relax(dist: Seq<int>, pred: Seq<Option<int>>, u: int, vs: Seq<int>) -> (Seq<int>, Seq<Option<int>>)
    decreases vs.len(),
{
    if vs.len() == 0 {
        (dist, pred)
    } else {
        let v = vs[0];
        let nd = dist[u] + 1;
        let next = if nd > dist[v] {
            (dist.update(v, nd), pred.update(v, Some(u)))
        } else if nd == dist[v] && (pred[v] is None || u < pred[v]->0) {
            (dist, pred.update(v, Some(u)))
        } else {
            (dist, pred)
        };
        relax(next.0, next.1, u, vs.drop_first())
    }
}

/// The longest-path distances and predecessors after relaxing the nodes of
/// `topo` from position `k` on.
pub open spec fn longest_from(
    adj: Seq<Seq<int>>,
    topo: Seq<int>,
    k: int,
    dist: Seq<int>,
    pred: Seq<Option<int>>,
) -> (Seq<int>, Seq<Option<int>>)
    decreases topo.len() - k,
{
    if k < 0 || k >= topo.len() {
        (dist, pred)
    } else {
        let u = topo[k];
        let r = relax(dist, pred, u, adj[u]);
        longest_from(adj, topo, k + 1, r.0, r.1)
    }
}

/// Path end `a` ranks before `b`: longer first, then the smaller id.
pub open spec fn end_before(dist: Seq<int>, nodes: Seq<Seq<char>>, a: int, b: int) -> bool {
    dist[a] > dist[b] || (dist[a] == dist[b] && text_less(nodes[a], nodes[b]))
}

/// `x` placed before the first end it ranks before.
pub open spec fn insert_end(dist: Seq<int>, nodes: Seq<Seq<char>>, s: Seq<int>, x: int) -> Seq<int>
    decreases s.len(),
{
    if s.len() == 0 {
        seq![x]
    } else if end_before(dist, nodes, x, s[0]) {
        seq![x] + s
    } else {
        seq![s[0]] + insert_end(dist, nodes, s.drop_first(), x)
    }
}

/// The nodes `0..n` ranked as path ends.
pub open spec fn rank_ends(dist: Seq<int>, nodes: Seq<Seq<char>>, n: int) -> Seq<int>
    decreases n,
{
    if n <= 0 {
        Seq::empty()
    } else {
        insert_end(dist, nodes, rank_ends(dist, nodes, n - 1), n - 1)
    }
}

/// The walk back from `x` along predecessors, `x` first, for at most
/// `fuel` steps (predecessors run back along the topological order, so a
/// walk never needs as many steps as there are nodes).
pub open spec fn walk_back(pred: Seq<Option<int>>, x: int, fuel: nat) -> Seq<int>
    decreases fuel,
{
    if fuel == 0 || !(0 <= x < pred.len()) {
        seq![x]
    } else {
        match pred[x] {
            None => seq![x],
            Some(p) => seq![x] + walk_back(pred, p, (fuel - 1) as nat),
        }
    }
}

/// The path ending at `x`, from its source.
pub open spec fn path_to(pred: Seq<Option<int>>, x: int) -> Seq<int> {
    walk_back(pred, x, pred.len()).reverse()
}

/// What the ranked ends from position `k` add: the number of non-trivial
/// paths, and the distinct sources seen (in first-seen order).
pub open spec fn sources_from(
    ends: Seq<int>,
    dist: Seq<int>,
    pred: Seq<Option<int>>,
    k: int,
    count: int,
    seen: Seq<int>,
) -> (int, Seq<int>)
    decreases ends.len() - k,
{
    if k < 0 || k >= ends.len() {
        (count, seen)
    } else {
        let e = ends[k];
        if dist[e] == 0 {
            sources_from(ends, dist, pred, k + 1, count, seen)
        } else {
            let h = path_to(pred, e)[0];
            sources_from(ends, dist, pred, k + 1, count + 1, if seen.contains(h) { seen } else { seen.push(h) })
        }
    }
}

/// One emitted path: its nodes (at most 50) and whether it was cut.
pub type PathView = (Seq<int>, bool);

/// The paths emitted from ranked end `k` on: at most five, non-trivial,
/// with distinct sources, each cut to its first 50 nodes.
pub open spec fn paths_from(
    ends: Seq<int>,
    dist: Seq<int>,
    pred: Seq<Option<int>>,
    k: int,
    paths: Seq<PathView>,
    used: Seq<int>,
) -> Seq<PathView>
    decreases ends.len() - k,
{
    if k < 0 || k >= ends.len() || paths.len() >= 5 {
        paths
    } else {
        let e = ends[k];
        if dist[e] == 0 {
            paths_from(ends, dist, pred, k + 1, paths, used)
        } else {
            let chain = path_to(pred, e);
            if used.contains(chain[0]) {
                paths_from(ends, dist, pred, k + 1, paths, used)
            } else {
                let cut = chain.len() > 50;
                let kept = if cut { chain.take(50) } else { chain };
                paths_from(ends, dist, pred, k + 1, paths.push((kept, cut)), used.push(chain[0]))
            }
        }
    }
}

/// The k-paths of the open blocking graph: the emitted paths (as node
/// positions), the number of non-trivial paths, and the number of distinct
/// sources among them.
pub open spec fn k_paths_spec(issues: Seq<InsightIssue>) -> (Seq<PathView>, int, int) {
    let nodes = topk_candidates(issues);
    let m = nodes.len();
    let es = kp_edges(issues, nodes, issues.len() as int);
    let adj = kp_adjacency(es, m);
    let topo = kahn(adj, kp_in_degrees(es, m), Seq::new(m, |i: int| false), Seq::empty(), m);
    let lp = longest_from(adj, topo, 0, Seq::new(m, |i: int| 0int), Seq::new(m, |i: int| None::<int>));
    let ends = rank_ends(lp.0, nodes, m as int);
    let src = sources_from(ends, lp.0, lp.1, 0, 0, Seq::empty());
    (paths_from(ends, lp.0, lp.1, 0, Seq::empty(), Seq::empty()), src.0, src.1.len() as int)
}

/// The edges as integer pairs.
pub open spec fn pair_ints(v: Seq<(usize, usize)>) -> Seq<(int, int)> {
    v.map_values(|e: (usize, usize)| (e.0 as int, e.1 as int))
}

/// The positions as integers.
pub open spec fn usize_ints(v: Seq<usize>) -> Seq<int> {
    v.map_values(|x: usize| x as int)
}

fn last_pos_exec(s: &Vec<String>, t: &str) -> (r: Option<usize>)
    ensures
        match r {
            Some(i) => last_pos(views(s@), t@) == Some(i as int) && i < s@.len(),
            None => last_pos(views(s@), t@) is None,
        },
{
    let ghost sv = views(s@);
    let mut k: usize = s.len();
    while k > 0
        invariant
            sv == views(s@),
            k <= s@.len(),
            last_pos(sv, t@) == last_pos_within(sv, t@, k as int),
        decreases k,
    {
        if str_eq(s[k - 1].as_str(), t) {
            return Some(k - 1);
        }
        k -= 1;
    }
    None
}

fn kp_edges_exec(issues: &[InsightIssue], nodes: &Vec<String>) -> (r: Vec<(usize, usize)>)
    ensures
        pair_ints(r@) == kp_edges(issues@, views(nodes@), issues@.len() as int),
        forall|j: int| 0 <= j < r@.len() ==> (#[trigger] r@[j]).0 < nodes@.len() && r@[j].1 < nodes@.len(),
{
    let ghost nv = views(nodes@);
    let mut out: Vec<(usize, usize)> = Vec::new();
    let mut n: usize = 0;
    while n < issues.len()
        invariant
            nv == views(nodes@),
            n <= issues@.len(),
            pair_ints(out@) == kp_edges(issues@, nv, n as int),
            forall|j: int| 0 <= j < out@.len() ==> (#[trigger] out@[j]).0 < nodes@.len() && out@[j].1 < nodes@.len(),
        decreases issues@.len() - n,
    {
        if issues[n].open {
            match last_pos_exec(nodes, issues[n].id.as_str()) {
                Some(to) => {
                    let deps = &issues[n].blocking;
                    let ghost dv = views(deps@);
                    let ghost start = pair_ints(out@);
                    let mut k: usize = 0;
                    while k < deps.len()
                        invariant
                            nv == views(nodes@),
                            n < issues@.len(),
                            deps == issues@[n as int].blocking,
                            dv == views(deps@),
                            to < nodes@.len(),
                            k <= deps@.len(),
                            pair_ints(out@) == start + dep_edges(nv, to as int, dv.take(k as int)),
                            forall|j: int| 0 <= j < out@.len() ==> (#[trigger] out@[j]).0 < nodes@.len() && out@[j].1 < nodes@.len(),
                        decreases deps@.len() - k,
                    {
                        assert(dv.take(k + 1).drop_last() =~= dv.take(k as int));
                        assert(dv.take(k + 1).last() == deps@[k as int]@);
                        match last_pos_exec(nodes, deps[k].as_str()) {
                            Some(f) => {
                                let ghost before = out@;
                                out.push((f, to));
                                assert(pair_ints(out@) =~= pair_ints(before).push((f as int, to as int)));
                            },
                            None => {},
                        }
                        k += 1;
                    }
                    assert(dv.take(deps@.len() as int) =~= dv);
                },
                None => {},
            }
        }
        n += 1;
    }
    out
}

fn targets_exec(es: &Vec<(usize, usize)>, u: usize) -> (r: Vec<usize>)
    ensures
        usize_ints(r@) == targets_of(pair_ints(es@), u as int),
        forall|j: int| 0 <= j < r@.len() ==> exists|i: int| 0 <= i < es@.len() && #[trigger] r@[j] == es@[i].1,
{
    let ghost ev = pair_ints(es@);
    let mut out: Vec<usize> = Vec::new();
    let mut k: usize = 0;
    while k < es.len()
        invariant
            ev == pair_ints(es@),
            k <= es@.len(),
            usize_ints(out@) == targets_of(ev.take(k as int), u as int),
            forall|j: int| 0 <= j < out@.len() ==> exists|i: int| 0 <= i < es@.len() && #[trigger] out@[j] == es@[i].1,
        decreases es@.len() - k,
    {
        assert(ev.take(k + 1).drop_last() =~= ev.take(k as int));
        assert(ev.take(k + 1).last() == ev[k as int]);
        if es[k].0 == u {
            let ghost before = out@;
            out.push(es[k].1);
            assert(usize_ints(out@) =~= usize_ints(before).push(es@[k as int].1 as int));
            assert(out@[out@.len() - 1] == es@[k as int].1);
        }
        k += 1;
    }
    assert(ev.take(es@.len() as int) =~= ev);
    out
}

fn insert_usize(v: &mut Vec<usize>, x: usize)
    ensures
        usize_ints(final(v)@) == insert_int(usize_ints(old(v)@), x as int),
        forall|j: int| 0 <= j < final(v)@.len() ==> #[trigger] final(v)@[j] == x || old(v)@.contains(final(v)@[j]),
{
    let ghost s = usize_ints(v@);
    let mut p: usize = 0;
    assert(s.take(0) + insert_int(s.skip(0), x as int) =~= insert_int(s, x as int)) by {
        assert(s.skip(0) =~= s);
    }
    while p < v.len()
        invariant
            p <= v@.len(),
            s == usize_ints(old(v)@),
            v@ == old(v)@,
            insert_int(s, x as int) == s.take(p as int) + insert_int(s.skip(p as int), x as int),
        ensures
            p <= v@.len(),
            v@ == old(v)@,
            insert_int(s, x as int) == s.take(p as int) + insert_int(s.skip(p as int), x as int),
            p < v@.len() ==> x < v@[p as int],
        decreases v@.len() - p,
    {
        if x < v[p] {
            break;
        }
        proof {
            let rest = s.skip(p as int);
            assert(rest[0] == s[p as int]);
            assert(rest.drop_first() =~= s.skip(p + 1));
            assert(s.take(p + 1) =~= s.take(p as int).push(s[p as int]));
            assert(s.take(p as int) + (seq![rest[0]] + insert_int(rest.drop_first(), x as int)) =~= s.take(p + 1)
                + insert_int(s.skip(p + 1), x as int));
        }
        p += 1;
    }
    proof {
        let rest = s.skip(p as int);
        if p < s.len() {
            assert(rest[0] == s[p as int]);
        } else {
            assert(rest.len() == 0);
        }
    }
    let ghost old_v = v@;
    v.insert(p, x);
    proof {
        assert(usize_ints(v@) =~= s.take(p as int) + (seq![x as int] + s.skip(p as int))) by {
            assert(v@ == old_v.insert(p as int, x));
            assert forall|k: int| 0 <= k < usize_ints(v@).len() implies usize_ints(v@)[k] == (s.take(p as int)
                + (seq![x as int] + s.skip(p as int)))[k] by {
                if k < p {
                } else if k == p {
                } else {
                    assert(v@[k] == old_v[k - 1]);
                }
            }
        }
        assert forall|j: int| 0 <= j < v@.len() implies #[trigger] v@[j] == x || old_v.contains(v@[j]) by {
            if j < p {
                assert(v@[j] == old_v[j]);
            } else if j > p {
                assert(v@[j] == old_v[j - 1]);
            }
        }
    }
}

fn sort_usize(v: &Vec<usize>) -> (r: Vec<usize>)
    ensures
        usize_ints(r@) == sort_ints(usize_ints(v@)),
        forall|j: int| 0 <= j < r@.len() ==> v@.contains(#[trigger] r@[j]),
{
    let mut out: Vec<usize> = Vec::new();
    let mut k: usize = 0;
    while k < v.len()
        invariant
            k <= v@.len(),
            usize_ints(out@) == sort_ints(usize_ints(v@).take(k as int)),
            forall|j: int| 0 <= j < out@.len() ==> v@.contains(#[trigger] out@[j]),
        decreases v@.len() - k,
    {
        assert(usize_ints(v@).take(k + 1).drop_last() =~= usize_ints(v@).take(k as int));
        assert(usize_ints(v@).take(k + 1).last() == v@[k as int] as int);
        let ghost before = out@;
        insert_usize(&mut out, v[k]);
        assert forall|j: int| 0 <= j < out@.len() implies v@.contains(#[trigger] out@[j]) by {
            if out@[j] == v@[k as int] {
            } else {
                assert(before.contains(out@[j]));
                let i = choose|i: int| 0 <= i < before.len() && before[i] == out@[j];
                assert(v@.contains(before[i]));
            }
        }
        k += 1;
    }
    assert(usize_ints(v@).take(v@.len() as int) =~= usize_ints(v@));
    out
}

fn adjacency_exec(es: &Vec<(usize, usize)>, m: usize) -> (adj: Vec<Vec<usize>>)
    requires
        forall|j: int| 0 <= j < es@.len() ==> (#[trigger] es@[j]).0 < m && es@[j].1 < m,
    ensures
        adj@.len() == m,
        forall|u: int| 0 <= u < m ==> usize_ints(#[trigger] adj@[u]@) == kp_adjacency(pair_ints(es@), m as nat)[u],
        forall|u: int, j: int| 0 <= u < m && 0 <= j < adj@[u]@.len() ==> #[trigger] adj@[u]@[j] < m,
{
    let mut adj: Vec<Vec<usize>> = Vec::new();
    let mut u: usize = 0;
    while u < m
        invariant
            u <= m,
            adj@.len() == u,
            forall|j: int| 0 <= j < es@.len() ==> (#[trigger] es@[j]).0 < m && es@[j].1 < m,
            forall|w: int| 0 <= w < u ==> usize_ints(#[trigger] adj@[w]@) == kp_adjacency(pair_ints(es@), m as nat)[w],
            forall|w: int, j: int| 0 <= w < u && 0 <= j < adj@[w]@.len() ==> #[trigger] adj@[w]@[j] < m,
        decreases m - u,
    {
        let t = targets_exec(es, u);
        let st = sort_usize(&t);
        assert forall|j: int| 0 <= j < st@.len() implies #[trigger] st@[j] < m by {
            assert(t@.contains(st@[j]));
            let a = choose|a: int| 0 <= a < t@.len() && t@[a] == st@[j];
            let i = choose|i: int| 0 <= i < es@.len() && #[trigger] t@[a] == es@[i].1;
        }
        adj.push(st);
        u += 1;
    }
    adj
}

fn in_degrees_exec(es: &Vec<(usize, usize)>, m: usize) -> (r: Vec<usize>)
    ensures
        r@.len() == m,
        forall|v: int| 0 <= v < m ==> #[trigger] r@[v] as int == in_degree(pair_ints(es@), v),
{
    let ghost ev = pair_ints(es@);
    let mut out: Vec<usize> = Vec::new();
    let mut v: usize = 0;
    while v < m
        invariant
            ev == pair_ints(es@),
            v <= m,
            out@.len() == v,
            forall|w: int| 0 <= w < v ==> #[trigger] out@[w] as int == in_degree(ev, w),
        decreases m - v,
    {
        let mut c: usize = 0;
        let mut k: usize = 0;
        while k < es.len()
            invariant
                ev == pair_ints(es@),
                k <= es@.len(),
                c as int == in_degree(ev.take(k as int), v as int),
                c <= k,
            decreases es@.len() - k,
        {
            assert(ev.take(k + 1).drop_last() =~= ev.take(k as int));
            assert(ev.take(k + 1).last() == ev[k as int]);
            if es[k].1 == v {
                c += 1;
            }
            k += 1;
        }
        assert(ev.take(es@.len() as int) =~= ev);
        out.push(c);
        v += 1;
    }
    out
}

fn min_ready_exec(temp: &Vec<usize>, taken: &Vec<bool>) -> (r: Option<usize>)
    requires
        temp@.len() == taken@.len(),
    ensures
        match r {
            Some(u) => min_ready_from(usize_ints(temp@), taken@, 0) == Some(u as int) && u < temp@.len(),
            None => min_ready_from(usize_ints(temp@), taken@, 0) is None,
        },
{
    let ghost tv = usize_ints(temp@);
    let mut k: usize = 0;
    while k < temp.len()
        invariant
            tv == usize_ints(temp@),
            temp@.len() == taken@.len(),
            k <= temp@.len(),
            min_ready_from(tv, taken@, 0) == min_ready_from(tv, taken@, k as int),
        decreases temp@.len() - k,
    {
        if temp[k] == 0 && !taken[k] {
            return Some(k);
        }
        k += 1;
    }
    None
}

fn release_exec(temp: &mut Vec<usize>, vs: &Vec<usize>)
    requires
        forall|j: int| 0 <= j < vs@.len() ==> #[trigger] vs@[j] < old(temp)@.len(),
    ensures
        usize_ints(final(temp)@) == release(usize_ints(old(temp)@), usize_ints(vs@)),
        final(temp)@.len() == old(temp)@.len(),
{
    let ghost vv = usize_ints(vs@);
    let mut j: usize = 0;
    assert(vv.skip(0) =~= vv);
    while j < vs.len()
        invariant
            vv == usize_ints(vs@),
            j <= vs@.len(),
            temp@.len() == old(temp)@.len(),
            forall|i: int| 0 <= i < vs@.len() ==> #[trigger] vs@[i] < old(temp)@.len(),
            release(usize_ints(old(temp)@), vv) == release(usize_ints(temp@), vv.skip(j as int)),
        decreases vs@.len() - j,
    {
        let v = vs[j];
        let ghost before = usize_ints(temp@);
        proof {
            let rest = vv.skip(j as int);
            assert(rest[0] == v as int);
            assert(rest.drop_first() =~= vv.skip(j + 1));
        }
        if temp[v] > 0 {
            let t = temp[v] - 1;
            temp.set(v, t);
            assert(usize_ints(temp@) =~= before.update(v as int, before[v as int] - 1));
        }
        j += 1;
    }
    assert(vv.skip(vs@.len() as int) =~= Seq::<int>::empty());
}

/// The adjacency as integer lists.
pub open spec fn adj_ints(adj: Seq<Vec<usize>>) -> Seq<Seq<int>> {
    adj.map_values(|a: Vec<usize>| usize_ints(a@))
}

fn kahn_exec(adj: &Vec<Vec<usize>>, indeg: Vec<usize>) -> (topo: Vec<usize>)
    requires
        indeg@.len() == adj@.len(),
        forall|u: int, j: int| 0 <= u < adj@.len() && 0 <= j < adj@[u]@.len() ==> #[trigger] adj@[u]@[j] < adj@.len(),
    ensures
        usize_ints(topo@) == kahn(
            adj_ints(adj@),
            usize_ints(indeg@),
            Seq::new(adj@.len(), |i: int| false),
            Seq::empty(),
            adj@.len(),
        ),
        topo@.len() <= adj@.len(),
        forall|j: int| 0 <= j < topo@.len() ==> #[trigger] topo@[j] < adj@.len(),
{
    let m = adj.len();
    let ghost av = adj_ints(adj@);
    let mut temp = indeg;
    let mut taken: Vec<bool> = Vec::new();
    let mut i: usize = 0;
    while i < m
        invariant
            i <= m,
            taken@.len() == i,
            forall|j: int| 0 <= j < i ==> !#[trigger] taken@[j],
        decreases m - i,
    {
        taken.push(false);
        i += 1;
    }
    assert(taken@ =~= Seq::new(m as nat, |i: int| false));
    let mut topo: Vec<usize> = Vec::new();
    assert(usize_ints(topo@) =~= Seq::<int>::empty());
    let mut fuel: usize = m;
    while fuel > 0
        invariant
            m == adj@.len(),
            av == adj_ints(adj@),
            temp@.len() == m,
            taken@.len() == m,
            topo@.len() + fuel == m,
            forall|u: int, j: int| 0 <= u < adj@.len() && 0 <= j < adj@[u]@.len() ==> #[trigger] adj@[u]@[j] < adj@.len(),
            forall|j: int| 0 <= j < topo@.len() ==> #[trigger] topo@[j] < m,
            kahn(av, usize_ints(indeg@), Seq::new(m as nat, |i: int| false), Seq::empty(), m as nat) == kahn(
                av,
                usize_ints(temp@),
                taken@,
                usize_ints(topo@),
                fuel as nat,
            ),
        ensures
            usize_ints(topo@) == kahn(av, usize_ints(indeg@), Seq::new(m as nat, |i: int| false), Seq::empty(), m as nat),
            topo@.len() <= m,
            forall|j: int| 0 <= j < topo@.len() ==> #[trigger] topo@[j] < m,
        decreases fuel,
    {
        match min_ready_exec(&temp, &taken) {
            None => {
                break;
            },
            Some(u) => {
                assert(av[u as int] == usize_ints(adj@[u as int]@));
                release_exec(&mut temp, &adj[u]);
                taken.set(u, true);
                let ghost before = topo@;
                topo.push(u);
                assert(usize_ints(topo@) =~= usize_ints(before).push(u as int));
                fuel -= 1;
            },
        }
    }
    topo
}

/// The distances as integers.
pub open spec fn u128_ints(v: Seq<u128>) -> Seq<int> {
    v.map_values(|x: u128| x as int)
}

/// The predecessors as optional integers.
pub open spec fn pred_ints(v: Seq<Option<usize>>) -> Seq<Option<int>> {
    v.map_values(|x: Option<usize>| match x {
        Some(p) => Some(p as int),
        None => None,
    })
}

fn relax_exec(
    dist: &mut Vec<u128>,
    pred: &mut Vec<Option<usize>>,
    u: usize,
    vs: &Vec<usize>,
    Ghost(bound): Ghost<int>,
)
    requires
        old(dist)@.len() == old(pred)@.len(),
        u < old(dist)@.len(),
        forall|j: int| 0 <= j < vs@.len() ==> #[trigger] vs@[j] < old(dist)@.len(),
        forall|x: int| 0 <= x < old(dist)@.len() ==> #[trigger] old(dist)@[x] as int <= bound,
        bound + vs@.len() < 0xffff_ffff_ffff_ffff_ffff_ffff_ffff_ffff,
        forall|x: int| 0 <= x < old(pred)@.len() ==> match #[trigger] old(pred)@[x] {
            Some(p) => p < old(dist)@.len(),
            None => true,
        },
    ensures
        (u128_ints(final(dist)@), pred_ints(final(pred)@)) == relax(
            u128_ints(old(dist)@),
            pred_ints(old(pred)@),
            u as int,
            usize_ints(vs@),
        ),
        final(dist)@.len() == old(dist)@.len(),
        final(pred)@.len() == old(pred)@.len(),
        forall|x: int| 0 <= x < final(dist)@.len() ==> #[trigger] final(dist)@[x] as int <= bound + vs@.len(),
        forall|x: int| 0 <= x < final(pred)@.len() ==> match #[trigger] final(pred)@[x] {
            Some(p) => p < final(dist)@.len() && (p == u || old(pred)@[x] == Some(p)),
            None => old(pred)@[x] is None,
        },
{
    let ghost vv = usize_ints(vs@);
    let ghost d0 = u128_ints(dist@);
    let ghost p0 = pred_ints(pred@);
    let ghost pred_start = pred@;
    let mut j: usize = 0;
    assert(vv.skip(0) =~= vv);
    while j < vs.len()
        invariant
            vv == usize_ints(vs@),
            j <= vs@.len(),
            dist@.len() == old(dist)@.len(),
            pred@.len() == old(pred)@.len(),
            old(dist)@.len() == old(pred)@.len(),
            pred_start == old(pred)@,
            u < dist@.len(),
            forall|i: int| 0 <= i < vs@.len() ==> #[trigger] vs@[i] < old(dist)@.len(),
            forall|x: int| 0 <= x < dist@.len() ==> #[trigger] dist@[x] as int <= bound + j,
            bound + vs@.len() < 0xffff_ffff_ffff_ffff_ffff_ffff_ffff_ffff,
            relax(d0, p0, u as int, vv) == relax(u128_ints(dist@), pred_ints(pred@), u as int, vv.skip(j as int)),
            forall|x: int| 0 <= x < pred@.len() ==> match #[trigger] pred@[x] {
                Some(p) => p < dist@.len() && (p == u || pred_start[x] == Some(p)),
                None => pred_start[x] is None,
            },
        decreases vs@.len() - j,
    {
        let v = vs[j];
        proof {
            let rest = vv.skip(j as int);
            assert(rest[0] == v as int);
            assert(rest.drop_first() =~= vv.skip(j + 1));
        }
        let ghost bd = u128_ints(dist@);
        let ghost bp = pred_ints(pred@);
        let ghost raw_p = pred@;
        let nd = dist[u] + 1;
        if nd > dist[v] {
            dist.set(v, nd);
            pred.set(v, Some(u));
            assert(u128_ints(dist@) =~= bd.update(v as int, nd as int));
            assert(pred_ints(pred@) =~= bp.update(v as int, Some(u as int)));
        } else if nd == dist[v] && (match pred[v] {
            None => true,
            Some(p) => u < p,
        }) {
            pred.set(v, Some(u));
            assert(pred_ints(pred@) =~= bp.update(v as int, Some(u as int)));
        }
        proof {
            assert forall|x: int| 0 <= x < pred@.len() implies match #[trigger] pred@[x] {
                Some(p) => p < dist@.len() && (p == u || pred_start[x] == Some(p)),
                None => pred_start[x] is None,
            } by {
                if x != v {
                    assert(pred@[x] == raw_p[x]);
                }
            }
        }
        j += 1;
    }
    assert(vv.skip(vs@.len() as int) =~= Seq::<int>::empty());
}

fn longest_exec(adj: &Vec<Vec<usize>>, topo: &Vec<usize>) -> (r: (Vec<u128>, Vec<Option<usize>>))
    requires
        topo@.len() <= adj@.len(),
        forall|j: int| 0 <= j < topo@.len() ==> #[trigger] topo@[j] < adj@.len(),
        forall|u: int, j: int| 0 <= u < adj@.len() && 0 <= j < adj@[u]@.len() ==> #[trigger] adj@[u]@[j] < adj@.len(),
    ensures
        (u128_ints(r.0@), pred_ints(r.1@)) == longest_from(
            adj_ints(adj@),
            usize_ints(topo@),
            0,
            Seq::new(adj@.len(), |i: int| 0int),
            Seq::new(adj@.len(), |i: int| None::<int>),
        ),
        r.0@.len() == adj@.len(),
        r.1@.len() == adj@.len(),
        forall|x: int| 0 <= x < r.1@.len() ==> match #[trigger] r.1@[x] {
            Some(p) => p < adj@.len(),
            None => true,
        },
{
    let m = adj.len();
    let ghost av = adj_ints(adj@);
    let ghost tv = usize_ints(topo@);
    let mut dist: Vec<u128> = Vec::new();
    let mut pred: Vec<Option<usize>> = Vec::new();
    let mut i: usize = 0;
    while i < m
        invariant
            i <= m,
            dist@.len() == i,
            pred@.len() == i,
            forall|j: int| 0 <= j < i ==> #[trigger] dist@[j] == 0,
            forall|j: int| 0 <= j < i ==> #[trigger] pred@[j] is None,
        decreases m - i,
    {
        dist.push(0);
        pred.push(None);
        i += 1;
    }
    assert(u128_ints(dist@) =~= Seq::new(m as nat, |i: int| 0int));
    assert(pred_ints(pred@) =~= Seq::new(m as nat, |i: int| None::<int>));
    let mut k: usize = 0;
    let ghost mut bound: int = 0;
    while k < topo.len()
        invariant
            m == adj@.len(),
            av == adj_ints(adj@),
            tv == usize_ints(topo@),
            topo@.len() <= m,
            k <= topo@.len(),
            dist@.len() == m,
            pred@.len() == m,
            forall|j: int| 0 <= j < topo@.len() ==> #[trigger] topo@[j] < adj@.len(),
            forall|u: int, j: int| 0 <= u < adj@.len() && 0 <= j < adj@[u]@.len() ==> #[trigger] adj@[u]@[j] < adj@.len(),
            0 <= bound <= k * 0x1_0000_0000_0000_0000,
            forall|x: int| 0 <= x < dist@.len() ==> #[trigger] dist@[x] as int <= bound,
            forall|x: int| 0 <= x < pred@.len() ==> match #[trigger] pred@[x] {
                Some(p) => p < m,
                None => true,
            },
            longest_from(av, tv, 0, Seq::new(m as nat, |i: int| 0int), Seq::new(m as nat, |i: int| None::<int>))
                == longest_from(av, tv, k as int, u128_ints(dist@), pred_ints(pred@)),
        decreases topo@.len() - k,
    {
        let u = topo[k];
        assert(av[u as int] == usize_ints(adj@[u as int]@));
        let l = adj[u].len();
        let ghost len = l as int;
        assert(bound + len < 0xffff_ffff_ffff_ffff_ffff_ffff_ffff_ffff) by (nonlinear_arith)
            requires
                bound <= k * 0x1_0000_0000_0000_0000,
                k < m,
                m <= 0xffff_ffff_ffff_ffff,
                len <= 0xffff_ffff_ffff_ffff,
        ;
        let ghost before_pred = pred@;
        relax_exec(&mut dist, &mut pred, u, &adj[u], Ghost(bound));
        proof {
            assert forall|x: int| 0 <= x < pred@.len() implies match #[trigger] pred@[x] {
                Some(p) => p < m,
                None => true,
            } by {
                match pred@[x] {
                    Some(p) => {},
                    None => {},
                }
            }
            bound = bound + len;
            assert(bound <= (k + 1) * 0x1_0000_0000_0000_0000) by (nonlinear_arith)
                requires
                    bound - len <= k * 0x1_0000_0000_0000_0000,
                    len <= 0xffff_ffff_ffff_ffff,
            ;
        }
        k += 1;
    }
    (dist, pred)
}

fn insert_end_exec(v: &mut Vec<usize>, x: usize, dist: &Vec<u128>, nodes: &Vec<String>)
    requires
        dist@.len() == nodes@.len(),
        x < dist@.len(),
        forall|j: int| 0 <= j < old(v)@.len() ==> #[trigger] old(v)@[j] < dist@.len(),
    ensures
        usize_ints(final(v)@) == insert_end(u128_ints(dist@), views(nodes@), usize_ints(old(v)@), x as int),
        forall|j: int| 0 <= j < final(v)@.len() ==> #[trigger] final(v)@[j] < dist@.len(),
{
    let ghost s = usize_ints(v@);
    let ghost dv = u128_ints(dist@);
    let ghost nv = views(nodes@);
    let mut p: usize = 0;
    assert(s.take(0) + insert_end(dv, nv, s.skip(0), x as int) =~= insert_end(dv, nv, s, x as int)) by {
        assert(s.skip(0) =~= s);
    }
    while p < v.len()
        invariant
            p <= v@.len(),
            s == usize_ints(old(v)@),
            v@ == old(v)@,
            dv == u128_ints(dist@),
            nv == views(nodes@),
            dist@.len() == nodes@.len(),
            x < dist@.len(),
            forall|j: int| 0 <= j < v@.len() ==> #[trigger] v@[j] < dist@.len(),
            insert_end(dv, nv, s, x as int) == s.take(p as int) + insert_end(dv, nv, s.skip(p as int), x as int),
        ensures
            p <= v@.len(),
            v@ == old(v)@,
            insert_end(dv, nv, s, x as int) == s.take(p as int) + insert_end(dv, nv, s.skip(p as int), x as int),
            p < v@.len() ==> end_before(dv, nv, x as int, s[p as int]),
        decreases v@.len() - p,
    {
        let y = v[p];
        assert(v@[p as int] < dist@.len());
        let before = dist[x] > dist[y] || (dist[x] == dist[y] && str_less(nodes[x].as_str(), nodes[y].as_str()));
        if before {
            break;
        }
        proof {
            let rest = s.skip(p as int);
            assert(rest[0] == s[p as int]);
            assert(rest.drop_first() =~= s.skip(p + 1));
            assert(s.take(p + 1) =~= s.take(p as int).push(s[p as int]));
            assert(s.take(p as int) + (seq![rest[0]] + insert_end(dv, nv, rest.drop_first(), x as int)) =~= s.take(p + 1)
                + insert_end(dv, nv, s.skip(p + 1), x as int));
        }
        p += 1;
    }
    proof {
        let rest = s.skip(p as int);
        if p < s.len() {
            assert(rest[0] == s[p as int]);
        } else {
            assert(rest.len() == 0);
        }
    }
    let ghost old_v = v@;
    v.insert(p, x);
    proof {
        assert(usize_ints(v@) =~= s.take(p as int) + (seq![x as int] + s.skip(p as int))) by {
            assert(v@ == old_v.insert(p as int, x));
            assert forall|k: int| 0 <= k < usize_ints(v@).len() implies usize_ints(v@)[k] == (s.take(p as int)
                + (seq![x as int] + s.skip(p as int)))[k] by {
                if k < p {
                } else if k == p {
                } else {
                    assert(v@[k] == old_v[k - 1]);
                }
            }
        }
        assert forall|j: int| 0 <= j < v@.len() implies #[trigger] v@[j] < dist@.len() by {
            if j < p {
                assert(v@[j] == old_v[j]);
            } else if j > p {
                assert(v@[j] == old_v[j - 1]);
            }
        }
    }
}

fn rank_ends_exec(dist: &Vec<u128>, nodes: &Vec<String>) -> (r: Vec<usize>)
    requires
        dist@.len() == nodes@.len(),
    ensures
        usize_ints(r@) == rank_ends(u128_ints(dist@), views(nodes@), dist@.len() as int),
        forall|j: int| 0 <= j < r@.len() ==> #[trigger] r@[j] < dist@.len(),
{
    let mut out: Vec<usize> = Vec::new();
    assert(usize_ints(out@) =~= Seq::<int>::empty());
    let mut n: usize = 0;
    while n < dist.len()
        invariant
            dist@.len() == nodes@.len(),
            n <= dist@.len(),
            usize_ints(out@) == rank_ends(u128_ints(dist@), views(nodes@), n as int),
            forall|j: int| 0 <= j < out@.len() ==> #[trigger] out@[j] < dist@.len(),
        decreases dist@.len() - n,
    {
        insert_end_exec(&mut out, n, dist, nodes);
        n += 1;
    }
    out
}

fn walk_back_exec(pred: &Vec<Option<usize>>, x: usize) -> (r: Vec<usize>)
    requires
        x < pred@.len(),
        forall|i: int| 0 <= i < pred@.len() ==> match #[trigger] pred@[i] {
            Some(p) => p < pred@.len(),
            None => true,
        },
    ensures
        usize_ints(r@) == walk_back(pred_ints(pred@), x as int, pred@.len()),
        r@.len() > 0,
        forall|j: int| 0 <= j < r@.len() ==> #[trigger] r@[j] < pred@.len(),
{
    let ghost pv = pred_ints(pred@);
    let mut out: Vec<usize> = Vec::new();
    let mut cur: usize = x;
    let mut fuel: usize = pred.len();
    out.push(cur);
    assert(usize_ints(out@) =~= seq![x as int]);
    while fuel > 0 && pred[cur].is_some()
        invariant
            pv == pred_ints(pred@),
            cur < pred@.len(),
            forall|i: int| 0 <= i < pred@.len() ==> match #[trigger] pred@[i] {
                Some(p) => p < pred@.len(),
                None => true,
            },
            out@.len() > 0,
            forall|j: int| 0 <= j < out@.len() ==> #[trigger] out@[j] < pred@.len(),
            usize_ints(out@).drop_last() + walk_back(pv, cur as int, fuel as nat) == walk_back(pv, x as int, pred@.len()),
            usize_ints(out@).last() == cur as int,
        decreases fuel,
    {
        let p = match pred[cur] {
            Some(p) => p,
            None => cur,
        };
        proof {
            assert(pv[cur as int] == Some(p as int));
            assert(walk_back(pv, cur as int, fuel as nat) == seq![cur as int] + walk_back(pv, p as int, (fuel - 1) as nat));
        }
        let ghost before = usize_ints(out@);
        out.push(p);
        proof {
            assert(usize_ints(out@) =~= before.push(p as int));
            assert(usize_ints(out@).drop_last() =~= before);
            assert(before =~= before.drop_last().push(cur as int));
            assert(before.drop_last() + (seq![cur as int] + walk_back(pv, p as int, (fuel - 1) as nat)) =~= before
                + walk_back(pv, p as int, (fuel - 1) as nat));
        }
        cur = p;
        fuel -= 1;
    }
    proof {
        let o = usize_ints(out@);
        if fuel == 0 {
            assert(walk_back(pv, cur as int, 0) == seq![cur as int]);
        } else {
            assert(pv[cur as int] is None);
            assert(walk_back(pv, cur as int, fuel as nat) == seq![cur as int]);
        }
        assert(o.drop_last() + seq![cur as int] =~= o);
    }
    out
}

fn contains_usize(v: &Vec<usize>, x: usize) -> (r: bool)
    ensures
        r == usize_ints(v@).contains(x as int),
{
    let mut k: usize = 0;
    while k < v.len()
        invariant
            k <= v@.len(),
            forall|j: int| 0 <= j < k ==> v@[j] != x,
        decreases v@.len() - k,
    {
        if v[k] == x {
            assert(usize_ints(v@)[k as int] == x as int);
            return true;
        }
        k += 1;
    }
    proof {
        if usize_ints(v@).contains(x as int) {
            let j = choose|j: int| 0 <= j < usize_ints(v@).len() && usize_ints(v@)[j] == x as int;
            assert(v@[j] == x);
        }
    }
    false
}

/// The path ending at `e`, from its source, as positions.
fn path_to_exec(pred: &Vec<Option<usize>>, e: usize) -> (r: Vec<usize>)
    requires
        e < pred@.len(),
        forall|i: int| 0 <= i < pred@.len() ==> match #[trigger] pred@[i] {
            Some(p) => p < pred@.len(),
            None => true,
        },
    ensures
        usize_ints(r@) == path_to(pred_ints(pred@), e as int),
        r@.len() > 0,
        forall|j: int| 0 <= j < r@.len() ==> #[trigger] r@[j] < pred@.len(),
{
    let w = walk_back_exec(pred, e);
    let ghost wv = usize_ints(w@);
    let mut out: Vec<usize> = Vec::new();
    let mut k: usize = w.len();
    while k > 0
        invariant
            wv == usize_ints(w@),
            k <= w@.len(),
            out@.len() == w@.len() - k,
            forall|j: int| 0 <= j < w@.len() ==> #[trigger] w@[j] < pred@.len(),
            forall|j: int| 0 <= j < out@.len() ==> #[trigger] out@[j] < pred@.len(),
            usize_ints(out@) == wv.reverse().take(w@.len() - k),
        decreases k,
    {
        k -= 1;
        let ghost before = usize_ints(out@);
        out.push(w[k]);
        proof {
            assert(wv.reverse()[w@.len() - k - 1] == wv[k as int]);
            assert(usize_ints(out@) =~= wv.reverse().take(w@.len() - k));
        }
    }
    assert(wv.reverse().take(w@.len() as int) =~= wv.reverse());
    out
}

/// One representative path: its issue ids from source to end, and whether
/// it was cut at 50.
pub struct KPath {
    pub issue_ids: Vec<String>,
    pub truncated: bool,
}

/// The k-paths: at most five representative longest paths with distinct
/// sources, how many non-trivial paths there are, and how many distinct
/// sources they have.
pub struct KPaths {
    pub paths: Vec<KPath>,
    pub total_paths: usize,
    pub representative_sources: usize,
}

/// The emitted paths as ids.
pub open spec fn kpath_views(v: Seq<KPath>) -> Seq<(Seq<Seq<char>>, bool)> {
    v.map_values(|p: KPath| (views(p.issue_ids@), p.truncated))
}

/// The paths of positions as paths of ids.
pub open spec fn paths_as_ids(ps: Seq<PathView>, nodes: Seq<Seq<char>>) -> Seq<(Seq<Seq<char>>, bool)> {
    ps.map_values(|p: PathView| (p.0.map_values(|x: int| nodes[x]), p.1))
}

/// The k-paths of the open blocking graph: nodes are the open issues in id
/// order, edges run from blocker to blocked; longest paths come from a
/// topological order that takes the smallest ready node first, with the
/// smaller predecessor on equal lengths; path ends are ranked by length,
/// then id; at most five paths with distinct sources are emitted, each cut
/// to 50 issues.
pub fn k_paths(issues: &[InsightIssue]) -> (r: KPaths)
    ensures
        ({
            let spec = k_paths_spec(issues@);
            &&& kpath_views(r.paths@) == paths_as_ids(spec.0, topk_candidates(issues@))
            &&& r.total_paths == spec.1
            &&& r.representative_sources == spec.2
        }),
{
    let ids = open_ids_exec(issues);
    let nodes = sort_strings(ids);
    let ghost nv = views(nodes@);
    let m = nodes.len();
    let es = kp_edges_exec(issues, &nodes);
    let adj = adjacency_exec(&es, m);
    proof {
        assert(adj_ints(adj@) =~= kp_adjacency(pair_ints(es@), m as nat));
    }
    let indeg = in_degrees_exec(&es, m);
    assert(usize_ints(indeg@) =~= kp_in_degrees(pair_ints(es@), m as nat));
    let topo = kahn_exec(&adj, indeg);
    let (dist, pred) = longest_exec(&adj, &topo);
    let ghost dv = u128_ints(dist@);
    let ghost pv = pred_ints(pred@);
    let ends = rank_ends_exec(&dist, &nodes);
    let ghost ev = usize_ints(ends@);
    // Non-trivial paths and their distinct sources.
    let mut count: usize = 0;
    let mut seen: Vec<usize> = Vec::new();
    let mut k: usize = 0;
    assert(usize_ints(seen@) =~= Seq::<int>::empty());
    while k < ends.len()
        invariant
            ev == usize_ints(ends@),
            dv == u128_ints(dist@),
            pv == pred_ints(pred@),
            dist@.len() == m,
            pred@.len() == m,
            k <= ends@.len(),
            count <= k,
            forall|j: int| 0 <= j < ends@.len() ==> #[trigger] ends@[j] < m,
            forall|i: int| 0 <= i < pred@.len() ==> match #[trigger] pred@[i] {
                Some(p) => p < pred@.len(),
                None => true,
            },
            sources_from(ev, dv, pv, 0, 0, Seq::empty()) == sources_from(ev, dv, pv, k as int, count as int, usize_ints(seen@)),
        decreases ends@.len() - k,
    {
        let e = ends[k];
        if dist[e] != 0 {
            let chain = path_to_exec(&pred, e);
            let h = chain[0];
            if !contains_usize(&seen, h) {
                let ghost before = usize_ints(seen@);
                seen.push(h);
                assert(usize_ints(seen@) =~= before.push(h as int));
            }
            count += 1;
        }
        k += 1;
    }
    // The emitted paths.
    let mut paths: Vec<KPath> = Vec::new();
    let mut used: Vec<usize> = Vec::new();
    let ghost mut pspec: Seq<PathView> = Seq::empty();
    let mut k: usize = 0;
    assert(usize_ints(used@) =~= Seq::<int>::empty());
    while k < ends.len() && paths.len() < 5
        invariant
            ev == usize_ints(ends@),
            dv == u128_ints(dist@),
            pv == pred_ints(pred@),
            nv == views(nodes@),
            m == nodes@.len(),
            dist@.len() == m,
            pred@.len() == m,
            k <= ends@.len(),
            paths@.len() == pspec.len(),
            forall|j: int| 0 <= j < ends@.len() ==> #[trigger] ends@[j] < m,
            forall|i: int| 0 <= i < pred@.len() ==> match #[trigger] pred@[i] {
                Some(p) => p < pred@.len(),
                None => true,
            },
            kpath_views(paths@) == paths_as_ids(pspec, nv),
            paths_from(ev, dv, pv, 0, Seq::empty(), Seq::empty()) == paths_from(ev, dv, pv, k as int, pspec, usize_ints(used@)),
        decreases ends@.len() - k,
    {
        let e = ends[k];
        if dist[e] != 0 {
            let chain = path_to_exec(&pred, e);
            let src = chain[0];
            if !contains_usize(&used, src) {
                let ghost before_used = usize_ints(used@);
                used.push(src);
                assert(usize_ints(used@) =~= before_used.push(src as int));
                let cut = chain.len() > 50;
                let keep = if cut { 50 } else { chain.len() };
                let mut ids_out: Vec<String> = Vec::new();
                let mut j: usize = 0;
                let ghost cv = usize_ints(chain@);
                let ghost kept = if cut { cv.take(50) } else { cv };
                while j < keep
                    invariant
                        cv == usize_ints(chain@),
                        keep <= chain@.len(),
                        kept.len() == keep,
                        kept == cv.take(keep as int),
                        nv == views(nodes@),
                        m == nodes@.len(),
                        j <= keep,
                        forall|i: int| 0 <= i < chain@.len() ==> #[trigger] chain@[i] < m,
                        views(ids_out@) == kept.take(j as int).map_values(|x: int| nv[x]),
                    decreases keep - j,
                {
                    let x = chain[j];
                    proof {
                        crate::text::lemma_views_push(ids_out@, nodes@[x as int]);
                        assert(kept.take(j + 1).map_values(|x: int| nv[x]) =~= kept.take(j as int).map_values(
                            |x: int| nv[x],
                        ).push(nv[x as int]));
                    }
                    ids_out.push(nodes[x].clone());
                    j += 1;
                }
                assert(kept.take(keep as int) =~= kept);
                let ghost pv_item = (kept, cut);
                let ghost before_paths = paths@;
                paths.push(KPath { issue_ids: ids_out, truncated: cut });
                proof {
                    assert(kpath_views(paths@) =~= kpath_views(before_paths).push((views(ids_out@), cut)));
                    assert(paths_as_ids(pspec.push(pv_item), nv) =~= paths_as_ids(pspec, nv).push(
                        (kept.map_values(|x: int| nv[x]), cut),
                    ));
                    pspec = pspec.push(pv_item);
                }
            }
        }
        k += 1;
    }
    proof {
        if paths@.len() >= 5 {
            assert(paths_from(ev, dv, pv, k as int, pspec, usize_ints(used@)) == pspec);
        }
    }
    KPaths { paths, total_paths: count, representative_sources: seen.len() }
}

/// A pick freeing `t.2`: its gain is how many it frees, and they are sorted.
pub open spec fn pick_consistent(t: TopView) -> bool {
    t.1 == t.2.len() && crate::next::texts_sorted(t.2)
}

proof fn lemma_best_ready(
    issues: Seq<InsightIssue>,
    done: Seq<Seq<char>>,
    ready: Seq<Seq<char>>,
    k: int,
    best: TopView,
)
    requires
        0 <= k <= ready.len(),
        best == (Seq::<char>::empty(), -1int, Seq::<Seq<char>>::empty()) || (ready.contains(best.0)
            && pick_consistent(best) && best.2 == sort_texts(newly_freed(issues, done, ready, best.0, issues.len() as int))),
    ensures
        ({
            let r = best_ready_from(issues, done, ready, k, best);
            r == (Seq::<char>::empty(), -1int, Seq::<Seq<char>>::empty()) || (ready.contains(r.0)
                && pick_consistent(r) && r.2 == sort_texts(newly_freed(issues, done, ready, r.0, issues.len() as int)))
        }),
    decreases ready.len() - k,
{
    if k < ready.len() {
        let c = ready[k];
        let freed = sort_texts(newly_freed(issues, done, ready, c, issues.len() as int));
        crate::next::lemma_sort_texts(newly_freed(issues, done, ready, c, issues.len() as int));
        let g = freed.len() as int;
        if g > best.1 || (g == best.1 && (best.0.len() == 0 || text_less(c, best.0))) {
            lemma_best_ready(issues, done, ready, k + 1, (c, g, freed));
        } else {
            lemma_best_ready(issues, done, ready, k + 1, best);
        }
    }
}

proof fn lemma_ready_not_done(issues: Seq<InsightIssue>, done: Seq<Seq<char>>, cands: Seq<Seq<char>>)
    ensures
        forall|x: Seq<char>| ready_candidates(issues, done, cands).contains(x) ==> !done.contains(x),
    decreases cands.len(),
{
    if cands.len() > 0 {
        lemma_ready_not_done(issues, done, cands.drop_last());
    }
}

proof fn lemma_topk_steps(issues: Seq<InsightIssue>, cands: Seq<Seq<char>>, done: Seq<Seq<char>>, fuel: nat)
    ensures
        ({
            let st = topk_steps(issues, cands, done, fuel);
            &&& st.len() <= fuel
            &&& forall|k: int| 0 <= k < st.len() ==> #[trigger] pick_consistent(st[k]) && st[k].0.len() > 0
                && !done.contains(st[k].0)
            &&& forall|a: int, b: int| 0 <= a < b < st.len() ==> #[trigger] st[a].0 != #[trigger] st[b].0
        }),
    decreases fuel,
{
    if fuel > 0 {
        let ready = ready_candidates(issues, done, cands);
        if ready.len() > 0 {
            let best = best_ready_from(issues, done, ready, 0, (Seq::empty(), -1, Seq::empty()));
            if best.0.len() > 0 {
                lemma_best_ready(issues, done, ready, 0, (Seq::empty(), -1, Seq::empty()));
                lemma_ready_not_done(issues, done, cands);
                let nd = done.push(best.0);
                lemma_topk_steps(issues, cands, nd, (fuel - 1) as nat);
                let tail = topk_steps(issues, cands, nd, (fuel - 1) as nat);
                let st = topk_steps(issues, cands, done, fuel);
                assert(st == seq![best] + tail);
                assert forall|k: int| 0 <= k < st.len() implies #[trigger] pick_consistent(st[k]) && st[k].0.len() > 0
                    && !done.contains(st[k].0) by {
                    if k > 0 {
                        assert(st[k] == tail[k - 1]);
                        assert(pick_consistent(tail[k - 1]));
                        assert(!nd.contains(tail[k - 1].0));
                        if done.contains(st[k].0) {
                            let i = choose|i: int| 0 <= i < done.len() && done[i] == st[k].0;
                            assert(nd[i] == done[i]);
                        }
                    }
                }
                assert forall|a: int, b: int| 0 <= a < b < st.len() implies #[trigger] st[a].0 != #[trigger] st[b].0 by {
                    assert(st[b] == tail[b - 1]);
                    if a == 0 {
                        assert(pick_consistent(tail[b - 1]));
                        assert(!nd.contains(tail[b - 1].0));
                        assert(nd[done.len() as int] == best.0);
                    } else {
                        assert(st[a] == tail[a - 1]);
                    }
                }
            }
        }
    }
}

/// The top-k picks are at most five distinct issues; each pick's gain is the
/// number of issues it frees, listed in sorted order.
pub proof fn law_topk_picks_are_distinct_and_consistent(issues: Seq<InsightIssue>)
    ensures
        ({
            let st = topk_steps(issues, topk_candidates(issues), Seq::empty(), 5);
            &&& st.len() <= 5
            &&& forall|k: int| 0 <= k < st.len() ==> #[trigger] pick_consistent(st[k])
            &&& forall|a: int, b: int| 0 <= a < b < st.len() ==> #[trigger] st[a].0 != #[trigger] st[b].0
        }),
{
    lemma_topk_steps(issues, topk_candidates(issues), Seq::empty(), 5);
}

/// Edge `e` is a blocking dependency between open issues: some open issue
/// with id `e.0` names `e.1` among its blocking dependencies, and the issue
/// with id `e.1` is open.
pub open spec fn open_dependency(issues: Seq<InsightIssue>, e: Edge) -> bool {
    &&& exists|i: int|
        0 <= i < issues.len() && (#[trigger] issues[i]).open && issues[i].id@ == e.0 && views(
            issues[i].blocking@,
        ).contains(e.1)
    &&& open_id(issues, e.1)
}

proof fn lemma_issue_edges_open(issues: Seq<InsightIssue>, i: int, deps: Seq<Seq<char>>)
    requires
        0 <= i < issues.len(),
        issues[i].open,
        forall|q: int| 0 <= q < deps.len() ==> views(issues[i].blocking@).contains(#[trigger] deps[q]),
    ensures
        forall|k: int| 0 <= k < issue_edges(issues, i, deps).len() ==> open_dependency(issues, #[trigger] issue_edges(issues, i, deps)[k]),
    decreases deps.len(),
{
    if deps.len() > 0 {
        let init = deps.drop_last();
        assert forall|q: int| 0 <= q < init.len() implies views(issues[i].blocking@).contains(#[trigger] init[q]) by {
            assert(init[q] == deps[q]);
        }
        lemma_issue_edges_open(issues, i, init);
        let es = issue_edges(issues, i, deps);
        let ei = issue_edges(issues, i, init);
        assert(views(issues[i].blocking@).contains(deps[deps.len() - 1]));
        assert forall|k: int| 0 <= k < es.len() implies open_dependency(issues, #[trigger] es[k]) by {
            if k < ei.len() {
                assert(es[k] == ei[k]);
            } else {
                assert(es[k] == (issues[i].id@, deps.last()));
                assert(issues[i].open && issues[i].id@ == es[k].0 && views(issues[i].blocking@).contains(es[k].1));
            }
        }
    }
}

proof fn lemma_open_edges_open(issues: Seq<InsightIssue>, n: int)
    ensures
        forall|k: int| 0 <= k < open_edges(issues, n).len() ==> open_dependency(issues, #[trigger] open_edges(issues, n)[k]),
    decreases n,
{
    if 0 < n <= issues.len() {
        lemma_open_edges_open(issues, n - 1);
        if issues[n - 1].open {
            let deps = views(issues[n - 1].blocking@);
            assert forall|q: int| 0 <= q < deps.len() implies views(issues[n - 1].blocking@).contains(#[trigger] deps[q]) by {}
            lemma_issue_edges_open(issues, n - 1, deps);
            let a = open_edges(issues, n - 1);
            let b = issue_edges(issues, n - 1, deps);
            assert(open_edges(issues, n) == a + b);
            assert forall|k: int| 0 <= k < open_edges(issues, n).len() implies open_dependency(issues, #[trigger] open_edges(issues, n)[k]) by {
                if k < a.len() {
                    assert(open_edges(issues, n)[k] == a[k]);
                } else {
                    assert(open_edges(issues, n)[k] == b[k - a.len()]);
                }
            }
        } else {
            assert(open_edges(issues, n) == open_edges(issues, n - 1));
        }
    }
}

/// Every edge of the blocking graph the insights use joins two open
/// issues: an open issue blocked by a dependency on another open issue.
pub proof fn law_insight_edges_join_open_issues(issues: Seq<InsightIssue>)
    ensures
        forall|k: int|
            0 <= k < open_edges(issues, issues.len() as int).len() ==> open_dependency(
                issues,
                #[trigger] open_edges(issues, issues.len() as int)[k],
            ),
{
    lemma_open_edges_open(issues, issues.len() as int);
}

proof fn lemma_issue_edges_complete(issues: Seq<InsightIssue>, i: int, deps: Seq<Seq<char>>, q: int)
    requires
        0 <= q < deps.len(),
        open_id(issues, deps[q]),
    ensures
        issue_edges(issues, i, deps).contains((issues[i].id@, deps[q])),
    decreases deps.len(),
{
    let init = deps.drop_last();
    let es = issue_edges(issues, i, deps);
    if q == deps.len() - 1 {
        assert(es == issue_edges(issues, i, init).push((issues[i].id@, deps.last())));
        assert(es[es.len() - 1] == (issues[i].id@, deps[q]));
    } else {
        assert(init[q] == deps[q]);
        lemma_issue_edges_complete(issues, i, init, q);
        let ei = issue_edges(issues, i, init);
        let j = choose|j: int| 0 <= j < ei.len() && ei[j] == (issues[i].id@, deps[q]);
        assert(es[j] == ei[j]);
    }
}

proof fn lemma_open_edges_complete(issues: Seq<InsightIssue>, n: int, j: int, q: int)
    requires
        0 <= j < n <= issues.len(),
        issues[j].open,
        0 <= q < issues[j].blocking@.len(),
        open_id(issues, issues[j].blocking@[q]@),
    ensures
        open_edges(issues, n).contains((issues[j].id@, issues[j].blocking@[q]@)),
    decreases n,
{
    let a = open_edges(issues, n - 1);
    if j < n - 1 {
        lemma_open_edges_complete(issues, n - 1, j, q);
        let w = choose|w: int| 0 <= w < a.len() && a[w] == (issues[j].id@, issues[j].blocking@[q]@);
        if issues[n - 1].open {
            let b = issue_edges(issues, n - 1, views(issues[n - 1].blocking@));
            assert(open_edges(issues, n) == a + b);
            assert(open_edges(issues, n)[w] == a[w]);
        } else {
            assert(open_edges(issues, n) == a);
        }
    } else {
        let deps = views(issues[j].blocking@);
        assert(deps[q] == issues[j].blocking@[q]@);
        lemma_issue_edges_complete(issues, j, deps, q);
        let b = issue_edges(issues, j, deps);
        assert(open_edges(issues, n) == a + b);
        let w = choose|w: int| 0 <= w < b.len() && b[w] == (issues[j].id@, issues[j].blocking@[q]@);
        assert(open_edges(issues, n)[a.len() + w] == b[w]);
    }
}

proof fn lemma_blockers_in_empty(edges: Seq<Edge>, x: Seq<char>)
    requires
        blockers_in(edges, x).len() == 0,
    ensures
        forall|k: int| 0 <= k < edges.len() ==> (#[trigger] edges[k]).0 != x,
    decreases edges.len(),
{
    if edges.len() > 0 {
        let init = edges.drop_last();
        assert(edges.last().0 != x);
        lemma_blockers_in_empty(init, x);
        assert forall|k: int| 0 <= k < edges.len() implies (#[trigger] edges[k]).0 != x by {
            if k < init.len() {
                assert(edges[k] == init[k]);
            }
        }
    }
}

proof fn lemma_insert_cut_members(s: Seq<CutView>, x: CutView)
    ensures
        forall|k: int| 0 <= k < insert_cut(s, x).len() ==> #[trigger] insert_cut(s, x)[k] == x || s.contains(insert_cut(s, x)[k]),
    decreases s.len(),
{
    if s.len() > 0 && !cut_before(x, s[0]) {
        lemma_insert_cut_members(s.drop_first(), x);
        let r = insert_cut(s, x);
        let t = insert_cut(s.drop_first(), x);
        assert forall|k: int| 0 <= k < r.len() implies #[trigger] r[k] == x || s.contains(r[k]) by {
            if k == 0 {
                assert(r[0] == s[0]);
            } else {
                assert(r[k] == t[k - 1]);
                if t[k - 1] != x {
                    let w = choose|w: int| 0 <= w < s.drop_first().len() && s.drop_first()[w] == t[k - 1];
                    assert(s[w + 1] == t[k - 1]);
                }
            }
        }
    } else if s.len() > 0 {
        let r = insert_cut(s, x);
        assert forall|k: int| 0 <= k < r.len() implies #[trigger] r[k] == x || s.contains(r[k]) by {
            if k > 0 {
                assert(r[k] == s[k - 1]);
            }
        }
    }
}

/// Suggestion `c` names an issue that can be completed now: some open issue
/// has its id, and no open issue with its id has a blocking dependency on
/// an open issue.
pub open spec fn completable_now(issues: Seq<InsightIssue>, c: Seq<char>) -> bool {
    &&& exists|i: int| 0 <= i < issues.len() && (#[trigger] issues[i]).open && issues[i].id@ == c
    &&& forall|i: int, q: int|
        0 <= i < issues.len() && (#[trigger] issues[i]).open && issues[i].id@ == c && 0 <= q
            < issues[i].blocking@.len() ==> !open_id(issues, #[trigger] issues[i].blocking@[q]@)
}

proof fn lemma_cut_candidates_completable(issues: Seq<InsightIssue>, n: int)
    requires
        0 <= n <= issues.len(),
    ensures
        forall|k: int|
            0 <= k < cut_candidates(issues, open_edges(issues, issues.len() as int), n).len() ==> completable_now(
                issues,
                (#[trigger] cut_candidates(issues, open_edges(issues, issues.len() as int), n)[k]).0,
            ),
    decreases n,
{
    let all = open_edges(issues, issues.len() as int);
    if n > 0 {
        lemma_cut_candidates_completable(issues, n - 1);
        let rest = cut_candidates(issues, all, n - 1);
        let i = issues[n - 1];
        let en = enabled_by(all, all, i.id@);
        if i.open && blockers_in(all, i.id@).len() == 0 && en.len() > 1 {
            let x = (i.id@, en.len() - 1, sort_texts(en));
            lemma_insert_cut_members(rest, x);
            lemma_blockers_in_empty(all, i.id@);
            assert(completable_now(issues, i.id@)) by {
                assert(issues[n - 1].open && issues[n - 1].id@ == i.id@);
                assert forall|j: int, q: int|
                    0 <= j < issues.len() && (#[trigger] issues[j]).open && issues[j].id@ == i.id@ && 0 <= q
                        < issues[j].blocking@.len() implies !open_id(issues, #[trigger] issues[j].blocking@[q]@) by {
                    if open_id(issues, issues[j].blocking@[q]@) {
                        lemma_open_edges_complete(issues, issues.len() as int, j, q);
                        let w = choose|w: int| 0 <= w < all.len() && all[w] == (issues[j].id@, issues[j].blocking@[q]@);
                        assert(all[w].0 == i.id@);
                    }
                }
            }
            let r = cut_candidates(issues, all, n);
            assert(r == insert_cut(rest, x));
            assert forall|k: int| 0 <= k < r.len() implies completable_now(issues, (#[trigger] r[k]).0) by {
                if r[k] != x {
                    let w = choose|w: int| 0 <= w < rest.len() && rest[w] == r[k];
                    assert(completable_now(issues, rest[w].0));
                }
            }
        }
    }
}

/// Every parallel-cut suggestion can be completed now: it is an open issue
/// with no blocking dependency on an open issue.
pub proof fn law_parallel_cut_suggests_only_ready_issues(issues: Seq<InsightIssue>)
    ensures
        forall|k: int|
            0 <= k < cut_candidates(issues, open_edges(issues, issues.len() as int), issues.len() as int).len()
                ==> completable_now(
                issues,
                (#[trigger] cut_candidates(issues, open_edges(issues, issues.len() as int), issues.len() as int)[k]).0,
            ),
{
    lemma_cut_candidates_completable(issues, issues.len() as int);
}

proof fn lemma_sources_grow(
    ends: Seq<int>,
    dist: Seq<int>,
    pred: Seq<Option<int>>,
    k: int,
    count: int,
    seen: Seq<int>,
)
    ensures
        sources_from(ends, dist, pred, k, count, seen).1.len() >= seen.len(),
    decreases ends.len() - k,
{
    if 0 <= k < ends.len() {
        let e = ends[k];
        if dist[e] == 0 {
            lemma_sources_grow(ends, dist, pred, k + 1, count, seen);
        } else {
            let h = path_to(pred, e)[0];
            let ns = if seen.contains(h) { seen } else { seen.push(h) };
            lemma_sources_grow(ends, dist, pred, k + 1, count + 1, ns);
        }
    }
}

proof fn lemma_paths_match_sources(
    ends: Seq<int>,
    dist: Seq<int>,
    pred: Seq<Option<int>>,
    k: int,
    paths: Seq<PathView>,
    used: Seq<int>,
    count: int,
)
    requires
        paths.len() == used.len(),
        paths.len() <= 5,
    ensures
        ({
            let p = paths_from(ends, dist, pred, k, paths, used);
            let n = sources_from(ends, dist, pred, k, count, used).1.len();
            p.len() == if n < 5 { n } else { 5 }
        }),
    decreases ends.len() - k,
{
    if k < 0 || k >= ends.len() {
    } else if paths.len() >= 5 {
        lemma_sources_grow(ends, dist, pred, k, count, used);
    } else {
        let e = ends[k];
        if dist[e] == 0 {
            lemma_paths_match_sources(ends, dist, pred, k + 1, paths, used, count);
        } else {
            let chain = path_to(pred, e);
            if used.contains(chain[0]) {
                lemma_paths_match_sources(ends, dist, pred, k + 1, paths, used, count + 1);
            } else {
                let cut = chain.len() > 50;
                let kept = if cut { chain.take(50) } else { chain };
                lemma_paths_match_sources(ends, dist, pred, k + 1, paths.push((kept, cut)), used.push(chain[0]), count + 1);
            }
        }
    }
}

/// The k-paths keep one path per distinct source until five are held: the
/// number of emitted paths is the number of distinct sources among the
/// non-trivial paths, capped at five.
pub proof fn law_k_paths_emit_one_path_per_source_up_to_five(issues: Seq<InsightIssue>)
    ensures
        ({
            let r = k_paths_spec(issues);
            r.0.len() == if r.2 < 5 { r.2 } else { 5 }
        }),
{
    let nodes = topk_candidates(issues);
    let m = nodes.len();
    let es = kp_edges(issues, nodes, issues.len() as int);
    let adj = kp_adjacency(es, m);
    let topo = kahn(adj, kp_in_degrees(es, m), Seq::new(m, |i: int| false), Seq::empty(), m);
    let lp = longest_from(adj, topo, 0, Seq::new(m, |i: int| 0int), Seq::new(m, |i: int| None::<int>));
    let ends = rank_ends(lp.0, nodes, m as int);
    lemma_paths_match_sources(ends, lp.0, lp.1, 0, Seq::empty(), Seq::empty(), 0);
}

proof fn lemma_paths_distinct_sources(
    ends: Seq<int>,
    dist: Seq<int>,
    pred: Seq<Option<int>>,
    k: int,
    paths: Seq<PathView>,
    used: Seq<int>,
)
    requires
        paths.len() == used.len(),
        forall|j: int| 0 <= j < paths.len() ==> (#[trigger] paths[j]).0.len() > 0 && paths[j].0.len() <= 50
            && paths[j].0[0] == used[j],
        forall|a: int, b: int| 0 <= a < b < used.len() ==> #[trigger] used[a] != #[trigger] used[b],
    ensures
        ({
            let p = paths_from(ends, dist, pred, k, paths, used);
            &&& forall|j: int| 0 <= j < p.len() ==> (#[trigger] p[j]).0.len() > 0 && p[j].0.len() <= 50
            &&& forall|a: int, b: int| 0 <= a < b < p.len() ==> (#[trigger] p[a]).0[0] != (#[trigger] p[b]).0[0]
        }),
    decreases ends.len() - k,
{
    if 0 <= k < ends.len() && paths.len() < 5 {
        let e = ends[k];
        if dist[e] == 0 {
            lemma_paths_distinct_sources(ends, dist, pred, k + 1, paths, used);
            assert(paths_from(ends, dist, pred, k, paths, used) == paths_from(ends, dist, pred, k + 1, paths, used));
        } else {
            let chain = path_to(pred, e);
            if used.contains(chain[0]) {
                lemma_paths_distinct_sources(ends, dist, pred, k + 1, paths, used);
                assert(paths_from(ends, dist, pred, k, paths, used) == paths_from(ends, dist, pred, k + 1, paths, used));
            } else {
                let cut = chain.len() > 50;
                let kept = if cut { chain.take(50) } else { chain };
                assert(walk_back(pred, e, pred.len()).len() > 0);
                assert(chain.len() > 0);
                assert(kept.len() > 0 && kept.len() <= 50);
                assert(kept[0] == chain[0]);
                let np = paths.push((kept, cut));
                let nu = used.push(chain[0]);
                assert forall|a: int, b: int| 0 <= a < b < nu.len() implies #[trigger] nu[a] != #[trigger] nu[b] by {
                    if b == used.len() {
                        assert(nu[a] == used[a]);
                    }
                }
                assert forall|j: int| 0 <= j < np.len() implies (#[trigger] np[j]).0.len() > 0 && np[j].0.len() <= 50
                    && np[j].0[0] == nu[j] by {
                    if j < paths.len() {
                        assert(np[j] == paths[j]);
                    }
                }
                lemma_paths_distinct_sources(ends, dist, pred, k + 1, np, nu);
                assert(paths_from(ends, dist, pred, k, paths, used) == paths_from(ends, dist, pred, k + 1, np, nu));
            }
        }
    } else {
        assert(paths_from(ends, dist, pred, k, paths, used) == paths);
        assert forall|a: int, b: int| 0 <= a < b < paths.len() implies (#[trigger] paths[a]).0[0] != (#[trigger] paths[b]).0[0] by {
            assert(paths[a].0[0] == used[a]);
            assert(paths[b].0[0] == used[b]);
        }
    }
}

/// The emitted k-paths have pairwise distinct sources, and each holds
/// between one and fifty issues.
pub proof fn law_k_paths_have_distinct_sources(issues: Seq<InsightIssue>)
    ensures
        ({
            let p = k_paths_spec(issues).0;
            &&& forall|j: int| 0 <= j < p.len() ==> (#[trigger] p[j]).0.len() > 0 && p[j].0.len() <= 50
            &&& forall|a: int, b: int| 0 <= a < b < p.len() ==> (#[trigger] p[a]).0[0] != (#[trigger] p[b]).0[0]
        }),
{
    let nodes = topk_candidates(issues);
    let m = nodes.len();
    let es = kp_edges(issues, nodes, issues.len() as int);
    let adj = kp_adjacency(es, m);
    let topo = kahn(adj, kp_in_degrees(es, m), Seq::new(m, |i: int| false), Seq::empty(), m);
    let lp = longest_from(adj, topo, 0, Seq::new(m, |i: int| 0int), Seq::new(m, |i: int| None::<int>));
    let ends = rank_ends(lp.0, nodes, m as int);
    lemma_paths_distinct_sources(ends, lp.0, lp.1, 0, Seq::empty(), Seq::empty());
}

/// The ids of the first `k` picks.
pub open spec fn pick_ids(st: Seq<TopView>, k: int) -> Seq<Seq<char>> {
    st.take(k).map_values(|t: TopView| t.0)
}

/// Issue `j` is newly freed by completing `cand` after the completions
/// `done`: it is open, not completed, not `cand`, has a blocking dependency
/// on `cand`, and every other blocking dependency is completed or names no
/// open issue.
pub open spec fn frees(issues: Seq<InsightIssue>, done: Seq<Seq<char>>, cand: Seq<char>, j: int) -> bool {
    &&& issues[j].open
    &&& !done.contains(issues[j].id@)
    &&& issues[j].id@ != cand
    &&& exists|q: int| 0 <= q < issues[j].blocking@.len() && #[trigger] issues[j].blocking@[q]@ == cand
    &&& forall|q: int|
        0 <= q < issues[j].blocking@.len() ==> {
            let b = #[trigger] issues[j].blocking@[q]@;
            b == cand || done.contains(b) || !open_id(issues, b)
        }
}

proof fn lemma_ready_props(issues: Seq<InsightIssue>, done: Seq<Seq<char>>, cands: Seq<Seq<char>>)
    ensures
        forall|x: Seq<char>|
            #[trigger] ready_candidates(issues, done, cands).contains(x) ==> !done.contains(x) && blockers_resolved(
                issues,
                done,
                x,
            ) && cands.contains(x),
    decreases cands.len(),
{
    if cands.len() > 0 {
        let init = cands.drop_last();
        lemma_ready_props(issues, done, init);
        let r = ready_candidates(issues, done, cands);
        let ri = ready_candidates(issues, done, init);
        assert forall|x: Seq<char>| #[trigger] r.contains(x) implies !done.contains(x) && blockers_resolved(issues, done, x)
            && cands.contains(x) by {
            let w = choose|w: int| 0 <= w < r.len() && r[w] == x;
            if w < ri.len() {
                assert(r[w] == ri[w]);
                assert(ri.contains(x));
                let v = choose|v: int| 0 <= v < init.len() && init[v] == x;
                assert(cands[v] == init[v]);
            } else {
                assert(x == cands.last());
                assert(cands[cands.len() - 1] == x);
            }
        }
    }
}

proof fn lemma_newly_freed_members(
    issues: Seq<InsightIssue>,
    done: Seq<Seq<char>>,
    ready: Seq<Seq<char>>,
    cand: Seq<char>,
    n: int,
)
    requires
        0 <= n <= issues.len(),
    ensures
        forall|x: Seq<char>|
            #[trigger] newly_freed(issues, done, ready, cand, n).contains(x) <==> exists|j: int|
                0 <= j < n && issues[j].id@ == x && !ready.contains(x) && #[trigger] frees(issues, done, cand, j),
    decreases n,
{
    if n > 0 {
        lemma_newly_freed_members(issues, done, ready, cand, n - 1);
        let i = n - 1;
        let id = issues[i].id@;
        let nf = newly_freed(issues, done, ready, cand, n);
        let nfi = newly_freed(issues, done, ready, cand, n - 1);
        let cond = issues[i].open && !done.contains(id) && !ready.contains(id) && id != cand && waits_on(issues, i, cand)
            && !held_elsewhere(issues, i, cand, done);
        assert(cond == (!ready.contains(id) && frees(issues, done, cand, i))) by {
            if !held_elsewhere(issues, i, cand, done) {
                assert forall|q: int| 0 <= q < issues[i].blocking@.len() implies {
                    let b = #[trigger] issues[i].blocking@[q]@;
                    b == cand || done.contains(b) || !open_id(issues, b)
                } by {
                    if !(issues[i].blocking@[q]@ == cand || done.contains(issues[i].blocking@[q]@) || !open_id(issues, issues[i].blocking@[q]@)) {
                        assert(holds_open(issues, cand, done, issues[i].blocking@[q]@));
                    }
                }
            }
            if frees(issues, done, cand, i) {
                if held_elsewhere(issues, i, cand, done) {
                    let q = choose|q: int| 0 <= q < issues[i].blocking@.len() && holds_open(issues, cand, done, #[trigger] issues[i].blocking@[q]@);
                    let b = issues[i].blocking@[q]@;
                    assert(b == cand || done.contains(b) || !open_id(issues, b));
                }
            }
        }
        assert forall|x: Seq<char>|
            #[trigger] nf.contains(x) <==> exists|j: int|
                0 <= j < n && issues[j].id@ == x && !ready.contains(x) && #[trigger] frees(issues, done, cand, j) by {
            if nf.contains(x) {
                let w = choose|w: int| 0 <= w < nf.len() && nf[w] == x;
                if w < nfi.len() {
                    assert(nf[w] == nfi[w]);
                    assert(nfi.contains(x));
                } else {
                    assert(cond);
                    assert(nf == nfi.push(id));
                    assert(x == id);
                }
            }
            if exists|j: int| 0 <= j < n && issues[j].id@ == x && !ready.contains(x) && #[trigger] frees(issues, done, cand, j) {
                let j = choose|j: int| 0 <= j < n && issues[j].id@ == x && !ready.contains(x) && #[trigger] frees(issues, done, cand, j);
                if j < n - 1 {
                    assert(nfi.contains(x));
                    let w = choose|w: int| 0 <= w < nfi.len() && nfi[w] == x;
                    assert(nf[w] == x);
                } else {
                    assert(cond);
                    assert(nf == nfi.push(id));
                    assert(nf[nfi.len() as int] == x);
                }
            }
        }
    }
}

proof fn lemma_first_issue_distinct(issues: Seq<InsightIssue>, j: int, k: int)
    requires
        insight_ids_distinct(issues),
        0 <= k <= j < issues.len(),
    ensures
        first_issue_from(issues, issues[j].id@, k) == Some(j),
    decreases j - k,
{
    if k < j {
        assert(issues[k].id@ != issues[j].id@);
        lemma_first_issue_distinct(issues, j, k + 1);
    }
}

proof fn lemma_open_ids_members(issues: Seq<InsightIssue>, n: int)
    ensures
        forall|x: Seq<char>|
            #[trigger] open_ids(issues, n).contains(x) ==> exists|i: int| 0 <= i < issues.len() && (#[trigger] issues[i]).open
                && issues[i].id@ == x,
    decreases n,
{
    if 0 < n <= issues.len() {
        lemma_open_ids_members(issues, n - 1);
        let o = open_ids(issues, n);
        let oi = open_ids(issues, n - 1);
        assert forall|x: Seq<char>| #[trigger] o.contains(x) implies exists|i: int| 0 <= i < issues.len() && (#[trigger] issues[i]).open
            && issues[i].id@ == x by {
            let w = choose|w: int| 0 <= w < o.len() && o[w] == x;
            if issues[n - 1].open && w == oi.len() {
                assert(o[w] == issues[n - 1].id@);
                assert(issues[n - 1].open);
            } else {
                assert(o[w] == oi[w]);
                assert(oi.contains(x));
            }
        }
    }
}

/// Issue ids are pairwise distinct.
pub open spec fn insight_ids_distinct(issues: Seq<InsightIssue>) -> bool {
    forall|a: int, b: int| 0 <= a < b < issues.len() ==> #[trigger] issues[a].id@ != #[trigger] issues[b].id@
}

/// One greedy step's freed list is exactly the issues its pick frees.
#[verifier::rlimit(40)]
proof fn lemma_pick_frees(issues: Seq<InsightIssue>, cands: Seq<Seq<char>>, done: Seq<Seq<char>>)
    requires
        insight_ids_distinct(issues),
        cands == topk_candidates(issues),
    ensures
        ({
            let ready = ready_candidates(issues, done, cands);
            let best = best_ready_from(issues, done, ready, 0, (Seq::empty(), -1, Seq::empty()));
            best.0.len() > 0 ==> forall|x: Seq<char>|
                #[trigger] best.2.contains(x) <==> exists|j: int|
                    0 <= j < issues.len() && issues[j].id@ == x && #[trigger] frees(issues, done, best.0, j)
        }),
{
    let ready = ready_candidates(issues, done, cands);
    let best = best_ready_from(issues, done, ready, 0, (Seq::empty(), -1, Seq::empty()));
    if best.0.len() > 0 {
        lemma_best_ready(issues, done, ready, 0, (Seq::empty(), -1, Seq::empty()));
        let c = best.0;
        let nf = newly_freed(issues, done, ready, c, issues.len() as int);
        lemma_newly_freed_members(issues, done, ready, c, issues.len() as int);
        crate::next::lemma_sort_texts_members(nf);
        lemma_ready_props(issues, done, cands);
        assert(ready.contains(c));
        assert(!done.contains(c) && cands.contains(c));
        crate::next::lemma_sort_texts_members(open_ids(issues, issues.len() as int));
        lemma_open_ids_members(issues, issues.len() as int);
        assert(open_ids(issues, issues.len() as int).contains(c));
        let io = choose|io: int| 0 <= io < issues.len() && (#[trigger] issues[io]).open && issues[io].id@ == c;
        assert(any_open(issues, c));
        assert forall|x: Seq<char>| #[trigger] best.2.contains(x) <==> exists|j: int|
            0 <= j < issues.len() && issues[j].id@ == x && #[trigger] frees(issues, done, c, j) by {
            if exists|j: int| 0 <= j < issues.len() && issues[j].id@ == x && #[trigger] frees(issues, done, c, j) {
                let j = choose|j: int| 0 <= j < issues.len() && issues[j].id@ == x && #[trigger] frees(issues, done, c, j);
                if ready.contains(x) {
                    assert(blockers_resolved(issues, done, x));
                    lemma_first_issue_distinct(issues, j, 0);
                    assert(first_issue_from(issues, x, 0)->0 == j);
                    assert(blockers_resolved(issues, done, x) == (forall|q: int|
                        0 <= q < issues[j].blocking@.len() ==> blocker_settled(issues, done, #[trigger] issues[j].blocking@[q]@)));
                    let q = choose|q: int| 0 <= q < issues[j].blocking@.len() && #[trigger] issues[j].blocking@[q]@ == c;
                    assert(blocker_settled(issues, done, issues[j].blocking@[q]@));
                    assert(false);
                }
                assert(nf.contains(x));
            }
        }
    }
}

proof fn lemma_topk_frees(issues: Seq<InsightIssue>, cands: Seq<Seq<char>>, done: Seq<Seq<char>>, fuel: nat)
    requires
        insight_ids_distinct(issues),
        cands == topk_candidates(issues),
    ensures
        ({
            let st = topk_steps(issues, cands, done, fuel);
            forall|k: int, x: Seq<char>|
                0 <= k < st.len() ==> (#[trigger] st[k].2.contains(x) <==> exists|j: int|
                    0 <= j < issues.len() && issues[j].id@ == x && #[trigger] frees(
                        issues,
                        done + pick_ids(st, k),
                        st[k].0,
                        j,
                    ))
        }),
    decreases fuel,
{
    if fuel > 0 {
        let ready = ready_candidates(issues, done, cands);
        if ready.len() > 0 {
            let best = best_ready_from(issues, done, ready, 0, (Seq::empty(), -1, Seq::empty()));
            if best.0.len() > 0 {
                lemma_pick_frees(issues, cands, done);
                let nd = done.push(best.0);
                lemma_topk_frees(issues, cands, nd, (fuel - 1) as nat);
                let tail = topk_steps(issues, cands, nd, (fuel - 1) as nat);
                let st = topk_steps(issues, cands, done, fuel);
                assert(st == seq![best] + tail);
                assert forall|k: int, x: Seq<char>|
                    0 <= k < st.len() implies (#[trigger] st[k].2.contains(x) <==> exists|j: int|
                        0 <= j < issues.len() && issues[j].id@ == x && #[trigger] frees(
                            issues,
                            done + pick_ids(st, k),
                            st[k].0,
                            j,
                        )) by {
                    if k == 0 {
                        assert(done + pick_ids(st, 0) =~= done);
                    } else {
                        assert(st[k] == tail[k - 1]);
                        assert(done + pick_ids(st, k) =~= nd + pick_ids(tail, k - 1));
                    }
                }
            }
        }
    }
}

/// Each top-k pick lists as freed exactly the issues its completion newly
/// frees after the earlier picks: open, not yet picked, not the pick
/// itself, waiting on the pick, with every other blocker already picked or
/// not open (closed or missing). Issue ids are distinct.
pub proof fn law_topk_unblocks_are_exactly_the_newly_freed(issues: Seq<InsightIssue>)
    requires
        insight_ids_distinct(issues),
    ensures
        ({
            let st = topk_steps(issues, topk_candidates(issues), Seq::empty(), 5);
            forall|k: int, x: Seq<char>|
                0 <= k < st.len() ==> (#[trigger] st[k].2.contains(x) <==> exists|j: int|
                    0 <= j < issues.len() && issues[j].id@ == x && #[trigger] frees(
                        issues,
                        pick_ids(st, k),
                        st[k].0,
                        j,
                    ))
        }),
{
    lemma_topk_frees(issues, topk_candidates(issues), Seq::empty(), 5);
    let st = topk_steps(issues, topk_candidates(issues), Seq::empty(), 5);
    assert forall|k: int| 0 <= k < st.len() implies Seq::<Seq<char>>::empty() + pick_ids(st, k)
        == pick_ids(st, k) by {
        assert(Seq::<Seq<char>>::empty() + pick_ids(st, k) =~= pick_ids(st, k));
    }
}

proof fn lemma_blockers_in_contains(edges: Seq<Edge>, w: int)
    requires
        0 <= w < edges.len(),
    ensures
        blockers_in(edges, edges[w].0).contains(edges[w].1),
    decreases edges.len(),
{
    let init = edges.drop_last();
    let x = edges[w].0;
    if w == edges.len() - 1 {
        assert(blockers_in(edges, x) == blockers_in(init, x).push(edges[w].1));
        assert(blockers_in(edges, x)[blockers_in(init, x).len() as int] == edges[w].1);
    } else {
        assert(init[w] == edges[w]);
        lemma_blockers_in_contains(init, w);
        let b = blockers_in(init, x);
        let v = choose|v: int| 0 <= v < b.len() && b[v] == edges[w].1;
        if edges.last().0 == x {
            assert(blockers_in(edges, x)[v] == b[v]);
        } else {
            assert(blockers_in(edges, x) == b);
        }
    }
}

proof fn lemma_enabled_members(all: Seq<Edge>, edges: Seq<Edge>, id: Seq<char>)
    ensures
        forall|x: Seq<char>|
            #[trigger] enabled_by(all, edges, id).contains(x) ==> exists|w: int|
                0 <= w < edges.len() && (#[trigger] edges[w]).0 == x && edges[w].1 == id && all_are(blockers_in(all, x), id),
    decreases edges.len(),
{
    if edges.len() > 0 {
        let init = edges.drop_last();
        lemma_enabled_members(all, init, id);
        let r = enabled_by(all, edges, id);
        let ri = enabled_by(all, init, id);
        assert forall|x: Seq<char>| #[trigger] r.contains(x) implies exists|w: int|
            0 <= w < edges.len() && (#[trigger] edges[w]).0 == x && edges[w].1 == id && all_are(blockers_in(all, x), id) by {
            let v = choose|v: int| 0 <= v < r.len() && r[v] == x;
            if v < ri.len() {
                assert(r[v] == ri[v]);
                assert(ri.contains(x));
                let w = choose|w: int| 0 <= w < init.len() && (#[trigger] init[w]).0 == x && init[w].1 == id && all_are(blockers_in(all, x), id);
                assert(edges[w] == init[w]);
            } else {
                assert(x == edges.last().0);
                assert(edges[edges.len() - 1] == edges.last());
            }
        }
    }
}

/// What a parallel-cut suggestion enables: every enabled issue is open and
/// blocked by the suggested issue, and the suggested issue is its only
/// open blocker; the gain is one less than the number enabled, at least one.
pub proof fn law_parallel_cut_enables_issues_held_only_by_the_suggestion(issues: Seq<InsightIssue>)
    ensures
        ({
            let all = open_edges(issues, issues.len() as int);
            let cands = cut_candidates(issues, all, issues.len() as int);
            forall|k: int, x: Seq<char>|
                0 <= k < cands.len() && #[trigger] cands[k].2.contains(x) ==> {
                    let c = cands[k].0;
                    &&& cands[k].1 == cands[k].2.len() - 1 >= 1
                    &&& exists|j: int|
                        0 <= j < issues.len() && (#[trigger] issues[j]).open && issues[j].id@ == x && views(
                            issues[j].blocking@,
                        ).contains(c)
                    &&& forall|j: int, q: int|
                        0 <= j < issues.len() && (#[trigger] issues[j]).open && issues[j].id@ == x && 0 <= q
                            < issues[j].blocking@.len() && open_id(issues, #[trigger] issues[j].blocking@[q]@)
                            ==> issues[j].blocking@[q]@ == c
                }
        }),
{
    let all = open_edges(issues, issues.len() as int);
    lemma_cut_enabled(issues, all, issues.len() as int);
}

/// The suggestion at `x` of the candidates from the first `n` issues.
proof fn lemma_cut_enabled(issues: Seq<InsightIssue>, all: Seq<Edge>, n: int)
    requires
        all == open_edges(issues, issues.len() as int),
        0 <= n <= issues.len(),
    ensures
        ({
            let cands = cut_candidates(issues, all, n);
            forall|k: int, x: Seq<char>|
                0 <= k < cands.len() && #[trigger] cands[k].2.contains(x) ==> {
                    let c = cands[k].0;
                    &&& cands[k].1 == cands[k].2.len() - 1 >= 1
                    &&& exists|j: int|
                        0 <= j < issues.len() && (#[trigger] issues[j]).open && issues[j].id@ == x && views(
                            issues[j].blocking@,
                        ).contains(c)
                    &&& forall|j: int, q: int|
                        0 <= j < issues.len() && (#[trigger] issues[j]).open && issues[j].id@ == x && 0 <= q
                            < issues[j].blocking@.len() && open_id(issues, #[trigger] issues[j].blocking@[q]@)
                            ==> issues[j].blocking@[q]@ == c
                }
        }),
    decreases n,
{
    if n > 0 {
        lemma_cut_enabled(issues, all, n - 1);
        let rest = cut_candidates(issues, all, n - 1);
        let i = issues[n - 1];
        let en = enabled_by(all, all, i.id@);
        if i.open && blockers_in(all, i.id@).len() == 0 && en.len() > 1 {
            let xv = (i.id@, en.len() - 1, sort_texts(en));
            lemma_insert_cut_members(rest, xv);
            let cands = cut_candidates(issues, all, n);
            assert(cands == insert_cut(rest, xv));
            crate::next::lemma_sort_texts(en);
            crate::next::lemma_sort_texts_members(en);
            lemma_enabled_members(all, all, i.id@);
            lemma_open_edges_open(issues, issues.len() as int);
            assert forall|k: int, x: Seq<char>|
                0 <= k < cands.len() && #[trigger] cands[k].2.contains(x) implies {
                    let c = cands[k].0;
                    &&& cands[k].1 == cands[k].2.len() - 1 >= 1
                    &&& exists|j: int|
                        0 <= j < issues.len() && (#[trigger] issues[j]).open && issues[j].id@ == x && views(
                            issues[j].blocking@,
                        ).contains(c)
                    &&& forall|j: int, q: int|
                        0 <= j < issues.len() && (#[trigger] issues[j]).open && issues[j].id@ == x && 0 <= q
                            < issues[j].blocking@.len() && open_id(issues, #[trigger] issues[j].blocking@[q]@)
                            ==> issues[j].blocking@[q]@ == c
                } by {
                if cands[k] != xv {
                    let w = choose|w: int| 0 <= w < rest.len() && rest[w] == cands[k];
                    assert(rest[w].2.contains(x));
                } else {
                    let c = i.id@;
                    assert(en.contains(x));
                    let w = choose|w: int| 0 <= w < all.len() && (#[trigger] all[w]).0 == x && all[w].1 == c && all_are(blockers_in(all, x), c);
                    assert(open_dependency(issues, all[w]));
                    assert forall|j: int, q: int|
                        0 <= j < issues.len() && (#[trigger] issues[j]).open && issues[j].id@ == x && 0 <= q
                            < issues[j].blocking@.len() && open_id(issues, #[trigger] issues[j].blocking@[q]@)
                            implies issues[j].blocking@[q]@ == c by {
                        lemma_open_edges_complete(issues, issues.len() as int, j, q);
                        let v = choose|v: int| 0 <= v < all.len() && all[v] == (issues[j].id@, issues[j].blocking@[q]@);
                        lemma_blockers_in_contains(all, v);
                        let bs = blockers_in(all, x);
                        let u = choose|u: int| 0 <= u < bs.len() && bs[u] == issues[j].blocking@[q]@;
                        assert(bs[u] == c);
                    }
                }
            }
        }
    }
}

/// How many edges touch `b`.
pub open spec fn touching(edges: Seq<Edge>, b: Seq<char>) -> int
    decreases edges.len(),
{
    if edges.len() == 0 {
        0
    } else {
        touching(edges.drop_last(), b) + if edges.last().0 == b || edges.last().1 == b { 1int } else { 0 }
    }
}

proof fn lemma_touching_nonneg(edges: Seq<Edge>, b: Seq<char>)
    ensures
        touching(edges, b) >= 0,
    decreases edges.len(),
{
    if edges.len() > 0 {
        lemma_touching_nonneg(edges.drop_last(), b);
    }
}

proof fn lemma_untouched_len(edges: Seq<Edge>, b: Seq<char>)
    ensures
        untouched(edges, b).len() == edges.len() - touching(edges, b),
    decreases edges.len(),
{
    if edges.len() > 0 {
        lemma_untouched_len(edges.drop_last(), b);
    }
}

proof fn lemma_pick_from_max(ends: Seq<Seq<char>>, keys: Seq<Seq<char>>, best: (Seq<char>, int))
    requires
        best.1 == -1 || best.1 == occurrences(ends, best.0),
    ensures
        ({
            let r = pick_from(ends, keys, best);
            &&& r.1 >= best.1
            &&& forall|k: int| 0 <= k < keys.len() ==> occurrences(ends, #[trigger] keys[k]) <= r.1
            &&& (r.1 == -1 || r.1 == occurrences(ends, r.0))
            &&& (r == best || keys.contains(r.0))
        }),
    decreases keys.len(),
{
    if keys.len() > 0 {
        let id = keys[0];
        let d = occurrences(ends, id);
        let next = if d > best.1 || (d == best.1 && (best.0.len() == 0 || text_less(id, best.0))) {
            (id, d)
        } else {
            best
        };
        lemma_pick_from_max(ends, keys.drop_first(), next);
        let r = pick_from(ends, keys, best);
        assert(r == pick_from(ends, keys.drop_first(), next));
        assert forall|k: int| 0 <= k < keys.len() implies occurrences(ends, #[trigger] keys[k]) <= r.1 by {
            if k > 0 {
                assert(keys[k] == keys.drop_first()[k - 1]);
            }
        }
        if r != best {
            if r != next {
                let w = choose|w: int| 0 <= w < keys.drop_first().len() && keys.drop_first()[w] == r.0;
                assert(keys[w + 1] == r.0);
            } else {
                assert(keys[0] == r.0);
            }
        }
    }
}

proof fn lemma_occurrences_of_endpoints(edges: Seq<Edge>, b: Seq<char>)
    ensures
        occurrences(endpoints(edges), b) >= touching(edges, b),
        touching(edges, b) > 0 ==> endpoints(edges).contains(b),
        endpoints(edges).contains(b) ==> touching(edges, b) > 0,
    decreases edges.len(),
{
    if edges.len() > 0 {
        let init = edges.drop_last();
        lemma_occurrences_of_endpoints(init, b);
        let ei = endpoints(init);
        let e = endpoints(edges);
        let l = edges.last();
        assert(e == ei.push(l.0).push(l.1));
        assert(e.drop_last() == ei.push(l.0) && e.last() == l.1);
        assert(ei.push(l.0).drop_last() == ei && ei.push(l.0).last() == l.0);
        assert(occurrences(e, b) == occurrences(ei.push(l.0), b) + if l.1 == b { 1int } else { 0 });
        assert(occurrences(ei.push(l.0), b) == occurrences(ei, b) + if l.0 == b { 1int } else { 0 });
        if touching(edges, b) > 0 {
            if l.0 == b {
                assert(e[ei.len() as int] == b);
            } else if l.1 == b {
                assert(e[ei.len() as int + 1] == b);
            } else {
                let w = choose|w: int| 0 <= w < ei.len() && ei[w] == b;
                assert(e[w] == b);
            }
        }
        assert(edges.drop_last() == init && edges.last() == l);
        assert(touching(edges, b) == touching(init, b) + if l.0 == b || l.1 == b { 1int } else { 0 });
        assert(touching(init, b) >= 0) by {
            lemma_touching_nonneg(init, b);
        }
        if e.contains(b) {
            let w = choose|w: int| 0 <= w < e.len() && e[w] == b;
            if w < ei.len() {
                assert(e[w] == ei[w]);
                assert(ei.contains(b));
                assert(touching(init, b) > 0);
            } else if w == ei.len() {
                assert(e[w] == l.0);
            } else {
                assert(e[w] == l.1);
            }
            assert(touching(edges, b) > 0);
        }
    }
}

/// The coverage pick on `edges` touches the most edge ends of any issue:
/// its degree is its number of edge ends, no issue has more, and when edges
/// remain it touches at least one of them, newly covering exactly the
/// edges that touch it.
pub open spec fn greedy_pick(edges: Seq<Edge>, c: CoverView) -> bool {
    &&& c.2 == occurrences(endpoints(edges), c.0)
    &&& forall|k: int| 0 <= k < endpoints(edges).len() ==> occurrences(endpoints(edges), #[trigger] endpoints(edges)[k]) <= c.2
    &&& c.1 == touching(edges, c.0)
    &&& c.1 >= 1
}

/// The edges left after covering the first `k` picks.
pub open spec fn uncovered_after(edges: Seq<Edge>, picks: Seq<CoverView>, k: int) -> Seq<Edge>
    decreases k,
{
    if k <= 0 || k > picks.len() {
        edges
    } else {
        untouched(uncovered_after(edges, picks, k - 1), picks[k - 1].0)
    }
}

proof fn lemma_uncovered_after_prefix(edges: Seq<Edge>, head: CoverView, tail: Seq<CoverView>, k: int)
    requires
        0 <= k <= tail.len(),
    ensures
        uncovered_after(edges, seq![head] + tail, k + 1) == uncovered_after(untouched(edges, head.0), tail, k),
    decreases k,
{
    let st = seq![head] + tail;
    assert(st[0] == head);
    assert(st.len() == tail.len() + 1);
    if k > 0 {
        lemma_uncovered_after_prefix(edges, head, tail, k - 1);
        assert(st[k] == tail[k - 1]);
    } else {
        assert(uncovered_after(edges, st, 0) == edges);
        assert(uncovered_after(edges, st, 1) == untouched(edges, head.0));
    }
}

proof fn lemma_coverage_greedy(edges: Seq<Edge>, fuel: nat)
    ensures
        forall|k: int|
            0 <= k < coverage_steps(edges, fuel).0.len() ==> greedy_pick(
                uncovered_after(edges, coverage_steps(edges, fuel).0, k),
                #[trigger] coverage_steps(edges, fuel).0[k],
            ),
    decreases fuel,
{
    if edges.len() > 0 && fuel > 0 {
        let best = coverage_pick(edges);
        if best.0.len() > 0 {
            let rest = untouched(edges, best.0);
            lemma_coverage_greedy(rest, (fuel - 1) as nat);
            let tail = coverage_steps(rest, (fuel - 1) as nat).0;
            let st = coverage_steps(edges, fuel).0;
            let head = (best.0, edges.len() - rest.len(), best.1);
            assert(st == seq![head] + tail);
            let ends = endpoints(edges);
            let keys = sort_texts(ends);
            lemma_pick_from_max(ends, keys, (Seq::empty(), -1));
            crate::next::lemma_sort_texts_members(ends);
            lemma_untouched_len(edges, best.0);
            lemma_occurrences_of_endpoints(edges, best.0);
            assert(keys.len() > 0) by {
                crate::next::lemma_sort_texts(ends);
                assert(ends.len() > 0) by {
                    assert(ends == endpoints(edges.drop_last()).push(edges.last().0).push(edges.last().1));
                }
            }
            assert(best != (Seq::<char>::empty(), -1int));
            assert(keys.contains(best.0));
            assert(greedy_pick(edges, head)) by {
                assert forall|k: int| 0 <= k < ends.len() implies occurrences(ends, #[trigger] ends[k]) <= head.2 by {
                    assert(keys.contains(ends[k]));
                    let w = choose|w: int| 0 <= w < keys.len() && keys[w] == ends[k];
                    assert(occurrences(ends, keys[w]) <= best.1);
                }
                assert(ends.contains(best.0));
            }
            assert forall|k: int| 0 <= k < st.len() implies greedy_pick(uncovered_after(edges, st, k), #[trigger] st[k]) by {
                if k == 0 {
                    assert(uncovered_after(edges, st, 0) == edges);
                } else {
                    lemma_uncovered_after_prefix(edges, head, tail, k - 1);
                    assert(st[k] == tail[k - 1]);
                }
            }
        }
    }
}

/// Each greedy coverage pick, taken on the edges the earlier picks left
/// uncovered, is an issue with the most uncovered edge ends, its degree is
/// its number of edge ends, and it newly covers exactly the uncovered
/// edges that touch it (at least one).
pub proof fn law_coverage_picks_are_greedy(issues: Seq<InsightIssue>)
    ensures
        ({
            let edges = open_edges(issues, issues.len() as int);
            let st = coverage_steps(edges, 5).0;
            forall|k: int| 0 <= k < st.len() ==> greedy_pick(uncovered_after(edges, st, k), #[trigger] st[k])
        }),
{
    lemma_coverage_greedy(open_edges(issues, issues.len() as int), 5);
}

/// Every entry of the edge table names only real cycles holding its edge.
pub open spec fn table_sound(t: Seq<EdgeCycles>, cycles: Seq<Seq<Seq<char>>>) -> bool {
    forall|k: int, w: int|
        0 <= k < t.len() && 0 <= w < t[k].2.len() ==> {
            let c = #[trigger] t[k].2[w];
            &&& 0 <= c < cycles.len()
            &&& real_cycle(cycles[c])
            &&& cycle_edges_from(cycles[c], 0).contains((t[k].0, t[k].1))
        }
}

proof fn lemma_record_edge_sound(t: Seq<EdgeCycles>, e: Edge, ci: int, cycles: Seq<Seq<Seq<char>>>)
    requires
        table_sound(t, cycles),
        0 <= ci < cycles.len(),
        real_cycle(cycles[ci]),
        cycle_edges_from(cycles[ci], 0).contains(e),
    ensures
        table_sound(record_edge(t, e, ci), cycles),
{
    lemma_edge_slot(t, e);
    let r = record_edge(t, e, ci);
    match edge_slot(t, e) {
        Some(s) => {
            assert forall|k: int, w: int| 0 <= k < r.len() && 0 <= w < r[k].2.len() implies {
                let c = #[trigger] r[k].2[w];
                &&& 0 <= c < cycles.len()
                &&& real_cycle(cycles[c])
                &&& cycle_edges_from(cycles[c], 0).contains((r[k].0, r[k].1))
            } by {
                if k == s {
                    if w < t[k].2.len() {
                        assert(r[k].2[w] == t[k].2[w]);
                    } else {
                        assert(r[k].2[w] == ci);
                        assert((r[k].0, r[k].1) == e);
                    }
                } else {
                    assert(r[k] == t[k]);
                }
            }
        },
        None => {
            assert forall|k: int, w: int| 0 <= k < r.len() && 0 <= w < r[k].2.len() implies {
                let c = #[trigger] r[k].2[w];
                &&& 0 <= c < cycles.len()
                &&& real_cycle(cycles[c])
                &&& cycle_edges_from(cycles[c], 0).contains((r[k].0, r[k].1))
            } by {
                if k < t.len() {
                    assert(r[k] == t[k]);
                } else {
                    assert(r[k] == (e.0, e.1, seq![ci]));
                }
            }
        },
    }
}

proof fn lemma_edge_slot(t: Seq<EdgeCycles>, e: Edge)
    ensures
        match edge_slot(t, e) {
            Some(s) => 0 <= s < t.len() && t[s].0 == e.0 && t[s].1 == e.1,
            None => true,
        },
    decreases t.len(),
{
    if t.len() > 0 {
        lemma_edge_slot(t.drop_last(), e);
    }
}

proof fn lemma_record_edges_sound(t: Seq<EdgeCycles>, es: Seq<Edge>, ci: int, cycles: Seq<Seq<Seq<char>>>)
    requires
        table_sound(t, cycles),
        0 <= ci < cycles.len(),
        real_cycle(cycles[ci]),
        forall|k: int| 0 <= k < es.len() ==> cycle_edges_from(cycles[ci], 0).contains(#[trigger] es[k]),
    ensures
        table_sound(record_edges(t, es, ci), cycles),
    decreases es.len(),
{
    if es.len() > 0 {
        lemma_record_edge_sound(t, es[0], ci, cycles);
        let rest = es.drop_first();
        assert forall|k: int| 0 <= k < rest.len() implies cycle_edges_from(cycles[ci], 0).contains(#[trigger] rest[k]) by {
            assert(rest[k] == es[k + 1]);
        }
        lemma_record_edges_sound(record_edge(t, es[0], ci), rest, ci, cycles);
    }
}

proof fn lemma_edge_table_sound(t: Seq<EdgeCycles>, cycles: Seq<Seq<Seq<char>>>, ci: int)
    requires
        table_sound(t, cycles),
        ci >= 0,
    ensures
        table_sound(edge_table_from(t, cycles, ci), cycles),
    decreases cycles.len() - ci,
{
    if ci < cycles.len() {
        if real_cycle(cycles[ci]) {
            let es = cycle_edges_from(cycles[ci], 0);
            assert forall|k: int| 0 <= k < es.len() implies cycle_edges_from(cycles[ci], 0).contains(#[trigger] es[k]) by {}
            lemma_record_edges_sound(t, es, ci, cycles);
            lemma_edge_table_sound(record_edges(t, es, ci), cycles, ci + 1);
        } else {
            lemma_edge_table_sound(t, cycles, ci + 1);
        }
    }
}

proof fn lemma_insert_edge_members(s: Seq<EdgeCycles>, x: EdgeCycles)
    ensures
        forall|k: int| 0 <= k < insert_edge(s, x).len() ==> #[trigger] insert_edge(s, x)[k] == x || s.contains(insert_edge(s, x)[k]),
    decreases s.len(),
{
    if s.len() > 0 && !edge_before(x, s[0]) {
        lemma_insert_edge_members(s.drop_first(), x);
        let r = insert_edge(s, x);
        let t = insert_edge(s.drop_first(), x);
        assert forall|k: int| 0 <= k < r.len() implies #[trigger] r[k] == x || s.contains(r[k]) by {
            if k == 0 {
                assert(r[0] == s[0]);
            } else {
                assert(r[k] == t[k - 1]);
                if t[k - 1] != x {
                    let w = choose|w: int| 0 <= w < s.drop_first().len() && s.drop_first()[w] == t[k - 1];
                    assert(s[w + 1] == t[k - 1]);
                }
            }
        }
    } else if s.len() > 0 {
        let r = insert_edge(s, x);
        assert forall|k: int| 0 <= k < r.len() implies #[trigger] r[k] == x || s.contains(r[k]) by {
            if k > 0 {
                assert(r[k] == s[k - 1]);
            }
        }
    }
}

proof fn lemma_rank_edges_members(s: Seq<EdgeCycles>)
    ensures
        forall|k: int| 0 <= k < rank_edges(s).len() ==> s.contains(#[trigger] rank_edges(s)[k]),
    decreases s.len(),
{
    if s.len() > 0 {
        let init = s.drop_last();
        lemma_rank_edges_members(init);
        let ri = rank_edges(init);
        lemma_insert_edge_members(ri, s.last());
        let r = rank_edges(s);
        assert forall|k: int| 0 <= k < r.len() implies s.contains(#[trigger] r[k]) by {
            if r[k] == s.last() {
                assert(s[s.len() - 1] == s.last());
            } else {
                let w = choose|w: int| 0 <= w < ri.len() && ri[w] == r[k];
                assert(init.contains(ri[w]));
                let v = choose|v: int| 0 <= v < init.len() && init[v] == ri[w];
                assert(s[v] == init[v]);
            }
        }
    }
}

/// Every cycle-break edge lies on each cycle it cites: each cited cycle is
/// a real reported cycle (at least two members, not a detector marker) in
/// which the edge's source is followed by its target (the last member
/// wrapping round to the first).
pub proof fn law_cycle_break_edges_lie_on_their_cycles(cycles: Seq<Seq<Seq<char>>>)
    ensures
        ({
            let r = ranked_cycle_edges(cycles);
            forall|k: int, w: int|
                0 <= k < r.len() && 0 <= w < r[k].2.len() ==> {
                    let c = #[trigger] r[k].2[w];
                    &&& 0 <= c < cycles.len()
                    &&& real_cycle(cycles[c])
                    &&& cycle_edges_from(cycles[c], 0).contains((r[k].0, r[k].1))
                }
        }),
{
    let t = edge_table_from(Seq::empty(), cycles, 0);
    lemma_edge_table_sound(Seq::empty(), cycles, 0);
    lemma_rank_edges_members(t);
    let r = ranked_cycle_edges(cycles);
    assert forall|k: int, w: int| 0 <= k < r.len() && 0 <= w < r[k].2.len() implies {
        let c = #[trigger] r[k].2[w];
        &&& 0 <= c < cycles.len()
        &&& real_cycle(cycles[c])
        &&& cycle_edges_from(cycles[c], 0).contains((r[k].0, r[k].1))
    } by {
        assert(t.contains(r[k]));
        let v = choose|v: int| 0 <= v < t.len() && t[v] == r[k];
        assert(t[v].2[w] == r[k].2[w]);
    }
}

/// Edge `e` joins a member of cycle `c` to the next member, the last one
/// wrapping round to the first.
pub open spec fn consecutive_in(c: Seq<Seq<char>>, e: Edge) -> bool {
    exists|j: int| 0 <= j < c.len() && #[trigger] c[j] == e.0 && c[(j + 1) % (c.len() as int)] == e.1
}

proof fn lemma_cycle_edges_consecutive(c: Seq<Seq<char>>, j: int)
    requires
        c.len() >= 2,
        0 <= j,
    ensures
        forall|k: int| 0 <= k < cycle_edges_from(c, j).len() ==> consecutive_in(c, #[trigger] cycle_edges_from(c, j)[k]),
    decreases c.len() - j,
{
    let es = cycle_edges_from(c, j);
    if j >= c.len() - 1 {
        let n = c.len() as int;
        assert((n - 1 + 1) % n == 0) by (nonlinear_arith) requires n >= 2;
        assert forall|k: int| 0 <= k < es.len() implies consecutive_in(c, #[trigger] es[k]) by {
            assert(es[k] == (c.last(), c[0]));
            assert(c[n - 1] == c.last());
        }
    } else {
        lemma_cycle_edges_consecutive(c, j + 1);
        let rest = cycle_edges_from(c, j + 1);
        let n = c.len() as int;
        assert((j + 1) % n == j + 1) by (nonlinear_arith) requires 0 <= j + 1 < n;
        assert forall|k: int| 0 <= k < es.len() implies consecutive_in(c, #[trigger] es[k]) by {
            if k == 0 {
                assert(es[0] == (c[j], c[j + 1]));
            } else {
                assert(es[k] == rest[k - 1]);
            }
        }
    }
}

/// Every cycle-break edge joins consecutive members (the last wrapping to
/// the first) of each real reported cycle it cites.
pub proof fn law_cycle_break_edges_join_consecutive_members(cycles: Seq<Seq<Seq<char>>>)
    ensures
        ({
            let r = ranked_cycle_edges(cycles);
            forall|k: int, w: int|
                0 <= k < r.len() && 0 <= w < r[k].2.len() ==> {
                    let c = #[trigger] r[k].2[w];
                    &&& 0 <= c < cycles.len()
                    &&& cycles[c].len() >= 2
                    &&& consecutive_in(cycles[c], (r[k].0, r[k].1))
                }
        }),
{
    law_cycle_break_edges_lie_on_their_cycles(cycles);
    let r = ranked_cycle_edges(cycles);
    assert forall|k: int, w: int| 0 <= k < r.len() && 0 <= w < r[k].2.len() implies {
        let c = #[trigger] r[k].2[w];
        &&& 0 <= c < cycles.len()
        &&& cycles[c].len() >= 2
        &&& consecutive_in(cycles[c], (r[k].0, r[k].1))
    } by {
        let c = r[k].2[w];
        lemma_cycle_edges_consecutive(cycles[c], 0);
        let es = cycle_edges_from(cycles[c], 0);
        let v = choose|v: int| 0 <= v < es.len() && es[v] == (r[k].0, r[k].1);
        assert(consecutive_in(cycles[c], es[v]));
    }
}

} // verus!
