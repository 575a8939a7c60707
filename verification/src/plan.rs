//! `--robot-plan`: parallel execution tracks. Issues are joined into
//! components by their blocking and parent-child links (union-find over
//! the issues in id order, the smaller root winning each merge); every
//! component with actionable members becomes a track of those members in
//! (priority, id) order, and the summary names the actionable issue that
//! frees the most dependents.

use vstd::prelude::*;
use crate::next::{sort_strings, sort_texts};
use crate::text::{str_eq, views};

verus! {

/// What the plan reads of an issue. The graph edges come from the loaded
/// dependency graph and name issues by their index in the plan's input.
pub struct PlanIssue {
    pub id: String,
    pub priority: i64,
    /// The status is `Open`.
    pub open: bool,
    /// The status is `Closed` or `Tombstone`.
    pub closed_like: bool,
    /// The issue waits on an open blocker (directly or through an ancestor).
    pub blocked: bool,
    /// The ids named by its blocking and parent-child dependencies.
    pub links: Vec<String>,
    /// The issues that depend on it by a blocking edge.
    pub dependents: Vec<usize>,
    /// The issues it depends on by a blocking edge.
    pub blockers: Vec<usize>,
}

/// The ids of the issues.
pub open spec fn plan_ids(issues: Seq<PlanIssue>) -> Seq<Seq<char>> {
    issues.map_values(|i: PlanIssue| i.id@)
}

/// The issue ids are pairwise distinct and every graph edge names an issue.
pub open spec fn plan_input_ok(issues: Seq<PlanIssue>) -> bool {
    &&& forall|a: int, b: int|
        0 <= a < b < issues.len() ==> #[trigger] issues[a].id@ != #[trigger] issues[b].id@
    &&& forall|a: int|
        0 <= a < issues.len() ==> (#[trigger] issues[a]).open ==> !issues[a].closed_like
    &&& forall|a: int, k: int|
        0 <= a < issues.len() && 0 <= k < issues[a].dependents.len()
            ==> (#[trigger] issues[a].dependents@[k]) < issues.len()
    &&& forall|a: int, k: int|
        0 <= a < issues.len() && 0 <= k < issues[a].blockers.len()
            ==> (#[trigger] issues[a].blockers@[k]) < issues.len()
}

/// The first position of `t` in `s` at or after `k`.
pub open spec fn first_index_from(s: Seq<Seq<char>>, t: Seq<char>, k: int) -> Option<int>
    decreases s.len() - k,
{
    if k < 0 || k >= s.len() {
        None
    } else if s[k] == t {
        Some(k)
    } else {
        first_index_from(s, t, k + 1)
    }
}

/// The first position of `t` in `s`.
pub open spec fn first_index(s: Seq<Seq<char>>, t: Seq<char>) -> Option<int> {
    first_index_from(s, t, 0)
}

/// The first position of `t` in `v`.
fn position_of(v: &[String], t: &str) -> (r: Option<usize>)
    ensures
        match r {
            Some(i) => first_index(views(v@), t@) == Some(i as int) && i < v@.len(),
            None => first_index(views(v@), t@) is None,
        },
{
    let ghost s = views(v@);
    let mut k: usize = 0;
    while k < v.len()
        invariant
            s == views(v@),
            k <= v@.len(),
            first_index(s, t@) == first_index_from(s, t@, k as int),
        decreases v@.len() - k,
    {
        if str_eq(v[k].as_str(), t) {
            return Some(k);
        }
        k += 1;
    }
    None
}

// ---------------------------------------------------------------------------
// Union-find over positions in id order
// ---------------------------------------------------------------------------

/// Every parent is at or before its child.
pub open spec fn parents_ok(p: Seq<usize>) -> bool {
    forall|x: int| 0 <= x < p.len() ==> #[trigger] p[x] <= x
}

/// The root reached from `r` by following parents.
pub open spec fn find(p: Seq<usize>, r: int) -> int
    decreases r,
{
    if 0 <= r < p.len() && p[r] < r {
        find(p, p[r] as int)
    } else {
        r
    }
}

/// Joins the components of `a` and `b`; the smaller root becomes the parent.
pub open spec fn merge(p: Seq<usize>, a: int, b: int) -> Seq<usize> {
    let px = find(p, a);
    let py = find(p, b);
    if px == py {
        p
    } else if px < py {
        p.update(py, px as usize)
    } else {
        p.update(px, py as usize)
    }
}

/// Merges `r` with every linked id that names an issue, in link order.
pub open spec fn merge_links(p: Seq<usize>, r: int, links: Seq<Seq<char>>, sids: Seq<Seq<char>>) -> Seq<usize>
    decreases links.len(),
{
    if links.len() == 0 {
        p
    } else {
        let next = match first_index(sids, links[0]) {
            Some(q) => merge(p, r, q),
            None => p,
        };
        merge_links(next, r, links.drop_first(), sids)
    }
}

/// The issue at position `r` of the id order.
pub open spec fn issue_at(issues: Seq<PlanIssue>, sids: Seq<Seq<char>>, r: int) -> int {
    match first_index(plan_ids(issues), sids[r]) {
        Some(i) => i,
        None => 0,
    }
}

/// The parents after merging the links of positions `r` onwards.
pub open spec fn merge_from(issues: Seq<PlanIssue>, sids: Seq<Seq<char>>, p: Seq<usize>, r: int) -> Seq<usize>
    decreases sids.len() - r,
{
    if r < 0 || r >= sids.len() {
        p
    } else {
        let links = views(issues[issue_at(issues, sids, r)].links@);
        merge_from(issues, sids, merge_links(p, r, links, sids), r + 1)
    }
}

/// Every position its own parent.
pub open spec fn identity_parents(n: nat) -> Seq<usize> {
    Seq::new(n, |x: int| x as usize)
}

/// The parents once every link is merged.
pub open spec fn plan_parents(issues: Seq<PlanIssue>) -> Seq<usize> {
    let sids = sort_texts(plan_ids(issues));
    merge_from(issues, sids, identity_parents(sids.len()), 0)
}

fn find_root(p: &Vec<usize>, r: usize) -> (root: usize)
    requires
        parents_ok(p@),
        r < p@.len(),
    ensures
        root as int == find(p@, r as int),
        root < p@.len(),
{
    let mut x: usize = r;
    while p[x] < x
        invariant
            parents_ok(p@),
            x < p@.len(),
            find(p@, x as int) == find(p@, r as int),
        decreases x,
    {
        x = p[x];
    }
    x
}

fn merge_roots(p: &mut Vec<usize>, a: usize, b: usize)
    requires
        parents_ok(old(p)@),
        a < old(p)@.len(),
        b < old(p)@.len(),
    ensures
        final(p)@ == merge(old(p)@, a as int, b as int),
        parents_ok(final(p)@),
        final(p)@.len() == old(p)@.len(),
{
    let px = find_root(p, a);
    let py = find_root(p, b);
    if px < py {
        p.set(py, px);
    } else if py < px {
        p.set(px, py);
    }
}

fn merge_issue_links(p: &mut Vec<usize>, r: usize, links: &Vec<String>, sids: &Vec<String>)
    requires
        parents_ok(old(p)@),
        r < old(p)@.len(),
        old(p)@.len() == sids@.len(),
    ensures
        final(p)@ == merge_links(old(p)@, r as int, views(links@), views(sids@)),
        parents_ok(final(p)@),
        final(p)@.len() == old(p)@.len(),
{
    let ghost ls = views(links@);
    let ghost ss = views(sids@);
    let mut k: usize = 0;
    assert(ls.skip(0) =~= ls);
    while k < links.len()
        invariant
            ls == views(links@),
            ss == views(sids@),
            k <= links@.len(),
            parents_ok(p@),
            r < p@.len(),
            p@.len() == sids@.len(),
            merge_links(old(p)@, r as int, ls, ss) == merge_links(p@, r as int, ls.skip(k as int), ss),
        decreases links@.len() - k,
    {
        let ghost before = p@;
        proof {
            let rest = ls.skip(k as int);
            assert(rest[0] == ls[k as int]);
            assert(rest.drop_first() =~= ls.skip(k + 1));
        }
        match position_of(sids.as_slice(), links[k].as_str()) {
            Some(q) => {
                merge_roots(p, r, q);
            },
            None => {},
        }
        k += 1;
    }
    proof {
        assert(ls.skip(links@.len() as int) =~= Seq::<Seq<char>>::empty());
    }
}

/// The ids of the issues, in input order.
fn ids_vec(issues: &[PlanIssue]) -> (r: Vec<String>)
    ensures
        views(r@) == plan_ids(issues@),
{
    let mut out: Vec<String> = Vec::new();
    let mut k: usize = 0;
    while k < issues.len()
        invariant
            k <= issues@.len(),
            views(out@) == plan_ids(issues@).take(k as int),
        decreases issues@.len() - k,
    {
        proof {
            crate::text::lemma_views_push(out@, issues@[k as int].id);
        }
        out.push(issues[k].id.clone());
        proof {
            assert(plan_ids(issues@).take(k + 1) =~= plan_ids(issues@).take(k as int).push(issues@[k as int].id@));
        }
        k += 1;
    }
    assert(plan_ids(issues@).take(issues@.len() as int) =~= plan_ids(issues@));
    out
}

/// The issue at position `r` of the id order.
fn issue_index(ids: &Vec<String>, sids: &Vec<String>, r: usize, Ghost(issues): Ghost<Seq<PlanIssue>>) -> (i: usize)
    requires
        views(ids@) == plan_ids(issues),
        r < sids@.len(),
        issues.len() > 0,
    ensures
        i as int == issue_at(issues, views(sids@), r as int),
        i < issues.len(),
{
    match position_of(ids.as_slice(), sids[r].as_str()) {
        Some(i) => i,
        None => 0,
    }
}

/// The union-find parents of every position in id order, with the sorted ids.
fn plan_parents_exec(issues: &[PlanIssue]) -> (r: (Vec<usize>, Vec<String>, Vec<String>))
    ensures
        r.0@ == plan_parents(issues@),
        parents_ok(r.0@),
        views(r.1@) == sort_texts(plan_ids(issues@)),
        views(r.2@) == plan_ids(issues@),
        r.0@.len() == r.1@.len(),
        r.1@.len() == issues@.len(),
{
    let ids = ids_vec(issues);
    let sids = sort_strings(ids.clone());
    proof {
        crate::next::lemma_sort_texts(plan_ids(issues@));
    }
    let ghost ss = views(sids@);
    let n = sids.len();
    let mut p: Vec<usize> = Vec::new();
    let mut k: usize = 0;
    while k < n
        invariant
            k <= n,
            n == sids@.len(),
            p@ == identity_parents(n as nat).take(k as int),
        decreases n - k,
    {
        p.push(k);
        k += 1;
    }
    assert(p@ =~= identity_parents(n as nat));
    let mut r: usize = 0;
    while r < n
        invariant
            r <= n,
            n == sids@.len(),
            n == issues@.len(),
            ss == views(sids@),
            ss == sort_texts(plan_ids(issues@)),
            views(ids@) == plan_ids(issues@),
            parents_ok(p@),
            p@.len() == n,
            plan_parents(issues@) == merge_from(issues@, ss, p@, r as int),
        decreases n - r,
    {
        let i = issue_index(&ids, &sids, r, Ghost(issues@));
        merge_issue_links(&mut p, r, &issues[i].links, &sids);
        r += 1;
    }
    (p, sids, ids)
}

// ---------------------------------------------------------------------------
// Unblocks
// ---------------------------------------------------------------------------

/// Every blocker of `d` other than issue `i` itself is closed.
pub open spec fn others_closed(issues: Seq<PlanIssue>, i: int, d: int) -> bool {
    forall|k: int|
        0 <= k < issues[d].blockers@.len() ==> {
            let o = #[trigger] issues[d].blockers@[k] as int;
            issues[o].id@ == issues[i].id@ || issues[o].closed_like
        }
}

/// The ids, in dependent order, of the dependents in `ds` that completing
/// issue `i` would free: not closed, and with no other blocker still open.
pub open spec fn freed_ids(issues: Seq<PlanIssue>, i: int, ds: Seq<usize>) -> Seq<Seq<char>>
    decreases ds.len(),
{
    if ds.len() == 0 {
        Seq::empty()
    } else {
        let d = ds.last() as int;
        let rest = freed_ids(issues, i, ds.drop_last());
        if !issues[d].closed_like && others_closed(issues, i, d) {
            rest.push(issues[d].id@)
        } else {
            rest
        }
    }
}

/// The dependents that completing issue `i` frees, sorted.
pub open spec fn plan_unblocks(issues: Seq<PlanIssue>, i: int) -> Seq<Seq<char>> {
    sort_texts(freed_ids(issues, i, issues[i].dependents@))
}

fn others_closed_exec(issues: &[PlanIssue], i: usize, d: usize) -> (r: bool)
    requires
        plan_input_ok(issues@),
        i < issues@.len(),
        d < issues@.len(),
    ensures
        r == others_closed(issues@, i as int, d as int),
{
    let bs = &issues[d].blockers;
    let mut k: usize = 0;
    while k < bs.len()
        invariant
            plan_input_ok(issues@),
            i < issues@.len(),
            d < issues@.len(),
            bs == issues@[d as int].blockers,
            k <= bs@.len(),
            forall|j: int|
                0 <= j < k ==> {
                    let o = #[trigger] issues@[d as int].blockers@[j] as int;
                    issues@[o].id@ == issues@[i as int].id@ || issues@[o].closed_like
                },
        decreases bs@.len() - k,
    {
        let o = bs[k];
        assert(o == issues@[d as int].blockers@[k as int]);
        if !str_eq(issues[o].id.as_str(), issues[i].id.as_str()) && !issues[o].closed_like {
            return false;
        }
        k += 1;
    }
    true
}

/// The dependents that completing issue `i` frees, sorted.
pub fn unblocks_of(issues: &[PlanIssue], i: usize) -> (r: Vec<String>)
    requires
        plan_input_ok(issues@),
        i < issues@.len(),
    ensures
        views(r@) == plan_unblocks(issues@, i as int),
{
    let ds = &issues[i].dependents;
    let mut out: Vec<String> = Vec::new();
    let mut k: usize = 0;
    while k < ds.len()
        invariant
            plan_input_ok(issues@),
            i < issues@.len(),
            ds == issues@[i as int].dependents,
            k <= ds@.len(),
            views(out@) == freed_ids(issues@, i as int, ds@.take(k as int)),
        decreases ds@.len() - k,
    {
        let d = ds[k];
        assert(ds@.take(k + 1).drop_last() =~= ds@.take(k as int));
        assert(ds@.take(k + 1).last() == d);
        if !issues[d].closed_like && others_closed_exec(issues, i, d) {
            proof {
                crate::text::lemma_views_push(out@, issues@[d as int].id);
            }
            out.push(issues[d].id.clone());
        }
        k += 1;
    }
    assert(ds@.take(ds@.len() as int) =~= ds@);
    sort_strings(out)
}

// ---------------------------------------------------------------------------
// Tracks
// ---------------------------------------------------------------------------

/// The issue may be started now: open and not blocked.
pub open spec fn plan_actionable(i: PlanIssue) -> bool {
    i.open && !i.blocked
}

/// The positions from `r` onwards, in id order, of the actionable members
/// of the component rooted at `q`.
pub open spec fn members_from(issues: Seq<PlanIssue>, sids: Seq<Seq<char>>, p: Seq<usize>, q: int, r: int) -> Seq<int>
    decreases sids.len() - r,
{
    if r < 0 || r >= sids.len() {
        Seq::empty()
    } else {
        let rest = members_from(issues, sids, p, q, r + 1);
        if find(p, r) == q && plan_actionable(issues[issue_at(issues, sids, r)]) {
            seq![r] + rest
        } else {
            rest
        }
    }
}

/// The priority of the issue at position `r`.
pub open spec fn rank_priority(issues: Seq<PlanIssue>, sids: Seq<Seq<char>>, r: int) -> int {
    issues[issue_at(issues, sids, r)].priority as int
}

/// `x` placed in `s` before the first position of strictly larger priority.
pub open spec fn insert_by_priority(issues: Seq<PlanIssue>, sids: Seq<Seq<char>>, s: Seq<int>, x: int) -> Seq<int>
    decreases s.len(),
{
    if s.len() == 0 {
        seq![x]
    } else if rank_priority(issues, sids, x) < rank_priority(issues, sids, s[0]) {
        seq![x] + s
    } else {
        seq![s[0]] + insert_by_priority(issues, sids, s.drop_first(), x)
    }
}

/// Positions in id order, stably sorted by priority: (priority, id) order.
pub open spec fn sort_by_priority(issues: Seq<PlanIssue>, sids: Seq<Seq<char>>, s: Seq<int>) -> Seq<int>
    decreases s.len(),
{
    if s.len() == 0 {
        Seq::empty()
    } else {
        insert_by_priority(issues, sids, sort_by_priority(issues, sids, s.drop_last()), s.last())
    }
}

/// Why a track stands apart.
#[derive(Debug, Clone, Copy, PartialEq, Eq, Structural)]
pub enum TrackReason {
    /// The track has one item.
    Single,
    /// Every issue lies in one connected component.
    Connected,
    /// One of several components.
    Independent,
}

/// One execution track: its 1-based number, its items (indices of the
/// input issues) in (priority, id) order, and why it stands apart.
pub struct PlanTrack {
    pub number: usize,
    pub items: Vec<usize>,
    pub reason: TrackReason,
}

/// A track as the specification sees it.
pub struct TrackView {
    pub number: nat,
    pub items: Seq<int>,
    pub reason: TrackReason,
}

impl PlanTrack {
    pub open spec fn view(&self) -> TrackView {
        TrackView {
            number: self.number as nat,
            items: self.items@.map_values(|i: usize| i as int),
            reason: self.reason,
        }
    }
}

/// The number of components: positions that are their own root.
pub open spec fn root_count(p: Seq<usize>, r: int) -> nat
    decreases p.len() - r,
{
    if r < 0 || r >= p.len() {
        0
    } else {
        root_count(p, r + 1) + if find(p, r) == r { 1nat } else { 0 }
    }
}

/// The reason of a track with `len` items among `components` components.
pub open spec fn track_reason(len: nat, components: nat) -> TrackReason {
    if len == 1 {
        TrackReason::Single
    } else if components == 1 {
        TrackReason::Connected
    } else {
        TrackReason::Independent
    }
}

/// The tracks of the components rooted at positions `q` onwards, numbered
/// from `num`: one per component with actionable members.
pub open spec fn tracks_from(issues: Seq<PlanIssue>, sids: Seq<Seq<char>>, p: Seq<usize>, q: int, num: nat) -> Seq<TrackView>
    decreases sids.len() - q,
{
    if q < 0 || q >= sids.len() {
        Seq::empty()
    } else {
        let ms = members_from(issues, sids, p, q, 0);
        if find(p, q) == q && ms.len() > 0 {
            let sorted = sort_by_priority(issues, sids, ms);
            let t = TrackView {
                number: num,
                items: sorted.map_values(|r: int| issue_at(issues, sids, r)),
                reason: track_reason(ms.len(), root_count(p, 0)),
            };
            seq![t] + tracks_from(issues, sids, p, q + 1, num + 1)
        } else {
            tracks_from(issues, sids, p, q + 1, num)
        }
    }
}

/// The execution tracks of the issues.
pub open spec fn plan_tracks(issues: Seq<PlanIssue>) -> Seq<TrackView> {
    let sids = sort_texts(plan_ids(issues));
    tracks_from(issues, sids, plan_parents(issues), 0, 1)
}

/// The issue at each position of the id order.
fn issue_order(ids: &Vec<String>, sids: &Vec<String>, Ghost(issues): Ghost<Seq<PlanIssue>>) -> (order: Vec<usize>)
    requires
        views(ids@) == plan_ids(issues),
        sids@.len() == issues.len(),
    ensures
        order@.len() == sids@.len(),
        forall|r: int|
            0 <= r < order@.len() ==> #[trigger] order@[r] as int == issue_at(issues, views(sids@), r)
                && order@[r] < issues.len(),
{
    let mut order: Vec<usize> = Vec::new();
    let mut r: usize = 0;
    while r < sids.len()
        invariant
            views(ids@) == plan_ids(issues),
            sids@.len() == issues.len(),
            r <= sids@.len(),
            order@.len() == r,
            forall|j: int|
                0 <= j < r ==> #[trigger] order@[j] as int == issue_at(issues, views(sids@), j)
                    && order@[j] < issues.len(),
        decreases sids@.len() - r,
    {
        let i = issue_index(ids, sids, r, Ghost(issues));
        order.push(i);
        r += 1;
    }
    order
}

/// The root of every position.
fn roots_of(p: &Vec<usize>) -> (roots: Vec<usize>)
    requires
        parents_ok(p@),
    ensures
        roots@.len() == p@.len(),
        forall|r: int| 0 <= r < p@.len() ==> #[trigger] roots@[r] as int == find(p@, r),
{
    let mut roots: Vec<usize> = Vec::new();
    let mut r: usize = 0;
    while r < p.len()
        invariant
            parents_ok(p@),
            r <= p@.len(),
            roots@.len() == r,
            forall|j: int| 0 <= j < r ==> #[trigger] roots@[j] as int == find(p@, j),
        decreases p@.len() - r,
    {
        let x = find_root(p, r);
        roots.push(x);
        r += 1;
    }
    roots
}

/// The number of components.
fn count_roots(p: &Vec<usize>, roots: &Vec<usize>) -> (c: usize)
    requires
        roots@.len() == p@.len(),
        forall|r: int| 0 <= r < p@.len() ==> #[trigger] roots@[r] as int == find(p@, r),
    ensures
        c == root_count(p@, 0),
{
    let mut c: usize = 0;
    let n = p.len();
    let mut r: usize = n;
    while r > 0
        invariant
            n == p@.len(),
            r <= p@.len(),
            roots@.len() == p@.len(),
            forall|j: int| 0 <= j < p@.len() ==> #[trigger] roots@[j] as int == find(p@, j),
            c == root_count(p@, r as int),
            c <= p@.len() - r,
        decreases r,
    {
        r -= 1;
        if roots[r] == r {
            c += 1;
        }
    }
    c
}

/// The actionable members of the component rooted at `q`, in id order.
fn members_of(
    issues: &[PlanIssue],
    order: &Vec<usize>,
    roots: &Vec<usize>,
    q: usize,
    Ghost(sids): Ghost<Seq<Seq<char>>>,
    Ghost(p): Ghost<Seq<usize>>,
) -> (ms: Vec<usize>)
    requires
        order@.len() == sids.len(),
        roots@.len() == sids.len(),
        forall|r: int|
            0 <= r < order@.len() ==> #[trigger] order@[r] as int == issue_at(issues@, sids, r)
                && order@[r] < issues@.len(),
        forall|r: int| 0 <= r < roots@.len() ==> #[trigger] roots@[r] as int == find(p, r),
    ensures
        ms@.map_values(|r: usize| r as int) == members_from(issues@, sids, p, q as int, 0),
        forall|k: int| 0 <= k < ms@.len() ==> #[trigger] ms@[k] < sids.len(),
{
    let mut out: Vec<usize> = Vec::new();
    let mut r: usize = 0;
    while r < order.len()
        invariant
            order@.len() == sids.len(),
            roots@.len() == sids.len(),
            forall|j: int|
                0 <= j < order@.len() ==> #[trigger] order@[j] as int == issue_at(issues@, sids, j)
                    && order@[j] < issues@.len(),
            forall|j: int| 0 <= j < roots@.len() ==> #[trigger] roots@[j] as int == find(p, j),
            r <= order@.len(),
            members_from(issues@, sids, p, q as int, 0) == out@.map_values(|x: usize| x as int)
                + members_from(issues@, sids, p, q as int, r as int),
            forall|k: int| 0 <= k < out@.len() ==> #[trigger] out@[k] < sids.len(),
        decreases order@.len() - r,
    {
        let i = order[r];
        let ghost before = out@;
        if roots[r] == q && issues[i].open && !issues[i].blocked {
            out.push(r);
            proof {
                assert(out@.map_values(|x: usize| x as int) =~= before.map_values(|x: usize| x as int) + seq![r as int]);
            }
        }
        r += 1;
    }
    out
}

/// The positions as integers.
pub open spec fn ints(v: Seq<usize>) -> Seq<int> {
    v.map_values(|x: usize| x as int)
}

/// Places position `x` into `v`, sorted by priority, after every position
/// of no larger priority.
fn insert_rank(
    v: &mut Vec<usize>,
    x: usize,
    issues: &[PlanIssue],
    order: &Vec<usize>,
    Ghost(sids): Ghost<Seq<Seq<char>>>,
)
    requires
        x < sids.len(),
        order@.len() == sids.len(),
        forall|r: int|
            0 <= r < order@.len() ==> #[trigger] order@[r] as int == issue_at(issues@, sids, r)
                && order@[r] < issues@.len(),
        forall|k: int| 0 <= k < old(v)@.len() ==> #[trigger] old(v)@[k] < sids.len(),
    ensures
        ints(final(v)@) == insert_by_priority(issues@, sids, ints(old(v)@), x as int),
        forall|k: int| 0 <= k < final(v)@.len() ==> #[trigger] final(v)@[k] < sids.len(),
{
    let ghost s = ints(v@);
    let px = issues[order[x]].priority;
    let mut p: usize = 0;
    assert(s.take(0) + s.skip(0) =~= s);
    assert(s.take(0) + insert_by_priority(issues@, sids, s.skip(0), x as int)
        =~= insert_by_priority(issues@, sids, s, x as int)) by {
        assert(s.skip(0) =~= s);
    }
    while p < v.len()
        invariant
            p <= v@.len(),
            s == ints(old(v)@),
            v@ == old(v)@,
            x < sids.len(),
            order@.len() == sids.len(),
            forall|r: int|
                0 <= r < order@.len() ==> #[trigger] order@[r] as int == issue_at(issues@, sids, r)
                    && order@[r] < issues@.len(),
            forall|k: int| 0 <= k < v@.len() ==> #[trigger] v@[k] < sids.len(),
            px as int == rank_priority(issues@, sids, x as int),
            insert_by_priority(issues@, sids, s, x as int) == s.take(p as int)
                + insert_by_priority(issues@, sids, s.skip(p as int), x as int),
        ensures
            p <= v@.len(),
            v@ == old(v)@,
            insert_by_priority(issues@, sids, s, x as int) == s.take(p as int)
                + insert_by_priority(issues@, sids, s.skip(p as int), x as int),
            p < v@.len() ==> rank_priority(issues@, sids, x as int) < rank_priority(issues@, sids, s[p as int]),
        decreases v@.len() - p,
    {
        let y = v[p];
        assert(v@[p as int] < sids.len());
        if px < issues[order[y]].priority {
            break;
        }
        proof {
            let rest = s.skip(p as int);
            assert(rest[0] == s[p as int]);
            assert(rest.drop_first() =~= s.skip(p + 1));
            assert(s.take(p + 1) =~= s.take(p as int).push(s[p as int]));
            assert(s.take(p as int) + (seq![rest[0]] + insert_by_priority(issues@, sids, rest.drop_first(), x as int))
                =~= s.take(p + 1) + insert_by_priority(issues@, sids, s.skip(p + 1), x as int));
        }
        p += 1;
    }
    proof {
        let rest = s.skip(p as int);
        if p < s.len() {
            assert(rest[0] == s[p as int]);
        } else {
            assert(rest.len() == 0);
        }
    }
    let ghost before = v@;
    v.insert(p, x);
    proof {
        assert(ints(v@) =~= s.take(p as int) + (seq![x as int] + s.skip(p as int))) by {
            assert(v@ == before.insert(p as int, x));
            assert forall|k: int| 0 <= k < ints(v@).len() implies ints(v@)[k] == (s.take(p as int)
                + (seq![x as int] + s.skip(p as int)))[k] by {
                if k < p {
                } else if k == p {
                } else {
                    assert(v@[k] == before[k - 1]);
                }
            }
        }
        assert forall|k: int| 0 <= k < v@.len() implies #[trigger] v@[k] < sids.len() by {
            if k < p {
            } else if k == p {
            } else {
                assert(v@[k] == before[k - 1]);
            }
        }
    }
}

/// The positions sorted by (priority, id).
fn sort_ranks(
    ms: &Vec<usize>,
    issues: &[PlanIssue],
    order: &Vec<usize>,
    Ghost(sids): Ghost<Seq<Seq<char>>>,
) -> (r: Vec<usize>)
    requires
        order@.len() == sids.len(),
        forall|r: int|
            0 <= r < order@.len() ==> #[trigger] order@[r] as int == issue_at(issues@, sids, r)
                && order@[r] < issues@.len(),
        forall|k: int| 0 <= k < ms@.len() ==> #[trigger] ms@[k] < sids.len(),
    ensures
        ints(r@) == sort_by_priority(issues@, sids, ints(ms@)),
        forall|k: int| 0 <= k < r@.len() ==> #[trigger] r@[k] < sids.len(),
{
    let mut out: Vec<usize> = Vec::new();
    let mut k: usize = 0;
    while k < ms.len()
        invariant
            k <= ms@.len(),
            order@.len() == sids.len(),
            forall|r: int|
                0 <= r < order@.len() ==> #[trigger] order@[r] as int == issue_at(issues@, sids, r)
                    && order@[r] < issues@.len(),
            forall|j: int| 0 <= j < ms@.len() ==> #[trigger] ms@[j] < sids.len(),
            forall|j: int| 0 <= j < out@.len() ==> #[trigger] out@[j] < sids.len(),
            ints(out@) == sort_by_priority(issues@, sids, ints(ms@).take(k as int)),
        decreases ms@.len() - k,
    {
        proof {
            let t = ints(ms@).take(k + 1);
            assert(t.drop_last() =~= ints(ms@).take(k as int));
            assert(t.last() == ms@[k as int] as int);
        }
        insert_rank(&mut out, ms[k], issues, order, Ghost(sids));
        k += 1;
    }
    assert(ints(ms@).take(ms@.len() as int) =~= ints(ms@));
    out
}

// ---------------------------------------------------------------------------
// Summary and the whole plan
// ---------------------------------------------------------------------------

/// Among the actionable issues in id order from position `r`, the first one
/// freeing strictly more dependents than any before it, with that number.
pub open spec fn best_from(issues: Seq<PlanIssue>, sids: Seq<Seq<char>>, r: int, best: Option<(int, int)>) -> Option<(int, int)>
    decreases sids.len() - r,
{
    if r < 0 || r >= sids.len() {
        best
    } else {
        let i = issue_at(issues, sids, r);
        let c = plan_unblocks(issues, i).len() as int;
        let beats = match best {
            Some(b) => c > b.1,
            None => true,
        };
        if plan_actionable(issues[i]) && beats {
            best_from(issues, sids, r + 1, Some((i, c)))
        } else {
            best_from(issues, sids, r + 1, best)
        }
    }
}

/// The issue with the most freed dependents, and how many.
pub open spec fn plan_highest(issues: Seq<PlanIssue>) -> Option<(int, int)> {
    best_from(issues, sort_texts(plan_ids(issues)), 0, None)
}

/// How many of the first `k` issues are actionable.
pub open spec fn actionable_count(issues: Seq<PlanIssue>) -> nat
    decreases issues.len(),
{
    if issues.len() == 0 {
        0
    } else {
        actionable_count(issues.drop_last()) + if plan_actionable(issues.last()) { 1nat } else { 0 }
    }
}

/// How many issues are not closed.
pub open spec fn not_closed_count(issues: Seq<PlanIssue>) -> nat
    decreases issues.len(),
{
    if issues.len() == 0 {
        0
    } else {
        not_closed_count(issues.drop_last()) + if !issues.last().closed_like { 1nat } else { 0 }
    }
}

/// What the summary says of the issue that frees the most.
#[derive(Debug, Clone, Copy, PartialEq, Eq, Structural)]
pub enum ImpactReason {
    /// It frees one issue.
    One,
    /// It frees several.
    Several,
    /// Nothing waits on it, or nothing is actionable.
    Nothing,
}

/// The reason for a highest count.
pub open spec fn impact_reason(highest: Option<(int, int)>) -> ImpactReason {
    match highest {
        Some(h) => if h.1 == 1 {
            ImpactReason::One
        } else if h.1 > 1 {
            ImpactReason::Several
        } else {
            ImpactReason::Nothing
        },
        None => ImpactReason::Nothing,
    }
}

/// The execution plan: the tracks, the freed dependents of every issue
/// (by input index), the summary and the totals.
pub struct ExecutionPlan {
    pub tracks: Vec<PlanTrack>,
    pub unblocks: Vec<Vec<String>>,
    /// The issue (input index) freeing the most dependents, and how many.
    pub highest: Option<(usize, usize)>,
    pub impact: ImpactReason,
    pub total_actionable: usize,
    pub total_blocked: usize,
}

/// The freed dependents of every issue.
fn all_unblocks(issues: &[PlanIssue]) -> (u: Vec<Vec<String>>)
    requires
        plan_input_ok(issues@),
    ensures
        u@.len() == issues@.len(),
        forall|i: int| 0 <= i < issues@.len() ==> views(#[trigger] u@[i]@) == plan_unblocks(issues@, i),
{
    let mut u: Vec<Vec<String>> = Vec::new();
    let mut i: usize = 0;
    while i < issues.len()
        invariant
            plan_input_ok(issues@),
            i <= issues@.len(),
            u@.len() == i,
            forall|j: int| 0 <= j < i ==> views(#[trigger] u@[j]@) == plan_unblocks(issues@, j),
        decreases issues@.len() - i,
    {
        let v = unblocks_of(issues, i);
        u.push(v);
        i += 1;
    }
    u
}

/// The actionable and not-closed counts.
fn plan_counts(issues: &[PlanIssue]) -> (r: (usize, usize))
    requires
        plan_input_ok(issues@),
    ensures
        r.0 == actionable_count(issues@),
        r.1 == not_closed_count(issues@),
        r.0 <= r.1,
{
    let mut a: usize = 0;
    let mut o: usize = 0;
    let mut k: usize = 0;
    while k < issues.len()
        invariant
            plan_input_ok(issues@),
            k <= issues@.len(),
            a == actionable_count(issues@.take(k as int)),
            o == not_closed_count(issues@.take(k as int)),
            a <= o,
            o <= k,
        decreases issues@.len() - k,
    {
        assert(issues@.take(k + 1).drop_last() =~= issues@.take(k as int));
        assert(issues@.take(k + 1).last() == issues@[k as int]);
        if !issues[k].closed_like {
            o += 1;
        }
        if issues[k].open && !issues[k].blocked {
            a += 1;
        }
        k += 1;
    }
    assert(issues@.take(issues@.len() as int) =~= issues@);
    (a, o)
}

/// The tracks of the plan.
fn build_tracks(
    issues: &[PlanIssue],
    order: &Vec<usize>,
    p: &Vec<usize>,
    roots: &Vec<usize>,
    components: usize,
    Ghost(sids): Ghost<Seq<Seq<char>>>,
) -> (tracks: Vec<PlanTrack>)
    requires
        sids.len() < usize::MAX,
        order@.len() == sids.len(),
        roots@.len() == sids.len(),
        p@.len() == sids.len(),
        components == root_count(p@, 0),
        forall|r: int|
            0 <= r < order@.len() ==> #[trigger] order@[r] as int == issue_at(issues@, sids, r)
                && order@[r] < issues@.len(),
        forall|r: int| 0 <= r < roots@.len() ==> #[trigger] roots@[r] as int == find(p@, r),
    ensures
        tracks@.map_values(|t: PlanTrack| t.view()) == tracks_from(issues@, sids, p@, 0, 1),
{
    let mut out: Vec<PlanTrack> = Vec::new();
    let mut num: usize = 1;
    let mut q: usize = 0;
    let n = order.len();
    while q < n
        invariant
            n == sids.len(),
            n < usize::MAX,
            order@.len() == sids.len(),
            roots@.len() == sids.len(),
            p@.len() == sids.len(),
            components == root_count(p@, 0),
            forall|r: int|
                0 <= r < order@.len() ==> #[trigger] order@[r] as int == issue_at(issues@, sids, r)
                    && order@[r] < issues@.len(),
            forall|r: int| 0 <= r < roots@.len() ==> #[trigger] roots@[r] as int == find(p@, r),
            q <= n,
            1 <= num <= q + 1,
            tracks_from(issues@, sids, p@, 0, 1) == out@.map_values(|t: PlanTrack| t.view())
                + tracks_from(issues@, sids, p@, q as int, num as nat),
        decreases n - q,
    {
        let ghost ms_spec = members_from(issues@, sids, p@, q as int, 0);
        if roots[q] == q {
            let ms = members_of(issues, order, roots, q, Ghost(sids), Ghost(p@));
            if ms.len() > 0 {
                let sorted = sort_ranks(&ms, issues, order, Ghost(sids));
                let mut items: Vec<usize> = Vec::new();
                let mut k: usize = 0;
                while k < sorted.len()
                    invariant
                        k <= sorted@.len(),
                        order@.len() == sids.len(),
                        forall|r: int|
                            0 <= r < order@.len() ==> #[trigger] order@[r] as int == issue_at(issues@, sids, r)
                                && order@[r] < issues@.len(),
                        forall|j: int| 0 <= j < sorted@.len() ==> #[trigger] sorted@[j] < sids.len(),
                        ints(items@) == ints(sorted@).take(k as int).map_values(|r: int| issue_at(issues@, sids, r)),
                    decreases sorted@.len() - k,
                {
                    let ghost before = items@;
                    let r = sorted[k];
                    assert(sorted@[k as int] < sids.len());
                    items.push(order[r]);
                    proof {
                        let goal = ints(sorted@).take(k + 1).map_values(|r: int| issue_at(issues@, sids, r));
                        assert(ints(before).len() == ints(sorted@).take(k as int).len());
                        assert(before.len() == k);
                        assert(goal.len() == k + 1);
                        assert(items@ == before.push(order@[r as int]));
                        assert forall|j: int| 0 <= j < ints(items@).len() implies ints(items@)[j] == goal[j] by {
                            assert(goal[j] == issue_at(issues@, sids, sorted@[j] as int));
                            if j < k {
                                assert(items@[j] == before[j]);
                                assert(ints(before)[j] == ints(sorted@).take(k as int).map_values(|r: int| issue_at(issues@, sids, r))[j]);
                                assert(ints(before)[j] == issue_at(issues@, sids, sorted@[j] as int));
                            } else {
                                assert(items@[j] == order@[r as int]);
                                assert(order@[r as int] as int == issue_at(issues@, sids, r as int));
                            }
                        }
                        assert(ints(items@) =~= goal);
                    }
                    k += 1;
                }
                assert(ints(sorted@).take(sorted@.len() as int) =~= ints(sorted@));
                let reason = if ms.len() == 1 {
                    TrackReason::Single
                } else if components == 1 {
                    TrackReason::Connected
                } else {
                    TrackReason::Independent
                };
                assert(ms@.len() == ms_spec.len()) by {
                    assert(ms@.map_values(|r: usize| r as int).len() == ms@.len());
                }
                let t = PlanTrack { number: num, items, reason };
                proof {
                    assert(ints(ms@) == ms_spec);
                    assert(t.view().items =~= sort_by_priority(issues@, sids, ms_spec).map_values(|r: int| issue_at(issues@, sids, r)));
                    assert(t.view().reason == track_reason(ms_spec.len(), root_count(p@, 0)));
                }
                let ghost before = out@;
                out.push(t);
                proof {
                    assert(out@.map_values(|t: PlanTrack| t.view()) =~= before.map_values(|t: PlanTrack| t.view()).push(t.view()));
                    assert(tracks_from(issues@, sids, p@, q as int, num as nat) == seq![t.view()]
                        + tracks_from(issues@, sids, p@, q + 1, (num + 1) as nat));
                    assert(before.map_values(|t: PlanTrack| t.view()) + tracks_from(issues@, sids, p@, q as int, num as nat)
                        =~= out@.map_values(|t: PlanTrack| t.view()) + tracks_from(issues@, sids, p@, q + 1, (num + 1) as nat));
                }
                num += 1;
            }
        }
        q += 1;
    }
    assert(out@.map_values(|t: PlanTrack| t.view()) + tracks_from(issues@, sids, p@, n as int, num as nat)
        =~= out@.map_values(|t: PlanTrack| t.view()));
    out
}

/// The summary's pick over the actionable issues in id order.
fn best_exec(
    issues: &[PlanIssue],
    order: &Vec<usize>,
    unblocks: &Vec<Vec<String>>,
    Ghost(sids): Ghost<Seq<Seq<char>>>,
) -> (best: Option<(usize, usize)>)
    requires
        order@.len() == sids.len(),
        unblocks@.len() == issues@.len(),
        forall|i: int| 0 <= i < issues@.len() ==> views(#[trigger] unblocks@[i]@) == plan_unblocks(issues@, i),
        forall|r: int|
            0 <= r < order@.len() ==> #[trigger] order@[r] as int == issue_at(issues@, sids, r)
                && order@[r] < issues@.len(),
    ensures
        match best {
            Some(b) => best_from(issues@, sids, 0, None) == Some((b.0 as int, b.1 as int)),
            None => best_from(issues@, sids, 0, None) is None,
        },
{
    let mut best: Option<(usize, usize)> = None;
    let mut r: usize = 0;
    while r < order.len()
        invariant
            r <= order@.len(),
            order@.len() == sids.len(),
            unblocks@.len() == issues@.len(),
            forall|i: int| 0 <= i < issues@.len() ==> views(#[trigger] unblocks@[i]@) == plan_unblocks(issues@, i),
            forall|j: int|
                0 <= j < order@.len() ==> #[trigger] order@[j] as int == issue_at(issues@, sids, j)
                    && order@[j] < issues@.len(),
            best_from(issues@, sids, 0, None) == best_from(
                issues@,
                sids,
                r as int,
                match best {
                    Some(b) => Some((b.0 as int, b.1 as int)),
                    None => None,
                },
            ),
        decreases order@.len() - r,
    {
        let i = order[r];
        let c = unblocks[i].len();
        assert(views(unblocks@[i as int]@).len() == unblocks@[i as int]@.len());
        let beats = match best {
            Some(b) => c > b.1,
            None => true,
        };
        if issues[i].open && !issues[i].blocked && beats {
            best = Some((i, c));
        }
        r += 1;
    }
    best
}

/// The execution plan of the issues: tracks of actionable issues by
/// component, the freed dependents of every issue, the summary and the
/// totals. Issue ids are distinct and graph edges name loaded issues.
pub fn execution_plan(issues: &[PlanIssue]) -> (plan: ExecutionPlan)
    requires
        plan_input_ok(issues@),
        issues@.len() < usize::MAX,
    ensures
        plan.tracks@.map_values(|t: PlanTrack| t.view()) == plan_tracks(issues@),
        plan.unblocks@.len() == issues@.len(),
        forall|i: int| 0 <= i < issues@.len() ==> views(#[trigger] plan.unblocks@[i]@) == plan_unblocks(issues@, i),
        match plan.highest {
            Some(h) => plan_highest(issues@) == Some((h.0 as int, h.1 as int)),
            None => plan_highest(issues@) is None,
        },
        plan.impact == impact_reason(plan_highest(issues@)),
        plan.total_actionable == actionable_count(issues@),
        plan.total_blocked == not_closed_count(issues@) - actionable_count(issues@),
{
    let (p, sids, ids) = plan_parents_exec(issues);
    let ghost ss = views(sids@);
    let order = issue_order(&ids, &sids, Ghost(issues@));
    let roots = roots_of(&p);
    let components = count_roots(&p, &roots);
    let tracks = build_tracks(issues, &order, &p, &roots, components, Ghost(ss));
    let unblocks = all_unblocks(issues);
    let highest = best_exec(issues, &order, &unblocks, Ghost(ss));
    let impact = match highest {
        Some(h) => if h.1 == 1 {
            ImpactReason::One
        } else if h.1 > 1 {
            ImpactReason::Several
        } else {
            ImpactReason::Nothing
        },
        None => ImpactReason::Nothing,
    };
    let (a, o) = plan_counts(issues);
    ExecutionPlan { tracks, unblocks, highest, impact, total_actionable: a, total_blocked: o - a }
}

/// The label of track `number`: `track-A`, `track-B`, ...
pub fn track_label(number: usize) -> (r: String)
    ensures
        r@ == "track-"@ + crate::robot::track_id(number as nat),
{
    let l = crate::robot::go_track_id(number);
    crate::text::concat2("track-", l.as_str())
}

/// The text of a track reason.
pub fn track_reason_text(reason: TrackReason) -> (r: &'static str)
    ensures
        r@ == match reason {
            TrackReason::Single => "Single actionable item"@,
            TrackReason::Connected => "All issues in connected graph"@,
            TrackReason::Independent => "Independent work stream"@,
        },
{
    match reason {
        TrackReason::Single => "Single actionable item",
        TrackReason::Connected => "All issues in connected graph",
        TrackReason::Independent => "Independent work stream",
    }
}

/// The text of an impact reason.
pub fn impact_reason_text(reason: ImpactReason) -> (r: &'static str)
    ensures
        r@ == match reason {
            ImpactReason::One => "Unblocks 1 task"@,
            ImpactReason::Several => "Unblocks multiple tasks"@,
            ImpactReason::Nothing => "No downstream dependencies"@,
        },
{
    match reason {
        ImpactReason::One => "Unblocks 1 task",
        ImpactReason::Several => "Unblocks multiple tasks",
        ImpactReason::Nothing => "No downstream dependencies",
    }
}

/// Whether the issues meet what the plan needs: pairwise distinct ids, no
/// issue both open and closed, and graph edges that name loaded issues.
pub fn plan_input_valid(issues: &[PlanIssue]) -> (r: bool)
    ensures
        r == plan_input_ok(issues@),
{
    let n = issues.len();
    let mut a: usize = 0;
    while a < n
        invariant
            n == issues@.len(),
            a <= n,
            forall|x: int, y: int| 0 <= x < a && x < y < n ==> #[trigger] issues@[x].id@ != #[trigger] issues@[y].id@,
            forall|x: int| 0 <= x < a ==> (#[trigger] issues@[x]).open ==> !issues@[x].closed_like,
            forall|x: int, k: int|
                0 <= x < a && 0 <= k < issues@[x].dependents.len() ==> (#[trigger] issues@[x].dependents@[k]) < n,
            forall|x: int, k: int|
                0 <= x < a && 0 <= k < issues@[x].blockers.len() ==> (#[trigger] issues@[x].blockers@[k]) < n,
        decreases n - a,
    {
        if issues[a].open && issues[a].closed_like {
            return false;
        }
        let mut b: usize = a + 1;
        while b < n
            invariant
                n == issues@.len(),
                a < n,
                a < b <= n,
                forall|y: int| a < y < b ==> issues@[a as int].id@ != #[trigger] issues@[y].id@,
            decreases n - b,
        {
            if str_eq(issues[a].id.as_str(), issues[b].id.as_str()) {
                return false;
            }
            b += 1;
        }
        let ds = &issues[a].dependents;
        let mut k: usize = 0;
        while k < ds.len()
            invariant
                n == issues@.len(),
                a < n,
                ds == issues@[a as int].dependents,
                k <= ds@.len(),
                forall|j: int| 0 <= j < k ==> #[trigger] ds@[j] < n,
            decreases ds@.len() - k,
        {
            if ds[k] >= n {
                return false;
            }
            k += 1;
        }
        let bs = &issues[a].blockers;
        let mut k: usize = 0;
        while k < bs.len()
            invariant
                n == issues@.len(),
                a < n,
                bs == issues@[a as int].blockers,
                k <= bs@.len(),
                forall|j: int| 0 <= j < k ==> #[trigger] bs@[j] < n,
            decreases bs@.len() - k,
        {
            if bs[k] >= n {
                return false;
            }
            k += 1;
        }
        a += 1;
    }
    true
}

/// Dependent `d` of issue `i` is freed once `i` is done: `d` is not
/// closed, and every blocker of `d` other than `i` is Closed or Tombstone.
pub open spec fn freed_by(issues: Seq<PlanIssue>, i: int, d: int) -> bool {
    &&& !issues[d].closed_like
    &&& forall|q: int|
        0 <= q < issues[d].blockers@.len() ==> {
            let o = #[trigger] issues[d].blockers@[q] as int;
            issues[o].id@ == issues[i].id@ || issues[o].closed_like
        }
}

proof fn lemma_freed_ids_members(issues: Seq<PlanIssue>, i: int, ds: Seq<usize>)
    ensures
        forall|x: Seq<char>|
            #[trigger] freed_ids(issues, i, ds).contains(x) <==> exists|k: int|
                0 <= k < ds.len() && issues[ds[k] as int].id@ == x && #[trigger] freed_by(issues, i, ds[k] as int),
    decreases ds.len(),
{
    if ds.len() > 0 {
        let init = ds.drop_last();
        lemma_freed_ids_members(issues, i, init);
        let d = ds.last() as int;
        assert(others_closed(issues, i, d) == forall|q: int|
            0 <= q < issues[d].blockers@.len() ==> {
                let o = #[trigger] issues[d].blockers@[q] as int;
                issues[o].id@ == issues[i].id@ || issues[o].closed_like
            });
        assert forall|x: Seq<char>|
            #[trigger] freed_ids(issues, i, ds).contains(x) <==> exists|k: int|
                0 <= k < ds.len() && issues[ds[k] as int].id@ == x && #[trigger] freed_by(issues, i, ds[k] as int) by {
            let cond = !issues[d].closed_like && others_closed(issues, i, d);
            assert(cond == freed_by(issues, i, d));
            if freed_ids(issues, i, ds).contains(x) {
                if freed_ids(issues, i, init).contains(x) {
                    let k = choose|k: int|
                        0 <= k < init.len() && issues[init[k] as int].id@ == x && #[trigger] freed_by(issues, i, init[k] as int);
                    assert(ds[k] == init[k]);
                } else {
                    assert(cond);
                    assert(freed_ids(issues, i, ds) == freed_ids(issues, i, init).push(issues[d].id@));
                    assert(x == issues[d].id@);
                    assert(ds[ds.len() - 1] == ds.last());
                    assert(freed_by(issues, i, ds[ds.len() - 1] as int));
                }
            }
            if exists|k: int|
                0 <= k < ds.len() && issues[ds[k] as int].id@ == x && #[trigger] freed_by(issues, i, ds[k] as int) {
                let k = choose|k: int|
                    0 <= k < ds.len() && issues[ds[k] as int].id@ == x && #[trigger] freed_by(issues, i, ds[k] as int);
                if k < ds.len() - 1 {
                    assert(init[k] == ds[k]);
                    assert(freed_ids(issues, i, init).contains(x));
                    let j = choose|j: int| 0 <= j < freed_ids(issues, i, init).len() && freed_ids(issues, i, init)[j] == x;
                    if cond {
                        assert(freed_ids(issues, i, ds)[j] == x);
                    } else {
                        assert(freed_ids(issues, i, ds)[j] == x);
                    }
                    assert(freed_ids(issues, i, ds).contains(x));
                } else {
                    assert(ds[k] == ds.last());
                    assert(cond);
                    assert(freed_ids(issues, i, ds) == freed_ids(issues, i, init).push(x));
                    assert(freed_ids(issues, i, ds)[freed_ids(issues, i, init).len() as int] == x);
                }
            }
        }
    }
}

/// What completing issue `i` unblocks: exactly the ids of its dependents
/// that are not closed and whose every other blocker is Closed or
/// Tombstone (an in-progress blocker still holds them).
pub proof fn law_unblocks_are_dependents_with_no_other_live_blocker(issues: Seq<PlanIssue>, i: int)
    requires
        plan_input_ok(issues),
        0 <= i < issues.len(),
    ensures
        forall|x: Seq<char>|
            #[trigger] plan_unblocks(issues, i).contains(x) <==> exists|k: int|
                0 <= k < issues[i].dependents@.len() && issues[issues[i].dependents@[k] as int].id@ == x
                    && #[trigger] freed_by(issues, i, issues[i].dependents@[k] as int),
{
    lemma_freed_ids_members(issues, i, issues[i].dependents@);
    crate::next::lemma_sort_texts_members(freed_ids(issues, i, issues[i].dependents@));
}

proof fn lemma_insert_by_priority_members(issues: Seq<PlanIssue>, sids: Seq<Seq<char>>, s: Seq<int>, x: int)
    ensures
        insert_by_priority(issues, sids, s, x).len() == s.len() + 1,
        forall|k: int|
            0 <= k < insert_by_priority(issues, sids, s, x).len() ==> #[trigger] insert_by_priority(issues, sids, s, x)[k]
                == x || s.contains(insert_by_priority(issues, sids, s, x)[k]),
    decreases s.len(),
{
    if s.len() > 0 && !(rank_priority(issues, sids, x) < rank_priority(issues, sids, s[0])) {
        let t = s.drop_first();
        lemma_insert_by_priority_members(issues, sids, t, x);
        let r = insert_by_priority(issues, sids, s, x);
        let it = insert_by_priority(issues, sids, t, x);
        assert forall|k: int| 0 <= k < r.len() implies #[trigger] r[k] == x || s.contains(r[k]) by {
            if k == 0 {
                assert(r[0] == s[0]);
            } else {
                assert(r[k] == it[k - 1]);
                if it[k - 1] != x {
                    let w = choose|w: int| 0 <= w < t.len() && t[w] == it[k - 1];
                    assert(s[w + 1] == t[w]);
                }
            }
        }
    } else if s.len() > 0 {
        let r = insert_by_priority(issues, sids, s, x);
        assert forall|k: int| 0 <= k < r.len() implies #[trigger] r[k] == x || s.contains(r[k]) by {
            if k > 0 {
                assert(r[k] == s[k - 1]);
            }
        }
    }
}

proof fn lemma_sort_by_priority_members(issues: Seq<PlanIssue>, sids: Seq<Seq<char>>, s: Seq<int>)
    ensures
        sort_by_priority(issues, sids, s).len() == s.len(),
        forall|k: int| 0 <= k < sort_by_priority(issues, sids, s).len() ==> s.contains(#[trigger] sort_by_priority(issues, sids, s)[k]),
    decreases s.len(),
{
    if s.len() > 0 {
        let init = s.drop_last();
        lemma_sort_by_priority_members(issues, sids, init);
        let si = sort_by_priority(issues, sids, init);
        lemma_insert_by_priority_members(issues, sids, si, s.last());
        let r = sort_by_priority(issues, sids, s);
        assert forall|k: int| 0 <= k < r.len() implies s.contains(#[trigger] r[k]) by {
            if r[k] == s.last() {
                assert(s[s.len() - 1] == s.last());
            } else {
                let w = choose|w: int| 0 <= w < si.len() && si[w] == r[k];
                assert(init.contains(si[w]));
                let v = choose|v: int| 0 <= v < init.len() && init[v] == si[w];
                assert(s[v] == init[v]);
            }
        }
    }
}

proof fn lemma_members_actionable(issues: Seq<PlanIssue>, sids: Seq<Seq<char>>, p: Seq<usize>, q: int, r: int)
    ensures
        forall|k: int|
            0 <= k < members_from(issues, sids, p, q, r).len() ==> plan_actionable(
                issues[issue_at(issues, sids, #[trigger] members_from(issues, sids, p, q, r)[k])],
            ),
    decreases sids.len() - r,
{
    if 0 <= r < sids.len() {
        lemma_members_actionable(issues, sids, p, q, r + 1);
        let rest = members_from(issues, sids, p, q, r + 1);
        let ms = members_from(issues, sids, p, q, r);
        assert forall|k: int| 0 <= k < ms.len() implies plan_actionable(issues[issue_at(issues, sids, #[trigger] ms[k])]) by {
            if find(p, r) == q && plan_actionable(issues[issue_at(issues, sids, r)]) {
                if k > 0 {
                    assert(ms[k] == rest[k - 1]);
                }
            } else {
                assert(ms[k] == rest[k]);
            }
        }
    }
}

proof fn lemma_tracks_actionable(issues: Seq<PlanIssue>, sids: Seq<Seq<char>>, p: Seq<usize>, q: int, num: nat)
    ensures
        forall|t: int, k: int|
            0 <= t < tracks_from(issues, sids, p, q, num).len() && 0 <= k < tracks_from(issues, sids, p, q, num)[t].items.len()
                ==> plan_actionable(issues[#[trigger] tracks_from(issues, sids, p, q, num)[t].items[k]]),
        forall|t: int|
            0 <= t < tracks_from(issues, sids, p, q, num).len() ==> (#[trigger] tracks_from(issues, sids, p, q, num)[t]).items.len()
                > 0 && (tracks_from(issues, sids, p, q, num)[t].reason == TrackReason::Single <==> tracks_from(
                issues,
                sids,
                p,
                q,
                num,
            )[t].items.len() == 1),
    decreases sids.len() - q,
{
    if 0 <= q < sids.len() {
        lemma_tracks_actionable(issues, sids, p, q + 1, num + 1);
        lemma_tracks_actionable(issues, sids, p, q + 1, num);
        let ms = members_from(issues, sids, p, q, 0);
        if find(p, q) == q && ms.len() > 0 {
            let sorted = sort_by_priority(issues, sids, ms);
            lemma_sort_by_priority_members(issues, sids, ms);
            lemma_members_actionable(issues, sids, p, q, 0);
            let tv = TrackView {
                number: num,
                items: sorted.map_values(|r: int| issue_at(issues, sids, r)),
                reason: track_reason(ms.len(), root_count(p, 0)),
            };
            let tr = tracks_from(issues, sids, p, q, num);
            let tail = tracks_from(issues, sids, p, q + 1, num + 1);
            assert(tr == seq![tv] + tail);
            assert forall|t: int, k: int| 0 <= t < tr.len() && 0 <= k < tr[t].items.len() implies plan_actionable(
                issues[#[trigger] tr[t].items[k]],
            ) by {
                if t == 0 {
                    assert(tr[0].items[k] == issue_at(issues, sids, sorted[k]));
                    let w = choose|w: int| 0 <= w < ms.len() && ms[w] == sorted[k];
                    assert(plan_actionable(issues[issue_at(issues, sids, ms[w])]));
                } else {
                    assert(tr[t] == tail[t - 1]);
                }
            }
            assert forall|t: int| 0 <= t < tr.len() implies (#[trigger] tr[t]).items.len() > 0 && (tr[t].reason
                == TrackReason::Single <==> tr[t].items.len() == 1) by {
                if t > 0 {
                    assert(tr[t] == tail[t - 1]);
                }
            }
        }
    }
}

/// Every execution track is non-empty and made of actionable issues (open
/// and not blocked); a track is a single-item track exactly when it has one
/// item.
pub proof fn law_tracks_hold_only_actionable_issues(issues: Seq<PlanIssue>)
    ensures
        forall|t: int, k: int|
            0 <= t < plan_tracks(issues).len() && 0 <= k < plan_tracks(issues)[t].items.len() ==> {
                let i = #[trigger] plan_tracks(issues)[t].items[k];
                issues[i].open && !issues[i].blocked
            },
        forall|t: int|
            0 <= t < plan_tracks(issues).len() ==> (#[trigger] plan_tracks(issues)[t]).items.len() > 0 && (
            plan_tracks(issues)[t].reason == TrackReason::Single <==> plan_tracks(issues)[t].items.len() == 1),
{
    let sids = sort_texts(plan_ids(issues));
    lemma_tracks_actionable(issues, sids, plan_parents(issues), 0, 1);
}

/// The summary's pick so far covers positions `0..r`.
pub open spec fn best_so_far(issues: Seq<PlanIssue>, sids: Seq<Seq<char>>, r: int, best: Option<(int, int)>) -> bool {
    match best {
        None => forall|x: int| 0 <= x < r ==> !plan_actionable(issues[#[trigger] issue_at(issues, sids, x)]),
        Some(b) => {
            &&& 0 <= b.0 < issues.len()
            &&& plan_actionable(issues[b.0])
            &&& b.1 == plan_unblocks(issues, b.0).len()
            &&& forall|x: int|
                0 <= x < r && plan_actionable(issues[#[trigger] issue_at(issues, sids, x)]) ==> plan_unblocks(
                    issues,
                    issue_at(issues, sids, x),
                ).len() <= b.1
        },
    }
}

proof fn lemma_issue_at_range(issues: Seq<PlanIssue>, sids: Seq<Seq<char>>, r: int)
    requires
        issues.len() > 0,
    ensures
        0 <= issue_at(issues, sids, r) < issues.len(),
{
    lemma_first_index_from_range(plan_ids(issues), sids[r], 0);
}

proof fn lemma_first_index_from_range(s: Seq<Seq<char>>, t: Seq<char>, k: int)
    requires
        k >= 0,
    ensures
        match first_index_from(s, t, k) {
            Some(i) => k <= i < s.len() && s[i] == t,
            None => forall|j: int| k <= j < s.len() ==> s[j] != t,
        },
    decreases s.len() - k,
{
    if 0 <= k < s.len() && s[k] != t {
        lemma_first_index_from_range(s, t, k + 1);
    }
}

proof fn lemma_best_from(issues: Seq<PlanIssue>, sids: Seq<Seq<char>>, r: int, best: Option<(int, int)>)
    requires
        0 <= r <= sids.len(),
        issues.len() > 0,
        best_so_far(issues, sids, r, best),
    ensures
        best_so_far(issues, sids, sids.len() as int, best_from(issues, sids, r, best)),
    decreases sids.len() - r,
{
    if r < sids.len() {
        let i = issue_at(issues, sids, r);
        lemma_issue_at_range(issues, sids, r);
        let c = plan_unblocks(issues, i).len() as int;
        let beats = match best {
            Some(b) => c > b.1,
            None => true,
        };
        if plan_actionable(issues[i]) && beats {
            let nb = Some((i, c));
            assert(best_so_far(issues, sids, r + 1, nb)) by {
                assert forall|x: int|
                    0 <= x < r + 1 && plan_actionable(issues[#[trigger] issue_at(issues, sids, x)]) implies plan_unblocks(
                    issues,
                    issue_at(issues, sids, x),
                ).len() <= c by {
                    if x < r {
                        match best {
                            Some(b) => {},
                            None => {},
                        }
                    }
                }
            }
            lemma_best_from(issues, sids, r + 1, nb);
        } else {
            assert(best_so_far(issues, sids, r + 1, best)) by {
                match best {
                    Some(b) => {
                        assert forall|x: int|
                            0 <= x < r + 1 && plan_actionable(issues[#[trigger] issue_at(issues, sids, x)]) implies plan_unblocks(
                            issues,
                            issue_at(issues, sids, x),
                        ).len() <= b.1 by {}
                    },
                    None => {},
                }
            }
            lemma_best_from(issues, sids, r + 1, best);
        }
    }
}

/// Every issue sits at some position of the id order.
proof fn lemma_every_issue_ranked(issues: Seq<PlanIssue>, j: int)
    requires
        plan_input_ok(issues),
        0 <= j < issues.len(),
    ensures
        exists|x: int| 0 <= x < sort_texts(plan_ids(issues)).len() && #[trigger] issue_at(issues, sort_texts(plan_ids(issues)), x) == j,
{
    let ids = plan_ids(issues);
    let sids = sort_texts(ids);
    crate::next::lemma_sort_texts_members(ids);
    assert(ids[j] == issues[j].id@);
    assert(ids.contains(issues[j].id@));
    assert(sids.contains(issues[j].id@));
    let x = choose|x: int| 0 <= x < sids.len() && sids[x] == issues[j].id@;
    lemma_first_index_from_range(ids, sids[x], 0);
    let f = first_index_from(ids, sids[x], 0);
    match f {
        Some(i) => {
            if i != j {
                if i < j {
                    assert(issues[i].id@ != issues[j].id@);
                } else {
                    assert(issues[j].id@ != issues[i].id@);
                }
            }
        },
        None => {
            assert(ids[j] == sids[x]);
        },
    }
    assert(issue_at(issues, sids, x) == j);
}

/// The plan summary names an actionable issue freeing the most dependents:
/// no actionable issue frees more, the count is its number of freed
/// dependents, and there is no pick exactly when no issue is actionable.
pub proof fn law_summary_names_an_actionable_issue_freeing_the_most(issues: Seq<PlanIssue>)
    requires
        plan_input_ok(issues),
    ensures
        match plan_highest(issues) {
            Some(h) => {
                &&& 0 <= h.0 < issues.len()
                &&& issues[h.0].open && !issues[h.0].blocked
                &&& h.1 == plan_unblocks(issues, h.0).len()
                &&& forall|j: int|
                    0 <= j < issues.len() && (#[trigger] issues[j]).open && !issues[j].blocked ==> plan_unblocks(
                        issues,
                        j,
                    ).len() <= h.1
            },
            None => forall|j: int| 0 <= j < issues.len() ==> !((#[trigger] issues[j]).open && !issues[j].blocked),
        },
{
    let sids = sort_texts(plan_ids(issues));
    if issues.len() == 0 {
        crate::next::lemma_sort_texts(plan_ids(issues));
        assert(sids.len() == 0);
        return;
    }
    crate::next::lemma_sort_texts(plan_ids(issues));
    lemma_best_from(issues, sids, 0, None);
    let h = plan_highest(issues);
    assert forall|j: int| 0 <= j < issues.len() && (#[trigger] issues[j]).open && !issues[j].blocked implies match h {
        Some(b) => plan_unblocks(issues, j).len() <= b.1,
        None => false,
    } by {
        lemma_every_issue_ranked(issues, j);
        let x = choose|x: int| 0 <= x < sids.len() && #[trigger] issue_at(issues, sids, x) == j;
        assert(plan_actionable(issues[issue_at(issues, sids, x)]));
    }
}

} // verus!
