//! `--robot-next`: which recommendation may be claimed. A pick is claimable
//! when its issue is loaded, open, not an epic, unassigned, and has no open
//! or dangling blocker; the first claimable pick is chosen, and otherwise
//! the reasons of the first unclaimable one are reported.

use vstd::prelude::*;
use vstd::string::*;
use crate::enums::{bytes_less, bytes_of, str_less};
use crate::text::{append, concat2, concat3, join, join_strings, owned, str_eq, trim, trim_str, views};

verus! {

broadcast use {vstd::seq_lib::group_seq_properties, vstd::seq_lib::group_to_multiset_ensures};

/// What the claim check reads of an issue.
pub struct ClaimIssue {
    /// The status is `Open`.
    pub open: bool,
    /// How the status is named in the reason text.
    pub status_text: String,
    pub issue_type: String,
    pub assignee: String,
    /// The ids named by the issue's blocking dependencies, as written.
    pub blocking_deps: Vec<String>,
}

// ---------------------------------------------------------------------------
// Sorting strings
// ---------------------------------------------------------------------------

/// `a` sorts strictly before `b` as strings (byte order).
pub open spec fn text_less(a: Seq<char>, b: Seq<char>) -> bool {
    bytes_less(bytes_of(a), bytes_of(b))
}

/// `x` inserted into `s` after every element not sorting after it.
pub open spec fn insert_sorted(s: Seq<Seq<char>>, x: Seq<char>) -> Seq<Seq<char>>
    decreases s.len(),
{
    if s.len() == 0 {
        seq![x]
    } else if text_less(x, s[0]) {
        seq![x] + s
    } else {
        seq![s[0]] + insert_sorted(s.drop_first(), x)
    }
}

/// Insertion sort in string order, equal strings keeping their order.
pub open spec fn sort_texts(s: Seq<Seq<char>>) -> Seq<Seq<char>>
    decreases s.len(),
{
    if s.len() == 0 {
        Seq::empty()
    } else {
        insert_sorted(sort_texts(s.drop_last()), s.last())
    }
}

/// Sorted in string order.
pub open spec fn texts_sorted(s: Seq<Seq<char>>) -> bool {
    forall|i: int, j: int| 0 <= i < j < s.len() ==> !text_less(#[trigger] s[j], #[trigger] s[i])
}

proof fn lemma_insert_sorted(s: Seq<Seq<char>>, x: Seq<char>)
    requires
        texts_sorted(s),
    ensures
        texts_sorted(insert_sorted(s, x)),
        insert_sorted(s, x).to_multiset() == s.to_multiset().insert(x),
        insert_sorted(s, x).len() == s.len() + 1,
        forall|k: int| 0 <= k < insert_sorted(s, x).len() ==> (#[trigger] insert_sorted(s, x)[k] == x
            || s.contains(insert_sorted(s, x)[k])),
    decreases s.len(),
{
    if s.len() == 0 {
        assert(seq![x].to_multiset() =~= Seq::<Seq<char>>::empty().push(x).to_multiset());
    } else if text_less(x, s[0]) {
        let r = seq![x] + s;
        assert(r =~= s.insert(0, x));
        vstd::seq_lib::to_multiset_insert(s, 0, x);
        assert forall|i: int, j: int| 0 <= i < j < r.len() implies !text_less(
            #[trigger] r[j],
            #[trigger] r[i],
        ) by {
            if i == 0 {
                if j > 1 {
                    assert(!text_less(s[j - 1], s[0]));
                }
                if text_less(r[j], x) {
                    crate::recipes::lemma_bytes_less_transitive(
                        bytes_of(r[j]),
                        bytes_of(x),
                        bytes_of(s[0]),
                    );
                    crate::recipes::lemma_bytes_less_irreflexive(bytes_of(s[0]));
                }
            } else {
                assert(r[i] == s[i - 1] && r[j] == s[j - 1]);
            }
        }
    } else {
        let t = s.drop_first();
        assert(texts_sorted(t)) by {
            assert forall|i: int, j: int| 0 <= i < j < t.len() implies !text_less(
                #[trigger] t[j],
                #[trigger] t[i],
            ) by {
                assert(t[i] == s[i + 1] && t[j] == s[j + 1]);
            }
        }
        lemma_insert_sorted(t, x);
        let it = insert_sorted(t, x);
        let r = seq![s[0]] + it;
        assert forall|i: int, j: int| 0 <= i < j < r.len() implies !text_less(
            #[trigger] r[j],
            #[trigger] r[i],
        ) by {
            if i == 0 {
                assert(r[j] == it[j - 1]);
                if it[j - 1] == x {
                } else {
                    assert(t.contains(it[j - 1]));
                    let m = choose|m: int| 0 <= m < t.len() && t[m] == it[j - 1];
                    assert(s[m + 1] == t[m]);
                }
            } else {
                assert(r[i] == it[i - 1] && r[j] == it[j - 1]);
            }
        }
        assert(s =~= seq![s[0]] + t);
        assert(s.to_multiset() =~= t.to_multiset().insert(s[0])) by {
            assert(t.insert(0, s[0]) =~= s);
            vstd::seq_lib::to_multiset_insert(t, 0, s[0]);
        }
        assert(r =~= it.insert(0, s[0]));
        vstd::seq_lib::to_multiset_insert(it, 0, s[0]);
        assert forall|k: int| 0 <= k < r.len() implies (#[trigger] r[k] == x || s.contains(r[k])) by {
            if k == 0 {
                assert(s[0] == r[0]);
            } else {
                assert(r[k] == it[k - 1]);
                if it[k - 1] != x {
                    let m = choose|m: int| 0 <= m < t.len() && t[m] == it[k - 1];
                    assert(s[m + 1] == t[m]);
                }
            }
        }
    }
}

/// Sorting strings gives a sorted permutation of them.
pub proof fn lemma_sort_texts(s: Seq<Seq<char>>)
    ensures
        texts_sorted(sort_texts(s)),
        sort_texts(s).to_multiset() == s.to_multiset(),
        sort_texts(s).len() == s.len(),
    decreases s.len(),
{
    if s.len() > 0 {
        lemma_sort_texts(s.drop_last());
        lemma_insert_sorted(sort_texts(s.drop_last()), s.last());
        assert(s =~= s.drop_last().push(s.last()));
    }
}

/// Inserts `x` at its place in the sorted `v`.
fn insert_text(v: &mut Vec<String>, x: String)
    ensures
        views(final(v)@) == insert_sorted(views(old(v)@), x@),
{
    let ghost s = views(v@);
    let mut p: usize = 0;
    while p < v.len()
        invariant
            p <= v@.len(),
            s == views(old(v)@),
            v@ == old(v)@,
            insert_sorted(s, x@) == s.take(p as int) + insert_sorted(s.skip(p as int), x@),
        ensures
            p <= v@.len(),
            v@ == old(v)@,
            insert_sorted(s, x@) == s.take(p as int) + insert_sorted(s.skip(p as int), x@),
            p < v@.len() ==> text_less(x@, s[p as int]),
        decreases v@.len() - p,
    {
        if str_less(x.as_str(), v[p].as_str()) {
            break;
        }
        proof {
            let rest = s.skip(p as int);
            assert(rest[0] == s[p as int]);
            assert(rest.drop_first() =~= s.skip(p + 1));
            assert(s.take(p + 1) =~= s.take(p as int).push(s[p as int]));
            assert(s.take(p as int) + (seq![rest[0]] + insert_sorted(rest.drop_first(), x@))
                =~= s.take(p + 1) + insert_sorted(s.skip(p + 1), x@));
        }
        p += 1;
    }
    proof {
        let rest = s.skip(p as int);
        if p < s.len() {
            assert(rest[0] == s[p as int]);
            assert(insert_sorted(rest, x@) == seq![x@] + rest);
        } else {
            assert(rest.len() == 0);
        }
        crate::text::lemma_views_push(v@, x);
    }
    let ghost before = v@;
    v.insert(p, x);
    proof {
        assert(views(v@) =~= s.take(p as int) + (seq![x@] + s.skip(p as int))) by {
            assert(v@ == before.insert(p as int, x));
            assert forall|k: int| 0 <= k < views(v@).len() implies views(v@)[k] == (s.take(
                p as int,
            ) + (seq![x@] + s.skip(p as int)))[k] by {
                if k < p {
                } else if k == p {
                } else {
                    assert(v@[k] == before[k - 1]);
                }
            }
        }
    }
}

/// Sorts strings in string order.
pub fn sort_strings(items: Vec<String>) -> (r: Vec<String>)
    ensures
        views(r@) == sort_texts(views(items@)),
{
    let ghost s = views(items@);
    let mut out: Vec<String> = Vec::new();
    let mut k: usize = 0;
    while k < items.len()
        invariant
            k <= items@.len(),
            s == views(items@),
            views(out@) == sort_texts(s.take(k as int)),
        decreases items@.len() - k,
    {
        let x = items[k].clone();
        assert(x@ == s[k as int]);
        insert_text(&mut out, x);
        assert(s.take(k + 1).drop_last() =~= s.take(k as int));
        k += 1;
    }
    assert(s.take(items@.len() as int) =~= s);
    out
}

// ---------------------------------------------------------------------------
// Claimability
// ---------------------------------------------------------------------------

/// The blocker list after looking at one more blocking dependency: a blank
/// id is a missing blocker id, an id neither loaded nor listed yet is a
/// missing blocker.
pub open spec fn blocker_step(prev: Seq<Seq<char>>, dep: Seq<char>, known: Seq<Seq<char>>) -> Seq<
    Seq<char>,
> {
    let b = trim(dep);
    if b.len() == 0 {
        prev.push("<missing blocker id>"@)
    } else if !known.contains(b) && !prev.contains(b) {
        prev.push(b + " (missing)"@)
    } else {
        prev
    }
}

/// The open blockers followed by the dangling blocking dependencies.
pub open spec fn blocker_list(open: Seq<Seq<char>>, deps: Seq<Seq<char>>, known: Seq<Seq<char>>) -> Seq<
    Seq<char>,
>
    decreases deps.len(),
{
    if deps.len() == 0 {
        open
    } else {
        blocker_step(blocker_list(open, deps.drop_last(), known), deps.last(), known)
    }
}

/// ASCII case-insensitive equality with `epic`.
pub open spec fn is_epic(t: Seq<char>) -> bool {
    crate::text::ascii_lower(t) == "epic"@
}

/// Why a pick may not be claimed; empty when it may.
pub open spec fn claim_reasons(
    id: Seq<char>,
    issue: Option<ClaimIssue>,
    open_blockers: Seq<Seq<char>>,
    known: Seq<Seq<char>>,
) -> Seq<Seq<char>> {
    match issue {
        None => seq![id + " is absent from loaded Beads records"@],
        Some(i) => {
            let r1 = if !i.open {
                seq![id + " status is "@ + i.status_text@]
            } else {
                Seq::empty()
            };
            let r2 = if is_epic(i.issue_type@) {
                r1.push(id + " is an epic"@)
            } else {
                r1
            };
            let a = trim(i.assignee@);
            let r3 = if a.len() > 0 {
                r2.push(id + " is already assigned to "@ + a)
            } else {
                r2
            };
            let bl = blocker_list(open_blockers, views(i.blocking_deps@), known);
            if bl.len() > 0 {
                r3.push(id + " is blocked by "@ + join(sort_texts(bl), ", "@))
            } else {
                r3
            }
        },
    }
}

/// Whether `t` is one of `v`.
pub fn contains_text(v: &[String], t: &str) -> (r: bool)
    ensures
        r == views(v@).contains(t@),
{
    let ghost s = views(v@);
    let mut k: usize = 0;
    while k < v.len()
        invariant
            s == views(v@),
            k <= v@.len(),
            forall|j: int| 0 <= j < k ==> s[j] != t@,
        decreases v@.len() - k,
    {
        if str_eq(v[k].as_str(), t) {
            assert(s[k as int] == t@);
            return true;
        }
        k += 1;
    }
    false
}

/// ASCII case-insensitive equality with `epic`.
fn epic_type(t: &str) -> (r: bool)
    ensures
        r == is_epic(t@),
{
    let l = crate::text::to_ascii_lowercase(t);
    str_eq(l.as_str(), "epic")
}

/// The blockers of an issue: its open blockers, then each blocking
/// dependency that names no id or an id that is neither loaded nor listed.
pub fn blockers_of(open_blockers: Vec<String>, deps: &[String], known: &[String]) -> (r: Vec<String>)
    ensures
        views(r@) == blocker_list(views(open_blockers@), views(deps@), views(known@)),
{
    let ghost d = views(deps@);
    let mut out = open_blockers;
    let ghost start = views(out@);
    let mut k: usize = 0;
    while k < deps.len()
        invariant
            d == views(deps@),
            k <= deps@.len(),
            views(out@) == blocker_list(start, d.take(k as int), views(known@)),
        decreases deps@.len() - k,
    {
        let b = trim_str(deps[k].as_str());
        let ghost prev = views(out@);
        if b.unicode_len() == 0 {
            let m = owned("<missing blocker id>");
            proof {
                crate::text::lemma_views_push(out@, m);
            }
            out.push(m);
        } else if !contains_text(known, b) && !contains_text(out.as_slice(), b) {
            let m = concat2(b, " (missing)");
            proof {
                crate::text::lemma_views_push(out@, m);
            }
            out.push(m);
        }
        proof {
            assert(d.take(k + 1).drop_last() =~= d.take(k as int));
            assert(d.take(k + 1).last() == deps@[k as int]@);
        }
        k += 1;
    }
    assert(d.take(deps@.len() as int) =~= d);
    out
}

/// Why the pick `id` may not be claimed; empty when it may. `issue` is the
/// loaded issue of that id, `open_blockers` its open blockers (through its
/// ancestors too), and `known` the ids of every loaded issue.
pub fn claimability_reasons(
    id: &str,
    issue: Option<&ClaimIssue>,
    open_blockers: Vec<String>,
    known: &[String],
) -> (r: Vec<String>)
    ensures
        views(r@) == claim_reasons(
            id@,
            match issue {
                Some(i) => Some(*i),
                None => None,
            },
            views(open_blockers@),
            views(known@),
        ),
{
    let i = match issue {
        None => {
            let mut v: Vec<String> = Vec::new();
            let m = concat2(id, " is absent from loaded Beads records");
            v.push(m);
            assert(views(v@) =~= seq![m@]);
            return v;
        },
        Some(i) => i,
    };
    let mut reasons: Vec<String> = Vec::new();
    assert(views(reasons@) =~= Seq::<Seq<char>>::empty());
    if !i.open {
        let m = concat3(id, " status is ", i.status_text.as_str());
        reasons.push(m);
        assert(views(reasons@) =~= seq![m@]);
    }
    if epic_type(i.issue_type.as_str()) {
        let m = concat2(id, " is an epic");
        proof {
            crate::text::lemma_views_push(reasons@, m);
        }
        reasons.push(m);
    }
    let a = trim_str(i.assignee.as_str());
    if a.unicode_len() > 0 {
        let m = concat3(id, " is already assigned to ", a);
        proof {
            crate::text::lemma_views_push(reasons@, m);
        }
        reasons.push(m);
    }
    let bl = blockers_of(open_blockers, i.blocking_deps.as_slice(), known);
    if bl.len() > 0 {
        let sorted = sort_strings(bl);
        let joined = join_strings(sorted.as_slice(), ", ");
        let m = concat3(id, " is blocked by ", joined.as_str());
        proof {
            crate::text::lemma_views_push(reasons@, m);
        }
        reasons.push(m);
    }
    reasons
}

/// The first pick with no reasons, if any.
pub open spec fn first_clear_from(reasons: Seq<Seq<Seq<char>>>, k: int) -> Option<int>
    decreases reasons.len() - k,
{
    if k < 0 || k >= reasons.len() {
        None
    } else if reasons[k].len() == 0 {
        Some(k)
    } else {
        first_clear_from(reasons, k + 1)
    }
}

/// The reasons of the first pick with reasons, joined with `; `, or empty.
pub open spec fn first_unsafe_message(reasons: Seq<Seq<Seq<char>>>) -> Seq<char>
    decreases reasons.len(),
{
    if reasons.len() == 0 {
        Seq::empty()
    } else if reasons[0].len() > 0 {
        join(reasons[0], "; "@)
    } else {
        first_unsafe_message(reasons.drop_first())
    }
}

/// The reasons of every pick, as character sequences.
pub open spec fn reason_views(reasons: Seq<Vec<String>>) -> Seq<Seq<Seq<char>>> {
    reasons.map_values(|r: Vec<String>| views(r@))
}

/// The choice among the picks, in order: the first claimable pick, and the
/// joined reasons of the first unclaimable pick met before it (when no pick
/// is claimable this is the degradation message; empty when there is none).
pub fn next_choice(reasons: &[Vec<String>]) -> (r: (Option<usize>, String))
    ensures
        match r.0 {
            Some(i) => {
                &&& first_clear_from(reason_views(reasons@), 0) == Some(i as int)
                &&& r.1@ == first_unsafe_message(reason_views(reasons@).take(i as int))
            },
            None => {
                &&& first_clear_from(reason_views(reasons@), 0) is None
                &&& r.1@ == first_unsafe_message(reason_views(reasons@))
            },
        },
{
    let ghost rv = reason_views(reasons@);
    let mut k: usize = 0;
    let mut message: Option<String> = None;
    while k < reasons.len()
        invariant
            rv == reason_views(reasons@),
            k <= reasons@.len(),
            forall|j: int| 0 <= j < k ==> rv[j].len() > 0,
            match message {
                Some(m) => k > 0 && m@ == first_unsafe_message(rv),
                None => k == 0,
            },
            first_clear_from(rv, 0) == first_clear_from(rv, k as int),
        decreases reasons@.len() - k,
    {
        if reasons[k].len() == 0 {
            let m = match message {
                Some(m) => m,
                None => String::new(),
            };
            proof {
                if k == 0 {
                    assert(rv.take(0) =~= Seq::<Seq<Seq<char>>>::empty());
                } else {
                    assert(rv.take(k as int)[0] == rv[0]);
                }
            }
            return (Some(k), m);
        }
        if message.is_none() {
            let joined = join_strings(reasons[k].as_slice(), "; ");
            proof {
                assert(rv[0] == views(reasons@[0]@));
            }
            message = Some(joined);
        }
        k += 1;
    }
    let m = match message {
        Some(m) => m,
        None => String::new(),
    };
    proof {
        if reasons@.len() == 0 {
            assert(rv.len() == 0);
        }
    }
    (None, m)
}

/// The number of issues one of whose blocking dependencies names `id`.
pub open spec fn unblock_count(id: Seq<char>, deps: Seq<Seq<Seq<char>>>) -> nat
    decreases deps.len(),
{
    if deps.len() == 0 {
        0
    } else {
        unblock_count(id, deps.drop_last()) + if deps.last().contains(id) {
            1nat
        } else {
            0
        }
    }
}

/// How many issues directly wait on `id`: those with a blocking dependency
/// naming it. `deps` holds each issue's blocking dependency ids.
pub fn direct_unblocks(id: &str, deps: &[Vec<String>]) -> (r: usize)
    ensures
        r == unblock_count(id@, reason_views(deps@)),
{
    let ghost dv = reason_views(deps@);
    let mut n: usize = 0;
    let mut k: usize = 0;
    while k < deps.len()
        invariant
            dv == reason_views(deps@),
            k <= deps@.len(),
            n == unblock_count(id@, dv.take(k as int)),
            n <= k,
        decreases deps@.len() - k,
    {
        assert(dv.take(k + 1).drop_last() =~= dv.take(k as int));
        assert(dv[k as int] == views(deps@[k as int]@));
        if contains_text(deps[k].as_slice(), id) {
            n += 1;
        }
        k += 1;
    }
    assert(dv.take(deps@.len() as int) =~= dv);
    n
}

/// The message of a claimable pick that has no claim route.
pub fn no_claim_route_message(reason: &str) -> (r: String)
    ensures
        r@ == "No claim command emitted: "@ + reason@,
{
    concat2("No claim command emitted: ", reason)
}

/// Sorting strings keeps exactly the strings there were.
pub proof fn lemma_sort_texts_members(s: Seq<Seq<char>>)
    ensures
        forall|x: Seq<char>| #[trigger] sort_texts(s).contains(x) <==> s.contains(x),
{
    lemma_sort_texts(s);
    assert forall|x: Seq<char>| #[trigger] sort_texts(s).contains(x) <==> s.contains(x) by {
        assert(sort_texts(s).to_multiset().count(x) == s.to_multiset().count(x));
    }
}

proof fn lemma_blocker_list_empty(open: Seq<Seq<char>>, deps: Seq<Seq<char>>, known: Seq<Seq<char>>)
    ensures
        blocker_list(open, deps, known).len() >= open.len(),
        blocker_list(open, deps, known).len() == 0 <==> (open.len() == 0 && forall|q: int|
            0 <= q < deps.len() ==> trim(#[trigger] deps[q]).len() > 0 && known.contains(trim(deps[q]))),
    decreases deps.len(),
{
    if deps.len() > 0 {
        let init = deps.drop_last();
        lemma_blocker_list_empty(open, init, known);
        let prev = blocker_list(open, init, known);
        let d = deps.last();
        if prev.len() == 0 {
            assert(!prev.contains(trim(d)));
        }
        if (open.len() == 0 && forall|q: int|
            0 <= q < deps.len() ==> trim(#[trigger] deps[q]).len() > 0 && known.contains(trim(deps[q]))) {
            assert forall|q: int| 0 <= q < init.len() implies trim(#[trigger] init[q]).len() > 0 && known.contains(trim(init[q])) by {
                assert(init[q] == deps[q]);
            }
            assert(trim(deps[deps.len() - 1]).len() > 0);
        }
        if blocker_list(open, deps, known).len() == 0 {
            assert(prev.len() == 0);
            assert forall|q: int| 0 <= q < deps.len() implies trim(#[trigger] deps[q]).len() > 0 && known.contains(trim(deps[q])) by {
                if q < init.len() {
                    assert(init[q] == deps[q]);
                }
            }
        }
    }
}

/// A pick may be claimed (no reason is given) exactly when its issue is
/// loaded, open, not an epic, unassigned after trimming, has no open
/// blocker, and every blocking dependency names a loaded issue.
pub proof fn law_claimable_exactly_when_free(
    id: Seq<char>,
    issue: Option<ClaimIssue>,
    open_blockers: Seq<Seq<char>>,
    known: Seq<Seq<char>>,
)
    ensures
        claim_reasons(id, issue, open_blockers, known).len() == 0 <==> match issue {
            None => false,
            Some(i) => i.open && !is_epic(i.issue_type@) && trim(i.assignee@).len() == 0
                && open_blockers.len() == 0 && forall|q: int|
                0 <= q < views(i.blocking_deps@).len() ==> trim(#[trigger] views(i.blocking_deps@)[q]).len() > 0
                    && known.contains(trim(views(i.blocking_deps@)[q])),
        },
{
    match issue {
        None => {},
        Some(i) => {
            let deps = views(i.blocking_deps@);
            lemma_blocker_list_empty(open_blockers, deps, known);
        },
    }
}

proof fn lemma_first_clear(reasons: Seq<Seq<Seq<char>>>, k: int)
    requires
        k >= 0,
    ensures
        match first_clear_from(reasons, k) {
            Some(i) => k <= i < reasons.len() && reasons[i].len() == 0 && forall|j: int| k <= j < i ==> (#[trigger] reasons[j]).len() > 0,
            None => forall|j: int| k <= j < reasons.len() ==> (#[trigger] reasons[j]).len() > 0,
        },
    decreases reasons.len() - k,
{
    if k < reasons.len() && reasons[k].len() > 0 {
        lemma_first_clear(reasons, k + 1);
    }
}

/// The chosen pick is the first one with no reason against claiming it;
/// every pick before it has a reason, and there is no choice exactly when
/// every pick has one. The degradation message is then the reasons of the
/// first pick, joined with `; `.
pub proof fn law_next_picks_the_first_claimable(reasons: Seq<Seq<Seq<char>>>)
    ensures
        match first_clear_from(reasons, 0) {
            Some(i) => 0 <= i < reasons.len() && reasons[i].len() == 0 && forall|j: int| 0 <= j < i ==> (#[trigger] reasons[j]).len() > 0,
            None => forall|j: int| 0 <= j < reasons.len() ==> (#[trigger] reasons[j]).len() > 0,
        },
        first_clear_from(reasons, 0) is None && reasons.len() > 0 ==> first_unsafe_message(reasons) == join(reasons[0], "; "@),
{
    lemma_first_clear(reasons, 0);
    if first_clear_from(reasons, 0) is None && reasons.len() > 0 {
        assert(reasons[0].len() > 0);
    }
}

} // verus!
