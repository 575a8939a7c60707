//! Analysis settings reported in robot payloads: the per-size tiers of the
//! graph-metric configuration for `--robot-insights` and `--robot-plan`, and
//! the status object of one advanced-insights feature. Each is rendered as
//! compact JSON text with its keys in the listed order.

use vstd::prelude::*;
use vstd::string::*;
use crate::robot::{go_escape_string, go_escaped};
use crate::text::{append, decimal, owned, usize_to_decimal};

verus! {

/// The size tier of a graph: below 100 nodes, below 500, below 2000, larger.
pub open spec fn tier(nodes: nat) -> int {
    if nodes < 100 {
        0
    } else if nodes < 500 {
        1
    } else if nodes < 2000 {
        2
    } else {
        3
    }
}

/// A JSON boolean.
pub open spec fn json_bool(b: bool) -> Seq<char> {
    if b {
        "true"@
    } else {
        "false"@
    }
}

/// The metric timeouts and limits of a tier for `--robot-insights`:
/// betweenness timeout, mode, sample size, PageRank timeout, HITS timeout,
/// cycles timeout, stored-cycle limit, whether cycles are computed, and why
/// they are skipped.
pub open spec fn insights_tier(t: int) -> (nat, Seq<char>, nat, nat, nat, nat, nat, bool, Seq<char>) {
    if t == 0 {
        (2_000_000_000, "exact"@, 0, 2_000_000_000, 2_000_000_000, 2_000_000_000, 1000, true, ""@)
    } else if t == 1 {
        (500_000_000, "exact"@, 0, 500_000_000, 500_000_000, 500_000_000, 100, true, ""@)
    } else if t == 2 {
        (500_000_000, "approximate"@, 100, 300_000_000, 300_000_000, 300_000_000, 50, true, ""@)
    } else {
        (
            500_000_000,
            "approximate"@,
            200,
            200_000_000,
            200_000_000,
            0,
            10,
            false,
            "graph too large (>2000 nodes)"@,
        )
    }
}

/// The `--robot-insights` analysis configuration for a graph of `nodes`.
pub open spec fn insights_config_json(nodes: nat) -> Seq<char> {
    let c = insights_tier(tier(nodes));
    "{\"ComputeBetweenness\":true,\"BetweennessTimeout\":"@ + decimal(c.0)
        + ",\"BetweennessSkipReason\":\"\",\"BetweennessMode\":"@ + go_escaped(c.1)
        + ",\"BetweennessSampleSize\":"@ + decimal(c.2)
        + ",\"BetweennessIsApproximate\":false,\"ComputePageRank\":true,\"PageRankTimeout\":"@
        + decimal(c.3) + ",\"PageRankSkipReason\":\"\",\"ComputeHITS\":true,\"HITSTimeout\":"@
        + decimal(c.4) + ",\"HITSSkipReason\":\"\",\"ComputeCycles\":"@ + json_bool(c.7)
        + ",\"CyclesTimeout\":"@ + decimal(c.5) + ",\"MaxCyclesToStore\":"@ + decimal(c.6)
        + ",\"CyclesSkipReason\":"@ + go_escaped(c.8)
        + ",\"ComputeEigenvector\":true,\"ComputeCriticalPath\":true,\"ComputeKCore\":true,\"ComputeArticulation\":true,\"ComputeSlack\":true}"@
}

/// The `--robot-insights` analysis configuration for a graph of `nodes`
/// nodes: every metric on, with the timeouts, betweenness mode and sample
/// size, and cycle limits of its size tier; cycles are skipped above 2000
/// nodes.
pub fn insights_analysis_config(nodes: usize) -> (r: String)
    ensures
        r@ == insights_config_json(nodes as nat),
{
    let (timeout, mode, sample, pr, hits, cycles, max_cycles, compute_cycles, skip): (
        usize,
        &str,
        usize,
        usize,
        usize,
        usize,
        usize,
        bool,
        &str,
    ) = if nodes < 100 {
        (2_000_000_000, "exact", 0, 2_000_000_000, 2_000_000_000, 2_000_000_000, 1000, true, "")
    } else if nodes < 500 {
        (500_000_000, "exact", 0, 500_000_000, 500_000_000, 500_000_000, 100, true, "")
    } else if nodes < 2000 {
        (500_000_000, "approximate", 100, 300_000_000, 300_000_000, 300_000_000, 50, true, "")
    } else {
        (
            500_000_000,
            "approximate",
            200,
            200_000_000,
            200_000_000,
            0,
            10,
            false,
            "graph too large (>2000 nodes)",
        )
    };
    let mut out = owned("{\"ComputeBetweenness\":true,\"BetweennessTimeout\":");
    append(&mut out, usize_to_decimal(timeout).as_str());
    append(&mut out, ",\"BetweennessSkipReason\":\"\",\"BetweennessMode\":");
    append(&mut out, go_escape_string(mode).as_str());
    append(&mut out, ",\"BetweennessSampleSize\":");
    append(&mut out, usize_to_decimal(sample).as_str());
    append(
        &mut out,
        ",\"BetweennessIsApproximate\":false,\"ComputePageRank\":true,\"PageRankTimeout\":",
    );
    append(&mut out, usize_to_decimal(pr).as_str());
    append(&mut out, ",\"PageRankSkipReason\":\"\",\"ComputeHITS\":true,\"HITSTimeout\":");
    append(&mut out, usize_to_decimal(hits).as_str());
    append(&mut out, ",\"HITSSkipReason\":\"\",\"ComputeCycles\":");
    append(
        &mut out,
        if compute_cycles {
            "true"
        } else {
            "false"
        },
    );
    append(&mut out, ",\"CyclesTimeout\":");
    append(&mut out, usize_to_decimal(cycles).as_str());
    append(&mut out, ",\"MaxCyclesToStore\":");
    append(&mut out, usize_to_decimal(max_cycles).as_str());
    append(&mut out, ",\"CyclesSkipReason\":");
    append(&mut out, go_escape_string(skip).as_str());
    append(
        &mut out,
        ",\"ComputeEigenvector\":true,\"ComputeCriticalPath\":true,\"ComputeKCore\":true,\"ComputeArticulation\":true,\"ComputeSlack\":true}",
    );
    out
}

/// The metric timeouts and limits of a tier for `--robot-plan`: betweenness
/// timeout, PageRank (and HITS) timeout, cycles timeout, stored-cycle limit,
/// betweenness sample size.
pub open spec fn plan_tier(t: int) -> (nat, nat, nat, nat, nat) {
    if t == 0 {
        (2_000_000_000, 2_000_000_000, 2_000_000_000, 1000, 0)
    } else if t == 1 {
        (500_000_000, 500_000_000, 500_000_000, 100, 0)
    } else if t == 2 {
        (500_000_000, 300_000_000, 300_000_000, 50, 100)
    } else {
        (500_000_000, 200_000_000, 0, 10, 200)
    }
}

/// The `--robot-plan` analysis configuration for a graph of `nodes`.
pub open spec fn plan_config_json(nodes: nat) -> Seq<char> {
    let c = plan_tier(tier(nodes));
    "{\"ComputeBetweenness\":false,\"BetweennessTimeout\":"@ + decimal(c.0)
        + ",\"BetweennessSkipReason\":\"not computed for --robot-plan\",\"BetweennessMode\":\"skip\",\"BetweennessSampleSize\":"@
        + decimal(c.4)
        + ",\"BetweennessIsApproximate\":false,\"ComputePageRank\":false,\"PageRankTimeout\":"@
        + decimal(c.1)
        + ",\"PageRankSkipReason\":\"not computed for --robot-plan\",\"ComputeHITS\":false,\"HITSTimeout\":"@
        + decimal(c.1)
        + ",\"HITSSkipReason\":\"not computed for --robot-plan\",\"ComputeCycles\":false,\"CyclesTimeout\":"@
        + decimal(c.2) + ",\"MaxCyclesToStore\":"@ + decimal(c.3)
        + ",\"CyclesSkipReason\":\"not computed for --robot-plan\",\"ComputeEigenvector\":false,\"ComputeCriticalPath\":false,\"ComputeKCore\":true,\"ComputeArticulation\":true,\"ComputeSlack\":true}"@
}

/// The `--robot-plan` analysis configuration for a graph of `nodes` nodes:
/// only the k-core, articulation and slack metrics run; the others are
/// skipped with the plan's reason, under the timeouts of the size tier.
pub fn plan_analysis_config(nodes: usize) -> (r: String)
    ensures
        r@ == plan_config_json(nodes as nat),
{
    let (bt, pr, cycles, max_cycles, sample): (usize, usize, usize, usize, usize) = if nodes
        < 100 {
        (2_000_000_000, 2_000_000_000, 2_000_000_000, 1000, 0)
    } else if nodes < 500 {
        (500_000_000, 500_000_000, 500_000_000, 100, 0)
    } else if nodes < 2000 {
        (500_000_000, 300_000_000, 300_000_000, 50, 100)
    } else {
        (500_000_000, 200_000_000, 0, 10, 200)
    };
    let mut out = owned("{\"ComputeBetweenness\":false,\"BetweennessTimeout\":");
    append(&mut out, usize_to_decimal(bt).as_str());
    append(
        &mut out,
        ",\"BetweennessSkipReason\":\"not computed for --robot-plan\",\"BetweennessMode\":\"skip\",\"BetweennessSampleSize\":",
    );
    append(&mut out, usize_to_decimal(sample).as_str());
    append(
        &mut out,
        ",\"BetweennessIsApproximate\":false,\"ComputePageRank\":false,\"PageRankTimeout\":",
    );
    append(&mut out, usize_to_decimal(pr).as_str());
    append(
        &mut out,
        ",\"PageRankSkipReason\":\"not computed for --robot-plan\",\"ComputeHITS\":false,\"HITSTimeout\":",
    );
    append(&mut out, usize_to_decimal(pr).as_str());
    append(
        &mut out,
        ",\"HITSSkipReason\":\"not computed for --robot-plan\",\"ComputeCycles\":false,\"CyclesTimeout\":",
    );
    append(&mut out, usize_to_decimal(cycles).as_str());
    append(&mut out, ",\"MaxCyclesToStore\":");
    append(&mut out, usize_to_decimal(max_cycles).as_str());
    append(
        &mut out,
        ",\"CyclesSkipReason\":\"not computed for --robot-plan\",\"ComputeEigenvector\":false,\"ComputeCriticalPath\":false,\"ComputeKCore\":true,\"ComputeArticulation\":true,\"ComputeSlack\":true}",
    );
    out
}

/// A signed decimal integer.
pub open spec fn signed_decimal(n: int) -> Seq<char> {
    if n < 0 {
        "-"@ + decimal((-n) as nat)
    } else {
        decimal(n as nat)
    }
}

/// Formats an `i64` in decimal.
fn i64_to_decimal(n: i64) -> (r: String)
    ensures
        r@ == signed_decimal(n as int),
{
    if n < 0 {
        let mag: u64 = if n == i64::MIN {
            0x8000_0000_0000_0000
        } else {
            (-n) as u64
        };
        let mut out = owned("-");
        append(&mut out, u64_to_decimal(mag).as_str());
        out
    } else {
        u64_to_decimal(n as u64)
    }
}

/// Formats a `u64` in decimal.
fn u64_to_decimal(n: u64) -> (r: String)
    ensures
        r@ == decimal(n as nat),
    decreases n,
{
    if n < 10 {
        let mut r = String::new();
        crate::text::push_char(&mut r, crate::text::char_of_ascii((n as u32) + 48));
        assert(r@ =~= decimal(n as nat));
        r
    } else {
        let mut r = u64_to_decimal(n / 10);
        crate::text::push_char(&mut r, crate::text::char_of_ascii(((n % 10) as u32) + 48));
        r
    }
}

/// The status object of one advanced-insights feature: its state, then the
/// reason, the capped flag, the count and the limited count, each only when
/// non-empty, set or non-zero.
pub open spec fn feature_status_json(
    state: Seq<char>,
    reason: Seq<char>,
    capped: bool,
    count: int,
    limited: int,
) -> Seq<char> {
    "{\"state\":"@ + go_escaped(state) + (if reason.len() > 0 {
        ",\"reason\":"@ + go_escaped(reason)
    } else {
        Seq::empty()
    }) + (if capped {
        ",\"capped\":true"@
    } else {
        Seq::empty()
    }) + (if count != 0 {
        ",\"count\":"@ + signed_decimal(count)
    } else {
        Seq::empty()
    }) + (if limited != 0 {
        ",\"limited\":"@ + signed_decimal(limited)
    } else {
        Seq::empty()
    }) + "}"@
}

/// Renders the status object of one advanced-insights feature.
pub fn feature_status(state: &str, reason: &str, capped: bool, count: i64, limited: i64) -> (r:
    String)
    ensures
        r@ == feature_status_json(state@, reason@, capped, count as int, limited as int),
{
    let mut out = owned("{\"state\":");
    append(&mut out, go_escape_string(state).as_str());
    let ghost after_state = out@;
    if reason.unicode_len() > 0 {
        append(&mut out, ",\"reason\":");
        append(&mut out, go_escape_string(reason).as_str());
    }
    let ghost after_reason = out@;
    if capped {
        append(&mut out, ",\"capped\":true");
    }
    let ghost after_capped = out@;
    if count != 0 {
        append(&mut out, ",\"count\":");
        append(&mut out, i64_to_decimal(count).as_str());
    }
    let ghost after_count = out@;
    if limited != 0 {
        append(&mut out, ",\"limited\":");
        append(&mut out, i64_to_decimal(limited).as_str());
    }
    append(&mut out, "}");
    assert(out@ =~= feature_status_json(state@, reason@, capped, count as int, limited as int));
    out
}

} // verus!
