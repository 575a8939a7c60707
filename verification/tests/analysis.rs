use bv::analysis::{feature_status, insights_analysis_config, plan_analysis_config};

#[test]
fn insights_config_follows_the_size_tiers() {
    assert_eq!(
        insights_analysis_config(10),
        "{\"ComputeBetweenness\":true,\"BetweennessTimeout\":2000000000,\"BetweennessSkipReason\":\"\",\"BetweennessMode\":\"exact\",\"BetweennessSampleSize\":0,\"BetweennessIsApproximate\":false,\"ComputePageRank\":true,\"PageRankTimeout\":2000000000,\"PageRankSkipReason\":\"\",\"ComputeHITS\":true,\"HITSTimeout\":2000000000,\"HITSSkipReason\":\"\",\"ComputeCycles\":true,\"CyclesTimeout\":2000000000,\"MaxCyclesToStore\":1000,\"CyclesSkipReason\":\"\",\"ComputeEigenvector\":true,\"ComputeCriticalPath\":true,\"ComputeKCore\":true,\"ComputeArticulation\":true,\"ComputeSlack\":true}"
    );
    assert!(insights_analysis_config(100).contains("\"BetweennessTimeout\":500000000,"));
    assert!(insights_analysis_config(499).contains("\"MaxCyclesToStore\":100,"));
    let mid = insights_analysis_config(500);
    assert!(mid.contains("\"BetweennessMode\":\"approximate\",\"BetweennessSampleSize\":100,"));
    assert!(mid.contains("\"PageRankTimeout\":300000000,"));
    let big = insights_analysis_config(2000);
    assert!(big.contains("\"ComputeCycles\":false,\"CyclesTimeout\":0,\"MaxCyclesToStore\":10,\"CyclesSkipReason\":\"graph too large (\\u003e2000 nodes)\""));
    assert!(big.contains("\"BetweennessSampleSize\":200,"));
}

#[test]
fn plan_config_skips_all_but_three_metrics() {
    assert_eq!(
        plan_analysis_config(2500),
        "{\"ComputeBetweenness\":false,\"BetweennessTimeout\":500000000,\"BetweennessSkipReason\":\"not computed for --robot-plan\",\"BetweennessMode\":\"skip\",\"BetweennessSampleSize\":200,\"BetweennessIsApproximate\":false,\"ComputePageRank\":false,\"PageRankTimeout\":200000000,\"PageRankSkipReason\":\"not computed for --robot-plan\",\"ComputeHITS\":false,\"HITSTimeout\":200000000,\"HITSSkipReason\":\"not computed for --robot-plan\",\"ComputeCycles\":false,\"CyclesTimeout\":0,\"MaxCyclesToStore\":10,\"CyclesSkipReason\":\"not computed for --robot-plan\",\"ComputeEigenvector\":false,\"ComputeCriticalPath\":false,\"ComputeKCore\":true,\"ComputeArticulation\":true,\"ComputeSlack\":true}"
    );
    assert!(plan_analysis_config(0).contains("\"BetweennessTimeout\":2000000000,"));
    assert!(plan_analysis_config(1999).contains("\"MaxCyclesToStore\":50,"));
}

#[test]
fn feature_status_omits_empty_fields() {
    assert_eq!(feature_status("ok", "", false, 0, 0), "{\"state\":\"ok\"}");
    assert_eq!(
        feature_status("skipped", "too <big>", true, -3, 7),
        "{\"state\":\"skipped\",\"reason\":\"too \\u003cbig\\u003e\",\"capped\":true,\"count\":-3,\"limited\":7}"
    );
    assert_eq!(
        feature_status("ok", "", false, i64::MIN, i64::MAX),
        "{\"state\":\"ok\",\"count\":-9223372036854775808,\"limited\":9223372036854775807}"
    );
}
