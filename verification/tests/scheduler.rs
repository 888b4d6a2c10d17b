use keck::controller::aggregator::{
    AgentReport, ClusterAggregator, NodePowerReport, PodPowerReport,
};
use keck::controller::scheduler::{PowerScheduler, SchedulerConfig};

const SECOND: u64 = 1_000_000_000;
/// A time on the monotonic clock.
const NOW: u64 = 5_000 * SECOND;
/// A time since the Unix epoch.
const WALL: u64 = 1_700_000_000 * SECOND;

fn make_node(name: &str, cpu: u64, mem: u64, gpu: u64, platform: Option<u64>, error_ratio: f64) -> NodePowerReport {
    NodePowerReport {
        node_name: name.into(),
        cpu_uw: cpu,
        memory_uw: mem,
        gpu_uw: gpu,
        platform_uw: platform,
        psu_output_uw: None,
        idle_uw: 1000,
        error_ratio_atto: (error_ratio * 1e6).round() as u128 * 1_000_000_000_000,
        pod_count: 5,
        process_count: 50,
        timestamp_ns: WALL,
        cpu_source: "rapl".into(),
        memory_source: "estimated".into(),
        cpu_reading_type: "estimated".into(),
        sources: vec![],
    }
}

fn make_pod(node: &str, uid: &str, ns: &str, cpu: u64) -> PodPowerReport {
    PodPowerReport {
        node_name: node.into(),
        pod_uid: uid.into(),
        pod_name: format!("pod-{}", uid),
        namespace: ns.into(),
        cpu_uw: cpu,
        memory_uw: 0,
        gpu_uw: 0,
        storage_uw: 0,
        io_uw: 0,
        total_uw: cpu,
        timestamp_ns: WALL,
    }
}

#[test]
fn test_filter_allows_unknown_nodes() {
    let agg = ClusterAggregator::new();
    let scheduler = PowerScheduler::new();

    let result = scheduler.filter(&agg, &vec!["unknown-node".into()], "default");
    assert_eq!(result.nodes.len(), 1);
    assert!(result.failed.is_empty());
}

#[test]
fn test_filter_rejects_high_error_ratio() {
    let mut agg = ClusterAggregator::new();
    {
        let a = &mut agg;
        a.ingest(AgentReport {
            node: make_node("bad-node", 5000, 2000, 0, None, 0.60), // 60% error
            pods: vec![],
        }, NOW, WALL);
    }
    let scheduler = PowerScheduler::new();

    let result = scheduler.filter(&agg, &vec!["bad-node".into()], "default");
    assert!(result.nodes.is_empty());
    assert!(result.failed.iter().any(|f| f.0 == "bad-node"));
}

#[test]
fn test_filter_allows_low_error_ratio() {
    let mut agg = ClusterAggregator::new();
    {
        let a = &mut agg;
        a.ingest(AgentReport {
            node: make_node("good-node", 5000, 2000, 0, None, 0.05),
            pods: vec![],
        }, NOW, WALL);
    }
    let scheduler = PowerScheduler::new();

    let result = scheduler.filter(&agg, &vec!["good-node".into()], "default");
    assert_eq!(result.nodes.len(), 1);
}

#[test]
fn test_filter_rejects_over_namespace_budget() {
    let mut agg = ClusterAggregator::new();
    {
        let a = &mut agg;
        a.ingest(AgentReport {
            node: make_node("node-1", 5000, 2000, 0, None, 0.05),
            pods: vec![make_pod("node-1", "uid-1", "prod", 5_000_000)], // 5W
        }, NOW, WALL);
    }

    let mut scheduler = PowerScheduler::new();
    scheduler.config.namespace_budgets.push(("prod".into(), 1_000_000)); // 1W budget

    let result = scheduler.filter(&agg, &vec!["node-1".into()], "prod");
    assert!(result.nodes.is_empty());
    assert!(result.failed.iter().any(|f| f.0 == "node-1"));
}

#[test]
fn test_prioritize_unknown_nodes_get_neutral_score() {
    let agg = ClusterAggregator::new();
    let scheduler = PowerScheduler::new();

    let result = scheduler.prioritize(&agg, &vec!["unknown".into()]);
    assert_eq!(result.scores.len(), 1);
    assert_eq!(result.scores[0].score, 50);
}

#[test]
fn test_prioritize_scores_nodes() {
    let mut agg = ClusterAggregator::new();
    {
        let a = &mut agg;
        // High utilization node (good for bin-packing)
        a.ingest(AgentReport {
            node: make_node("busy-node", 8000, 3000, 0, Some(15000), 0.05),
            pods: vec![],
        }, NOW, WALL);
        // Low utilization node
        a.ingest(AgentReport {
            node: make_node("idle-node", 1000, 500, 0, Some(15000), 0.05),
            pods: vec![],
        }, NOW, WALL);
    }
    let scheduler = PowerScheduler::new();

    let result = scheduler.prioritize(&agg, &vec!["busy-node".into(), "idle-node".into()]);
    assert_eq!(result.scores.len(), 2);
    // With BinPack strategy, busy node should score higher
    let busy_score = result.scores.iter().find(|s| s.node_name == "busy-node").unwrap().score;
    let idle_score = result.scores.iter().find(|s| s.node_name == "idle-node").unwrap().score;
    assert!(busy_score > idle_score);
}

#[test]
fn test_scheduler_config_defaults() {
    let config = SchedulerConfig::default();
    assert!((config.headroom_weight_ppm as f64 / 1e6 - 0.7).abs() < 1e-10);
    assert!((config.accuracy_weight_ppm as f64 / 1e6 - 0.3).abs() < 1e-10);
    assert!(config.namespace_budgets.is_empty());
}
