use keck::controller::access::{check_auth, data_quality, validate_report};
use keck::controller::aggregator::{
    AgentReport, ClusterAggregator, NodePowerReport, PodPowerReport, SourceStatus,
};
use keck::controller::api::{handle_cluster, handle_node, handle_pod, handle_report};
use keck::controller::application::{
    build_classification, discover_co_namespaces, ClusterOperator, RelatedObject,
};
use keck::controller::carbon::CarbonTracker;
use keck::arith::divide_up;
use keck::controller::kepler::{read_samples, samples_in_range, scrape, scrape_and_ingest};
use keck::controller::scheduler::{PlacementStrategy, PowerScheduler};

const SECOND: u64 = 1_000_000_000;
const NOW: u64 = 5_000 * SECOND;
const WALL: u64 = 1_700_000_000 * SECOND;

fn agent_report() -> AgentReport {
    AgentReport {
        node: NodePowerReport {
            node_name: "test-node".into(),
            cpu_uw: 5_000_000,
            memory_uw: 2_000_000,
            gpu_uw: 0,
            platform_uw: Some(10_000_000),
            psu_output_uw: Some(9_000_000),
            idle_uw: 3_000_000,
            error_ratio_atto: 50_000_000_000_000_000,
            pod_count: 1,
            process_count: 50,
            timestamp_ns: WALL,
            cpu_source: "rapl".into(),
            memory_source: "estimated".into(),
            cpu_reading_type: "estimated".into(),
            sources: vec![SourceStatus {
                name: "rapl".into(),
                node_name: "test-node".into(),
                component: "cpu".into(),
                reading_type: "estimated".into(),
                available: true,
                selected: true,
                power_uw: 5_000_000,
            }],
        },
        pods: vec![PodPowerReport {
            node_name: "test-node".into(),
            pod_uid: "test-uid-123".into(),
            pod_name: "web-app-1".into(),
            namespace: "production".into(),
            cpu_uw: 1_000_000,
            memory_uw: 500_000,
            gpu_uw: 0,
            storage_uw: 0,
            io_uw: 0,
            total_uw: 1_500_000,
            timestamp_ns: WALL,
        }],
    }
}

// ─── Reports ────────────────────────────────────────────────────

#[test]
fn accepted_report_is_ingested() {
    let mut agg = ClusterAggregator::new();
    assert!(handle_report(&mut agg, None, &None, agent_report(), NOW, WALL).is_ok());
    assert_eq!(agg.node_count(), 1);
    assert_eq!(handle_pod(&agg, Some("test-uid-123")).unwrap().total_uw, 1_500_000);
    assert_eq!(handle_node(&agg, Some("test-node"), NOW).unwrap().cpu_uw, 5_000_000);
}

#[test]
fn refused_report_changes_nothing() {
    let mut agg = ClusterAggregator::new();
    let key = Some("secret".to_string());
    for header in [None, Some("secret"), Some("Bearer wrong"), Some("bearer secret")] {
        let e = handle_report(&mut agg, header, &key, agent_report(), NOW, WALL).unwrap_err();
        assert_eq!((e.status, e.reason.as_str()), (401, "unauthorized"));
    }
    let mut bad = agent_report();
    bad.node.cpu_uw = 100_000_000_001;
    let e = handle_report(&mut agg, Some("Bearer secret"), &key, bad, NOW, WALL).unwrap_err();
    assert_eq!((e.status, e.reason.as_str()), (400, "cpu_uw exceeds max: 100000000001"));
    assert_eq!(agg.node_count(), 0);
    assert!(agg.pods.is_empty() && agg.history.is_empty());
    assert!(handle_report(&mut agg, Some("Bearer secret"), &key, agent_report(), NOW, WALL).is_ok());
}

#[test]
fn keys() {
    assert!(check_auth(None, &None).is_ok());
    assert!(check_auth(Some("anything"), &None).is_ok());
    assert!(check_auth(Some("Bearer k"), &Some("k".into())).is_ok());
    assert!(check_auth(Some("Bearer kk"), &Some("k".into())).is_err());
    assert!(check_auth(None, &Some("k".into())).is_err());
}

#[test]
fn faults_of_reports() {
    let fault = |change: &dyn Fn(&mut AgentReport)| {
        let mut r = agent_report();
        change(&mut r);
        validate_report(&r).unwrap_err()
    };
    assert_eq!(validate_report(&agent_report()), Ok(()));
    assert_eq!(fault(&|r| r.node.node_name = String::new()), "invalid node_name length: 0");
    assert_eq!(fault(&|r| r.node.node_name = "x".repeat(513)), "invalid node_name length: 513");
    assert_eq!(fault(&|r| r.node.memory_uw = u64::MAX), "memory_uw exceeds max: 18446744073709551615");
    assert_eq!(fault(&|r| r.node.gpu_uw = 100_000_000_001), "gpu_uw exceeds max: 100000000001");
    assert_eq!(fault(&|r| r.pods[0].pod_uid = String::new()), "invalid pod_uid length: 0");
    // Lengths are in bytes
    assert_eq!(fault(&|r| r.pods[0].pod_name = "é".repeat(257)), "pod_name too long: 514");
    assert_eq!(fault(&|r| r.pods[0].namespace = "n".repeat(600)), "namespace too long: 600");
    assert_eq!(
        fault(&|r| r.pods[0].total_uw = 100_000_000_001),
        "pod test-uid-123 total_uw exceeds max: 100000000001"
    );
    let many = fault(&|r| {
        let pod = r.pods[0].clone();
        r.pods = vec![pod; 2001];
    });
    assert_eq!(many, "too many pods: 2001 (max 2000)");
}

#[test]
fn unknown_nodes_and_pods() {
    let agg = ClusterAggregator::new();
    assert_eq!(handle_node(&agg, Some("nonexistent"), NOW).unwrap_err(), 404);
    assert_eq!(handle_node(&agg, None, NOW).unwrap_err(), 404);
    assert_eq!(handle_pod(&agg, Some("nonexistent")).unwrap_err(), 404);
    assert_eq!(handle_pod(&agg, None).unwrap_err(), 404);
}

// ─── Cluster ────────────────────────────────────────────────────

#[test]
fn cluster_with_its_data_quality() {
    let mut agg = ClusterAggregator::new();
    agg.ingest(agent_report(), NOW, WALL);
    assert!(agg.cluster_in_range() && agg.parts_in_range());
    let r = handle_cluster(&agg, NOW + 7 * SECOND);
    assert_eq!((r.power.cpu_uw, r.power.node_count, r.power.pod_count), (5_000_000, 1, 1));
    assert_eq!((r.power.psu_output_uw, r.power.psu_loss_uw), (9_000_000, 1_000_000));
    assert_eq!(r.nodes[0].last_seen_secs_ago, 7);
    assert_eq!(r.nodes[0].headroom_uw, Some(3_000_000));
    assert_eq!(r.sources.len(), 1);
    let q = &r.data_quality;
    assert_eq!((q.cpu.source.as_str(), q.cpu.kind.as_str(), q.cpu.available), ("rapl", "estimated", true));
    assert_eq!((q.memory.kind.as_str(), q.memory.available), ("estimated", true));
    assert_eq!((q.gpu.source.as_str(), q.gpu.kind.as_str()), ("none", "unavailable"));
    assert_eq!((q.platform.source.as_str(), q.platform.kind.as_str()), ("Redfish PSU", "measured"));
    assert_eq!(q.platform_note, "PSU measured power (ground truth)");
    assert!(!q.missing_ground_truth && q.missing_gpu);
    assert_eq!(q.message, "All data sources available.");
}

#[test]
fn data_quality_of_an_empty_cluster() {
    let agg = ClusterAggregator::new();
    let r = handle_cluster(&agg, NOW);
    assert_eq!((r.power.node_count, r.power.pod_count, r.power.cpu_uw), (0, 0, 0));
    assert_eq!(r.data_quality.cpu.source, "unknown");
    assert_eq!(r.data_quality.memory.kind, "unavailable");
    assert!(r.data_quality.missing_ground_truth);
    assert_eq!(
        r.data_quality.message,
        "No platform power source. Configure iDRAC to get measured power."
    );
    let measured = data_quality(&r.power, "a", "b", "Redfish Telemetry Memory");
    assert_eq!(measured.memory.kind, "measured");
}

#[test]
fn stale_pods_and_nodes_are_dropped() {
    let mut agg = ClusterAggregator::new();
    agg.ingest(agent_report(), NOW, WALL);
    let mut other = agent_report();
    other.node.node_name = "other".into();
    other.pods.clear();
    agg.ingest(other, NOW + 60 * SECOND, WALL);
    assert_eq!(agg.node_count(), 1);
    assert!(agg.pods.is_empty());
}

#[test]
fn old_history_is_trimmed() {
    let mut agg = ClusterAggregator::new();
    agg.ingest(agent_report(), NOW, WALL);
    let mut later = agent_report();
    later.pods[0].timestamp_ns = WALL + 3_601 * SECOND;
    later.pods[0].total_uw = 7;
    agg.ingest(later, NOW, WALL + 3_601 * SECOND);
    assert_eq!(agg.namespace_history("production", 0), vec![(WALL + 3_601 * SECOND, 7)]);
    let mut gone = agent_report();
    gone.pods.clear();
    agg.ingest(gone, NOW, WALL + 8_000 * SECOND);
    assert!(agg.history.is_empty());
}

#[test]
fn removed_nodes_take_their_pods_along() {
    let mut agg = ClusterAggregator::new();
    agg.ingest(agent_report(), NOW, WALL);
    let mut other = agent_report();
    other.node.node_name = "other".into();
    other.pods.clear();
    agg.ingest(other, NOW, WALL);
    assert_eq!(agg.evict_removed_nodes(&vec!["other".to_string()]), vec!["test-node"]);
    assert_eq!(agg.node_count(), 1);
    assert!(agg.pods.is_empty());
}

#[test]
fn namespaces_add_up_to_the_pods() {
    let mut agg = ClusterAggregator::new();
    let mut r = agent_report();
    for (i, ns) in ["a", "b", "a"].iter().enumerate() {
        let mut p = r.pods[0].clone();
        p.pod_uid = format!("uid-{}", i);
        p.namespace = ns.to_string();
        p.total_uw = 10 + i as u64;
        r.pods.push(p);
    }
    agg.ingest(r, NOW, WALL);
    let sum: u64 = agg.namespace_power().iter().map(|n| n.total_uw).sum();
    assert_eq!(sum, 1_500_000 + 10 + 11 + 12);
}

#[test]
fn sums_out_of_range_are_told() {
    let mut agg = ClusterAggregator::new();
    let mut r = agent_report();
    r.node.cpu_uw = u64::MAX;
    r.node.memory_uw = 1;
    agg.ingest(r, NOW, WALL);
    assert!(!agg.cluster_in_range());
    assert!(!agg.parts_in_range());
}

// ─── Scheduler ──────────────────────────────────────────────────

#[test]
fn spreading_prefers_the_idle_node() {
    let mut agg = ClusterAggregator::new();
    for (name, cpu) in [("busy", 8_000_000), ("idle", 1_000_000)] {
        let mut r = agent_report();
        r.node.node_name = name.into();
        r.node.cpu_uw = cpu;
        r.pods.clear();
        agg.ingest(r, NOW, WALL);
    }
    let candidates = vec!["busy".to_string(), "idle".to_string()];
    let mut s = PowerScheduler::new();
    let packed = s.prioritize(&agg, &candidates);
    assert!(packed.scores[0].score > packed.scores[1].score);
    s.config.strategy = PlacementStrategy::Spread;
    let spread = s.prioritize(&agg, &candidates);
    assert!(spread.scores[1].score > spread.scores[0].score);
}

#[test]
fn every_candidate_passes_or_is_told_why() {
    let mut agg = ClusterAggregator::new();
    for (name, error) in [("good", 50_000_000_000_000_000), ("bad", 604_999_000_000_000_000)] {
        let mut r = agent_report();
        r.node.node_name = name.into();
        r.node.error_ratio_atto = error;
        r.pods[0].node_name = name.into();
        agg.ingest(r, NOW, WALL);
    }
    let candidates = vec!["good".to_string(), "bad".to_string(), "new".to_string()];
    let mut s = PowerScheduler::new();
    let r = s.filter(&agg, &candidates, "production");
    assert_eq!(r.nodes, vec!["good", "new"]);
    assert_eq!(
        r.failed,
        vec![("bad".to_string(), "power metering unreliable (error ratio: 60%)".to_string())]
    );
    // Exactly used up is exceeded
    s.config.namespace_budgets.push(("production".into(), 1_500_000));
    let r = s.filter(&agg, &candidates, "production");
    assert_eq!(r.nodes, vec!["new"]);
    assert_eq!(r.failed.len(), 2);
    assert_eq!(
        r.failed[0].1,
        "namespace 'production' power budget exceeded (2W / 2W)"
    );
    let scores = s.prioritize(&agg, &candidates).scores;
    assert!(scores.iter().all(|n| n.score <= 100));
    // 70% of 70 and 30% of 95
    assert_eq!((scores[0].score, scores[0].reason.as_str()), (77, "headroom=70, accuracy=95, strategy=BinPack"));
    assert_eq!((scores[2].score, scores[2].reason.as_str()), (50, "no power data available"));
}

// ─── Classification ─────────────────────────────────────────────

fn operator(name: &str, namespaces: Vec<&str>) -> ClusterOperator {
    ClusterOperator {
        name: name.into(),
        related: namespaces
            .into_iter()
            .map(|n| RelatedObject { resource: "namespaces".into(), name: Some(n.into()) })
            .collect(),
    }
}

#[test]
fn namespaces_of_cluster_operators() {
    let mut cos = vec![
        operator("network", vec!["openshift-dns", "openshift-config", "openshift-multus"]),
        operator("dns", vec!["openshift-dns", "openshift-multus"]),
    ];
    cos[0].related.push(RelatedObject { resource: "pods".into(), name: Some("ignored".into()) });
    cos[0].related.push(RelatedObject { resource: "namespaces".into(), name: None });
    let mut found = discover_co_namespaces(&cos);
    found.sort();
    assert_eq!(
        found,
        vec![
            // The operator whose name is in the namespace's takes it over
            ("openshift-dns".to_string(), "dns".to_string()),
            ("openshift-multus".to_string(), "network".to_string()),
        ]
    );
}

#[test]
fn three_categories_do_not_overlap() {
    let cos = vec![operator("dns", vec!["openshift-dns"])];
    let data = build_classification(&cos, &vec!["openshift-dns".into(), "gitops".into()]);
    assert_eq!(data.classify("openshift-dns"), ("platform", Some(&"dns".to_string())));
    assert_eq!(data.classify("gitops"), ("operator", None));
    assert_eq!(data.classify("shop"), ("application", None));
    assert_eq!(data.operator_namespaces, vec!["gitops"]);
}

// ─── Carbon ─────────────────────────────────────────────────────

#[test]
fn carbon_of_an_hour() {
    let mut t = CarbonTracker::new(None, None);
    assert!(t.current().is_none());
    assert!(t.calculate(1, SECOND).is_none());
    t.refresh(WALL);
    assert_eq!(t.current().unwrap().source, "static_default");
    assert_eq!(t.current().unwrap().region, "unknown");
    // 1 kW for an hour at 400 g/kWh and 0.10/kWh
    let r = t.calculate(1_000_000_000, 3_600 * SECOND).unwrap();
    assert_eq!(r.energy_fwh, 1_000_000_000_000_000_000);
    assert_eq!(r.carbon_pg, 400_000_000_000_000);
    assert_eq!(r.cost_femto, 100_000_000_000_000);
    assert_eq!(r.carbon_pg_per_year, 8_766 * 400_000_000_000_000);
    assert_eq!(r.cost_femto_per_year, 8_766 * 100_000_000_000_000);
    // 1 W for ten seconds
    assert_eq!(t.calculate(1_000_000, 10 * SECOND).unwrap().cost_femto, 277_777_777);
}

#[test]
fn carbon_endpoint_and_region() {
    let mut t = CarbonTracker::new(Some("http://c".into()), Some("eu".into()));
    t.refresh(7);
    let i = t.current().unwrap();
    assert_eq!(i.source, "static (endpoint configured: http://c)");
    assert_eq!((i.region.as_str(), i.timestamp_ns, i.is_forecast), ("eu", 7, false));
}

// ─── Kepler ─────────────────────────────────────────────────────

#[test]
fn kepler_zones_add_up_before_they_are_rounded() {
    let mut body = String::from(
        "kepler_pod_cpu_watts{pod_id=\"a\",pod_name=\"p\",pod_namespace=\"ns\",state=\"running\",node_name=\"n1\"} 1\n",
    );
    body += "kepler_node_cpu_watts{node_name=\"n1\",zone=\"package\"} 0.0000006\n";
    body += "kepler_node_cpu_watts{node_name=\"n1\",zone=\"dram\"} 0.0000006\n";
    let reports = scrape(&body, &read_samples(&body), WALL);
    assert_eq!(reports[0].node.cpu_uw, 1);
}

#[test]
fn metering_off_by_just_over_half_is_refused() {
    let mut agg = ClusterAggregator::new();
    let mut r = agent_report();
    r.node.error_ratio_atto = divide_up(1_500_001, 3_000_001);
    let name = r.node.node_name.clone();
    agg.ingest(r, NOW, WALL);
    let candidates = vec![name];
    let s = PowerScheduler::new();
    assert!(s.filter(&agg, &candidates, "other").nodes.is_empty());
    let mut r = agent_report();
    r.node.error_ratio_atto = divide_up(1_500_000, 3_000_000);
    agg.ingest(r, NOW, WALL);
    assert_eq!(s.filter(&agg, &candidates, "other").nodes, candidates);
}

#[test]
fn kepler_reports_by_node() {
    let pod = |metric: &str, id: &str, node: &str, state: &str, watts: &str| {
        format!(
            "{}{{pod_id=\"{}\",pod_name=\"n-{}\",pod_namespace=\"ns\",state=\"{}\",node_name=\"{}\"}} {}\n",
            metric, id, id, state, node, watts
        )
    };
    let mut body = String::from("# HELP kepler\n\n");
    body += &pod("kepler_pod_cpu_watts", "a", "n1", "running", "2.5");
    body += &pod("kepler_pod_cpu_watts", "a", "n1", "running", "0.25");
    body += &pod("kepler_pod_gpu_watts", "a", "n1", "running", "1");
    body += &pod("kepler_pod_cpu_watts", "b", "n1", "terminated", "9");
    body += &pod("kepler_pod_cpu_watts", "c", "n2", "running", "4");
    body += "kepler_node_cpu_watts{node_name=\"n1\",zone=\"package\"} 10\n";
    body += "kepler_node_cpu_watts{node_name=\"n1\",zone=\"dram\"} 2\n";
    body += "kepler_node_cpu_idle_watts{node_name=\"n1\"} 3\n";
    body += "kepler_node_gpu_watts{node_name=\"n1\"} 1\n";
    body += "kepler_platform_watts{node_name=\"n1\"} 20\n";
    body += "kepler_node_cpu_watts{node_name=\"n3\"} 10\n";
    let samples = read_samples(&body);
    assert!(samples_in_range(&samples));
    let reports = scrape(&body, &samples, WALL);
    assert_eq!(reports.len(), 2);
    let n1 = &reports[0];
    assert_eq!((n1.node.node_name.as_str(), n1.node.cpu_uw, n1.node.gpu_uw), ("n1", 12_000_000, 1_000_000));
    assert_eq!((n1.node.idle_uw, n1.node.platform_uw), (3_000_000, Some(20_000_000)));
    // |20 - 13| / 20
    assert_eq!(n1.node.error_ratio_atto, 350_000_000_000_000_000);
    assert_eq!(n1.node.cpu_source, "kepler (RAPL + Redfish)");
    assert_eq!(n1.pods.len(), 1);
    assert_eq!((n1.pods[0].cpu_uw, n1.pods[0].gpu_uw, n1.pods[0].total_uw), (2_750_000, 1_000_000, 3_750_000));
    assert_eq!(reports[1].node.cpu_source, "kepler (RAPL)");
    assert_eq!(reports[1].node.platform_uw, None);
    let mut agg = ClusterAggregator::new();
    assert_eq!(scrape_and_ingest(&mut agg, &body, NOW, WALL), Some(2));
    assert_eq!((agg.node_count(), agg.pods.len()), (2, 2));
    assert_eq!(agg.pod_power("a").unwrap().total_uw, 3_750_000);
    let huge = pod("kepler_pod_cpu_watts", "a", "n1", "running", "1e30")
        + &pod("kepler_pod_gpu_watts", "a", "n1", "running", "1");
    assert_eq!(scrape_and_ingest(&mut agg, &huge, NOW, WALL), None);
    assert_eq!(agg.pod_power("a").unwrap().total_uw, 3_750_000);
}
