use keck::fleet::registry::{
    CarbonData, ClusterPowerSummary, ClusterRegistry, ClusterReport, NamespaceSummary,
};
use keck::fleet::reporting::{daily_report, generate_daily_report, report_kind, ReportType};
use keck::fleet::policy::{default_policies, evaluate, Policy, PolicyKind, Severity};

const SECOND: u64 = 1_000_000_000;
const NOW: u64 = 5_000 * SECOND;
/// 2023-11-14 22:13:20 UTC
const WALL: u64 = 1_700_000_000 * SECOND;

fn cluster(id: &str, total_uw: u64, intensity: u32, namespaces: Vec<(&str, u64)>) -> ClusterReport {
    ClusterReport {
        cluster_id: id.into(),
        cluster_name: format!("name-{}", id),
        region: "eu".into(),
        provider: "bare-metal".into(),
        power: ClusterPowerSummary {
            total_uw,
            cpu_uw: 1,
            memory_uw: 2,
            gpu_uw: 3,
            idle_uw: 4,
            platform_uw: None,
        },
        namespaces: namespaces
            .into_iter()
            .map(|(n, uw)| NamespaceSummary { namespace: n.into(), total_uw: uw, pod_count: 1 })
            .collect(),
        carbon: CarbonData {
            intensity_mg_per_kwh: intensity,
            emissions_ug_per_hour: 400_000_000,
            cost_micros_per_kwh: 100_000,
            currency: "EUR".into(),
        },
        node_count: 3,
        pod_count: 15,
        avg_error_ratio_atto: 50_000_000_000_000_000,
        timestamp_ns: WALL,
    }
}

fn two_clusters() -> ClusterRegistry {
    let mut reg = ClusterRegistry::new();
    reg.set_namespace_owner("prod", "team-a");
    reg.ingest(
        cluster("a", 1_000_000_000, 400_000, vec![("prod", 700_000_000), ("dev", 300_000_000)]),
        NOW,
        WALL,
    );
    reg.ingest(cluster("b", 2_000_000_000, 200_000, vec![("prod", 900_000_000)]), NOW, WALL);
    reg
}

#[test]
fn daily_report_is_stamped_with_the_utc_time() {
    let report = generate_daily_report(&two_clusters(), NOW, WALL);
    assert_eq!(report.id, "daily-20231114-221320");
    assert_eq!(report.report_type, ReportType::DailySummary);
    assert_eq!(report.generated_at_ns, WALL);
    assert_eq!(report.period_end_ns, WALL);
    assert_eq!(report.period_start_ns, (1_700_000_000 - 86_400) * 1_000_000_000);
    assert_eq!(generate_daily_report(&ClusterRegistry::new(), 0, 0).id, "daily-19700101-000000");
}

#[test]
fn daily_report_extrapolates_to_a_day() {
    let report = daily_report(&two_clusters(), "stamp", NOW, WALL);
    assert_eq!(report.id, "daily-stamp");
    let fleet = &report.data.fleet;
    // 3 kW for 24 hours
    assert_eq!(fleet.energy_uwh, 72_000_000_000);
    assert_eq!(fleet.carbon_ug, 19_200_000_000);
    // 0.1 + 0.2 an hour
    assert_eq!(fleet.cost_femto, 7_200_000_000_000_000);
    assert_eq!(fleet.cost_currency, "USD");
    assert_eq!(fleet.avg_power_uw, 3_000_000_000);
    assert_eq!(fleet.peak_power_uw, 3_000_000_000);
    // 800 g in 3 kWh
    assert_eq!(fleet.avg_carbon_intensity, 266_666_666);
    let clusters = &report.data.clusters;
    assert_eq!(clusters.len(), 2);
    assert_eq!(clusters[0].cluster_name, "name-b");
    assert_eq!(clusters[0].energy_uwh, 48_000_000_000);
    assert_eq!(clusters[0].carbon_ug, 9_600_000_000);
    assert_eq!(clusters[0].cost_femto, 4_800_000_000_000_000);
    assert_eq!(clusters[0].avg_power_uw, 2_000_000_000);
    let teams = &report.data.teams;
    assert_eq!(teams.len(), 2);
    assert_eq!((teams[0].team.as_str(), teams[0].namespace_count), ("team-a", 2));
    assert_eq!(teams[0].energy_uwh, 24 * 1_600_000_000);
    // 0.7 kWh at 400 g and 0.9 kWh at 200 g
    assert_eq!(teams[0].carbon_pg, 24 * 460_000_000_000_000);
    assert_eq!((teams[1].team.as_str(), teams[1].namespace_count), ("unassigned", 1));
}

#[test]
fn costs_add_up_before_they_are_rounded() {
    let mut reg = ClusterRegistry::new();
    reg.set_namespace_owner("prod", "team-a");
    for id in ["a", "b", "c"] {
        reg.ingest(cluster(id, 4_000, 400_000, vec![("prod", 4_000)]), NOW, WALL);
    }
    // 12 milliwatts at 0.1 a kWh
    assert_eq!(reg.fleet_summary(NOW).total_cost_femto_per_hour, 1_200_000_000);
    let team = reg.team_view("team-a").unwrap();
    assert_eq!((team.cost_femto_per_hour, team.carbon_pg_per_hour), (1_200_000_000, 4_800_000_000));
}

#[test]
fn a_carbon_violation_is_above_its_budget() {
    let mut reg = ClusterRegistry::new();
    reg.ingest(cluster("a", 1_000, 1_369, vec![("dev", 1)]), NOW, WALL);
    // 1 x 1_369 x 73_056 hundred-millionths of a microgram
    let v = evaluate(
        &reg,
        &policy(PolicyKind::NamespaceCarbonBudget { namespace: "dev".into(), max_ug_per_month: 1 }),
        NOW,
        WALL,
    );
    assert_eq!(v.len(), 1);
    assert_eq!((v[0].current_value, v[0].threshold), (2, 1));
}

#[test]
fn daily_report_without_clusters() {
    let report = daily_report(&ClusterRegistry::new(), "s", NOW, WALL);
    assert_eq!(report.data.fleet.energy_uwh, 0);
    assert_eq!(report.data.fleet.avg_carbon_intensity, 0);
    assert!(report.data.clusters.is_empty() && report.data.teams.is_empty());
}

#[test]
fn kinds_of_reports() {
    assert_eq!(report_kind(ReportType::DailySummary), "daily");
    assert_eq!(report_kind(ReportType::MonthlyESG), "monthly");
    assert_eq!(report_kind(ReportType::OnDemandAudit), "audit");
}

#[test]
fn teams_add_up_to_all_namespaces() {
    let reg = two_clusters();
    let sum: u128 = reg.team_power().iter().map(|t| t.total_uw).sum();
    assert_eq!(sum, 700_000_000 + 300_000_000 + 900_000_000);
    let a = reg.team_view("team-a").unwrap();
    assert_eq!(a.per_cluster.len(), 2);
    assert_eq!(a.per_cluster[1].cluster_name, "name-b");
    assert_eq!(a.cost_femto_per_hour, 70_000_000_000_000 + 90_000_000_000_000);
    assert!(reg.team_view("team-b").is_none());
}

#[test]
fn stale_clusters_are_inactive_and_evicted() {
    let mut reg = ClusterRegistry::new();
    reg.ingest(cluster("old", 5, 100_000, vec![]), NOW, WALL);
    reg.ingest(cluster("new", 5, 900_000, vec![]), NOW + 100 * SECOND, WALL);
    let later = NOW + 120 * SECOND;
    let active: Vec<&str> =
        reg.active_clusters(later).iter().map(|r| r.cluster_id.as_str()).collect();
    assert_eq!(active, vec!["new"]);
    assert_eq!(reg.lowest_carbon_cluster(later).unwrap().cluster_id, "new");
    assert_eq!(reg.fleet_summary(later).clusters[0].last_seen_secs_ago, 120);
    reg.evict_stale(later);
    assert_eq!(reg.clusters.len(), 1);
    reg.evict_stale(later);
    assert_eq!(reg.clusters.len(), 1);
}

#[test]
fn old_history_is_dropped() {
    let mut reg = ClusterRegistry::new();
    let day = 86_400 * SECOND;
    let mut first = cluster("a", 1, 1, vec![]);
    first.timestamp_ns = WALL - 31 * day;
    reg.ingest(first, NOW, WALL - 31 * day);
    assert_eq!(reg.cluster_power_history("a", 0).len(), 1);
    reg.ingest(cluster("a", 2, 1, vec![]), NOW, WALL);
    assert_eq!(reg.cluster_power_history("a", 0), vec![(WALL, 2)]);
    assert_eq!(reg.clusters[0].1.carbon_history, vec![(WALL, 400_000_000)]);
    assert!(reg.cluster_power_history("a", WALL + 1).is_empty());
}

#[test]
fn owners_are_replaced() {
    let mut reg = two_clusters();
    reg.set_namespace_owner("prod", "team-c");
    assert_eq!(reg.team_power()[0].team, "team-c");
}

#[test]
fn registry_that_cannot_be_counted() {
    let mut reg = two_clusters();
    assert!(reg.is_countable());
    let mut big = cluster("c", 1, 1, vec![]);
    big.pod_count = u32::MAX;
    reg.ingest(big, NOW, WALL);
    assert!(!reg.is_countable());
}

fn policy(kind: PolicyKind) -> Vec<Policy> {
    vec![Policy { name: "p".into(), kind, severity: Severity::Critical, enabled: true }]
}

#[test]
fn violations_say_what_and_by_how_much() {
    let reg = two_clusters();
    let v = evaluate(
        &reg,
        &policy(PolicyKind::TeamPowerBudget { team: "team-a".into(), max_uw: 1_500_500_000 }),
        NOW,
        WALL,
    );
    assert_eq!(v.len(), 1);
    // Half a watt goes to the even one
    assert_eq!(v[0].message, "Team 'team-a' power usage 1600W exceeds budget 1500W");
    assert_eq!((v[0].current_value, v[0].threshold), (1_600_000_000, 1_500_500_000));
    assert_eq!((v[0].severity, v[0].timestamp_ns), (Severity::Critical, WALL));

    let v = evaluate(
        &reg,
        &policy(PolicyKind::NamespaceCarbonBudget {
            namespace: "dev".into(),
            max_ug_per_month: 1_000_000_000,
        }),
        NOW,
        WALL,
    );
    // 0.3 kW x 730.56 h x 400 g/kWh
    assert_eq!(v.len(), 1);
    assert_eq!(
        v[0].message,
        "Namespace 'dev' in cluster 'name-a' projected at 87667 gCO2/month (budget: 1000)"
    );
    assert_eq!(v[0].current_value, 87_667_200_000);

    let v = evaluate(
        &reg,
        &policy(PolicyKind::MeteringQuality { max_error_ratio_atto: 12_500_000_000_000_000 }),
        NOW,
        WALL,
    );
    assert_eq!(v.len(), 2);
    assert_eq!(v[0].message, "Cluster 'name-a' metering error 5.0% exceeds threshold 1.2%");

    let v = evaluate(
        &reg,
        &policy(PolicyKind::CarbonIntensityPreference { max_mg_per_kwh: 300_000 }),
        NOW,
        WALL,
    );
    assert_eq!(v.len(), 1);
    assert_eq!(
        v[0].message,
        "Cluster 'name-a' carbon intensity 400 gCO2/kWh exceeds preference 300"
    );

    let v = evaluate(
        &reg,
        &policy(PolicyKind::ClusterStaleness { max_stale_secs: 120 }),
        NOW + 200 * SECOND,
        WALL,
    );
    // Stale clusters too, highest power first
    assert_eq!(v.len(), 2);
    assert_eq!(v[0].message, "Cluster 'name-b' last reported 200s ago (threshold: 120s)");
    assert_eq!((v[0].current_value, v[0].threshold), (200, 120));
}

#[test]
fn policies_by_default() {
    let p = default_policies();
    assert_eq!(p.len(), 2);
    assert_eq!((p[0].name.as_str(), p[1].name.as_str()), ("metering-quality", "cluster-staleness"));
    assert!(evaluate(&two_clusters(), &p, NOW + 120 * SECOND, WALL).is_empty());
    assert_eq!(evaluate(&two_clusters(), &p, NOW + 121 * SECOND, WALL).len(), 2);
}
