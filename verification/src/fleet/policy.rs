//! Policy engine: enforces power budgets and carbon policies across the fleet.
//!
//! Policies are evaluated periodically. Each violation says which policy was broken, by what and
//! by how much.

use crate::arith::{nearest, round_to_nearest};
use crate::fleet::registry::{
    active, by_power, is_cluster_view, law_team_is_known, lemma_team_power, owned_by, power_sum,
    ranked_clusters, seconds_ago, ClusterRegistry, ClusterReport, ClusterState, ClusterView,
    FleetSummary, NamespaceSummary,
};
use crate::k8s::group::{group_index, view_all};
use crate::sums::{lemma_sum_filter, lemma_sum_same, lemma_sum_sorted, sum_of};
use crate::text::{decimal, decimal_text, joined, same, wide_decimal};
use vstd::prelude::*;

verus! {

/// A policy definition.
#[derive(Debug)]
pub struct Policy {
    pub name: String,
    pub kind: PolicyKind,
    pub severity: Severity,
    pub enabled: bool,
}

#[derive(Debug)]
pub enum PolicyKind {
    /// Team-wide power budget in microwatts across all clusters
    TeamPowerBudget { team: String, max_uw: u64 },
    /// Namespace carbon budget in micrograms of CO2 equivalent per month
    NamespaceCarbonBudget { namespace: String, max_ug_per_month: u64 },
    /// Cluster-level metering quality threshold in units of 10⁻¹⁸
    MeteringQuality { max_error_ratio_atto: u128 },
    /// Prefer clusters below a carbon intensity threshold in milligrams per kWh
    CarbonIntensityPreference { max_mg_per_kwh: u32 },
    /// Alert if a cluster hasn't reported within a threshold
    ClusterStaleness { max_stale_secs: u64 },
}

#[derive(Clone, Copy, Debug, PartialEq, Eq, Structural)]
pub enum Severity {
    Info,
    Warning,
    Critical,
}

/// Result of evaluating a policy. The value and the threshold are in the unit of the policy's own
/// threshold.
#[derive(Debug)]
pub struct PolicyViolation {
    pub policy_name: String,
    pub severity: Severity,
    pub message: String,
    pub current_value: u128,
    pub threshold: u128,
    /// Nanoseconds since the Unix epoch
    pub timestamp_ns: u64,
}

/// What a [`PolicyViolation`] stands for.
pub struct Violation {
    pub policy_name: Seq<char>,
    pub severity: Severity,
    pub message: Seq<char>,
    pub current_value: int,
    pub threshold: int,
    pub timestamp_ns: u64,
}

impl View for PolicyViolation {
    type V = Violation;

    open spec fn view(&self) -> Violation {
        Violation {
            policy_name: self.policy_name@,
            severity: self.severity,
            message: self.message@,
            current_value: self.current_value as int,
            threshold: self.threshold as int,
            timestamp_ns: self.timestamp_ns,
        }
    }
}

/// A value over a threshold.
#[derive(Debug)]
pub struct Excess {
    pub message: String,
    pub current_value: u128,
    pub threshold: u128,
}

/// What an [`Excess`] stands for.
pub struct ExcessView {
    pub message: Seq<char>,
    pub current_value: int,
    pub threshold: int,
}

impl View for Excess {
    type V = ExcessView;

    open spec fn view(&self) -> ExcessView {
        ExcessView {
            message: self.message@,
            current_value: self.current_value as int,
            threshold: self.threshold as int,
        }
    }
}

// ─── Thresholds ─────────────────────────────────────────────────

/// The index of the first namespace of a name, or the number of namespaces.
pub open spec fn first_named(v: Seq<NamespaceSummary>, name: Seq<char>) -> int
    decreases v.len(),
{
    if v.len() == 0 || v[0].namespace@ == name {
        0
    } else {
        1 + first_named(v.drop_first(), name)
    }
}

/// What a power emits in a month of 30.44 days, in hundred-millionths of a microgram.
pub open spec fn month_of(uw: u64, mg_per_kwh: u32) -> int {
    uw * mg_per_kwh * 73_056
}

/// A ratio in units of 10⁻¹⁸ as a percentage with one decimal.
pub open spec fn percent_text(atto: int) -> Seq<char> {
    decimal(nearest(atto, 1_000_000_000_000_000) / 10) + "."@ + decimal(
        nearest(atto, 1_000_000_000_000_000) % 10,
    ) + "%"@
}

/// What a team's power is over its budget.
pub open spec fn team_excess(team: Seq<char>, uw: int, max_uw: u64) -> Option<ExcessView> {
    if uw > max_uw {
        Some(
            ExcessView {
                message: "Team '"@ + team + "' power usage "@ + decimal(nearest(uw, 1_000_000))
                    + "W exceeds budget "@ + decimal(nearest(max_uw as int, 1_000_000)) + "W"@,
                current_value: uw,
                threshold: max_uw as int,
            },
        )
    } else {
        None
    }
}

/// What a namespace's projected emissions in a cluster are over their budget, rounded up to whole
/// micrograms.
pub open spec fn carbon_excess(r: ClusterReport, namespace: Seq<char>, max_ug: u64) -> Option<
    ExcessView,
> {
    let k = first_named(r.namespaces@, namespace);
    if k < r.namespaces@.len() {
        let month = month_of(r.namespaces@[k].total_uw, r.carbon.intensity_mg_per_kwh);
        if month > max_ug * 100_000_000 {
            Some(
                ExcessView {
                    message: "Namespace '"@ + namespace + "' in cluster '"@ + r.cluster_name@
                        + "' projected at "@ + decimal(nearest(month, 100_000_000_000_000))
                        + " gCO2/month (budget: "@ + decimal(nearest(max_ug as int, 1_000_000))
                        + ")"@,
                    current_value: (month + 99_999_999) / 100_000_000,
                    threshold: max_ug as int,
                },
            )
        } else {
            None
        }
    } else {
        None
    }
}

/// What a cluster's metering error is over its threshold.
pub open spec fn quality_excess(r: ClusterReport, max_atto: u128) -> Option<ExcessView> {
    if r.avg_error_ratio_atto > max_atto {
        Some(
            ExcessView {
                message: "Cluster '"@ + r.cluster_name@ + "' metering error "@ + percent_text(
                    r.avg_error_ratio_atto as int,
                ) + " exceeds threshold "@ + percent_text(max_atto as int),
                current_value: r.avg_error_ratio_atto as int,
                threshold: max_atto as int,
            },
        )
    } else {
        None
    }
}

/// What a cluster's carbon intensity is over the preference.
pub open spec fn intensity_excess(r: ClusterReport, max_mg: u32) -> Option<ExcessView> {
    if r.carbon.intensity_mg_per_kwh > max_mg {
        Some(
            ExcessView {
                message: "Cluster '"@ + r.cluster_name@ + "' carbon intensity "@ + decimal(
                    nearest(r.carbon.intensity_mg_per_kwh as int, 1_000),
                ) + " gCO2/kWh exceeds preference "@ + decimal(nearest(max_mg as int, 1_000)),
                current_value: r.carbon.intensity_mg_per_kwh as int,
                threshold: max_mg as int,
            },
        )
    } else {
        None
    }
}

/// What the time since a cluster's last report is over its threshold.
pub open spec fn staleness_excess(s: ClusterState, max_secs: u64, now: u64) -> Option<ExcessView> {
    if seconds_ago(s, now) > max_secs {
        Some(
            ExcessView {
                message: "Cluster '"@ + s.latest_report.cluster_name@ + "' last reported "@
                    + decimal(seconds_ago(s, now)) + "s ago (threshold: "@ + decimal(
                    max_secs as int,
                ) + "s)"@,
                current_value: seconds_ago(s, now),
                threshold: max_secs as int,
            },
        )
    } else {
        None
    }
}

/// What a cluster is over a threshold of a policy on clusters.
pub open spec fn cluster_excess(kind: PolicyKind, s: ClusterState, now: u64) -> Option<
    ExcessView,
> {
    match kind {
        PolicyKind::TeamPowerBudget { team, max_uw } => None,
        PolicyKind::NamespaceCarbonBudget { namespace, max_ug_per_month } => carbon_excess(
            s.latest_report,
            namespace@,
            max_ug_per_month,
        ),
        PolicyKind::MeteringQuality { max_error_ratio_atto } => quality_excess(
            s.latest_report,
            max_error_ratio_atto,
        ),
        PolicyKind::CarbonIntensityPreference { max_mg_per_kwh } => intensity_excess(
            s.latest_report,
            max_mg_per_kwh,
        ),
        PolicyKind::ClusterStaleness { max_stale_secs } => staleness_excess(
            s,
            max_stale_secs,
            now,
        ),
    }
}

/// What clusters are over a threshold, in their order.
pub open spec fn cluster_excesses(
    kind: PolicyKind,
    clusters: Seq<(String, ClusterState)>,
    now: u64,
) -> Seq<ExcessView>
    decreases clusters.len(),
{
    if clusters.len() == 0 {
        Seq::empty()
    } else {
        let before = cluster_excesses(kind, clusters.drop_last(), now);
        match cluster_excess(kind, clusters.last().1, now) {
            Some(e) => before.push(e),
            None => before,
        }
    }
}

/// Everything in the fleet that is over a threshold. Staleness is held against all registered
/// clusters, highest power first; the other policies on clusters against the active ones.
pub open spec fn excesses(registry: ClusterRegistry, kind: PolicyKind, now: u64) -> Seq<
    ExcessView,
> {
    match kind {
        PolicyKind::TeamPowerBudget { team, max_uw } => {
            let k = group_index(registry.teams(), team@);
            if k < 0 {
                Seq::empty()
            } else {
                match team_excess(team@, power_sum(registry.teams()[k].1), max_uw) {
                    Some(e) => seq![e],
                    None => Seq::empty(),
                }
            }
        },
        PolicyKind::ClusterStaleness { max_stale_secs } => cluster_excesses(
            kind,
            ranked_clusters(registry.clusters@),
            now,
        ),
        _ => cluster_excesses(kind, registry.active_list(now), now),
    }
}

/// The violation of a policy.
pub open spec fn violation_of(policy: Policy, e: ExcessView, wall: u64) -> Violation {
    Violation {
        policy_name: policy.name@,
        severity: policy.severity,
        message: e.message,
        current_value: e.current_value,
        threshold: e.threshold,
        timestamp_ns: wall,
    }
}

/// The violations of one policy; a policy that is not enabled has none.
pub open spec fn policy_violations(
    registry: ClusterRegistry,
    policy: Policy,
    now: u64,
    wall: u64,
) -> Seq<Violation> {
    if policy.enabled {
        excesses(registry, policy.kind, now).map_values(
            |e: ExcessView| violation_of(policy, e, wall),
        )
    } else {
        Seq::empty()
    }
}

/// The violations of all policies, policy by policy.
pub open spec fn violations(
    registry: ClusterRegistry,
    policies: Seq<Policy>,
    now: u64,
    wall: u64,
) -> Seq<Violation>
    decreases policies.len(),
{
    if policies.len() == 0 {
        Seq::empty()
    } else {
        violations(registry, policies.drop_last(), now, wall) + policy_violations(
            registry,
            policies.last(),
            now,
            wall,
        )
    }
}

// ─── Evaluation ─────────────────────────────────────────────────

fn write_percent(atto: u128) -> (s: String)
    ensures
        s@ == percent_text(atto as int),
{
    let tenths: u128 = round_to_nearest(atto, 1_000_000_000_000_000);
    joined(wide_decimal(tenths / 10).as_str(), ".").concat(
        wide_decimal(tenths % 10).as_str(),
    ).concat("%")
}

/// Writes an amount of small units as the nearest number of large ones.
fn write_nearest(n: u128, d: u128) -> (s: String)
    requires
        0 < d <= 100_000_000_000_000,
    ensures
        s@ == decimal(nearest(n as int, d as int)),
{
    wide_decimal(round_to_nearest(n, d))
}

/// Whether an option of an excess is the one that is stated.
spec fn same_excess(e: Option<Excess>, v: Option<ExcessView>) -> bool {
    match e {
        Some(x) => v == Some(x@),
        None => v is None,
    }
}

fn check_team(team: &str, uw: u128, max_uw: u64) -> (r: Option<Excess>)
    ensures
        same_excess(r, team_excess(team@, uw as int, max_uw)),
{
    if uw > max_uw as u128 {
        let message: String = joined("Team '", team).concat("' power usage ").concat(
            write_nearest(uw, 1_000_000).as_str(),
        ).concat("W exceeds budget ").concat(
            write_nearest(max_uw as u128, 1_000_000).as_str(),
        ).concat("W");
        Some(Excess { message, current_value: uw, threshold: max_uw as u128 })
    } else {
        None
    }
}

fn find_namespace(v: &Vec<NamespaceSummary>, name: &str) -> (r: usize)
    ensures
        r == first_named(v@, name@),
        r <= v@.len(),
{
    let mut i: usize = 0;
    assert(v@.skip(0) =~= v@);
    while i < v.len()
        invariant
            i <= v@.len(),
            first_named(v@, name@) == i + first_named(v@.skip(i as int), name@),
        decreases v@.len() - i,
    {
        if same(v[i].namespace.as_str(), name) {
            return i;
        }
        assert(v@.skip(i as int).drop_first() =~= v@.skip(i + 1));
        i = i + 1;
    }
    i
}

fn check_carbon(r: &ClusterReport, namespace: &str, max_ug: u64) -> (e: Option<Excess>)
    ensures
        same_excess(e, carbon_excess(*r, namespace@, max_ug)),
{
    let k: usize = find_namespace(&r.namespaces, namespace);
    if k >= r.namespaces.len() {
        return None;
    }
    let uw: u64 = r.namespaces[k].total_uw;
    let intensity: u32 = r.carbon.intensity_mg_per_kwh;
    assert(0 <= uw * intensity <= 0xffff_ffff_ffff_ffff * 0xffff_ffff) by (nonlinear_arith)
        requires
            0 <= uw <= 0xffff_ffff_ffff_ffff,
            0 <= intensity <= 0xffff_ffff,
    ;
    let month: u128 = uw as u128 * intensity as u128 * 73_056;
    if month > max_ug as u128 * 100_000_000 {
        let message: String = joined("Namespace '", namespace).concat("' in cluster '").concat(
            r.cluster_name.as_str(),
        ).concat("' projected at ").concat(
            write_nearest(month, 100_000_000_000_000).as_str(),
        ).concat(" gCO2/month (budget: ").concat(
            write_nearest(max_ug as u128, 1_000_000).as_str(),
        ).concat(")");
        Some(
            Excess {
                message,
                current_value: (month + 99_999_999) / 100_000_000,
                threshold: max_ug as u128,
            },
        )
    } else {
        None
    }
}

fn check_quality(r: &ClusterReport, max_atto: u128) -> (e: Option<Excess>)
    ensures
        same_excess(e, quality_excess(*r, max_atto)),
{
    if r.avg_error_ratio_atto > max_atto {
        let message: String = joined("Cluster '", r.cluster_name.as_str()).concat(
            "' metering error ",
        ).concat(write_percent(r.avg_error_ratio_atto).as_str()).concat(
            " exceeds threshold ",
        ).concat(write_percent(max_atto).as_str());
        Some(
            Excess {
                message,
                current_value: r.avg_error_ratio_atto,
                threshold: max_atto,
            },
        )
    } else {
        None
    }
}

fn check_intensity(r: &ClusterReport, max_mg: u32) -> (e: Option<Excess>)
    ensures
        same_excess(e, intensity_excess(*r, max_mg)),
{
    let intensity: u32 = r.carbon.intensity_mg_per_kwh;
    if intensity > max_mg {
        let message: String = joined("Cluster '", r.cluster_name.as_str()).concat(
            "' carbon intensity ",
        ).concat(write_nearest(intensity as u128, 1_000).as_str()).concat(
            " gCO2/kWh exceeds preference ",
        ).concat(write_nearest(max_mg as u128, 1_000).as_str());
        Some(
            Excess { message, current_value: intensity as u128, threshold: max_mg as u128 },
        )
    } else {
        None
    }
}

fn check_staleness(v: &ClusterView, max_secs: u64, s: Ghost<ClusterState>, now: Ghost<u64>) -> (e:
    Option<Excess>)
    requires
        is_cluster_view(*v, s@, now@),
    ensures
        same_excess(e, staleness_excess(s@, max_secs, now@)),
{
    if v.last_seen_secs_ago > max_secs {
        let message: String = joined("Cluster '", v.cluster_name.as_str()).concat(
            "' last reported ",
        ).concat(decimal_text(v.last_seen_secs_ago).as_str()).concat(
            "s ago (threshold: ",
        ).concat(decimal_text(max_secs).as_str()).concat("s)");
        Some(
            Excess {
                message,
                current_value: v.last_seen_secs_ago as u128,
                threshold: max_secs as u128,
            },
        )
    } else {
        None
    }
}

/// What active clusters are over a threshold.
fn check_active(registry: &ClusterRegistry, kind: &PolicyKind, now: u64) -> (r: Vec<Excess>)
    requires
        !(kind is TeamPowerBudget),
        !(kind is ClusterStaleness),
    ensures
        view_all(r@) == cluster_excesses(*kind, registry.active_list(now), now),
{
    let reports: Vec<&ClusterReport> = registry.active_clusters(now);
    let ghost list = registry.active_list(now);
    let mut r: Vec<Excess> = Vec::new();
    let mut i: usize = 0;
    assert(view_all(r@) =~= cluster_excesses(*kind, list.take(0), now));
    while i < reports.len()
        invariant
            i <= reports@.len() == list.len(),
            !(kind is TeamPowerBudget),
            !(kind is ClusterStaleness),
            forall|j: int|
                0 <= j < reports@.len() ==> *(#[trigger] reports@[j]) == list[j].1.latest_report,
            view_all(r@) == cluster_excesses(*kind, list.take(i as int), now),
        decreases reports@.len() - i,
    {
        let report: &ClusterReport = reports[i];
        assert(*reports@[i as int] == list[i as int].1.latest_report);
        assert(list.take(i + 1).drop_last() =~= list.take(i as int));
        let found: Option<Excess> = match kind {
            PolicyKind::NamespaceCarbonBudget { namespace, max_ug_per_month } => check_carbon(
                report,
                namespace.as_str(),
                *max_ug_per_month,
            ),
            PolicyKind::MeteringQuality { max_error_ratio_atto } => check_quality(
                report,
                *max_error_ratio_atto,
            ),
            PolicyKind::CarbonIntensityPreference { max_mg_per_kwh } => check_intensity(
                report,
                *max_mg_per_kwh,
            ),
            _ => None,
        };
        assert(same_excess(found, cluster_excess(*kind, list[i as int].1, now)));
        push_excess(&mut r, found);
        i = i + 1;
    }
    assert(list.take(i as int) =~= list);
    r
}

/// What registered clusters are over a staleness threshold.
fn check_registered(registry: &ClusterRegistry, kind: &PolicyKind, max_secs: u64, now: u64) -> (r:
    Vec<Excess>)
    requires
        registry.countable(),
        *kind == (PolicyKind::ClusterStaleness { max_stale_secs: max_secs }),
    ensures
        view_all(r@) == cluster_excesses(*kind, ranked_clusters(registry.clusters@), now),
{
    let summary: FleetSummary = registry.fleet_summary(now);
    let ghost list = ranked_clusters(registry.clusters@);
    let mut r: Vec<Excess> = Vec::new();
    let mut i: usize = 0;
    assert(view_all(r@) =~= cluster_excesses(*kind, list.take(0), now));
    while i < summary.clusters.len()
        invariant
            i <= summary.clusters@.len() == list.len(),
            *kind == (PolicyKind::ClusterStaleness { max_stale_secs: max_secs }),
            forall|j: int|
                0 <= j < list.len() ==> is_cluster_view(
                    #[trigger] summary.clusters@[j],
                    list[j].1,
                    now,
                ),
            view_all(r@) == cluster_excesses(*kind, list.take(i as int), now),
        decreases list.len() - i,
    {
        assert(list.take(i + 1).drop_last() =~= list.take(i as int));
        assert(is_cluster_view(summary.clusters@[i as int], list[i as int].1, now));
        let found: Option<Excess> = check_staleness(
            &summary.clusters[i],
            max_secs,
            Ghost(list[i as int].1),
            Ghost(now),
        );
        push_excess(&mut r, found);
        i = i + 1;
    }
    assert(list.take(i as int) =~= list);
    r
}

fn push_excess(v: &mut Vec<Excess>, e: Option<Excess>)
    ensures
        view_all(final(v)@) == match e {
            Some(x) => view_all(old(v)@).push(x@),
            None => view_all(old(v)@),
        },
{
    if let Some(x) = e {
        v.push(x);
        assert(view_all(v@) =~= view_all(old(v)@).push(x@));
    }
}

/// What is over a policy's threshold.
fn check(registry: &ClusterRegistry, kind: &PolicyKind, now: u64) -> (r: Vec<Excess>)
    requires
        registry.countable(),
    ensures
        view_all(r@) == excesses(*registry, *kind, now),
{
    match kind {
        PolicyKind::TeamPowerBudget { team, max_uw } => {
            let mut r: Vec<Excess> = Vec::new();
            assert(view_all(r@) =~= Seq::empty());
            match registry.team_view(team.as_str()) {
                Some(view) => {
                    push_excess(&mut r, check_team(team.as_str(), view.total_uw, *max_uw));
                },
                None => {},
            }
            assert(view_all(r@) =~= excesses(*registry, *kind, now));
            r
        },
        PolicyKind::ClusterStaleness { max_stale_secs } => check_registered(
            registry,
            kind,
            *max_stale_secs,
            now,
        ),
        _ => check_active(registry, kind, now),
    }
}

/// Evaluates all policies against the fleet's state at `now` on the monotonic clock; violations
/// are dated `wall`.
pub fn evaluate(registry: &ClusterRegistry, policies: &Vec<Policy>, now: u64, wall: u64) -> (r: Vec<
    PolicyViolation,
>)
    requires
        registry.countable(),
    ensures
        view_all(r@) == violations(*registry, policies@, now, wall),
{
    let mut r: Vec<PolicyViolation> = Vec::new();
    let mut i: usize = 0;
    assert(view_all(r@) =~= violations(*registry, policies@.take(0), now, wall));
    while i < policies.len()
        invariant
            i <= policies@.len(),
            registry.countable(),
            view_all(r@) == violations(*registry, policies@.take(i as int), now, wall),
        decreases policies@.len() - i,
    {
        let policy: &Policy = &policies[i];
        assert(policies@.take(i + 1).drop_last() =~= policies@.take(i as int));
        let ghost before = view_all(r@);
        if policy.enabled {
            let found: Vec<Excess> = check(registry, &policy.kind, now);
            let ghost all = view_all(found@);
            let ghost ours = all.map_values(|e: ExcessView| violation_of(*policy, e, wall));
            assert(before + ours.take(0) =~= before);
            for e in it: found.into_iter()
                invariant
                    it.seq() == found@,
                    all == view_all(found@),
                    ours == all.map_values(|e: ExcessView| violation_of(*policy, e, wall)),
                    view_all(r@) == before + ours.take(it.index() as int),
            {
                let ghost j = it.index() as int;
                let ghost old_r = r@;
                assert(ours[j] == violation_of(*policy, e@, wall));
                r.push(
                    PolicyViolation {
                        policy_name: policy.name.clone(),
                        severity: policy.severity,
                        message: e.message,
                        current_value: e.current_value,
                        threshold: e.threshold,
                        timestamp_ns: wall,
                    },
                );
                assert(view_all(r@) =~= view_all(old_r).push(ours[j]));
                assert(before + ours.take(j + 1) =~= (before + ours.take(j)).push(ours[j]));
            }
            assert(ours.take(ours.len() as int) =~= ours);
        } else {
            assert(before + Seq::<Violation>::empty() =~= before);
        }
        i = i + 1;
    }
    assert(policies@.take(i as int) =~= policies@);
    r
}

/// The policies that are in force where nothing else is configured.
pub fn default_policies() -> (r: Vec<Policy>)
    ensures
        r@.len() == 2,
        r@[0].name@ == "metering-quality"@,
        r@[0].kind == (PolicyKind::MeteringQuality { max_error_ratio_atto: 200_000_000_000_000_000 }),
        r@[0].severity == Severity::Warning,
        r@[0].enabled,
        r@[1].name@ == "cluster-staleness"@,
        r@[1].kind == (PolicyKind::ClusterStaleness { max_stale_secs: 120 }),
        r@[1].severity == Severity::Critical,
        r@[1].enabled,
{
    vec![
        Policy {
            name: "metering-quality".to_owned(),
            kind: PolicyKind::MeteringQuality { max_error_ratio_atto: 200_000_000_000_000_000 },
            severity: Severity::Warning,
            enabled: true,
        },
        Policy {
            name: "cluster-staleness".to_owned(),
            kind: PolicyKind::ClusterStaleness { max_stale_secs: 120 },
            severity: Severity::Critical,
            enabled: true,
        },
    ]
}

// ─── Laws ───────────────────────────────────────────────────────

proof fn lemma_cluster_excesses(
    kind: PolicyKind,
    clusters: Seq<(String, ClusterState)>,
    now: u64,
)
    ensures
        forall|i: int|
            0 <= i < cluster_excesses(kind, clusters, now).len() ==> (
            #[trigger] cluster_excesses(kind, clusters, now)[i]).current_value
                > cluster_excesses(kind, clusters, now)[i].threshold,
    decreases clusters.len(),
{
    if clusters.len() > 0 {
        lemma_cluster_excesses(kind, clusters.drop_last(), now);
        let before = cluster_excesses(kind, clusters.drop_last(), now);
        let after = cluster_excesses(kind, clusters, now);
        assert forall|i: int| 0 <= i < after.len() implies (#[trigger] after[i]).current_value
            > after[i].threshold by {
            if i < before.len() {
                assert(after[i] == before[i]);
            }
        }
    }
}

/// Every violation belongs to an enabled policy, carries its severity and the time of the
/// evaluation, and shows a value above the threshold.
pub proof fn law_violations(
    registry: ClusterRegistry,
    policies: Seq<Policy>,
    now: u64,
    wall: u64,
    i: int,
)
    requires
        0 <= i < violations(registry, policies, now, wall).len(),
    ensures
        exists|k: int|
            0 <= k < policies.len() && (#[trigger] policies[k]).enabled && policies[k].name@
                == violations(registry, policies, now, wall)[i].policy_name && policies[k].severity
                == violations(registry, policies, now, wall)[i].severity,
        violations(registry, policies, now, wall)[i].timestamp_ns == wall,
        violations(registry, policies, now, wall)[i].current_value > violations(
            registry,
            policies,
            now,
            wall,
        )[i].threshold,
    decreases policies.len(),
{
    let before = violations(registry, policies.drop_last(), now, wall);
    let last = policies.last();
    if i < before.len() {
        law_violations(registry, policies.drop_last(), now, wall, i);
        let k = choose|k: int|
            0 <= k < policies.drop_last().len() && (#[trigger] policies.drop_last()[k]).enabled
                && policies.drop_last()[k].name@ == before[i].policy_name
                && policies.drop_last()[k].severity == before[i].severity;
        assert(policies[k].enabled);
    } else {
        assert(policies[policies.len() - 1].enabled);
        let found = excesses(registry, last.kind, now);
        lemma_cluster_excesses(last.kind, ranked_clusters(registry.clusters@), now);
        lemma_cluster_excesses(last.kind, registry.active_list(now), now);
        let e = found[i - before.len()];
        assert(e.current_value > e.threshold);
    }
}

/// Clusters that report in time, whose carbon is within bounds and whose metering is good break
/// no policy on clusters.
pub proof fn law_within_thresholds(
    kind: PolicyKind,
    clusters: Seq<(String, ClusterState)>,
    now: u64,
)
    requires
        forall|i: int|
            0 <= i < clusters.len() ==> cluster_excess(kind, (#[trigger] clusters[i]).1, now)
                is None,
    ensures
        cluster_excesses(kind, clusters, now).len() == 0,
    decreases clusters.len(),
{
    if clusters.len() > 0 {
        assert(cluster_excess(kind, clusters[clusters.len() - 1].1, now) is None);
        assert forall|i: int| 0 <= i < clusters.drop_last().len() implies cluster_excess(
            kind,
            (#[trigger] clusters.drop_last()[i]).1,
            now,
        ) is None by {
            assert(cluster_excess(kind, clusters[i].1, now) is None);
        }
        law_within_thresholds(kind, clusters.drop_last(), now);
    }
}

// ─── What breaks a policy ───────────────────────────────────────

/// Whether a cluster breaks a policy on clusters: its metering error, its carbon intensity or the
/// whole seconds since its last report are over the threshold, or what the namespace emits in a
/// month of 30.44 days of 24 hours is over the budget.
pub open spec fn breaks(kind: PolicyKind, s: ClusterState, now: u64) -> bool {
    let r = s.latest_report;
    match kind {
        PolicyKind::TeamPowerBudget { team, max_uw } => false,
        PolicyKind::NamespaceCarbonBudget { namespace, max_ug_per_month } => exists|k: int|
            {
                &&& 0 <= k < r.namespaces@.len()
                &&& (#[trigger] r.namespaces@[k]).namespace@ == namespace@
                &&& forall|j: int|
                    0 <= j < k ==> (#[trigger] r.namespaces@[j]).namespace@ != namespace@
                &&& r.namespaces@[k].total_uw * r.carbon.intensity_mg_per_kwh * 24 * 3_044
                    > max_ug_per_month * 100_000_000
            },
        PolicyKind::MeteringQuality { max_error_ratio_atto } => r.avg_error_ratio_atto
            > max_error_ratio_atto,
        PolicyKind::CarbonIntensityPreference { max_mg_per_kwh } => r.carbon.intensity_mg_per_kwh
            > max_mg_per_kwh,
        PolicyKind::ClusterStaleness { max_stale_secs } => now - s.received_at >= (max_stale_secs
            + 1) * 1_000_000_000,
    }
}

proof fn lemma_first_named(v: Seq<NamespaceSummary>, name: Seq<char>)
    ensures
        0 <= first_named(v, name) <= v.len(),
        first_named(v, name) < v.len() ==> v[first_named(v, name)].namespace@ == name,
        forall|j: int| 0 <= j < first_named(v, name) ==> (#[trigger] v[j]).namespace@ != name,
    decreases v.len(),
{
    if v.len() > 0 && v[0].namespace@ != name {
        lemma_first_named(v.drop_first(), name);
        assert forall|j: int| 0 <= j < first_named(v, name) implies (#[trigger] v[j]).namespace@
            != name by {
            if j > 0 {
                assert(v.drop_first()[j - 1] == v[j]);
            }
        }
    }
}

/// A cluster is held over a threshold if and only if it breaks the policy; what is told is its
/// value and the policy's threshold. Emissions of a part of a microgram count as a whole one.
pub proof fn law_threshold_decides(kind: PolicyKind, s: ClusterState, now: u64)
    ensures
        cluster_excess(kind, s, now) is Some <==> breaks(kind, s, now),
        cluster_excess(kind, s, now) matches Some(e) ==> {
            let r = s.latest_report;
            match kind {
                PolicyKind::TeamPowerBudget { team, max_uw } => false,
                PolicyKind::NamespaceCarbonBudget { namespace, max_ug_per_month } => {
                    &&& e.threshold == max_ug_per_month
                    &&& forall|k: int|
                        0 <= k < r.namespaces@.len() && (#[trigger] r.namespaces@[k]).namespace@
                            == namespace@ && (forall|j: int|
                            0 <= j < k ==> (#[trigger] r.namespaces@[j]).namespace@ != namespace@)
                            ==> (e.current_value - 1) * 100_000_000 < r.namespaces@[k].total_uw
                            * r.carbon.intensity_mg_per_kwh * 24 * 3_044 <= e.current_value
                            * 100_000_000
                },
                PolicyKind::MeteringQuality { max_error_ratio_atto } => e.current_value
                    == r.avg_error_ratio_atto && e.threshold == max_error_ratio_atto,
                PolicyKind::CarbonIntensityPreference { max_mg_per_kwh } => e.current_value
                    == r.carbon.intensity_mg_per_kwh && e.threshold == max_mg_per_kwh,
                PolicyKind::ClusterStaleness { max_stale_secs } => e.threshold == max_stale_secs
                    && e.current_value * 1_000_000_000 <= now - s.received_at < (e.current_value
                    + 1) * 1_000_000_000,
            }
        },
{
    let r = s.latest_report;
    if let PolicyKind::NamespaceCarbonBudget { namespace, max_ug_per_month } = kind {
        let v = r.namespaces@;
        let f = first_named(v, namespace@);
        lemma_first_named(v, namespace@);
        assert forall|k: int|
            0 <= k < v.len() && (#[trigger] v[k]).namespace@ == namespace@ && (forall|j: int|
                0 <= j < k ==> (#[trigger] v[j]).namespace@ != namespace@) implies k == f by {
            if f < k {
                assert(v[f].namespace@ == namespace@);
            }
        }
        if f < v.len() {
            let a = v[f].total_uw * r.carbon.intensity_mg_per_kwh;
            assert(a * 24 * 3_044 == a * 73_056);
            assert(v[f].namespace@ == namespace@);
        }
    }
}

/// How many clusters count, and break a policy.
pub open spec fn breaking(
    kind: PolicyKind,
    now: u64,
    counts: spec_fn(ClusterState) -> bool,
) -> spec_fn((String, ClusterState)) -> int {
    |e: (String, ClusterState)|
        if counts(e.1) && breaks(kind, e.1, now) {
            1
        } else {
            0
        }
}

proof fn lemma_breaking(kind: PolicyKind, clusters: Seq<(String, ClusterState)>, now: u64)
    ensures
        cluster_excesses(kind, clusters, now).len() == sum_of(
            clusters,
            breaking(kind, now, |s: ClusterState| true),
        ),
    decreases clusters.len(),
{
    if clusters.len() > 0 {
        lemma_breaking(kind, clusters.drop_last(), now);
        law_threshold_decides(kind, clusters.last().1, now);
    }
}

/// A policy on clusters is violated as often as there are clusters that break it. Staleness is
/// held against every registered cluster; the others only against one whose last report is not
/// older than the registry's threshold for that.
pub proof fn law_violations_counted(
    registry: ClusterRegistry,
    policy: Policy,
    now: u64,
    wall: u64,
)
    requires
        policy.enabled,
        !(policy.kind is TeamPowerBudget),
        forall|i: int|
            0 <= i < registry.clusters@.len() ==> (#[trigger] registry.clusters@[i]).1.received_at
                <= now,
    ensures
        policy.kind is ClusterStaleness ==> policy_violations(registry, policy, now, wall).len()
            == sum_of(
            registry.clusters@,
            breaking(policy.kind, now, |s: ClusterState| true),
        ),
        !(policy.kind is ClusterStaleness) ==> policy_violations(registry, policy, now, wall).len()
            == sum_of(
            registry.clusters@,
            breaking(
                policy.kind,
                now,
                |s: ClusterState| now - s.received_at < registry.staleness_threshold,
            ),
        ),
{
    let kind = policy.kind;
    let c = registry.clusters@;
    let all = breaking(kind, now, |s: ClusterState| true);
    if kind is ClusterStaleness {
        lemma_breaking(kind, ranked_clusters(c), now);
        lemma_sum_sorted(c, |e: (String, ClusterState)| by_power(e), all);
    } else {
        lemma_breaking(kind, registry.active_list(now), now);
        let p = |e: (String, ClusterState)| active(e.1, now, registry.staleness_threshold);
        let h = breaking(
            kind,
            now,
            |s: ClusterState| active(s, now, registry.staleness_threshold),
        );
        lemma_sum_filter(c, p, all, h);
        let g = breaking(
            kind,
            now,
            |s: ClusterState| now - s.received_at < registry.staleness_threshold,
        );
        assert forall|i: int| 0 <= i < c.len() implies h(#[trigger] c[i]) == g(c[i]) by {
            assert(c[i].1.received_at <= now);
        }
        lemma_sum_same(c, h, c, g);
    }
}

/// A team's budget is broken if and only if all that its namespaces use in all clusters is over
/// it, and then once; the value told is that power and the threshold told is the budget.
pub proof fn law_team_budget(registry: ClusterRegistry, policy: Policy, now: u64, wall: u64)
    requires
        policy.enabled,
        policy.kind is TeamPowerBudget,
    ensures
        ({
            let found = policy_violations(registry, policy, now, wall);
            let uw = owned_by(
                registry,
                policy.kind->team@,
                |r: ClusterReport, n: NamespaceSummary| n.total_uw as int,
            );
            if uw > policy.kind->max_uw {
                found.len() == 1 && found[0].current_value == uw && found[0].threshold
                    == policy.kind->max_uw
            } else {
                found.len() == 0
            }
        }),
{
    let team = policy.kind->team@;
    law_team_is_known(registry, team);
    lemma_team_power(registry, team);
}

/// A policy that is not enabled is never violated, and violations of policies add up.
pub proof fn law_policies_add_up(
    registry: ClusterRegistry,
    policies: Seq<Policy>,
    now: u64,
    wall: u64,
)
    ensures
        forall|p: Policy|
            !p.enabled ==> (#[trigger] policy_violations(registry, p, now, wall)).len() == 0,
        violations(registry, policies, now, wall).len() == sum_of(
            policies,
            |p: Policy|
                if p.enabled {
                    policy_violations(registry, p, now, wall).len() as int
                } else {
                    0
                },
        ),
    decreases policies.len(),
{
    if policies.len() > 0 {
        law_policies_add_up(registry, policies.drop_last(), now, wall);
        let f = |p: Policy|
            if p.enabled {
                policy_violations(registry, p, now, wall).len() as int
            } else {
                0
            };
        lemma_sum_same(policies.drop_last(), f, policies.drop_last(), f);
    }
}

} // verus!
