//! Cluster registry: maintains the fleet-wide view of all clusters.

use crate::k8s::group::{
    add_to_group, group_index, group_views, groups, in_group, law_group_holds_its_own,
    law_groups_conserve, lemma_group_index, sum_over, sum_over_groups, view_all,
};
use crate::sort::{
    insert_ranked, law_sorted_by, lemma_place_by, lemma_same_place, place, place_by, sorted_by, Ranked,
};
use crate::sums::{lemma_sum_concat, lemma_sum_filter, lemma_sum_push, sum_of};
use crate::table::{
    distinct_keys, enter, find, get, law_put, law_retain, lemma_filter, lemma_position,
    lemma_position_unique, lemma_text_map_put, lookup, position, put, retain, text_map,
};
use crate::text::same;
use vstd::prelude::*;

verus! {

/// Report received from a cluster controller.
#[derive(Debug)]
pub struct ClusterReport {
    /// Unique cluster identifier
    pub cluster_id: String,
    /// Human-readable name
    pub cluster_name: String,
    /// Geographic region (e.g., "us-east-1", "eu-west-1", "on-prem-dc1")
    pub region: String,
    /// Infrastructure provider
    pub provider: String,
    /// Power summary
    pub power: ClusterPowerSummary,
    /// Per-namespace breakdown
    pub namespaces: Vec<NamespaceSummary>,
    /// Carbon data at this cluster's location
    pub carbon: CarbonData,
    pub node_count: u32,
    pub pod_count: u32,
    /// In units of 10⁻¹⁸
    pub avg_error_ratio_atto: u128,
    /// When this report was generated: nanoseconds since the Unix epoch
    pub timestamp_ns: u64,
}

/// Power of a cluster, in microwatts.
#[derive(Clone, Copy, Debug, PartialEq, Eq, Structural)]
pub struct ClusterPowerSummary {
    pub total_uw: u64,
    pub cpu_uw: u64,
    pub memory_uw: u64,
    pub gpu_uw: u64,
    pub idle_uw: u64,
    pub platform_uw: Option<u64>,
}

#[derive(Debug)]
pub struct NamespaceSummary {
    pub namespace: String,
    pub total_uw: u64,
    pub pod_count: u32,
}

#[derive(Debug)]
pub struct CarbonData {
    /// Milligrams of CO2 equivalent per kWh at this cluster's location
    pub intensity_mg_per_kwh: u32,
    /// Current emission rate in micrograms of CO2 equivalent per hour
    pub emissions_ug_per_hour: u64,
    /// Energy cost at this location, in millionths of the currency per kWh
    pub cost_micros_per_kwh: u32,
    /// Currency
    pub currency: String,
}

/// State of a registered cluster.
#[derive(Debug)]
pub struct ClusterState {
    pub latest_report: ClusterReport,
    /// Nanoseconds on a monotonic clock
    pub received_at: u64,
    /// Rolling history of power readings
    pub power_history: Vec<(u64, u64)>,
    /// Rolling history of carbon emissions
    pub carbon_history: Vec<(u64, u64)>,
}

/// Fleet-wide aggregate view.
#[derive(Debug)]
pub struct FleetSummary {
    pub total_uw: u128,
    pub total_cpu_uw: u128,
    pub total_memory_uw: u128,
    pub total_gpu_uw: u128,
    pub total_idle_uw: u128,
    pub total_carbon_ug_per_hour: u128,
    /// In units of 10⁻¹⁵ of the currency
    pub total_cost_femto_per_hour: u128,
    pub total_cost_currency: String,
    pub cluster_count: usize,
    pub total_nodes: u32,
    pub total_pods: u32,
    /// Per-cluster breakdown, highest power first
    pub clusters: Vec<ClusterView>,
}

/// Per-cluster view within the fleet summary.
#[derive(Debug)]
pub struct ClusterView {
    pub cluster_id: String,
    pub cluster_name: String,
    pub region: String,
    pub total_uw: u64,
    pub carbon_ug_per_hour: u64,
    pub carbon_intensity: u32,
    /// In units of 10⁻¹⁵ of the currency
    pub cost_femto_per_hour: u128,
    pub node_count: u32,
    pub pod_count: u32,
    pub error_ratio_atto: u128,
    pub last_seen_secs_ago: u64,
}

/// Team/owner power view across all clusters.
#[derive(Debug)]
pub struct TeamPowerView {
    pub team: String,
    pub total_uw: u128,
    /// In picograms
    pub carbon_pg_per_hour: u128,
    /// In units of 10⁻¹⁵ of the currency
    pub cost_femto_per_hour: u128,
    /// Breakdown per cluster
    pub per_cluster: Vec<TeamClusterBreakdown>,
}

#[derive(Debug)]
pub struct TeamClusterBreakdown {
    pub cluster_name: String,
    pub namespace: String,
    pub uw: u64,
}

/// The fleet cluster registry.
#[derive(Debug)]
pub struct ClusterRegistry {
    pub clusters: Vec<(String, ClusterState)>,
    /// In nanoseconds
    pub staleness_threshold: u64,
    /// In nanoseconds
    pub history_retention: u64,
    /// Maps namespace to team/owner for cross-cluster team views
    pub namespace_owners: Vec<(String, String)>,
}

// ─── Clusters ───────────────────────────────────────────────────

/// Whether a history entry is recent enough to be kept.
pub open spec fn recent(ts: u64, wall: u64, retention: u64) -> bool {
    ts + retention >= wall
}

/// A history with one more value, without what is too old.
pub open spec fn history_with(
    h: Seq<(u64, u64)>,
    ts: u64,
    value: u64,
    wall: u64,
    retention: u64,
) -> Seq<(u64, u64)> {
    h.push((ts, value)).filter(|e: (u64, u64)| recent(e.0, wall, retention))
}

/// Whether a state is what a report made of another state's histories.
pub open spec fn is_state(
    s: ClusterState,
    report: ClusterReport,
    power: Seq<(u64, u64)>,
    carbon: Seq<(u64, u64)>,
    now: u64,
    wall: u64,
    retention: u64,
) -> bool {
    &&& s.latest_report == report
    &&& s.received_at == now
    &&& s.power_history@ == history_with(
        power,
        report.timestamp_ns,
        report.power.total_uw,
        wall,
        retention,
    )
    &&& s.carbon_history@ == history_with(
        carbon,
        report.timestamp_ns,
        report.carbon.emissions_ug_per_hour,
        wall,
        retention,
    )
}

/// Whether a cluster reported within a threshold.
pub open spec fn active(s: ClusterState, now: u64, threshold: u64) -> bool {
    (if now > s.received_at {
        now - s.received_at
    } else {
        0
    }) < threshold
}

/// Seconds since a cluster last reported.
pub open spec fn seconds_ago(s: ClusterState, now: u64) -> int {
    if now > s.received_at {
        (now - s.received_at) / 1_000_000_000
    } else {
        0
    }
}

/// What a power costs in an hour, in units of 10⁻¹⁵ of the currency: not rounded.
pub open spec fn cost_per_hour(uw: u64, micros_per_kwh: u32) -> int {
    uw * micros_per_kwh
}

/// What a power emits in an hour, in picograms: not rounded.
pub open spec fn carbon_per_hour(uw: u64, mg_per_kwh: u32) -> int {
    uw * mg_per_kwh
}

/// The most clusters, and the most namespaces in all clusters, that can be added up.
pub const MAX_ENTRIES: u32 = 0x7ff_ffff;

/// More than any sum of powers or emissions over clusters.
pub const MAX_FLEET_SUM: u128 = 0x800_0000_0000_0000_0000_0000;

/// More than any sum of costs over clusters.
pub const MAX_COST_SUM: u128 = 0x800_0000_0000_0000_0000_0000_0000_0000;

/// More than any sum over namespaces.
pub const MAX_TEAM_SUM: u128 = 0x800_0000_0000_0000_0000_0000_0000_0000;

fn hourly_cost(uw: u64, micros_per_kwh: u32) -> (r: u128)
    ensures
        r == cost_per_hour(uw, micros_per_kwh),
        r <= 0xffff_ffff_ffff_ffff_ffff_ffff,
{
    assert(0 <= uw * micros_per_kwh <= 0xffff_ffff_ffff_ffff * 0xffff_ffff) by (nonlinear_arith)
        requires
            0 <= uw <= 0xffff_ffff_ffff_ffff,
            0 <= micros_per_kwh <= 0xffff_ffff,
    ;
    uw as u128 * micros_per_kwh as u128
}

fn hourly_carbon(uw: u64, mg_per_kwh: u32) -> (r: u128)
    ensures
        r == carbon_per_hour(uw, mg_per_kwh),
        r <= 0xffff_ffff_ffff_ffff_ffff_ffff,
{
    assert(0 <= uw * mg_per_kwh <= 0xffff_ffff_ffff_ffff * 0xffff_ffff) by (nonlinear_arith)
        requires
            0 <= uw <= 0xffff_ffff_ffff_ffff,
            0 <= mg_per_kwh <= 0xffff_ffff,
    ;
    uw as u128 * mg_per_kwh as u128
}

/// The figures of a cluster that add up for the fleet.
#[derive(Clone, Copy, Debug, PartialEq, Eq, Structural)]
pub enum Figure {
    Total,
    Cpu,
    Memory,
    Gpu,
    Idle,
    Carbon,
    Cost,
    Nodes,
    Pods,
}

/// One figure of a cluster.
pub open spec fn figure(r: ClusterReport, f: Figure) -> int {
    match f {
        Figure::Total => r.power.total_uw as int,
        Figure::Cpu => r.power.cpu_uw as int,
        Figure::Memory => r.power.memory_uw as int,
        Figure::Gpu => r.power.gpu_uw as int,
        Figure::Idle => r.power.idle_uw as int,
        Figure::Carbon => r.carbon.emissions_ug_per_hour as int,
        Figure::Cost => cost_per_hour(r.power.total_uw, r.carbon.cost_micros_per_kwh),
        Figure::Nodes => r.node_count as int,
        Figure::Pods => r.pod_count as int,
    }
}

/// One figure added up over clusters.
pub open spec fn figure_sum(clusters: Seq<(String, ClusterState)>, f: Figure) -> int
    decreases clusters.len(),
{
    if clusters.len() == 0 {
        0
    } else {
        figure_sum(clusters.drop_last(), f) + figure(clusters.last().1.latest_report, f)
    }
}

fn read_figure(r: &ClusterReport, f: Figure) -> (v: u128)
    ensures
        v == figure(*r, f),
        v <= 0xffff_ffff_ffff_ffff_ffff_ffff,
        f != Figure::Cost ==> v <= 0xffff_ffff_ffff_ffff,
{
    match f {
        Figure::Total => r.power.total_uw as u128,
        Figure::Cpu => r.power.cpu_uw as u128,
        Figure::Memory => r.power.memory_uw as u128,
        Figure::Gpu => r.power.gpu_uw as u128,
        Figure::Idle => r.power.idle_uw as u128,
        Figure::Carbon => r.carbon.emissions_ug_per_hour as u128,
        Figure::Cost => hourly_cost(r.power.total_uw, r.carbon.cost_micros_per_kwh),
        Figure::Nodes => r.node_count as u128,
        Figure::Pods => r.pod_count as u128,
    }
}

/// One figure added up over clusters.
fn sum_figure(clusters: &Vec<(String, ClusterState)>, f: Figure) -> (r: u128)
    requires
        clusters@.len() <= MAX_ENTRIES,
    ensures
        r == figure_sum(clusters@, f),
        r <= MAX_COST_SUM,
        f != Figure::Cost ==> r <= MAX_FLEET_SUM,
{
    let mut sum: u128 = 0;
    let mut i: usize = 0;
    while i < clusters.len()
        invariant
            i <= clusters@.len() <= MAX_ENTRIES,
            sum == figure_sum(clusters@.take(i as int), f),
            sum <= i * 0xffff_ffff_ffff_ffff_ffff_ffff,
            f != Figure::Cost ==> sum <= i * 0xffff_ffff_ffff_ffff,
        decreases clusters@.len() - i,
    {
        assert(clusters@.take(i + 1).drop_last() =~= clusters@.take(i as int));
        sum = sum + read_figure(&clusters[i].1.latest_report, f);
        i = i + 1;
    }
    assert(clusters@.take(i as int) =~= clusters@);
    sum
}

/// The view of one cluster.
pub open spec fn is_cluster_view(v: ClusterView, s: ClusterState, now: u64) -> bool {
    let r = s.latest_report;
    &&& v.cluster_id@ == r.cluster_id@
    &&& v.cluster_name@ == r.cluster_name@
    &&& v.region@ == r.region@
    &&& v.total_uw == r.power.total_uw
    &&& v.carbon_ug_per_hour == r.carbon.emissions_ug_per_hour
    &&& v.carbon_intensity == r.carbon.intensity_mg_per_kwh
    &&& v.cost_femto_per_hour == cost_per_hour(r.power.total_uw, r.carbon.cost_micros_per_kwh)
    &&& v.node_count == r.node_count
    &&& v.pod_count == r.pod_count
    &&& v.error_ratio_atto == r.avg_error_ratio_atto
    &&& v.last_seen_secs_ago == seconds_ago(s, now)
}

fn view_cluster(s: &ClusterState, now: u64) -> (v: ClusterView)
    ensures
        is_cluster_view(v, *s, now),
{
    let r: &ClusterReport = &s.latest_report;
    ClusterView {
        cluster_id: r.cluster_id.clone(),
        cluster_name: r.cluster_name.clone(),
        region: r.region.clone(),
        total_uw: r.power.total_uw,
        carbon_ug_per_hour: r.carbon.emissions_ug_per_hour,
        carbon_intensity: r.carbon.intensity_mg_per_kwh,
        cost_femto_per_hour: hourly_cost(r.power.total_uw, r.carbon.cost_micros_per_kwh),
        node_count: r.node_count,
        pod_count: r.pod_count,
        error_ratio_atto: r.avg_error_ratio_atto,
        last_seen_secs_ago: now.saturating_sub(s.received_at) / 1_000_000_000,
    }
}

impl Ranked for ClusterView {
    open spec fn rank(&self) -> int {
        -(self.total_uw as int)
    }

    fn ranks_below(&self, other: &Self) -> (r: bool) {
        self.total_uw >= other.total_uw
    }
}

/// Clusters with more power come first.
pub open spec fn by_power(e: (String, ClusterState)) -> int {
    -(e.1.latest_report.power.total_uw as int)
}

/// The clusters, highest power first.
pub open spec fn ranked_clusters(clusters: Seq<(String, ClusterState)>) -> Seq<
    (String, ClusterState),
> {
    sorted_by(clusters, |e: (String, ClusterState)| by_power(e))
}

// ─── Teams ──────────────────────────────────────────────────────

/// A namespace's part in a team's power.
#[derive(Debug)]
pub struct TeamEntry {
    pub cluster_name: String,
    pub namespace: String,
    pub uw: u64,
    pub carbon_pg: u128,
    pub cost_femto: u128,
}

/// What a [`TeamEntry`] stands for.
pub struct EntryView {
    pub cluster_name: Seq<char>,
    pub namespace: Seq<char>,
    pub uw: u64,
    pub carbon_pg: int,
    pub cost_femto: int,
}

impl View for TeamEntry {
    type V = EntryView;

    open spec fn view(&self) -> EntryView {
        EntryView {
            cluster_name: self.cluster_name@,
            namespace: self.namespace@,
            uw: self.uw,
            carbon_pg: self.carbon_pg as int,
            cost_femto: self.cost_femto as int,
        }
    }
}

/// The team that owns a namespace.
pub open spec fn team_of(owners: Seq<(String, String)>, namespace: Seq<char>) -> Seq<char> {
    match lookup(owners, namespace) {
        Some(team) => team@,
        None => "unassigned"@,
    }
}

/// A namespace's part in its team's power.
pub open spec fn entry_of(r: ClusterReport, n: NamespaceSummary) -> EntryView {
    EntryView {
        cluster_name: r.cluster_name@,
        namespace: n.namespace@,
        uw: n.total_uw,
        carbon_pg: carbon_per_hour(n.total_uw, r.carbon.intensity_mg_per_kwh),
        cost_femto: cost_per_hour(n.total_uw, r.carbon.cost_micros_per_kwh),
    }
}

/// The parts of the first `n` namespaces of a cluster, each under its team.
pub open spec fn cluster_entries(owners: Seq<(String, String)>, r: ClusterReport, n: int) -> Seq<
    (Seq<char>, EntryView),
>
    decreases n,
{
    if n <= 0 {
        Seq::empty()
    } else {
        let ns = r.namespaces@[n - 1];
        cluster_entries(owners, r, n - 1).push((team_of(owners, ns.namespace@), entry_of(r, ns)))
    }
}

/// The parts of all namespaces of the first `n` clusters, each under its team.
pub open spec fn team_entries(
    owners: Seq<(String, String)>,
    clusters: Seq<(String, ClusterState)>,
    n: int,
) -> Seq<(Seq<char>, EntryView)>
    decreases n,
{
    if n <= 0 {
        Seq::empty()
    } else {
        let r = clusters[n - 1].1.latest_report;
        team_entries(owners, clusters, n - 1) + cluster_entries(
            owners,
            r,
            r.namespaces@.len() as int,
        )
    }
}

/// The power of entries.
pub open spec fn power_sum(entries: Seq<EntryView>) -> int {
    sum_over(entries, |e: EntryView| e.uw as int)
}

/// The emissions of entries.
pub open spec fn carbon_sum(entries: Seq<EntryView>) -> int {
    sum_over(entries, |e: EntryView| e.carbon_pg)
}

/// The cost of entries.
pub open spec fn cost_sum(entries: Seq<EntryView>) -> int {
    sum_over(entries, |e: EntryView| e.cost_femto)
}

/// The power of one team.
pub open spec fn is_team_view(v: TeamPowerView, g: (Seq<char>, Seq<EntryView>)) -> bool {
    &&& v.team@ == g.0
    &&& v.total_uw == power_sum(g.1)
    &&& v.carbon_pg_per_hour == carbon_sum(g.1)
    &&& v.cost_femto_per_hour == cost_sum(g.1)
    &&& v.per_cluster@.len() == g.1.len()
    &&& forall|i: int|
        0 <= i < g.1.len() ==> (#[trigger] v.per_cluster@[i]).cluster_name@ == g.1[i].cluster_name
            && v.per_cluster@[i].namespace@ == g.1[i].namespace && v.per_cluster@[i].uw
            == g.1[i].uw
}

/// Whether a team's sums leave room for a day's hours.
pub open spec fn within_limits(v: TeamPowerView) -> bool {
    v.total_uw <= MAX_TEAM_SUM && v.carbon_pg_per_hour <= MAX_TEAM_SUM && v.cost_femto_per_hour
        <= MAX_TEAM_SUM
}

impl Ranked for TeamPowerView {
    open spec fn rank(&self) -> int {
        -(self.total_uw as int)
    }

    fn ranks_below(&self, other: &Self) -> (r: bool) {
        self.total_uw >= other.total_uw
    }
}

/// Teams with more power come first.
pub open spec fn by_team_power(g: (Seq<char>, Seq<EntryView>)) -> int {
    -power_sum(g.1)
}

/// The teams with their parts, highest power first.
pub open spec fn ranked_teams(g: Seq<(Seq<char>, Seq<EntryView>)>) -> Seq<
    (Seq<char>, Seq<EntryView>),
> {
    sorted_by(g, |e: (Seq<char>, Seq<EntryView>)| by_team_power(e))
}

impl ClusterRegistry {
    /// Every cluster and every namespace's owner is kept once.
    pub open spec fn well_formed(&self) -> bool {
        distinct_keys(self.clusters@) && distinct_keys(self.namespace_owners@)
    }

    /// The teams with their namespaces' parts.
    pub open spec fn teams(&self) -> Seq<(Seq<char>, Seq<EntryView>)> {
        groups(
            team_entries(
                self.namespace_owners@,
                self.clusters@,
                self.clusters@.len() as int,
            ),
        )
    }

    /// Whether clusters, nodes, pods and namespaces can be counted in 32 bits.
    pub open spec fn countable(&self) -> bool {
        &&& self.clusters@.len() <= MAX_ENTRIES
        &&& figure_sum(self.clusters@, Figure::Nodes) <= u32::MAX
        &&& figure_sum(self.clusters@, Figure::Pods) <= u32::MAX
        &&& team_entries(
            self.namespace_owners@,
            self.clusters@,
            self.clusters@.len() as int,
        ).len() <= MAX_ENTRIES
    }

    /// The clusters that have reported recently.
    pub open spec fn active_list(&self, now: u64) -> Seq<(String, ClusterState)> {
        self.clusters@.filter(
            |e: (String, ClusterState)| active(e.1, now, self.staleness_threshold),
        )
    }

    /// Whether clusters, nodes, pods and namespaces can be counted in 32 bits.
    pub fn is_countable(&self) -> (r: bool)
        ensures
            r == self.countable(),
    {
        if self.clusters.len() > MAX_ENTRIES as usize {
            return false;
        }
        let mut entries: u128 = 0;
        let mut i: usize = 0;
        while i < self.clusters.len()
            invariant
                i <= self.clusters@.len() <= MAX_ENTRIES,
                entries == team_entries(self.namespace_owners@, self.clusters@, i as int).len(),
                entries <= i * 0xffff_ffff_ffff_ffff,
            decreases self.clusters@.len() - i,
        {
            let n: usize = self.clusters[i].1.latest_report.namespaces.len();
            proof {
                lemma_cluster_entries_len(
                    self.namespace_owners@,
                    self.clusters@[i as int].1.latest_report,
                    n as int,
                );
            }
            entries = entries + n as u128;
            i = i + 1;
        }
        entries <= MAX_ENTRIES as u128 && sum_figure(&self.clusters, Figure::Nodes)
            <= u32::MAX as u128 && sum_figure(&self.clusters, Figure::Pods) <= u32::MAX as u128
    }

    pub fn new() -> (r: Self)
        ensures
            r.well_formed(),
            r.clusters@.len() == 0,
            r.namespace_owners@.len() == 0,
            r.staleness_threshold == 120_000_000_000,
            r.history_retention == 2_592_000_000_000_000,
    {
        ClusterRegistry {
            clusters: Vec::new(),
            staleness_threshold: 120_000_000_000,
            history_retention: 2_592_000_000_000_000,
            namespace_owners: Vec::new(),
        }
    }

    /// Whether a registry is what this one becomes by a report.
    pub open spec fn takes_in(
        &self,
        after: ClusterRegistry,
        report: ClusterReport,
        now: u64,
        wall: u64,
    ) -> bool {
        let p = position(self.clusters@, report.cluster_id@);
        let n = self.clusters@.len() as int;
        if p >= 0 {
            &&& after.clusters@.len() == n
            &&& forall|i: int|
                0 <= i < n && i != p ==> #[trigger] after.clusters@[i] == self.clusters@[i]
            &&& after.clusters@[p].0 == self.clusters@[p].0
            &&& is_state(
                after.clusters@[p].1,
                report,
                self.clusters@[p].1.power_history@,
                self.clusters@[p].1.carbon_history@,
                now,
                wall,
                self.history_retention,
            )
        } else {
            &&& after.clusters@.len() == n + 1
            &&& after.clusters@.drop_last() == self.clusters@
            &&& after.clusters@.last().0@ == report.cluster_id@
            &&& is_state(
                after.clusters@.last().1,
                report,
                Seq::empty(),
                Seq::empty(),
                now,
                wall,
                self.history_retention,
            )
        }
    }

    /// Takes in a report from a cluster controller, at `now` on the monotonic clock and `wall`
    /// since the Unix epoch.
    pub fn ingest(&mut self, report: ClusterReport, now: u64, wall: u64)
        requires
            old(self).well_formed(),
        ensures
            final(self).well_formed(),
            final(self).staleness_threshold == old(self).staleness_threshold,
            final(self).history_retention == old(self).history_retention,
            final(self).namespace_owners@ == old(self).namespace_owners@,
            old(self).takes_in(*final(self), report, now, wall),
            ({
                let p = position(old(self).clusters@, report.cluster_id@);
                let before = old(self).clusters@;
                let after = final(self).clusters@;
                if p >= 0 {
                    &&& after.len() == before.len()
                    &&& forall|i: int| 0 <= i < before.len() && i != p ==> after[i] == before[i]
                    &&& after[p].0 == before[p].0
                    &&& is_state(
                        after[p].1,
                        report,
                        before[p].1.power_history@,
                        before[p].1.carbon_history@,
                        now,
                        wall,
                        old(self).history_retention,
                    )
                } else {
                    &&& after.len() == before.len() + 1
                    &&& after.drop_last() == before
                    &&& after.last().0@ == report.cluster_id@
                    &&& is_state(
                        after.last().1,
                        report,
                        Seq::empty(),
                        Seq::empty(),
                        now,
                        wall,
                        old(self).history_retention,
                    )
                }
            }),
    {
        let ghost before = self.clusters@;
        let ts: u64 = report.timestamp_ns;
        let total: u64 = report.power.total_uw;
        let carbon: u64 = report.carbon.emissions_ug_per_hour;
        let retention: u64 = self.history_retention;
        let id: String = report.cluster_id.clone();
        proof {
            lemma_position(before, id@);
        }
        match find(&self.clusters, &id) {
            Some(i) => {
                record(&mut self.clusters[i].1.power_history, ts, total, wall, retention);
                record(&mut self.clusters[i].1.carbon_history, ts, carbon, wall, retention);
                self.clusters[i].1.latest_report = report;
                self.clusters[i].1.received_at = now;
                proof {
                    let after = self.clusters@;
                    assert forall|a: int, b: int| 0 <= a < b < after.len() implies (
                    #[trigger] after[a]).0@ != (#[trigger] after[b]).0@ by {
                        assert(before[a].0@ != before[b].0@);
                        assert(after[a].0 == before[a].0);
                        assert(after[b].0 == before[b].0);
                    }
                }
            },
            None => {
                let mut power_history: Vec<(u64, u64)> = Vec::new();
                let mut carbon_history: Vec<(u64, u64)> = Vec::new();
                assert(power_history@ =~= Seq::empty());
                assert(carbon_history@ =~= Seq::empty());
                record(&mut power_history, ts, total, wall, retention);
                record(&mut carbon_history, ts, carbon, wall, retention);
                let state: ClusterState = ClusterState {
                    latest_report: report,
                    received_at: now,
                    power_history,
                    carbon_history,
                };
                self.clusters.push((id, state));
                proof {
                    assert(self.clusters@.drop_last() =~= before);
                    law_put(before, id, state, id@);
                    assert(self.clusters@ == put(before, id, state));
                }
            },
        }
    }

    /// Sets the owner of a namespace.
    pub fn set_namespace_owner(&mut self, namespace: &str, team: &str)
        requires
            old(self).well_formed(),
        ensures
            final(self).well_formed(),
            final(self).clusters@ == old(self).clusters@,
            final(self).staleness_threshold == old(self).staleness_threshold,
            final(self).history_retention == old(self).history_retention,
            text_map(final(self).namespace_owners@) == text_map(
                old(self).namespace_owners@,
            ).insert(namespace@, team@),
    {
        let key: String = namespace.to_owned();
        let value: String = team.to_owned();
        proof {
            lemma_text_map_put(self.namespace_owners@, key, value);
        }
        enter(&mut self.namespace_owners, key, value);
    }

    /// Whether a summary is that of the fleet.
    pub open spec fn is_fleet_summary(&self, r: FleetSummary, now: u64) -> bool {
        &&& r.total_uw == figure_sum(self.clusters@, Figure::Total)
        &&& r.total_cpu_uw == figure_sum(self.clusters@, Figure::Cpu)
        &&& r.total_memory_uw == figure_sum(self.clusters@, Figure::Memory)
        &&& r.total_gpu_uw == figure_sum(self.clusters@, Figure::Gpu)
        &&& r.total_idle_uw == figure_sum(self.clusters@, Figure::Idle)
        &&& r.total_carbon_ug_per_hour == figure_sum(self.clusters@, Figure::Carbon)
        &&& r.total_cost_femto_per_hour == figure_sum(self.clusters@, Figure::Cost)
        &&& r.total_nodes == figure_sum(self.clusters@, Figure::Nodes)
        &&& r.total_pods == figure_sum(self.clusters@, Figure::Pods)
        &&& r.cluster_count == self.clusters@.len()
        &&& r.clusters@.len() == self.clusters@.len()
        &&& ranked_clusters(self.clusters@).len() == self.clusters@.len()
        &&& forall|i: int|
            0 <= i < r.clusters@.len() ==> is_cluster_view(
                #[trigger] r.clusters@[i],
                ranked_clusters(self.clusters@)[i].1,
                now,
            )
    }

    /// Fleet-wide summary.
    pub fn fleet_summary(&self, now: u64) -> (r: FleetSummary)
        requires
            self.countable(),
        ensures
            self.is_fleet_summary(r, now),
            r.total_uw == figure_sum(self.clusters@, Figure::Total),
            r.total_cpu_uw == figure_sum(self.clusters@, Figure::Cpu),
            r.total_memory_uw == figure_sum(self.clusters@, Figure::Memory),
            r.total_gpu_uw == figure_sum(self.clusters@, Figure::Gpu),
            r.total_idle_uw == figure_sum(self.clusters@, Figure::Idle),
            r.total_carbon_ug_per_hour == figure_sum(self.clusters@, Figure::Carbon),
            r.total_cost_femto_per_hour == figure_sum(self.clusters@, Figure::Cost),
            r.total_cost_currency@ == "USD"@,
            r.cluster_count == self.clusters@.len(),
            r.total_nodes == figure_sum(self.clusters@, Figure::Nodes),
            r.total_pods == figure_sum(self.clusters@, Figure::Pods),
            r.clusters@.len() == self.clusters@.len(),
            ranked_clusters(self.clusters@).len() == self.clusters@.len(),
            forall|i: int|
                0 <= i < r.clusters@.len() ==> is_cluster_view(
                    #[trigger] r.clusters@[i],
                    ranked_clusters(self.clusters@)[i].1,
                    now,
                ),
            r.total_uw <= MAX_FLEET_SUM,
            r.total_carbon_ug_per_hour <= MAX_FLEET_SUM,
            r.total_cost_femto_per_hour <= MAX_COST_SUM,
    {
        let clusters: Vec<ClusterView> = self.view_clusters(now);
        FleetSummary {
            total_uw: sum_figure(&self.clusters, Figure::Total),
            total_cpu_uw: sum_figure(&self.clusters, Figure::Cpu),
            total_memory_uw: sum_figure(&self.clusters, Figure::Memory),
            total_gpu_uw: sum_figure(&self.clusters, Figure::Gpu),
            total_idle_uw: sum_figure(&self.clusters, Figure::Idle),
            total_carbon_ug_per_hour: sum_figure(&self.clusters, Figure::Carbon),
            total_cost_femto_per_hour: sum_figure(&self.clusters, Figure::Cost),
            total_cost_currency: "USD".to_owned(),
            cluster_count: self.clusters.len(),
            total_nodes: sum_figure(&self.clusters, Figure::Nodes) as u32,
            total_pods: sum_figure(&self.clusters, Figure::Pods) as u32,
            clusters,
        }
    }

    fn view_clusters(&self, now: u64) -> (r: Vec<ClusterView>)
        ensures
            r@.len() == self.clusters@.len(),
            ranked_clusters(self.clusters@).len() == self.clusters@.len(),
            forall|i: int|
                0 <= i < r@.len() ==> is_cluster_view(
                    #[trigger] r@[i],
                    ranked_clusters(self.clusters@)[i].1,
                    now,
                ),
    {
        let ghost key = |e: (String, ClusterState)| by_power(e);
        let mut r: Vec<ClusterView> = Vec::new();
        let mut i: usize = 0;
        while i < self.clusters.len()
            invariant
                i <= self.clusters@.len(),
                key == (|e: (String, ClusterState)| by_power(e)),
                r@.len() == i,
                sorted_by(self.clusters@.take(i as int), key).len() == i,
                forall|j: int|
                    0 <= j < i ==> is_cluster_view(
                        #[trigger] r@[j],
                        sorted_by(self.clusters@.take(i as int), key)[j].1,
                        now,
                    ),
            decreases self.clusters@.len() - i,
        {
            let ghost before = r@;
            let ghost s = sorted_by(self.clusters@.take(i as int), key);
            let view: ClusterView = view_cluster(&self.clusters[i].1, now);
            proof {
                assert(self.clusters@.take(i + 1).drop_last() =~= self.clusters@.take(i as int));
                assert forall|j: int| 0 <= j < before.len() implies (#[trigger] before[j]).rank()
                    == key(s[j]) by {
                    assert(is_cluster_view(before[j], s[j].1, now));
                }
                lemma_same_place(before, s, key, view);
            }
            insert_ranked(&mut r, view);
            proof {
                let p = place(before, view);
                let t = sorted_by(self.clusters@.take(i + 1), key);
                assert(t == s.insert(p, self.clusters@[i as int]));
                assert forall|j: int| 0 <= j < i + 1 implies is_cluster_view(
                    #[trigger] r@[j],
                    t[j].1,
                    now,
                ) by {
                    if j < p {
                        assert(r@[j] == before[j]);
                    } else if j > p {
                        assert(r@[j] == before[j - 1]);
                        assert(t[j] == s[j - 1]);
                    }
                }
            }
            i = i + 1;
        }
        assert(self.clusters@.take(i as int) =~= self.clusters@);
        r
    }

    /// Groups the namespaces' parts by team.
    fn group_by_team(&self) -> (r: Vec<(String, Vec<TeamEntry>)>)
        ensures
            group_views(r@) == self.teams(),
            forall|i: int, j: int|
                0 <= i < r@.len() && 0 <= j < (#[trigger] r@[i]).1@.len() ==> (
                #[trigger] r@[i].1@[j]).carbon_pg <= 0xffff_ffff_ffff_ffff_ffff_ffff
                    && r@[i].1@[j].cost_femto <= 0xffff_ffff_ffff_ffff_ffff_ffff,
    {
        let ghost owners = self.namespace_owners@;
        let mut r: Vec<(String, Vec<TeamEntry>)> = Vec::new();
        let mut i: usize = 0;
        assert(group_views(r@) =~= groups(team_entries(owners, self.clusters@, 0)));
        while i < self.clusters.len()
            invariant
                i <= self.clusters@.len(),
                owners == self.namespace_owners@,
                group_views(r@) == groups(team_entries(owners, self.clusters@, i as int)),
            decreases self.clusters@.len() - i,
        {
            let report: &ClusterReport = &self.clusters[i].1.latest_report;
            let ghost before = team_entries(owners, self.clusters@, i as int);
            let mut j: usize = 0;
            assert(before + cluster_entries(owners, *report, 0) =~= before);
            while j < report.namespaces.len()
                invariant
                    j <= report.namespaces@.len(),
                    owners == self.namespace_owners@,
                    group_views(r@) == groups(
                        before + cluster_entries(owners, *report, j as int),
                    ),
                decreases report.namespaces@.len() - j,
            {
                let ns: &NamespaceSummary = &report.namespaces[j];
                let team: String = match get(&self.namespace_owners, &ns.namespace) {
                    Some(t) => t.clone(),
                    None => "unassigned".to_owned(),
                };
                let entry: TeamEntry = TeamEntry {
                    cluster_name: report.cluster_name.clone(),
                    namespace: ns.namespace.clone(),
                    uw: ns.total_uw,
                    carbon_pg: hourly_carbon(ns.total_uw, report.carbon.intensity_mg_per_kwh),
                    cost_femto: hourly_cost(ns.total_uw, report.carbon.cost_micros_per_kwh),
                };
                assert(entry@ == entry_of(*report, *ns));
                proof {
                    let next = before + cluster_entries(owners, *report, j + 1);
                    assert(next.drop_last() =~= before + cluster_entries(
                        owners,
                        *report,
                        j as int,
                    ));
                    assert(next.last() == (team@, entry@));
                }
                add_to_group(&mut r, team.as_str(), entry);
                j = j + 1;
            }
            i = i + 1;
        }
        proof {
            self.lemma_entries_bounded(r@);
        }
        r
    }

    proof fn lemma_entries_bounded(&self, r: Seq<(String, Vec<TeamEntry>)>)
        requires
            group_views(r) == self.teams(),
        ensures
            forall|i: int, j: int|
                0 <= i < r.len() && 0 <= j < (#[trigger] r[i]).1@.len() ==> (
                #[trigger] r[i].1@[j]).carbon_pg <= 0xffff_ffff_ffff_ffff_ffff_ffff
                    && r[i].1@[j].cost_femto <= 0xffff_ffff_ffff_ffff_ffff_ffff,
    {
        let entries = team_entries(
            self.namespace_owners@,
            self.clusters@,
            self.clusters@.len() as int,
        );
        lemma_team_entries_bounded(
            self.namespace_owners@,
            self.clusters@,
            self.clusters@.len() as int,
        );
        lemma_groups_bounded(entries);
        assert forall|i: int, j: int|
            0 <= i < r.len() && 0 <= j < (#[trigger] r[i]).1@.len() implies (
        #[trigger] r[i].1@[j]).carbon_pg <= 0xffff_ffff_ffff_ffff_ffff_ffff
            && r[i].1@[j].cost_femto <= 0xffff_ffff_ffff_ffff_ffff_ffff by {
            let g = group_views(r)[i];
            assert(g.1[j] == r[i].1@[j]@);
            assert(bounded(groups(entries)[i].1[j]));
        }
    }

    /// Power of each team across all clusters, highest power first.
    pub fn team_power(&self) -> (r: Vec<TeamPowerView>)
        requires
            self.countable(),
        ensures
            r@.len() == self.teams().len(),
            ranked_teams(self.teams()).len() == self.teams().len(),
            forall|i: int|
                0 <= i < r@.len() ==> is_team_view(
                    #[trigger] r@[i],
                    ranked_teams(self.teams())[i],
                ) && within_limits(r@[i]),
    {
        let ghost key = |e: (Seq<char>, Seq<EntryView>)| by_team_power(e);
        let ghost teams = self.teams();
        let by_team: Vec<(String, Vec<TeamEntry>)> = self.group_by_team();
        proof {
            lemma_groups_sizes(
                team_entries(
                    self.namespace_owners@,
                    self.clusters@,
                    self.clusters@.len() as int,
                ),
            );
        }
        let mut r: Vec<TeamPowerView> = Vec::new();
        let mut i: usize = 0;
        while i < by_team.len()
            invariant
                i <= by_team@.len(),
                key == (|e: (Seq<char>, Seq<EntryView>)| by_team_power(e)),
                teams == group_views(by_team@),
                forall|a: int, b: int|
                    0 <= a < by_team@.len() && 0 <= b < (#[trigger] by_team@[a]).1@.len() ==> (
                    #[trigger] by_team@[a].1@[b]).carbon_pg <= 0xffff_ffff_ffff_ffff_ffff_ffff
                        && by_team@[a].1@[b].cost_femto <= 0xffff_ffff_ffff_ffff_ffff_ffff,
                forall|a: int| 0 <= a < teams.len() ==> (#[trigger] teams[a]).1.len() <= MAX_ENTRIES,
                r@.len() == i,
                sorted_by(teams.take(i as int), key).len() == i,
                forall|j: int|
                    0 <= j < i ==> is_team_view(
                        #[trigger] r@[j],
                        sorted_by(teams.take(i as int), key)[j],
                    ) && within_limits(r@[j]),
            decreases by_team@.len() - i,
        {
            let ghost before = r@;
            let ghost s = sorted_by(teams.take(i as int), key);
            assert(teams[i as int].1.len() <= MAX_ENTRIES);
            assert(teams[i as int].1.len() == by_team@[i as int].1@.len());
            let view: TeamPowerView = view_team(&by_team[i]);
            proof {
                assert(teams.take(i + 1).drop_last() =~= teams.take(i as int));
                assert forall|j: int| 0 <= j < before.len() implies (#[trigger] before[j]).rank()
                    == key(s[j]) by {
                    assert(is_team_view(before[j], s[j]));
                }
                lemma_same_place(before, s, key, view);
            }
            insert_ranked(&mut r, view);
            proof {
                let p = place(before, view);
                let t = sorted_by(teams.take(i + 1), key);
                assert(t == s.insert(p, teams[i as int]));
                assert forall|j: int| 0 <= j < i + 1 implies is_team_view(
                    #[trigger] r@[j],
                    t[j],
                ) && within_limits(r@[j]) by {
                    if j < p {
                        assert(r@[j] == before[j]);
                    } else if j > p {
                        assert(r@[j] == before[j - 1]);
                        assert(t[j] == s[j - 1]);
                    }
                }
            }
            i = i + 1;
        }
        assert(teams.take(i as int) =~= teams);
        r
    }

    /// The power of one team across all clusters.
    pub fn team_view(&self, team: &str) -> (r: Option<TeamPowerView>)
        requires
            self.countable(),
        ensures
            match r {
                Some(v) => group_index(self.teams(), team@) >= 0 && is_team_view(
                    v,
                    self.teams()[group_index(self.teams(), team@)],
                ),
                None => group_index(self.teams(), team@) < 0,
            },
    {
        let ghost teams = self.teams();
        let by_team: Vec<(String, Vec<TeamEntry>)> = self.group_by_team();
        proof {
            lemma_groups_sizes(
                team_entries(
                    self.namespace_owners@,
                    self.clusters@,
                    self.clusters@.len() as int,
                ),
            );
            lemma_group_index(teams, team@);
        }
        let mut i: usize = by_team.len();
        while i > 0
            invariant
                i <= by_team@.len(),
                teams == self.teams(),
                teams == group_views(by_team@),
                forall|a: int, b: int|
                    0 <= a < by_team@.len() && 0 <= b < (#[trigger] by_team@[a]).1@.len() ==> (
                    #[trigger] by_team@[a].1@[b]).carbon_pg <= 0xffff_ffff_ffff_ffff_ffff_ffff
                        && by_team@[a].1@[b].cost_femto <= 0xffff_ffff_ffff_ffff_ffff_ffff,
                forall|a: int| 0 <= a < teams.len() ==> (#[trigger] teams[a]).1.len() <= MAX_ENTRIES,
                forall|j: int| i <= j < teams.len() ==> (#[trigger] teams[j]).0 != team@,
            decreases i,
        {
            i = i - 1;
            assert(teams[i as int].0 == by_team@[i as int].0@);
            if same(by_team[i].0.as_str(), team) {
                assert(teams[i as int].1.len() == by_team@[i as int].1@.len());
                proof {
                    lemma_group_index_is(teams, team@, i as int);
                }
                return Some(view_team(&by_team[i]));
            }
        }
        None
    }

    /// Power history of a cluster since a time.
    pub fn cluster_power_history(&self, cluster_id: &str, since: u64) -> (r: Vec<(u64, u64)>)
        ensures
            r@ == match lookup(self.clusters@, cluster_id@) {
                Some(s) => s.power_history@.filter(|e: (u64, u64)| e.0 >= since),
                None => Seq::empty(),
            },
    {
        let ghost p = |e: (u64, u64)| e.0 >= since;
        let mut r: Vec<(u64, u64)> = Vec::new();
        match get(&self.clusters, &cluster_id.to_owned()) {
            Some(s) => {
                let v: &Vec<(u64, u64)> = &s.power_history;
                let mut i: usize = 0;
                proof {
                    reveal(Seq::filter);
                }
                while i < v.len()
                    invariant
                        i <= v@.len(),
                        p == (|e: (u64, u64)| e.0 >= since),
                        r@ == v@.take(i as int).filter(p),
                    decreases v@.len() - i,
                {
                    proof {
                        reveal(Seq::filter);
                        assert(v@.take(i + 1).drop_last() =~= v@.take(i as int));
                    }
                    if v[i].0 >= since {
                        r.push(v[i]);
                    }
                    i = i + 1;
                }
                assert(v@.take(i as int) =~= v@);
            },
            None => {
                assert(r@ =~= Seq::empty());
            },
        }
        r
    }

    /// The active cluster with the lowest carbon intensity; of several, the first.
    pub fn lowest_carbon_cluster(&self, now: u64) -> (r: Option<&ClusterReport>)
        ensures
            match r {
                Some(report) => exists|k: int|
                    0 <= k < self.clusters@.len() && *report == (
                    #[trigger] self.clusters@[k]).1.latest_report && active(
                        self.clusters@[k].1,
                        now,
                        self.staleness_threshold,
                    ) && is_lowest(self.clusters@, k, now, self.staleness_threshold),
                None => self.active_list(now).len() == 0,
            },
    {
        let mut best: Option<usize> = None;
        let mut i: usize = 0;
        let ghost threshold = self.staleness_threshold;
        let ghost keep = |e: (String, ClusterState)| active(e.1, now, threshold);
        proof {
            reveal(Seq::filter);
        }
        while i < self.clusters.len()
            invariant
                i <= self.clusters@.len(),
                threshold == self.staleness_threshold,
                keep == (|e: (String, ClusterState)| active(e.1, now, threshold)),
                match best {
                    Some(b) => b < i && active(self.clusters@[b as int].1, now, threshold)
                        && forall|j: int|
                        0 <= j < i && active((#[trigger] self.clusters@[j]).1, now, threshold)
                            ==> intensity(self.clusters@[b as int]) <= intensity(
                            self.clusters@[j],
                        ) && (j < b ==> intensity(self.clusters@[b as int]) < intensity(
                            self.clusters@[j],
                        )),
                    None => self.clusters@.take(i as int).filter(keep).len() == 0 && forall|j: int|
                        0 <= j < i ==> !active((#[trigger] self.clusters@[j]).1, now, threshold),
                },
            decreases self.clusters@.len() - i,
        {
            proof {
                reveal(Seq::filter);
                assert(self.clusters@.take(i + 1).drop_last() =~= self.clusters@.take(i as int));
            }
            if is_active(&self.clusters[i].1, now, self.staleness_threshold) {
                let better: bool = match best {
                    None => true,
                    Some(b) => self.clusters[i].1.latest_report.carbon.intensity_mg_per_kwh
                        < self.clusters[b].1.latest_report.carbon.intensity_mg_per_kwh,
                };
                if better {
                    best = Some(i);
                }
            }
            i = i + 1;
        }
        assert(self.clusters@.take(i as int) =~= self.clusters@);
        match best {
            Some(b) => {
                assert(is_lowest(self.clusters@, b as int, now, self.staleness_threshold));
                Some(&self.clusters[b].1.latest_report)
            },
            None => None,
        }
    }

    /// The reports of all active clusters.
    pub fn active_clusters(&self, now: u64) -> (r: Vec<&ClusterReport>)
        ensures
            r@.len() == self.active_list(now).len(),
            forall|i: int|
                0 <= i < r@.len() ==> *(#[trigger] r@[i]) == self.active_list(
                    now,
                )[i].1.latest_report,
    {
        let ghost threshold = self.staleness_threshold;
        let ghost keep = |e: (String, ClusterState)| active(e.1, now, self.staleness_threshold);
        let mut r: Vec<&ClusterReport> = Vec::new();
        let mut i: usize = 0;
        proof {
            reveal(Seq::filter);
        }
        while i < self.clusters.len()
            invariant
                i <= self.clusters@.len(),
                keep == (|e: (String, ClusterState)| active(e.1, now, self.staleness_threshold)),
                r@.len() == self.clusters@.take(i as int).filter(keep).len(),
                forall|j: int|
                    0 <= j < r@.len() ==> *(#[trigger] r@[j]) == self.clusters@.take(
                        i as int,
                    ).filter(keep)[j].1.latest_report,
            decreases self.clusters@.len() - i,
        {
            proof {
                reveal(Seq::filter);
                assert(self.clusters@.take(i + 1).drop_last() =~= self.clusters@.take(i as int));
            }
            if is_active(&self.clusters[i].1, now, self.staleness_threshold) {
                r.push(&self.clusters[i].1.latest_report);
            }
            i = i + 1;
        }
        assert(self.clusters@.take(i as int) =~= self.clusters@);
        r
    }

    /// Drops clusters that have not reported recently.
    pub fn evict_stale(&mut self, now: u64)
        requires
            old(self).well_formed(),
        ensures
            final(self).well_formed(),
            final(self).clusters@ == old(self).active_list(now),
            final(self).namespace_owners@ == old(self).namespace_owners@,
            final(self).staleness_threshold == old(self).staleness_threshold,
            final(self).history_retention == old(self).history_retention,
    {
        let threshold: u64 = self.staleness_threshold;
        let ghost before = *self;
        let fresh = |e: &(String, ClusterState)| -> (b: bool)
            ensures
                b == active(e.1, now, threshold),
            { is_active(&e.1, now, threshold) };
        retain(
            &mut self.clusters,
            fresh,
            Ghost(
                |e: (String, ClusterState)| active(e.1, now, before.staleness_threshold),
            ),
        );
        proof {
            law_retain(
                before.clusters@,
                |e: (String, ClusterState)| active(e.1, now, before.staleness_threshold),
                Seq::empty(),
            );
        }
    }
}

/// A cluster's carbon intensity.
pub open spec fn intensity(e: (String, ClusterState)) -> u32 {
    e.1.latest_report.carbon.intensity_mg_per_kwh
}

/// Whether no active cluster has a lower carbon intensity than the one at `k`, and none before it
/// the same.
pub open spec fn is_lowest(
    clusters: Seq<(String, ClusterState)>,
    k: int,
    now: u64,
    threshold: u64,
) -> bool {
    forall|j: int|
        0 <= j < clusters.len() && active((#[trigger] clusters[j]).1, now, threshold) ==> intensity(
            clusters[k],
        ) <= intensity(clusters[j]) && (j < k ==> intensity(clusters[k]) < intensity(clusters[j]))
}

fn is_active(s: &ClusterState, now: u64, threshold: u64) -> (r: bool)
    ensures
        r == active(*s, now, threshold),
{
    now.saturating_sub(s.received_at) < threshold
}

/// Adds a value to a history and drops what is too old.
fn record(h: &mut Vec<(u64, u64)>, ts: u64, value: u64, wall: u64, retention: u64)
    ensures
        final(h)@ == history_with(old(h)@, ts, value, wall, retention),
{
    h.push((ts, value));
    let is_recent = |e: &(u64, u64)| -> (b: bool)
        ensures
            b == recent(e.0, wall, retention),
        { e.0 as u128 + retention as u128 >= wall as u128 };
    retain(h, is_recent, Ghost(|e: (u64, u64)| recent(e.0, wall, retention)));
}

proof fn lemma_cluster_entries_len(owners: Seq<(String, String)>, r: ClusterReport, n: int)
    requires
        0 <= n,
    ensures
        cluster_entries(owners, r, n).len() == n,
    decreases n,
{
    if n > 0 {
        lemma_cluster_entries_len(owners, r, n - 1);
    }
}

proof fn lemma_group_index_is<T>(g: Seq<(Seq<char>, Seq<T>)>, k: Seq<char>, n: int)
    requires
        0 <= n < g.len(),
        g[n].0 == k,
        forall|j: int| n < j < g.len() ==> (#[trigger] g[j]).0 != k,
    ensures
        group_index(g, k) == n,
    decreases g.len(),
{
    if n < g.len() - 1 {
        assert(g[g.len() - 1].0 != k);
        lemma_group_index_is(g.drop_last(), k, n);
    }
}

/// An entry's emissions and cost are those of a power in 64 bits.
spec fn bounded(e: EntryView) -> bool {
    e.carbon_pg <= 0xffff_ffff_ffff_ffff_ffff_ffff && e.cost_femto <= 0xffff_ffff_ffff_ffff_ffff_ffff
}

proof fn lemma_entry_bounded(r: ClusterReport, n: NamespaceSummary)
    ensures
        bounded(entry_of(r, n)),
{
    let p = n.total_uw as int;
    let i = r.carbon.intensity_mg_per_kwh as int;
    let c = r.carbon.cost_micros_per_kwh as int;
    assert(0 <= p * i <= 0xffff_ffff_ffff_ffff * 0xffff_ffff) by (nonlinear_arith)
        requires
            0 <= p <= 0xffff_ffff_ffff_ffff,
            0 <= i <= 0xffff_ffff,
    ;
    assert(0 <= p * c <= 0xffff_ffff_ffff_ffff * 0xffff_ffff) by (nonlinear_arith)
        requires
            0 <= p <= 0xffff_ffff_ffff_ffff,
            0 <= c <= 0xffff_ffff,
    ;
}

proof fn lemma_cluster_entries_bounded(owners: Seq<(String, String)>, r: ClusterReport, n: int)
    ensures
        forall|i: int|
            0 <= i < cluster_entries(owners, r, n).len() ==> bounded(
                (#[trigger] cluster_entries(owners, r, n)[i]).1,
            ),
    decreases n,
{
    if n > 0 {
        lemma_cluster_entries_bounded(owners, r, n - 1);
        lemma_entry_bounded(r, r.namespaces@[n - 1]);
        let before = cluster_entries(owners, r, n - 1);
        let after = cluster_entries(owners, r, n);
        assert forall|i: int| 0 <= i < after.len() implies bounded((#[trigger] after[i]).1) by {
            if i < before.len() {
                assert(after[i] == before[i]);
            }
        }
    }
}

proof fn lemma_team_entries_bounded(
    owners: Seq<(String, String)>,
    clusters: Seq<(String, ClusterState)>,
    n: int,
)
    ensures
        forall|i: int|
            0 <= i < team_entries(owners, clusters, n).len() ==> bounded(
                (#[trigger] team_entries(owners, clusters, n)[i]).1,
            ),
    decreases n,
{
    if n > 0 {
        lemma_team_entries_bounded(owners, clusters, n - 1);
        let r = clusters[n - 1].1.latest_report;
        let m = r.namespaces@.len() as int;
        lemma_cluster_entries_bounded(owners, r, m);
        let before = team_entries(owners, clusters, n - 1);
        let after = team_entries(owners, clusters, n);
        assert forall|i: int| 0 <= i < after.len() implies bounded((#[trigger] after[i]).1) by {
            if i < before.len() {
                assert(after[i] == before[i]);
            } else {
                assert(after[i] == cluster_entries(owners, r, m)[i - before.len()]);
            }
        }
    }
}

proof fn lemma_groups_bounded(entries: Seq<(Seq<char>, EntryView)>)
    requires
        forall|i: int| 0 <= i < entries.len() ==> bounded((#[trigger] entries[i]).1),
    ensures
        forall|i: int, j: int|
            0 <= i < groups(entries).len() && 0 <= j < (#[trigger] groups(entries)[i]).1.len()
                ==> bounded(#[trigger] groups(entries)[i].1[j]),
    decreases entries.len(),
{
    if entries.len() > 0 {
        let rest = entries.drop_last();
        assert forall|i: int| 0 <= i < rest.len() implies bounded((#[trigger] rest[i]).1) by {
            assert(rest[i] == entries[i]);
        }
        lemma_groups_bounded(rest);
        let g = groups(rest);
        let k = entries.last().0;
        let t = entries.last().1;
        assert(bounded(entries[entries.len() - 1].1));
        lemma_group_index(g, k);
        let a = groups(entries);
        let n = group_index(g, k);
        assert forall|i: int, j: int|
            0 <= i < a.len() && 0 <= j < (#[trigger] a[i]).1.len() implies bounded(
            #[trigger] a[i].1[j],
        ) by {
            if i < g.len() {
                if i == n {
                    if j < g[i].1.len() {
                        assert(a[i].1[j] == g[i].1[j]);
                        assert(bounded(g[i].1[j]));
                    }
                } else {
                    assert(a[i] == g[i]);
                    assert(bounded(g[i].1[j]));
                }
            }
        }
    }
}

proof fn lemma_groups_sizes(entries: Seq<(Seq<char>, EntryView)>)
    ensures
        forall|i: int|
            0 <= i < groups(entries).len() ==> (#[trigger] groups(entries)[i]).1.len()
                <= entries.len(),
    decreases entries.len(),
{
    if entries.len() > 0 {
        let rest = entries.drop_last();
        lemma_groups_sizes(rest);
        let g = groups(rest);
        lemma_group_index(g, entries.last().0);
        let a = groups(entries);
        assert forall|i: int| 0 <= i < a.len() implies (#[trigger] a[i]).1.len()
            <= entries.len() by {
            if i < g.len() {
                assert(g[i].1.len() <= rest.len());
            }
        }
    }
}

/// The power of one team, by its namespaces' parts.
fn view_team(g: &(String, Vec<TeamEntry>)) -> (v: TeamPowerView)
    requires
        g.1@.len() <= MAX_ENTRIES,
        forall|j: int|
            0 <= j < g.1@.len() ==> (#[trigger] g.1@[j]).carbon_pg <= 0xffff_ffff_ffff_ffff_ffff_ffff
                && g.1@[j].cost_femto <= 0xffff_ffff_ffff_ffff_ffff_ffff,
    ensures
        is_team_view(v, (g.0@, view_all(g.1@))),
        within_limits(v),
{
    let ghost all = view_all(g.1@);
    let mut total_uw: u128 = 0;
    let mut carbon: u128 = 0;
    let mut cost: u128 = 0;
    let mut per_cluster: Vec<TeamClusterBreakdown> = Vec::new();
    let mut i: usize = 0;
    while i < g.1.len()
        invariant
            i <= g.1@.len() <= MAX_ENTRIES,
            all == view_all(g.1@),
            forall|j: int|
                0 <= j < g.1@.len() ==> (#[trigger] g.1@[j]).carbon_pg <= 0xffff_ffff_ffff_ffff_ffff_ffff && g.1@[j].cost_femto <= 0xffff_ffff_ffff_ffff_ffff_ffff,
            total_uw == power_sum(all.take(i as int)),
            carbon == carbon_sum(all.take(i as int)),
            cost == cost_sum(all.take(i as int)),
            total_uw <= i * 0xffff_ffff_ffff_ffff,
            carbon <= i * 0xffff_ffff_ffff_ffff_ffff_ffff,
            cost <= i * 0xffff_ffff_ffff_ffff_ffff_ffff,
            per_cluster@.len() == i,
            forall|j: int|
                0 <= j < i ==> (#[trigger] per_cluster@[j]).cluster_name@ == all[j].cluster_name
                    && per_cluster@[j].namespace@ == all[j].namespace && per_cluster@[j].uw
                    == all[j].uw,
        decreases g.1@.len() - i,
    {
        let e: &TeamEntry = &g.1[i];
        assert(all.take(i + 1).drop_last() =~= all.take(i as int));
        assert(all[i as int] == e@);
        assert(g.1@[i as int].carbon_pg <= 0xffff_ffff_ffff_ffff_ffff_ffff);
        total_uw = total_uw + e.uw as u128;
        carbon = carbon + e.carbon_pg;
        cost = cost + e.cost_femto;
        per_cluster.push(
            TeamClusterBreakdown {
                cluster_name: e.cluster_name.clone(),
                namespace: e.namespace.clone(),
                uw: e.uw,
            },
        );
        i = i + 1;
    }
    assert(all.take(i as int) =~= all);
    TeamPowerView {
        team: g.0.clone(),
        total_uw,
        carbon_pg_per_hour: carbon,
        cost_femto_per_hour: cost,
        per_cluster,
    }
}

// ─── Laws ───────────────────────────────────────────────────────

/// The power of the first `n` namespaces of a cluster.
pub open spec fn namespace_power(r: ClusterReport, n: int) -> int
    decreases n,
{
    if n <= 0 {
        0
    } else {
        namespace_power(r, n - 1) + r.namespaces@[n - 1].total_uw
    }
}

/// The power of all namespaces of the first `n` clusters.
pub open spec fn all_namespace_power(clusters: Seq<(String, ClusterState)>, n: int) -> int
    decreases n,
{
    if n <= 0 {
        0
    } else {
        let r = clusters[n - 1].1.latest_report;
        all_namespace_power(clusters, n - 1) + namespace_power(r, r.namespaces@.len() as int)
    }
}

/// The power of an entry under its team.
spec fn listed_power(e: (Seq<char>, EntryView)) -> int {
    e.1.uw as int
}

proof fn lemma_sum_over_joined<T>(a: Seq<T>, b: Seq<T>, f: spec_fn(T) -> int)
    ensures
        sum_over(a + b, f) == sum_over(a, f) + sum_over(b, f),
    decreases b.len(),
{
    if b.len() == 0 {
        assert(a + b =~= a);
    } else {
        lemma_sum_over_joined(a, b.drop_last(), f);
        assert((a + b).drop_last() =~= a + b.drop_last());
    }
}

proof fn lemma_cluster_entry_power(owners: Seq<(String, String)>, r: ClusterReport, n: int)
    ensures
        sum_over(cluster_entries(owners, r, n), |e: (Seq<char>, EntryView)| listed_power(e))
            == namespace_power(r, n),
    decreases n,
{
    if n > 0 {
        lemma_cluster_entry_power(owners, r, n - 1);
        assert(cluster_entries(owners, r, n).drop_last() =~= cluster_entries(owners, r, n - 1));
    }
}

proof fn lemma_entry_power(
    owners: Seq<(String, String)>,
    clusters: Seq<(String, ClusterState)>,
    n: int,
)
    ensures
        sum_over(team_entries(owners, clusters, n), |e: (Seq<char>, EntryView)| listed_power(e))
            == all_namespace_power(clusters, n),
    decreases n,
{
    if n > 0 {
        let r = clusters[n - 1].1.latest_report;
        lemma_entry_power(owners, clusters, n - 1);
        lemma_cluster_entry_power(owners, r, r.namespaces@.len() as int);
        lemma_sum_over_joined(
            team_entries(owners, clusters, n - 1),
            cluster_entries(owners, r, r.namespaces@.len() as int),
            |e: (Seq<char>, EntryView)| listed_power(e),
        );
    }
}

proof fn lemma_sum_same<T>(s: Seq<T>, f: spec_fn(T) -> int, g: spec_fn(T) -> int)
    requires
        forall|t: T| #[trigger] f(t) == g(t),
    ensures
        sum_over(s, f) == sum_over(s, g),
    decreases s.len(),
{
    if s.len() > 0 {
        lemma_sum_same(s.drop_last(), f, g);
        assert(f(s.last()) == g(s.last()));
    }
}

proof fn lemma_sum_inserted<T>(s: Seq<T>, p: int, e: T, f: spec_fn(T) -> int)
    requires
        0 <= p <= s.len(),
    ensures
        sum_over(s.insert(p, e), f) == sum_over(s, f) + f(e),
    decreases s.len(),
{
    let t = s.insert(p, e);
    if p == s.len() {
        assert(t.drop_last() =~= s);
    } else {
        assert(t.drop_last() =~= s.drop_last().insert(p, e));
        lemma_sum_inserted(s.drop_last(), p, e, f);
    }
}

proof fn lemma_sum_sorted<T>(s: Seq<T>, key: spec_fn(T) -> int, f: spec_fn(T) -> int)
    ensures
        sum_over(sorted_by(s, key), f) == sum_over(s, f),
    decreases s.len(),
{
    if s.len() > 0 {
        let before = sorted_by(s.drop_last(), key);
        lemma_sum_sorted(s.drop_last(), key, f);
        lemma_place_by(before, key, key(s.last()));
        lemma_sum_inserted(before, place_by(before, key, key(s.last())), s.last(), f);
    }
}

proof fn lemma_group_power(g: Seq<(Seq<char>, Seq<EntryView>)>)
    ensures
        sum_over_groups(g, |e: EntryView| e.uw as int) == sum_over(
            g,
            |t: (Seq<char>, Seq<EntryView>)| power_sum(t.1),
        ),
    decreases g.len(),
{
    if g.len() > 0 {
        lemma_group_power(g.drop_last());
    }
}

/// The teams' power adds up to the power of all namespaces of all clusters: no namespace is left
/// out or counted twice, whoever owns it.
pub proof fn law_teams_add_up(registry: ClusterRegistry)
    ensures
        sum_over(
            ranked_teams(registry.teams()),
            |t: (Seq<char>, Seq<EntryView>)| power_sum(t.1),
        ) == all_namespace_power(registry.clusters@, registry.clusters@.len() as int),
{
    let n = registry.clusters@.len() as int;
    let entries = team_entries(registry.namespace_owners@, registry.clusters@, n);
    let uw = |e: EntryView| e.uw as int;
    lemma_entry_power(registry.namespace_owners@, registry.clusters@, n);
    law_groups_conserve(entries, uw);
    lemma_sum_same(
        entries,
        |e: (Seq<char>, EntryView)| uw(e.1),
        |e: (Seq<char>, EntryView)| listed_power(e),
    );
    lemma_group_power(registry.teams());
    lemma_sum_sorted(
        registry.teams(),
        |e: (Seq<char>, Seq<EntryView>)| by_team_power(e),
        |t: (Seq<char>, Seq<EntryView>)| power_sum(t.1),
    );
}

/// Both rankings run from the highest power to the lowest.
pub proof fn law_rankings_descend(registry: ClusterRegistry)
    ensures
        forall|i: int, j: int|
            0 <= i <= j < ranked_clusters(registry.clusters@).len() ==> (
            #[trigger] ranked_clusters(registry.clusters@)[i]).1.latest_report.power.total_uw >= (
            #[trigger] ranked_clusters(registry.clusters@)[j]).1.latest_report.power.total_uw,
        forall|i: int, j: int|
            0 <= i <= j < ranked_teams(registry.teams()).len() ==> power_sum(
                (#[trigger] ranked_teams(registry.teams())[i]).1,
            ) >= power_sum((#[trigger] ranked_teams(registry.teams())[j]).1),
{
    let key = |e: (String, ClusterState)| by_power(e);
    let team_key = |e: (Seq<char>, Seq<EntryView>)| by_team_power(e);
    law_sorted_by(registry.clusters@, key);
    law_sorted_by(registry.teams(), team_key);
    let c = ranked_clusters(registry.clusters@);
    let t = ranked_teams(registry.teams());
    assert forall|i: int, j: int| 0 <= i <= j < c.len() implies (
    #[trigger] c[i]).1.latest_report.power.total_uw >= (
    #[trigger] c[j]).1.latest_report.power.total_uw by {
        assert(key(c[i]) <= key(c[j]));
    }
    assert forall|i: int, j: int| 0 <= i <= j < t.len() implies power_sum((#[trigger] t[i]).1)
        >= power_sum((#[trigger] t[j]).1) by {
        assert(team_key(t[i]) <= team_key(t[j]));
    }
}

/// A cluster that has just reported is active, whatever was known of it.
pub proof fn law_reporting_cluster_is_active(
    s: ClusterState,
    report: ClusterReport,
    power: Seq<(u64, u64)>,
    carbon: Seq<(u64, u64)>,
    now: u64,
    wall: u64,
    retention: u64,
    threshold: u64,
)
    requires
        is_state(s, report, power, carbon, now, wall, retention),
        threshold > 0,
    ensures
        active(s, now, threshold),
        seconds_ago(s, now) == 0,
{
}

/// Eviction leaves active clusters only, and all of them; evicting again changes nothing.
pub proof fn law_eviction(before: ClusterRegistry, after: ClusterRegistry, now: u64)
    requires
        after.clusters@ == before.active_list(now),
        after.staleness_threshold == before.staleness_threshold,
    ensures
        forall|e: (String, ClusterState)| #[trigger]
            after.clusters@.contains(e) <==> before.clusters@.contains(e) && active(
                e.1,
                now,
                before.staleness_threshold,
            ),
        after.active_list(now) == after.clusters@,
{
    let p = |e: (String, ClusterState)| active(e.1, now, before.staleness_threshold);
    let q = |e: (String, ClusterState)| active(e.1, now, after.staleness_threshold);
    lemma_filter(before.clusters@, p);
    lemma_filter_kept(after.clusters@, q);
}

proof fn lemma_filter_kept<T>(s: Seq<T>, p: spec_fn(T) -> bool)
    requires
        forall|i: int| 0 <= i < s.len() ==> p(#[trigger] s[i]),
    ensures
        s.filter(p) == s,
    decreases s.len(),
{
    reveal(Seq::filter);
    if s.len() > 0 {
        assert forall|i: int| 0 <= i < s.drop_last().len() implies p(
            #[trigger] s.drop_last()[i],
        ) by {
            assert(p(s[i]));
        }
        lemma_filter_kept(s.drop_last(), p);
        assert(p(s[s.len() - 1]));
        assert(s.drop_last().push(s.last()) =~= s);
    }
    assert(s.filter(p) =~= s);
}

// ─── What the views say of the reports ──────────────────────────

/// What all clusters report together, by what each report counts for.
pub open spec fn reported_by_clusters(
    clusters: Seq<(String, ClusterState)>,
    count: spec_fn(ClusterReport) -> int,
) -> int {
    sum_of(clusters, counted_cluster(count))
}

/// What a cluster counts for by its last report.
pub open spec fn counted_cluster(count: spec_fn(ClusterReport) -> int) -> spec_fn(
    (String, ClusterState),
) -> int {
    |e: (String, ClusterState)| count(e.1.latest_report)
}

proof fn lemma_figure_sum(
    clusters: Seq<(String, ClusterState)>,
    f: Figure,
    count: spec_fn(ClusterReport) -> int,
)
    requires
        forall|r: ClusterReport| #[trigger] count(r) == figure(r, f),
    ensures
        figure_sum(clusters, f) == reported_by_clusters(clusters, count),
    decreases clusters.len(),
{
    if clusters.len() > 0 {
        lemma_figure_sum(clusters.drop_last(), f, count);
    }
}

/// Each figure of the fleet is the sum of the field of the same name over the last reports of its
/// clusters. A cluster's cost in an hour is its power by its price.
pub proof fn law_fleet_figures(registry: ClusterRegistry, r: FleetSummary, now: u64)
    requires
        registry.is_fleet_summary(r, now),
    ensures
        r.total_uw == reported_by_clusters(
            registry.clusters@,
            |c: ClusterReport| c.power.total_uw as int,
        ),
        r.total_cpu_uw == reported_by_clusters(
            registry.clusters@,
            |c: ClusterReport| c.power.cpu_uw as int,
        ),
        r.total_memory_uw == reported_by_clusters(
            registry.clusters@,
            |c: ClusterReport| c.power.memory_uw as int,
        ),
        r.total_gpu_uw == reported_by_clusters(
            registry.clusters@,
            |c: ClusterReport| c.power.gpu_uw as int,
        ),
        r.total_idle_uw == reported_by_clusters(
            registry.clusters@,
            |c: ClusterReport| c.power.idle_uw as int,
        ),
        r.total_carbon_ug_per_hour == reported_by_clusters(
            registry.clusters@,
            |c: ClusterReport| c.carbon.emissions_ug_per_hour as int,
        ),
        r.total_cost_femto_per_hour == reported_by_clusters(
            registry.clusters@,
            |c: ClusterReport| c.power.total_uw * c.carbon.cost_micros_per_kwh,
        ),
        r.total_nodes == reported_by_clusters(
            registry.clusters@,
            |c: ClusterReport| c.node_count as int,
        ),
        r.total_pods == reported_by_clusters(
            registry.clusters@,
            |c: ClusterReport| c.pod_count as int,
        ),
        r.cluster_count == registry.clusters@.len(),
        r.clusters@.len() == registry.clusters@.len(),
        forall|i: int, j: int|
            0 <= i < j < r.clusters@.len() ==> (#[trigger] r.clusters@[i]).total_uw >= (
            #[trigger] r.clusters@[j]).total_uw,
{
    let c = registry.clusters@;
    lemma_figure_sum(c, Figure::Total, |c: ClusterReport| c.power.total_uw as int);
    lemma_figure_sum(c, Figure::Cpu, |c: ClusterReport| c.power.cpu_uw as int);
    lemma_figure_sum(c, Figure::Memory, |c: ClusterReport| c.power.memory_uw as int);
    lemma_figure_sum(c, Figure::Gpu, |c: ClusterReport| c.power.gpu_uw as int);
    lemma_figure_sum(c, Figure::Idle, |c: ClusterReport| c.power.idle_uw as int);
    lemma_figure_sum(c, Figure::Carbon, |c: ClusterReport| c.carbon.emissions_ug_per_hour as int);
    lemma_figure_sum(
        c,
        Figure::Cost,
        |c: ClusterReport| c.power.total_uw * c.carbon.cost_micros_per_kwh,
    );
    lemma_figure_sum(c, Figure::Nodes, |c: ClusterReport| c.node_count as int);
    lemma_figure_sum(c, Figure::Pods, |c: ClusterReport| c.pod_count as int);
    law_rankings_descend(registry);
    let ranked = ranked_clusters(c);
    assert forall|i: int, j: int| 0 <= i < j < r.clusters@.len() implies (
    #[trigger] r.clusters@[i]).total_uw >= (#[trigger] r.clusters@[j]).total_uw by {
        assert(is_cluster_view(r.clusters@[i], ranked[i].1, now));
        assert(is_cluster_view(r.clusters@[j], ranked[j].1, now));
        assert(ranked[i].1.latest_report.power.total_uw >= ranked[j].1.latest_report.power.total_uw);
    }
}

/// A cluster's view tells what the cluster last reported, and how long ago in whole seconds.
pub proof fn law_cluster_view(v: ClusterView, s: ClusterState, now: u64)
    requires
        is_cluster_view(v, s, now),
        now >= s.received_at,
    ensures
        v.cluster_id@ == s.latest_report.cluster_id@,
        v.cluster_name@ == s.latest_report.cluster_name@,
        v.region@ == s.latest_report.region@,
        v.total_uw == s.latest_report.power.total_uw,
        v.carbon_ug_per_hour == s.latest_report.carbon.emissions_ug_per_hour,
        v.carbon_intensity == s.latest_report.carbon.intensity_mg_per_kwh,
        v.cost_femto_per_hour == s.latest_report.power.total_uw
            * s.latest_report.carbon.cost_micros_per_kwh,
        v.node_count == s.latest_report.node_count,
        v.pod_count == s.latest_report.pod_count,
        v.error_ratio_atto == s.latest_report.avg_error_ratio_atto,
        v.last_seen_secs_ago * 1_000_000_000 <= now - s.received_at < (v.last_seen_secs_ago + 1)
            * 1_000_000_000,
{
}

/// A kilowatt for an hour costs the price of a kilowatt-hour and emits the intensity of one; cost
/// and emissions go with power.
pub proof fn law_kilowatt_hour(price: u32, intensity_mg: u32, a: u64, b: u64)
    requires
        a + b <= u64::MAX,
    ensures
        cost_per_hour(1_000_000_000, price) == price * 1_000_000_000,
        carbon_per_hour(1_000_000_000, intensity_mg) == intensity_mg * 1_000_000_000,
        cost_per_hour((a + b) as u64, price) == cost_per_hour(a, price) + cost_per_hour(b, price),
        carbon_per_hour((a + b) as u64, intensity_mg) == carbon_per_hour(a, intensity_mg)
            + carbon_per_hour(b, intensity_mg),
{
    assert((a + b) * price == a * price + b * price) by (nonlinear_arith);
    assert((a + b) * intensity_mg == a * intensity_mg + b * intensity_mg) by (nonlinear_arith);
}

/// A cluster is active while less than the threshold has passed since its last report, and a
/// history keeps what is no older than the retention.
pub proof fn law_recency(s: ClusterState, now: u64, threshold: u64, ts: u64, wall: u64, retention: u64)
    requires
        now >= s.received_at,
    ensures
        active(s, now, threshold) <==> now - s.received_at < threshold,
        recent(ts, wall, retention) <==> wall - ts <= retention,
{
}

/// What a namespace counts for in a team, by what its report counts for.
pub open spec fn team_counted(
    owners: Seq<(String, String)>,
    team: Seq<char>,
    r: ClusterReport,
    count: spec_fn(ClusterReport, NamespaceSummary) -> int,
) -> spec_fn(NamespaceSummary) -> int {
    |n: NamespaceSummary|
        if team == (if lookup(owners, n.namespace@) is Some {
            lookup(owners, n.namespace@)->0@
        } else {
            "unassigned"@
        }) {
            count(r, n)
        } else {
            0
        }
}

/// What the namespaces of a cluster count for in a team.
pub open spec fn cluster_counted(
    owners: Seq<(String, String)>,
    team: Seq<char>,
    count: spec_fn(ClusterReport, NamespaceSummary) -> int,
) -> spec_fn((String, ClusterState)) -> int {
    |e: (String, ClusterState)|
        sum_of(
            e.1.latest_report.namespaces@,
            team_counted(owners, team, e.1.latest_report, count),
        )
}

/// What the namespaces of a team count for in all clusters.
pub open spec fn owned_by(
    registry: ClusterRegistry,
    team: Seq<char>,
    count: spec_fn(ClusterReport, NamespaceSummary) -> int,
) -> int {
    sum_of(registry.clusters@, cluster_counted(registry.namespace_owners@, team, count))
}

proof fn lemma_cluster_owned(
    owners: Seq<(String, String)>,
    r: ClusterReport,
    n: int,
    team: Seq<char>,
    f: spec_fn(EntryView) -> int,
    count: spec_fn(ClusterReport, NamespaceSummary) -> int,
)
    requires
        0 <= n <= r.namespaces@.len(),
        forall|r: ClusterReport, n: NamespaceSummary| #[trigger] count(r, n) == f(entry_of(r, n)),
    ensures
        sum_of(cluster_entries(owners, r, n), in_group(team, f)) == sum_of(
            r.namespaces@.take(n),
            team_counted(owners, team, r, count),
        ),
    decreases n,
{
    if n > 0 {
        lemma_cluster_owned(owners, r, n - 1, team, f, count);
        let ns = r.namespaces@[n - 1];
        let before = cluster_entries(owners, r, n - 1);
        let e = (team_of(owners, ns.namespace@), entry_of(r, ns));
        lemma_sum_push(before, e, in_group(team, f));
        assert(r.namespaces@.take(n).drop_last() =~= r.namespaces@.take(n - 1));
        assert(r.namespaces@.take(n).last() == ns);
        assert(count(r, ns) == f(entry_of(r, ns)));
    } else {
        assert(r.namespaces@.take(0) =~= Seq::empty());
    }
}

proof fn lemma_owned(
    owners: Seq<(String, String)>,
    clusters: Seq<(String, ClusterState)>,
    n: int,
    team: Seq<char>,
    f: spec_fn(EntryView) -> int,
    count: spec_fn(ClusterReport, NamespaceSummary) -> int,
)
    requires
        0 <= n <= clusters.len(),
        forall|r: ClusterReport, n: NamespaceSummary| #[trigger] count(r, n) == f(entry_of(r, n)),
    ensures
        sum_of(team_entries(owners, clusters, n), in_group(team, f)) == sum_of(
            clusters.take(n),
            cluster_counted(owners, team, count),
        ),
    decreases n,
{
    if n > 0 {
        lemma_owned(owners, clusters, n - 1, team, f, count);
        let r = clusters[n - 1].1.latest_report;
        let all = r.namespaces@.len() as int;
        lemma_cluster_owned(owners, r, all, team, f, count);
        assert(r.namespaces@.take(all) =~= r.namespaces@);
        lemma_sum_concat(
            team_entries(owners, clusters, n - 1),
            cluster_entries(owners, r, all),
            in_group(team, f),
        );
        assert(clusters.take(n).drop_last() =~= clusters.take(n - 1));
        assert(clusters.take(n).last() == clusters[n - 1]);
    } else {
        assert(clusters.take(0) =~= Seq::empty());
    }
}

/// A team's power is that of all namespaces that it owns in all clusters; its cost and emissions
/// are what each of these comes to by the price and the intensity of its own cluster. A namespace
/// without an owner is of the team "unassigned".
pub proof fn law_team_owns(registry: ClusterRegistry, v: TeamPowerView, k: int)
    requires
        0 <= k < registry.teams().len(),
        is_team_view(v, registry.teams()[k]),
    ensures
        v.total_uw == owned_by(
            registry,
            v.team@,
            |r: ClusterReport, n: NamespaceSummary| n.total_uw as int,
        ),
        v.cost_femto_per_hour == owned_by(
            registry,
            v.team@,
            |r: ClusterReport, n: NamespaceSummary| n.total_uw * r.carbon.cost_micros_per_kwh,
        ),
        v.carbon_pg_per_hour == owned_by(
            registry,
            v.team@,
            |r: ClusterReport, n: NamespaceSummary| n.total_uw * r.carbon.intensity_mg_per_kwh,
        ),
        v.per_cluster@.len() == owned_by(
            registry,
            v.team@,
            |r: ClusterReport, n: NamespaceSummary| 1int,
        ),
{
    let c = registry.clusters@;
    let n = c.len() as int;
    let owners = registry.namespace_owners@;
    let items = team_entries(owners, c, n);
    let g = registry.teams();
    let team = v.team@;
    assert(c.take(n) =~= c);
    let uw = |e: EntryView| e.uw as int;
    let cost = |e: EntryView| e.cost_femto;
    let carbon = |e: EntryView| e.carbon_pg;
    let one = |e: EntryView| 1int;
    law_group_holds_its_own(items, team, uw);
    law_group_holds_its_own(items, team, cost);
    law_group_holds_its_own(items, team, carbon);
    law_group_holds_its_own(items, team, one);
    lemma_group_index(g, team);
    let i = group_index(g, team);
    assert(i == k) by {
        assert(g[k].0 == team);
        if i < k && i >= 0 {
            assert(g[i].0 != g[k].0);
        }
        if k < i {
            assert(g[k].0 != g[i].0);
        }
    }
    lemma_owned(
        owners,
        c,
        n,
        team,
        uw,
        |r: ClusterReport, n: NamespaceSummary| n.total_uw as int,
    );
    lemma_owned(
        owners,
        c,
        n,
        team,
        cost,
        |r: ClusterReport, n: NamespaceSummary| n.total_uw * r.carbon.cost_micros_per_kwh,
    );
    lemma_owned(
        owners,
        c,
        n,
        team,
        carbon,
        |r: ClusterReport, n: NamespaceSummary| n.total_uw * r.carbon.intensity_mg_per_kwh,
    );
    lemma_owned(owners, c, n, team, one, |r: ClusterReport, n: NamespaceSummary| 1int);
    lemma_count(g[k].1, one);
}

proof fn lemma_count(entries: Seq<EntryView>, one: spec_fn(EntryView) -> int)
    requires
        forall|e: EntryView| #[trigger] one(e) == 1,
    ensures
        sum_over(entries, one) == entries.len(),
    decreases entries.len(),
{
    if entries.len() > 0 {
        lemma_count(entries.drop_last(), one);
    }
}

/// A team is known if and only if it owns a namespace that a cluster reported; one that owns none
/// has no power.
pub proof fn law_team_is_known(registry: ClusterRegistry, team: Seq<char>)
    ensures
        group_index(registry.teams(), team) < 0 ==> owned_by(
            registry,
            team,
            |r: ClusterReport, n: NamespaceSummary| n.total_uw as int,
        ) == 0,
{
    let c = registry.clusters@;
    let n = c.len() as int;
    let uw = |e: EntryView| e.uw as int;
    assert(c.take(n) =~= c);
    law_group_holds_its_own(team_entries(registry.namespace_owners@, c, n), team, uw);
    lemma_owned(
        registry.namespace_owners@,
        c,
        n,
        team,
        uw,
        |r: ClusterReport, n: NamespaceSummary| n.total_uw as int,
    );
}

/// What a known team uses.
pub proof fn lemma_team_power(registry: ClusterRegistry, team: Seq<char>)
    ensures
        group_index(registry.teams(), team) >= 0 ==> power_sum(
            registry.teams()[group_index(registry.teams(), team)].1,
        ) == owned_by(
            registry,
            team,
            |r: ClusterReport, n: NamespaceSummary| n.total_uw as int,
        ),
{
    let c = registry.clusters@;
    let n = c.len() as int;
    let uw = |e: EntryView| e.uw as int;
    assert(c.take(n) =~= c);
    law_group_holds_its_own(team_entries(registry.namespace_owners@, c, n), team, uw);
    lemma_owned(
        registry.namespace_owners@,
        c,
        n,
        team,
        uw,
        |r: ClusterReport, n: NamespaceSummary| n.total_uw as int,
    );
}

/// What a value in a history counts for while it is no older than the retention.
pub open spec fn counted_recent(
    wall: u64,
    retention: u64,
    count: spec_fn((u64, u64)) -> int,
) -> spec_fn((u64, u64)) -> int {
    |e: (u64, u64)|
        if e.0 + retention >= wall {
            count(e)
        } else {
            0
        }
}

proof fn lemma_history(
    h: Seq<(u64, u64)>,
    ts: u64,
    value: u64,
    wall: u64,
    retention: u64,
    count: spec_fn((u64, u64)) -> int,
)
    ensures
        sum_of(history_with(h, ts, value, wall, retention), count) == sum_of(
            h,
            counted_recent(wall, retention, count),
        ) + counted_recent(wall, retention, count)((ts, value)),
{
    let g = counted_recent(wall, retention, count);
    lemma_sum_filter(
        h.push((ts, value)),
        |e: (u64, u64)| recent(e.0, wall, retention),
        count,
        g,
    );
    lemma_sum_push(h, (ts, value), g);
}

/// Once a report is in, it is its cluster's last one and came now. The histories hold the power
/// and the emissions that it tells, at its time, and what they held before, as far as it is no
/// older than the retention; nothing else, and each as often as it was there.
pub proof fn law_report_is_recorded(
    s: ClusterState,
    report: ClusterReport,
    power_history: Seq<(u64, u64)>,
    carbon_history: Seq<(u64, u64)>,
    now: u64,
    wall: u64,
    retention: u64,
    count: spec_fn((u64, u64)) -> int,
)
    requires
        is_state(s, report, power_history, carbon_history, now, wall, retention),
    ensures
        s.latest_report == report,
        s.received_at == now,
        sum_of(s.power_history@, count) == sum_of(
            power_history,
            counted_recent(wall, retention, count),
        ) + counted_recent(wall, retention, count)((report.timestamp_ns, report.power.total_uw)),
        sum_of(s.carbon_history@, count) == sum_of(
            carbon_history,
            counted_recent(wall, retention, count),
        ) + counted_recent(wall, retention, count)(
            (report.timestamp_ns, report.carbon.emissions_ug_per_hour),
        ),
{
    lemma_history(
        power_history,
        report.timestamp_ns,
        report.power.total_uw,
        wall,
        retention,
        count,
    );
    lemma_history(
        carbon_history,
        report.timestamp_ns,
        report.carbon.emissions_ug_per_hour,
        wall,
        retention,
        count,
    );
}

/// The cluster with the lowest carbon intensity emits no more per kWh than any that reported
/// lately.
pub proof fn law_lowest_carbon(
    clusters: Seq<(String, ClusterState)>,
    k: int,
    j: int,
    now: u64,
    threshold: u64,
)
    requires
        is_lowest(clusters, k, now, threshold),
        0 <= j < clusters.len(),
        now - clusters[j].1.received_at < threshold,
        threshold > 0,
    ensures
        clusters[k].1.latest_report.carbon.intensity_mg_per_kwh
            <= clusters[j].1.latest_report.carbon.intensity_mg_per_kwh,
        j < k ==> clusters[k].1.latest_report.carbon.intensity_mg_per_kwh
            < clusters[j].1.latest_report.carbon.intensity_mg_per_kwh,
{
    assert(active(clusters[j].1, now, threshold));
}

/// The active clusters are those that reported less than the threshold ago, each as often as it is
/// registered.
pub proof fn law_active_clusters(
    registry: ClusterRegistry,
    now: u64,
    count: spec_fn((String, ClusterState)) -> int,
)
    requires
        registry.staleness_threshold > 0,
    ensures
        sum_of(registry.active_list(now), count) == sum_of(
            registry.clusters@,
            |e: (String, ClusterState)|
                if now - e.1.received_at < registry.staleness_threshold {
                    count(e)
                } else {
                    0
                },
        ),
{
    lemma_sum_filter(
        registry.clusters@,
        |e: (String, ClusterState)| active(e.1, now, registry.staleness_threshold),
        count,
        |e: (String, ClusterState)|
            if now - e.1.received_at < registry.staleness_threshold {
                count(e)
            } else {
                0
            },
    );
}

/// What is known of a cluster is what it reported last, and since when; a report changes nothing
/// that is known of another cluster.
pub proof fn law_report_is_of_its_cluster(
    before: ClusterRegistry,
    after: ClusterRegistry,
    report: ClusterReport,
    now: u64,
    wall: u64,
    other: Seq<char>,
)
    requires
        before.well_formed(),
        after.well_formed(),
        before.takes_in(after, report, now, wall),
    ensures
        match lookup(after.clusters@, report.cluster_id@) {
            Some(s) => s.latest_report == report && s.received_at == now,
            None => false,
        },
        other != report.cluster_id@ ==> lookup(after.clusters@, other) == lookup(
            before.clusters@,
            other,
        ),
{
    let b = before.clusters@;
    let a = after.clusters@;
    let id = report.cluster_id@;
    let p = position(b, id);
    lemma_position(b, id);
    lemma_position(a, id);
    lemma_position(b, other);
    lemma_position(a, other);
    if p >= 0 {
        lemma_position_unique(a, p);
        if other != id {
            let q = position(b, other);
            if q >= 0 {
                assert(a[q] == b[q]);
                lemma_position_unique(a, q);
            } else {
                let k = position(a, other);
                if k >= 0 && k != p {
                    assert(a[k] == b[k]);
                }
            }
        }
    } else {
        lemma_position_unique(a, a.len() - 1);
        if other != id {
            assert(position(a, other) == position(a.drop_last(), other));
        }
    }
}

} // verus!
