//! Reporting engine: generates periodic ESG and compliance reports.
//!
//! Energy is in microwatt hours; emissions are in micrograms of CO2 equivalent, or in picograms
//! where a power makes them; costs are in units of 10⁻¹⁵ of the currency.

use crate::arith::lemma_floor;
use crate::fleet::registry::{
    by_power, carbon_sum, cost_per_hour, cost_sum, figure_sum, is_cluster_view, is_team_view,
    law_fleet_figures, law_rankings_descend, law_team_owns, owned_by, power_sum, ranked_clusters,
    ranked_teams, reported_by_clusters, within_limits, ClusterRegistry, ClusterReport,
    ClusterState, ClusterView, EntryView, Figure, FleetSummary, NamespaceSummary, TeamPowerView,
};
use crate::sort::law_sorted_by;
use crate::text::joined;
use vstd::prelude::*;

verus! {

/// A generated report.
#[derive(Debug)]
pub struct Report {
    pub id: String,
    pub report_type: ReportType,
    /// Nanoseconds since the Unix epoch
    pub generated_at_ns: u64,
    pub period_start_ns: i128,
    pub period_end_ns: u64,
    pub data: ReportData,
}

#[derive(Clone, Copy, Debug, PartialEq, Eq, Structural)]
pub enum ReportType {
    DailySummary,
    MonthlyESG,
    OnDemandAudit,
}

#[derive(Debug)]
pub struct ReportData {
    /// Fleet totals for the period
    pub fleet: FleetPeriodSummary,
    /// Per-cluster breakdown
    pub clusters: Vec<ClusterPeriodSummary>,
    /// Per-team breakdown
    pub teams: Vec<TeamPeriodSummary>,
}

#[derive(Debug)]
pub struct FleetPeriodSummary {
    /// Total energy consumed
    pub energy_uwh: u128,
    /// Total carbon emissions
    pub carbon_ug: u128,
    /// Total cost, in units of 10⁻¹⁵ of the currency
    pub cost_femto: u128,
    pub cost_currency: String,
    /// Average power in microwatts
    pub avg_power_uw: u128,
    /// Peak power in microwatts
    pub peak_power_uw: u128,
    /// Average carbon intensity (weighted by energy), in micrograms per kWh
    pub avg_carbon_intensity: u128,
}

#[derive(Debug)]
pub struct ClusterPeriodSummary {
    pub cluster_name: String,
    pub region: String,
    pub energy_uwh: u128,
    pub carbon_ug: u128,
    /// In units of 10⁻¹⁵ of the currency
    pub cost_femto: u128,
    pub avg_power_uw: u64,
}

#[derive(Debug)]
pub struct TeamPeriodSummary {
    pub team: String,
    pub energy_uwh: u128,
    /// In picograms
    pub carbon_pg: u128,
    /// In units of 10⁻¹⁵ of the currency
    pub cost_femto: u128,
    pub namespace_count: usize,
}

/// Hours in the period of a daily report.
pub const HOURS: u128 = 24;

/// A day in nanoseconds.
pub const DAY_NS: i128 = 86_400_000_000_000;

/// The carbon intensity of emissions and energy, in micrograms per kWh.
pub open spec fn intensity_of(carbon_ug: int, energy_uwh: int) -> int {
    if energy_uwh > 0 {
        carbon_ug * 1_000_000_000 / energy_uwh
    } else {
        0
    }
}

/// A day of the fleet at its present power.
pub open spec fn is_fleet_day(f: FleetPeriodSummary, clusters: Seq<(String, ClusterState)>) -> bool {
    let uw = figure_sum(clusters, Figure::Total);
    let carbon = figure_sum(clusters, Figure::Carbon);
    &&& f.energy_uwh == uw * 24
    &&& f.carbon_ug == carbon * 24
    &&& f.cost_femto == figure_sum(clusters, Figure::Cost) * 24
    &&& f.cost_currency@ == "USD"@
    &&& f.avg_power_uw == uw
    &&& f.peak_power_uw == uw
    &&& f.avg_carbon_intensity == intensity_of(carbon * 24, uw * 24)
}

/// A day of a cluster at its present power.
pub open spec fn is_cluster_day(c: ClusterPeriodSummary, s: ClusterState) -> bool {
    let r = s.latest_report;
    &&& c.cluster_name@ == r.cluster_name@
    &&& c.region@ == r.region@
    &&& c.energy_uwh == r.power.total_uw * 24
    &&& c.carbon_ug == r.carbon.emissions_ug_per_hour * 24
    &&& c.cost_femto == cost_per_hour(r.power.total_uw, r.carbon.cost_micros_per_kwh) * 24
    &&& c.avg_power_uw == r.power.total_uw
}

/// A day of a team at its present power.
pub open spec fn is_team_day(t: TeamPeriodSummary, g: (Seq<char>, Seq<EntryView>)) -> bool {
    &&& t.team@ == g.0
    &&& t.energy_uwh == power_sum(g.1) * 24
    &&& t.carbon_pg == carbon_sum(g.1) * 24
    &&& t.cost_femto == cost_sum(g.1) * 24
    &&& t.namespace_count == g.1.len()
}

/// The daily report on a registry under a stamp.
pub open spec fn is_daily_report(r: Report, registry: ClusterRegistry, stamp: Seq<char>, wall: u64) -> bool {
    let clusters = ranked_clusters(registry.clusters@);
    let teams = ranked_teams(registry.teams());
    &&& r.id@ == "daily-"@ + stamp
    &&& r.report_type == ReportType::DailySummary
    &&& r.generated_at_ns == wall
    &&& r.period_start_ns == wall - DAY_NS
    &&& r.period_end_ns == wall
    &&& is_fleet_day(r.data.fleet, registry.clusters@)
    &&& r.data.clusters@.len() == clusters.len()
    &&& forall|i: int|
        0 <= i < clusters.len() ==> is_cluster_day(#[trigger] r.data.clusters@[i], clusters[i].1)
    &&& r.data.teams@.len() == teams.len()
    &&& forall|i: int| 0 <= i < teams.len() ==> is_team_day(#[trigger] r.data.teams@[i], teams[i])
}

fn cluster_day(c: &ClusterView, s: Ghost<ClusterState>, now: Ghost<u64>) -> (r: ClusterPeriodSummary)
    requires
        is_cluster_view(*c, s@, now@),
    ensures
        is_cluster_day(r, s@),
{
    proof {
        let report = s@.latest_report;
        let uw = report.power.total_uw as int;
        let price = report.carbon.cost_micros_per_kwh as int;
        assert(0 <= uw * price <= 0xffff_ffff_ffff_ffff * 0xffff_ffff) by (nonlinear_arith)
            requires
                0 <= uw <= 0xffff_ffff_ffff_ffff,
                0 <= price <= 0xffff_ffff,
        ;
    }
    ClusterPeriodSummary {
        cluster_name: c.cluster_name.clone(),
        region: c.region.clone(),
        energy_uwh: c.total_uw as u128 * HOURS,
        carbon_ug: c.carbon_ug_per_hour as u128 * HOURS,
        cost_femto: c.cost_femto_per_hour * HOURS,
        avg_power_uw: c.total_uw,
    }
}

fn team_day(t: &TeamPowerView, g: Ghost<(Seq<char>, Seq<EntryView>)>) -> (r: TeamPeriodSummary)
    requires
        is_team_view(*t, g@),
        within_limits(*t),
    ensures
        is_team_day(r, g@),
{
    TeamPeriodSummary {
        team: t.team.clone(),
        energy_uwh: t.total_uw * HOURS,
        carbon_pg: t.carbon_pg_per_hour * HOURS,
        cost_femto: t.cost_femto_per_hour * HOURS,
        namespace_count: t.per_cluster.len(),
    }
}

/// The daily summary report at `now` on the monotonic clock and `wall` since the Unix epoch,
/// under a stamp of that time. It extrapolates from current readings.
pub fn daily_report(registry: &ClusterRegistry, stamp: &str, now: u64, wall: u64) -> (r: Report)
    requires
        registry.countable(),
    ensures
        is_daily_report(r, *registry, stamp@, wall),
{
    let fleet: FleetSummary = registry.fleet_summary(now);
    let energy_uwh: u128 = fleet.total_uw * HOURS;
    let carbon_ug: u128 = fleet.total_carbon_ug_per_hour * HOURS;
    let ghost ranked = ranked_clusters(registry.clusters@);
    let mut clusters: Vec<ClusterPeriodSummary> = Vec::new();
    let mut i: usize = 0;
    while i < fleet.clusters.len()
        invariant
            i <= fleet.clusters@.len() == ranked.len(),
            forall|j: int|
                0 <= j < ranked.len() ==> is_cluster_view(
                    #[trigger] fleet.clusters@[j],
                    ranked[j].1,
                    now,
                ),
            clusters@.len() == i,
            forall|j: int| 0 <= j < i ==> is_cluster_day(#[trigger] clusters@[j], ranked[j].1),
        decreases fleet.clusters@.len() - i,
    {
        assert(is_cluster_view(fleet.clusters@[i as int], ranked[i as int].1, now));
        clusters.push(cluster_day(&fleet.clusters[i], Ghost(ranked[i as int].1), Ghost(now)));
        i = i + 1;
    }
    let views: Vec<TeamPowerView> = registry.team_power();
    let ghost ranked = ranked_teams(registry.teams());
    let mut teams: Vec<TeamPeriodSummary> = Vec::new();
    let mut k: usize = 0;
    while k < views.len()
        invariant
            k <= views@.len() == ranked.len(),
            forall|j: int|
                0 <= j < ranked.len() ==> is_team_view(#[trigger] views@[j], ranked[j])
                    && within_limits(views@[j]),
            teams@.len() == k,
            forall|j: int| 0 <= j < k ==> is_team_day(#[trigger] teams@[j], ranked[j]),
        decreases views@.len() - k,
    {
        assert(is_team_view(views@[k as int], ranked[k as int]));
        teams.push(team_day(&views[k], Ghost(ranked[k as int])));
        k = k + 1;
    }
    let avg_carbon_intensity: u128 = if energy_uwh > 0 {
        carbon_ug * 1_000_000_000 / energy_uwh
    } else {
        0
    };
    Report {
        id: joined("daily-", stamp),
        report_type: ReportType::DailySummary,
        generated_at_ns: wall,
        period_start_ns: wall as i128 - DAY_NS,
        period_end_ns: wall,
        data: ReportData {
            fleet: FleetPeriodSummary {
                energy_uwh,
                carbon_ug,
                cost_femto: fleet.total_cost_femto_per_hour * HOURS,
                cost_currency: fleet.total_cost_currency,
                avg_power_uw: fleet.total_uw,
                peak_power_uw: fleet.total_uw,
                avg_carbon_intensity,
            },
            clusters,
            teams,
        },
    }
}

/// The UTC date and time of a number of seconds since the Unix epoch, written in a format.
pub uninterp spec fn utc_text(secs: u64, format: Seq<char>) -> Seq<char>;

/// Calls `chrono::DateTime::<Utc>::from_timestamp` and `format`. Claimed is only that the text
/// depends on the seconds and the format alone. Up to the year 2554 the conversion has a result,
/// and every item of the format is one that can be written.
#[verifier::external_body]
fn format_time(secs: u64, format: &str) -> (s: String)
    requires
        secs <= 18_446_744_073,
        format@ == "%Y%m%d-%H%M%S"@,
    ensures
        s@ == utc_text(secs, format@),
{
    chrono::DateTime::<chrono::Utc>::from_timestamp(secs as i64, 0)
        .unwrap()
        .format(format)
        .to_string()
}

/// Generates a daily summary report from current fleet state.
pub fn generate_daily_report(registry: &ClusterRegistry, now: u64, wall: u64) -> (r: Report)
    requires
        registry.countable(),
    ensures
        is_daily_report(
            r,
            *registry,
            utc_text((wall / 1_000_000_000) as u64, "%Y%m%d-%H%M%S"@),
            wall,
        ),
{
    let stamp: String = format_time(wall / 1_000_000_000, "%Y%m%d-%H%M%S");
    daily_report(registry, stamp.as_str(), now, wall)
}

/// What a report is called in a message.
pub fn report_kind(t: ReportType) -> (s: &'static str)
    ensures
        s@ == match t {
            ReportType::DailySummary => "daily"@,
            ReportType::MonthlyESG => "monthly"@,
            ReportType::OnDemandAudit => "audit"@,
        },
{
    match t {
        ReportType::DailySummary => "daily",
        ReportType::MonthlyESG => "monthly",
        ReportType::OnDemandAudit => "audit",
    }
}

/// A day's energy, emissions and cost of the fleet are 24 times those of an hour; at any power the
/// average intensity is that of the present hour.
pub proof fn law_day_is_24_hours(f: FleetPeriodSummary, clusters: Seq<(String, ClusterState)>)
    requires
        is_fleet_day(f, clusters),
    ensures
        f.energy_uwh == 24 * f.avg_power_uw,
        f.avg_carbon_intensity == intensity_of(
            figure_sum(clusters, Figure::Carbon),
            figure_sum(clusters, Figure::Total),
        ),
{
    let c = figure_sum(clusters, Figure::Carbon);
    let e = figure_sum(clusters, Figure::Total);
    if e > 0 {
        assert((c * 24) * 1_000_000_000 == (c * 1_000_000_000) * 24);
        vstd::arithmetic::div_mod::lemma_div_multiples_vanish_quotient(24, c * 1_000_000_000, e);
    }
}

/// A day's figures of the fleet are 24 hours of what all clusters reported: of their powers, their
/// emissions, and their powers by their prices. The average intensity is the most micrograms per
/// kWh that the emissions suffice for.
pub proof fn law_fleet_day(f: FleetPeriodSummary, registry: ClusterRegistry, s: FleetSummary, now: u64)
    requires
        is_fleet_day(f, registry.clusters@),
        registry.is_fleet_summary(s, now),
    ensures
        f.avg_power_uw == reported_by_clusters(
            registry.clusters@,
            |c: ClusterReport| c.power.total_uw as int,
        ),
        f.peak_power_uw == f.avg_power_uw,
        f.energy_uwh == 24 * f.avg_power_uw,
        f.carbon_ug == 24 * reported_by_clusters(
            registry.clusters@,
            |c: ClusterReport| c.carbon.emissions_ug_per_hour as int,
        ),
        f.cost_femto == 24 * reported_by_clusters(
            registry.clusters@,
            |c: ClusterReport| c.power.total_uw * c.carbon.cost_micros_per_kwh,
        ),
        f.energy_uwh > 0 ==> f.avg_carbon_intensity * f.energy_uwh <= f.carbon_ug * 1_000_000_000
            < (f.avg_carbon_intensity + 1) * f.energy_uwh,
        f.energy_uwh == 0 ==> f.avg_carbon_intensity == 0,
{
    law_fleet_figures(registry, s, now);
    if f.energy_uwh > 0 {
        lemma_floor(f.carbon_ug * 1_000_000_000, f.energy_uwh as int);
    }
}

/// A day of a cluster is 24 hours of what it reported, and a day of a team 24 hours of what its
/// namespaces use, emit and cost.
pub proof fn law_parts_of_day(
    c: ClusterPeriodSummary,
    s: ClusterState,
    t: TeamPeriodSummary,
    v: TeamPowerView,
    registry: ClusterRegistry,
    k: int,
)
    requires
        is_cluster_day(c, s),
        0 <= k < registry.teams().len(),
        is_team_view(v, registry.teams()[k]),
        is_team_day(t, registry.teams()[k]),
    ensures
        c.cluster_name@ == s.latest_report.cluster_name@,
        c.region@ == s.latest_report.region@,
        c.avg_power_uw == s.latest_report.power.total_uw,
        c.energy_uwh == 24 * s.latest_report.power.total_uw,
        c.carbon_ug == 24 * s.latest_report.carbon.emissions_ug_per_hour,
        c.cost_femto == 24 * (s.latest_report.power.total_uw
            * s.latest_report.carbon.cost_micros_per_kwh),
        t.energy_uwh == 24 * owned_by(
            registry,
            t.team@,
            |r: ClusterReport, n: NamespaceSummary| n.total_uw as int,
        ),
        t.cost_femto == 24 * owned_by(
            registry,
            t.team@,
            |r: ClusterReport, n: NamespaceSummary| n.total_uw * r.carbon.cost_micros_per_kwh,
        ),
        t.carbon_pg == 24 * owned_by(
            registry,
            t.team@,
            |r: ClusterReport, n: NamespaceSummary| n.total_uw * r.carbon.intensity_mg_per_kwh,
        ),
        t.namespace_count == owned_by(
            registry,
            t.team@,
            |r: ClusterReport, n: NamespaceSummary| 1int,
        ),
{
    law_team_owns(registry, v, k);
}

/// A daily report ends when it was made and starts 24 hours before.
pub proof fn law_report_period(r: Report, registry: ClusterRegistry, stamp: Seq<char>, wall: u64)
    requires
        is_daily_report(r, registry, stamp, wall),
    ensures
        r.generated_at_ns == wall,
        r.period_end_ns == wall,
        r.period_end_ns - r.period_start_ns == 24 * 3_600 * 1_000_000_000,
        r.data.clusters@.len() == registry.clusters@.len(),
        forall|i: int, j: int|
            0 <= i < j < r.data.clusters@.len() ==> (#[trigger] r.data.clusters@[i]).avg_power_uw
                >= (#[trigger] r.data.clusters@[j]).avg_power_uw,
        forall|i: int, j: int|
            0 <= i < j < r.data.teams@.len() ==> (#[trigger] r.data.teams@[i]).energy_uwh >= (
            #[trigger] r.data.teams@[j]).energy_uwh,
{
    law_rankings_descend(registry);
    law_sorted_by(registry.clusters@, |e: (String, ClusterState)| by_power(e));
    let clusters = ranked_clusters(registry.clusters@);
    let teams = ranked_teams(registry.teams());
    assert forall|i: int, j: int| 0 <= i < j < r.data.clusters@.len() implies (
    #[trigger] r.data.clusters@[i]).avg_power_uw >= (
    #[trigger] r.data.clusters@[j]).avg_power_uw by {
        assert(is_cluster_day(r.data.clusters@[i], clusters[i].1));
        assert(is_cluster_day(r.data.clusters@[j], clusters[j].1));
        assert(clusters[i].1.latest_report.power.total_uw
            >= clusters[j].1.latest_report.power.total_uw);
    }
    assert forall|i: int, j: int| 0 <= i < j < r.data.teams@.len() implies (
    #[trigger] r.data.teams@[i]).energy_uwh >= (#[trigger] r.data.teams@[j]).energy_uwh by {
        assert(is_team_day(r.data.teams@[i], teams[i]));
        assert(is_team_day(r.data.teams@[j], teams[j]));
        assert(power_sum(teams[i].1) >= power_sum(teams[j].1));
    }
}

} // verus!
