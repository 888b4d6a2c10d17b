//! Power-aware placement of pods on nodes.
//!
//! Nodes are filtered by how far their metering can be trusted and by the power budgets of
//! namespaces, and scored by power headroom and metering accuracy.

use super::aggregator::{ClusterAggregator, NodeState, PodPowerReport};
use super::queries::{
    are_namespace_powers, counted_in, has_pods, headroom, lemma_namespace_total, namespace_total,
    reported_in, use_fits, NamespacePower, NodeSummary, PodFigure,
};
use crate::arith::{lemma_floor, nearest, round_to_nearest};
use crate::table::{
    distinct_keys, enter, get, lemma_position, lemma_text_map_put, lookup, position, text_map,
};
use crate::text::{
    begins_with, decimal, decimal_text, joined, law_part_is_found, same, wide_decimal,
};
use vstd::prelude::*;

verus! {

/// Scheduler configuration.
#[derive(Debug)]
pub struct SchedulerConfig {
    /// Weight of power headroom in scoring, in millionths
    pub headroom_weight_ppm: u32,
    /// Weight of metering accuracy in scoring, in millionths
    pub accuracy_weight_ppm: u32,
    /// Whether pods are packed tightly or spread
    pub strategy: PlacementStrategy,
    /// Power budgets of namespaces in microwatts; a namespace without one is not limited
    pub namespace_budgets: Vec<(String, u64)>,
}

impl Default for SchedulerConfig {
    fn default() -> (r: Self)
        ensures
            r.headroom_weight_ppm == 700_000,
            r.accuracy_weight_ppm == 300_000,
            r.strategy == PlacementStrategy::BinPack,
            r.namespace_budgets@.len() == 0,
    {
        SchedulerConfig {
            headroom_weight_ppm: 700_000,
            accuracy_weight_ppm: 300_000,
            strategy: PlacementStrategy::BinPack,
            namespace_budgets: Vec::new(),
        }
    }
}

/// Pod placement strategy.
#[derive(Clone, Copy, Debug, PartialEq, Eq, Structural)]
pub enum PlacementStrategy {
    /// Pack pods onto fewer nodes (reduces idle power, more efficient)
    BinPack,
    /// Spread pods across nodes (avoids thermal hotspots, more resilient)
    Spread,
}

/// Node score from the power-aware scheduler.
#[derive(Debug)]
pub struct NodeScore {
    pub node_name: String,
    /// Score 0-100 (higher = better placement candidate)
    pub score: u32,
    /// Reason for this score
    pub reason: String,
}

/// Which nodes pass the filter.
#[derive(Debug)]
pub struct FilterResult {
    /// Nodes that pass the filter
    pub nodes: Vec<String>,
    /// Nodes that failed with reasons
    pub failed: Vec<(String, String)>,
}

/// How nodes score.
#[derive(Debug)]
pub struct PrioritizeResult {
    /// Node scores (0-100)
    pub scores: Vec<NodeScore>,
}

/// Power-aware scheduler.
#[derive(Debug)]
pub struct PowerScheduler {
    pub config: SchedulerConfig,
}

// ─── Filter ─────────────────────────────────────────────────────

/// Metering that is off by more than half is not trusted.
pub open spec fn unreliable(state: NodeState) -> bool {
    state.report.error_ratio_atto > 500_000_000_000_000_000
}

/// Whether a node with power data is refused: its metering is unreliable, or the namespace has
/// used up its budget.
pub open spec fn refused(state: NodeState, budget: Option<u64>, ns_power: int) -> bool {
    unreliable(state) || (budget is Some && ns_power >= budget->0)
}

/// Why a node is refused.
pub open spec fn refusal(state: NodeState, budget: Option<u64>, ns: Seq<char>, ns_power: int) -> Seq<
    char,
> {
    if unreliable(state) {
        "power metering unreliable (error ratio: "@ + decimal(
            nearest(state.report.error_ratio_atto as int, 10_000_000_000_000_000),
        ) + "%)"@
    } else {
        "namespace '"@ + ns + "' power budget exceeded ("@ + decimal(nearest(ns_power, 1_000_000))
            + "W / "@ + decimal(nearest(budget->0 as int, 1_000_000)) + "W)"@
    }
}

/// The power of a namespace, by the pods that are known.
pub open spec fn namespace_power_of(agg: ClusterAggregator, ns: Seq<char>) -> int {
    if has_pods(agg.pods@, ns) {
        namespace_total(agg.pods@, ns, PodFigure::Total)
    } else {
        0
    }
}

/// Whether a candidate passes. A node without power data does: new nodes have none yet.
pub open spec fn passes(
    agg: ClusterAggregator,
    config: SchedulerConfig,
    node: Seq<char>,
    ns: Seq<char>,
) -> bool {
    match lookup(agg.nodes@, node) {
        Some(state) => !refused(
            state,
            lookup(config.namespace_budgets@, ns),
            namespace_power_of(agg, ns),
        ),
        None => true,
    }
}

/// The candidates that pass, among the first `n`.
pub open spec fn passing(
    agg: ClusterAggregator,
    config: SchedulerConfig,
    candidates: Seq<String>,
    ns: Seq<char>,
    n: int,
) -> Seq<Seq<char>>
    decreases n,
{
    if n <= 0 {
        Seq::empty()
    } else if passes(agg, config, candidates[n - 1]@, ns) {
        passing(agg, config, candidates, ns, n - 1).push(candidates[n - 1]@)
    } else {
        passing(agg, config, candidates, ns, n - 1)
    }
}

/// The reasons why candidates do not pass, under their names.
pub open spec fn reasons(
    agg: ClusterAggregator,
    config: SchedulerConfig,
    candidates: Seq<String>,
    ns: Seq<char>,
    n: int,
) -> Map<Seq<char>, Seq<char>>
    decreases n,
{
    if n <= 0 {
        Map::empty()
    } else {
        let before = reasons(agg, config, candidates, ns, n - 1);
        if passes(agg, config, candidates[n - 1]@, ns) {
            before
        } else {
            before.insert(
                candidates[n - 1]@,
                refusal(
                    lookup(agg.nodes@, candidates[n - 1]@)->0,
                    lookup(config.namespace_budgets@, ns),
                    ns,
                    namespace_power_of(agg, ns),
                ),
            )
        }
    }
}

/// The names that strings hold.
pub open spec fn names_of(v: Seq<String>) -> Seq<Seq<char>> {
    v.map_values(|s: String| s@)
}

fn describe_refusal(error_ratio_atto: u128, budget: Option<u64>, ns: &str, ns_power: u64) -> (r:
    String)
    requires
        error_ratio_atto <= 500_000_000_000_000_000 ==> budget is Some,
    ensures
        r@ == if error_ratio_atto > 500_000_000_000_000_000 {
            "power metering unreliable (error ratio: "@ + decimal(
                nearest(error_ratio_atto as int, 10_000_000_000_000_000),
            ) + "%)"@
        } else {
            "namespace '"@ + ns@ + "' power budget exceeded ("@ + decimal(
                nearest(ns_power as int, 1_000_000),
            ) + "W / "@ + decimal(nearest(budget->0 as int, 1_000_000)) + "W)"@
        },
{
    if error_ratio_atto > 500_000_000_000_000_000 {
        let pct: u128 = round_to_nearest(error_ratio_atto, 10_000_000_000_000_000);
        joined("power metering unreliable (error ratio: ", wide_decimal(pct).as_str()).concat("%)")
    } else {
        let used: u128 = round_to_nearest(ns_power as u128, 1_000_000);
        let limit: u128 = round_to_nearest(budget.unwrap() as u128, 1_000_000);
        joined("namespace '", ns).concat("' power budget exceeded (").concat(
            wide_decimal(used).as_str(),
        ).concat("W / ").concat(wide_decimal(limit).as_str()).concat("W)")
    }
}

// ─── Scores ─────────────────────────────────────────────────────

/// What a node uses of its platform's power, in percent; half where the platform is not known.
pub open spec fn utilization(state: NodeState) -> int {
    let r = state.report;
    let used = r.cpu_uw + r.memory_uw + r.gpu_uw;
    match r.platform_uw {
        Some(p) => if p == 0 || used >= p {
            100
        } else {
            used * 100 / p as int
        },
        None => 50,
    }
}

/// A node's headroom, in percent of its platform's power; half where the platform is not known.
pub open spec fn headroom_percent(state: NodeState) -> int {
    match state.report.platform_uw {
        Some(p) => if p == 0 {
            0
        } else {
            headroom(state.report)->0 * 100 / p as int
        },
        None => 50,
    }
}

/// How far a node's metering can be trusted, in percent.
pub open spec fn accuracy(state: NodeState) -> int {
    if state.report.error_ratio_atto >= 1_000_000_000_000_000_000 {
        0
    } else {
        (1_000_000_000_000_000_000 - state.report.error_ratio_atto) / 10_000_000_000_000_000
    }
}

/// What counts for power: packing prefers busy nodes, spreading those with headroom.
pub open spec fn power_score(state: NodeState, strategy: PlacementStrategy) -> int {
    match strategy {
        PlacementStrategy::BinPack => utilization(state),
        PlacementStrategy::Spread => headroom_percent(state),
    }
}

/// The score of a node with power data.
pub open spec fn score(state: NodeState, config: SchedulerConfig) -> int {
    let combined = (power_score(state, config.strategy) * config.headroom_weight_ppm + accuracy(
        state,
    ) * config.accuracy_weight_ppm) / 1_000_000;
    if combined > 100 {
        100
    } else {
        combined
    }
}

/// The name of a strategy.
pub open spec fn strategy_text(strategy: PlacementStrategy) -> Seq<char> {
    match strategy {
        PlacementStrategy::BinPack => "BinPack"@,
        PlacementStrategy::Spread => "Spread"@,
    }
}

/// The score of a candidate: neutral for a node without power data.
pub open spec fn is_score(
    s: NodeScore,
    agg: ClusterAggregator,
    config: SchedulerConfig,
    node: Seq<char>,
) -> bool {
    &&& s.node_name@ == node
    &&& match lookup(agg.nodes@, node) {
        Some(state) => s.score == score(state, config) && s.reason@ == "headroom="@ + decimal(
            power_score(state, config.strategy),
        ) + ", accuracy="@ + decimal(accuracy(state)) + ", strategy="@ + strategy_text(
            config.strategy,
        ),
        None => s.score == 50 && s.reason@ == "no power data available"@,
    }
}

fn share_percent(part: u64, whole: u64) -> (r: u64)
    requires
        0 < whole,
        part <= whole,
    ensures
        r == part * 100 / whole as int,
        r <= 100,
{
    let r: u128 = part as u128 * 100 / whole as u128;
    assert(r <= 100) by (nonlinear_arith)
        requires
            r == (part * 100) as int / whole as int,
            0 <= part <= whole,
            0 < whole,
    ;
    r as u64
}

fn score_power(summary: &NodeSummary, strategy: PlacementStrategy, Ghost(state): Ghost<NodeState>) -> (r:
    u64)
    requires
        summary.cpu_uw == state.report.cpu_uw,
        summary.memory_uw == state.report.memory_uw,
        summary.gpu_uw == state.report.gpu_uw,
        summary.platform_uw == state.report.platform_uw,
        summary.headroom_uw == headroom(state.report),
        use_fits(state),
    ensures
        r == power_score(state, strategy),
        r <= 100,
{
    match strategy {
        PlacementStrategy::BinPack => match summary.platform_uw {
            Some(platform) => {
                let used: u64 = summary.cpu_uw + summary.memory_uw + summary.gpu_uw;
                if platform == 0 || used >= platform {
                    100
                } else {
                    share_percent(used, platform)
                }
            },
            None => 50,
        },
        PlacementStrategy::Spread => match (summary.headroom_uw, summary.platform_uw) {
            (Some(left), Some(platform)) => if platform == 0 {
                0
            } else {
                share_percent(left, platform)
            },
            _ => 50,
        },
    }
}

impl PowerScheduler {
    /// A scheduler with the default configuration.
    pub fn new() -> (r: Self)
        ensures
            r.config.headroom_weight_ppm == 700_000,
            r.config.accuracy_weight_ppm == 300_000,
            r.config.strategy == PlacementStrategy::BinPack,
            r.config.namespace_budgets@.len() == 0,
    {
        PowerScheduler { config: SchedulerConfig::default() }
    }

    /// Filter: removes nodes that cannot accept a pod due to power constraints.
    pub fn filter(&self, agg: &ClusterAggregator, candidate_nodes: &Vec<String>, namespace: &str) -> (r:
        FilterResult)
        requires
            agg.parts_fit(),
        ensures
            names_of(r.nodes@) == passing(
                *agg,
                self.config,
                candidate_nodes@,
                namespace@,
                candidate_nodes@.len() as int,
            ),
            distinct_keys(r.failed@),
            text_map(r.failed@) == reasons(
                *agg,
                self.config,
                candidate_nodes@,
                namespace@,
                candidate_nodes@.len() as int,
            ),
    {
        let budget: Option<u64> = match get(&self.config.namespace_budgets, &namespace.to_owned()) {
            Some(b) => Some(*b),
            None => None,
        };
        let ns_power: u64 = self.current_power(agg, namespace);
        let mut nodes: Vec<String> = Vec::new();
        let mut failed: Vec<(String, String)> = Vec::new();
        let mut i: usize = 0;
        assert(names_of(nodes@) =~= Seq::empty());
        assert(text_map(failed@) =~= Map::empty());
        while i < candidate_nodes.len()
            invariant
                i <= candidate_nodes@.len(),
                budget == lookup(self.config.namespace_budgets@, namespace@),
                ns_power == namespace_power_of(*agg, namespace@),
                distinct_keys(failed@),
                names_of(nodes@) == passing(
                    *agg,
                    self.config,
                    candidate_nodes@,
                    namespace@,
                    i as int,
                ),
                text_map(failed@) == reasons(
                    *agg,
                    self.config,
                    candidate_nodes@,
                    namespace@,
                    i as int,
                ),
            decreases candidate_nodes@.len() - i,
        {
            let ghost passed = names_of(nodes@);
            let name: &String = &candidate_nodes[i];
            let refusal_reason: Option<String> = match get(&agg.nodes, name) {
                None => None,
                Some(state) => {
                    let error: u128 = state.report.error_ratio_atto;
                    let over: bool = match budget {
                        Some(b) => ns_power >= b,
                        None => false,
                    };
                    if error > 500_000_000_000_000_000 || over {
                        Some(describe_refusal(error, budget, namespace, ns_power))
                    } else {
                        None
                    }
                },
            };
            match refusal_reason {
                None => {
                    nodes.push(name.clone());
                    assert(names_of(nodes@) =~= passed.push(name@));
                },
                Some(reason) => {
                    let key: String = name.clone();
                    proof {
                        lemma_text_map_put(failed@, key, reason);
                    }
                    enter(&mut failed, key, reason);
                },
            }
            i = i + 1;
        }
        FilterResult { nodes, failed }
    }

    /// The power of a namespace now.
    fn current_power(&self, agg: &ClusterAggregator, namespace: &str) -> (r: u64)
        requires
            agg.parts_fit(),
        ensures
            r == namespace_power_of(*agg, namespace@),
    {
        let powers: Vec<NamespacePower> = agg.namespace_power();
        let mut i: usize = 0;
        while i < powers.len()
            invariant
                i <= powers@.len(),
                are_namespace_powers(powers@, agg.pods@),
                forall|j: int| 0 <= j < i ==> (#[trigger] powers@[j]).namespace@ != namespace@,
            decreases powers@.len() - i,
        {
            if same(powers[i].namespace.as_str(), namespace) {
                assert(has_pods(agg.pods@, powers@[i as int].namespace@));
                return powers[i].total_uw;
            }
            i = i + 1;
        }
        assert(!has_pods(agg.pods@, namespace@));
        0
    }

    /// Prioritize: scores nodes based on power metrics; a higher score is a better candidate.
    pub fn prioritize(&self, agg: &ClusterAggregator, candidate_nodes: &Vec<String>) -> (r:
        PrioritizeResult)
        requires
            agg.parts_fit(),
        ensures
            r.scores@.len() == candidate_nodes@.len(),
            forall|i: int|
                0 <= i < r.scores@.len() ==> is_score(
                    #[trigger] r.scores@[i],
                    *agg,
                    self.config,
                    candidate_nodes@[i]@,
                ),
    {
        let mut scores: Vec<NodeScore> = Vec::new();
        let mut i: usize = 0;
        while i < candidate_nodes.len()
            invariant
                i <= candidate_nodes@.len(),
                agg.parts_fit(),
                scores@.len() == i,
                forall|j: int|
                    0 <= j < i ==> is_score(
                        #[trigger] scores@[j],
                        *agg,
                        self.config,
                        candidate_nodes@[j]@,
                    ),
            decreases candidate_nodes@.len() - i,
        {
            let node_score: NodeScore = self.score_node(agg, &candidate_nodes[i]);
            scores.push(node_score);
            i = i + 1;
        }
        PrioritizeResult { scores }
    }

    fn score_node(&self, agg: &ClusterAggregator, name: &String) -> (r: NodeScore)
        requires
            agg.parts_fit(),
        ensures
            is_score(r, *agg, self.config, name@),
    {
        let summary: NodeSummary = match agg.node_summary(name.as_str(), 0) {
            Some(s) => s,
            None => {
                return NodeScore {
                    node_name: name.clone(),
                    score: 50,
                    reason: "no power data available".to_owned(),
                };
            },
        };
        let ghost state = lookup(agg.nodes@, name@)->0;
        proof {
            lemma_position(agg.nodes@, name@);
            let p = position(agg.nodes@, name@);
            assert(use_fits(agg.nodes@[p].1));
        }
        let power: u64 = score_power(&summary, self.config.strategy, Ghost(state));
        let accurate: u64 = if summary.error_ratio_atto >= 1_000_000_000_000_000_000 {
            0
        } else {
            ((1_000_000_000_000_000_000 - summary.error_ratio_atto) / 10_000_000_000_000_000) as u64
        };
        assert(accurate <= 100);
        assert(power * self.config.headroom_weight_ppm <= 100 * 0xffff_ffff) by (nonlinear_arith)
            requires
                0 <= power <= 100,
                0 <= self.config.headroom_weight_ppm <= 0xffff_ffff,
        ;
        assert(accurate * self.config.accuracy_weight_ppm <= 100 * 0xffff_ffff) by (nonlinear_arith)
            requires
                0 <= accurate <= 100,
                0 <= self.config.accuracy_weight_ppm <= 0xffff_ffff,
        ;
        let combined: u64 = (power * self.config.headroom_weight_ppm as u64 + accurate
            * self.config.accuracy_weight_ppm as u64) / 1_000_000;
        let total: u32 = if combined > 100 {
            100
        } else {
            combined as u32
        };
        let strategy: &str = match self.config.strategy {
            PlacementStrategy::BinPack => "BinPack",
            PlacementStrategy::Spread => "Spread",
        };
        let reason: String = joined("headroom=", decimal_text(power).as_str()).concat(
            ", accuracy=",
        ).concat(decimal_text(accurate).as_str()).concat(", strategy=").concat(strategy);
        NodeScore { node_name: name.clone(), score: total, reason }
    }
}

/// Packing prefers busy nodes: of two nodes with the same platform power and the same accuracy,
/// the one that uses more never scores less.
pub proof fn law_packing_prefers_busy(a: NodeState, b: NodeState, config: SchedulerConfig)
    requires
        config.strategy == PlacementStrategy::BinPack,
        a.report.platform_uw == b.report.platform_uw,
        a.report.error_ratio_atto == b.report.error_ratio_atto,
        a.report.cpu_uw + a.report.memory_uw + a.report.gpu_uw <= b.report.cpu_uw
            + b.report.memory_uw + b.report.gpu_uw,
    ensures
        score(a, config) <= score(b, config),
{
    let ua = utilization(a);
    let ub = utilization(b);
    let used_a = a.report.cpu_uw + a.report.memory_uw + a.report.gpu_uw;
    let used_b = b.report.cpu_uw + b.report.memory_uw + b.report.gpu_uw;
    if let Some(p) = a.report.platform_uw {
        if p > 0 && used_a < p {
            lemma_percent(used_a as int, used_b as int, p as int);
        }
    }
    assert(ua <= ub);
    let w = config.headroom_weight_ppm as int;
    assert(ua * w <= ub * w) by (nonlinear_arith)
        requires
            ua <= ub,
            0 <= w,
    ;
    let rest = accuracy(a) * config.accuracy_weight_ppm;
    vstd::arithmetic::div_mod::lemma_div_is_ordered(ua * w + rest, ub * w + rest, 1_000_000);
}

proof fn lemma_percent(a: int, b: int, p: int)
    requires
        0 <= a <= b,
        a < p,
        0 < p,
    ensures
        a * 100 / p <= 100,
        b < p ==> a * 100 / p <= b * 100 / p,
{
    vstd::arithmetic::div_mod::lemma_div_is_ordered(a * 100, b * 100, p);
    vstd::arithmetic::div_mod::lemma_div_is_ordered(a * 100, 100 * p, p);
    vstd::arithmetic::div_mod::lemma_div_by_multiple(100, p);
}

/// Spreading prefers headroom: of two nodes with the same platform power and the same accuracy, the
/// one that uses less never scores less.
pub proof fn law_spreading_prefers_idle(a: NodeState, b: NodeState, config: SchedulerConfig)
    requires
        config.strategy == PlacementStrategy::Spread,
        a.report.platform_uw == b.report.platform_uw,
        a.report.error_ratio_atto == b.report.error_ratio_atto,
        a.report.cpu_uw + a.report.memory_uw + a.report.gpu_uw <= b.report.cpu_uw
            + b.report.memory_uw + b.report.gpu_uw,
    ensures
        score(a, config) >= score(b, config),
{
    let ha = headroom_percent(a);
    let hb = headroom_percent(b);
    if let Some(p) = a.report.platform_uw {
        if p > 0 {
            vstd::arithmetic::div_mod::lemma_div_is_ordered(
                headroom(b.report)->0 * 100,
                headroom(a.report)->0 * 100,
                p as int,
            );
        }
    }
    assert(ha >= hb);
    let w = config.headroom_weight_ppm as int;
    assert(ha * w >= hb * w) by (nonlinear_arith)
        requires
            ha >= hb,
            0 <= w,
    ;
    let rest = accuracy(a) * config.accuracy_weight_ppm;
    vstd::arithmetic::div_mod::lemma_div_is_ordered(hb * w + rest, ha * w + rest, 1_000_000);
}

/// A score is never above 100, nor below 0.
pub proof fn law_score_range(state: NodeState, config: SchedulerConfig)
    ensures
        0 <= score(state, config) <= 100,
{
    let p = power_score(state, config.strategy);
    if let Some(platform) = state.report.platform_uw {
        if platform > 0 {
            let used = state.report.cpu_uw + state.report.memory_uw + state.report.gpu_uw;
            vstd::arithmetic::div_mod::lemma_div_pos_is_pos(used * 100, platform as int);
            vstd::arithmetic::div_mod::lemma_div_pos_is_pos(
                headroom(state.report)->0 * 100,
                platform as int,
            );
        }
    }
    assert(p * config.headroom_weight_ppm >= 0) by (nonlinear_arith)
        requires
            p >= 0,
    ;
    assert(accuracy(state) * config.accuracy_weight_ppm >= 0) by (nonlinear_arith)
        requires
            accuracy(state) >= 0,
    ;
}

proof fn lemma_passing(
    agg: ClusterAggregator,
    config: SchedulerConfig,
    candidates: Seq<String>,
    ns: Seq<char>,
    n: int,
    name: Seq<char>,
)
    requires
        0 <= n <= candidates.len(),
    ensures
        passing(agg, config, candidates, ns, n).contains(name) <==> passes(agg, config, name, ns)
            && exists|j: int| 0 <= j < n && (#[trigger] candidates[j])@ == name,
        reasons(agg, config, candidates, ns, n).contains_key(name) <==> !passes(
            agg,
            config,
            name,
            ns,
        ) && exists|j: int| 0 <= j < n && (#[trigger] candidates[j])@ == name,
    decreases n,
{
    if n > 0 {
        lemma_passing(agg, config, candidates, ns, n - 1, name);
        let before = passing(agg, config, candidates, ns, n - 1);
        let after = passing(agg, config, candidates, ns, n);
        if before.contains(name) {
            let k = before.index_of(name);
            assert(after[k] == name);
        }
        if candidates[n - 1]@ == name && passes(agg, config, name, ns) {
            assert(after[after.len() - 1] == name);
        }
        if after.contains(name) && !before.contains(name) {
            let k = after.index_of(name);
            assert(k == after.len() - 1);
            assert(candidates[n - 1]@ == name);
        }
        if exists|j: int| 0 <= j < n && (#[trigger] candidates[j])@ == name {
            let j = choose|j: int| 0 <= j < n && (#[trigger] candidates[j])@ == name;
            if j < n - 1 {
                assert(exists|i: int| 0 <= i < n - 1 && (#[trigger] candidates[i])@ == name);
            }
        }
    }
}

/// Every candidate either passes or is told why it does not, never both; nothing else is named.
pub proof fn law_filter_covers(
    agg: ClusterAggregator,
    config: SchedulerConfig,
    candidates: Seq<String>,
    ns: Seq<char>,
    name: Seq<char>,
)
    ensures
        ({
            let n = candidates.len() as int;
            let passed = passing(agg, config, candidates, ns, n).contains(name);
            let failed = reasons(agg, config, candidates, ns, n).contains_key(name);
            &&& !(passed && failed)
            &&& (passed || failed) <==> exists|j: int|
                0 <= j < n && (#[trigger] candidates[j])@ == name
        }),
{
    lemma_passing(agg, config, candidates, ns, candidates.len() as int, name);
}

// ─── What scores and filters say of the reports ─────────────────

/// Accuracy in percent and the error in percent make a hundred, but for what is rounded down; an
/// error of all or more leaves none.
pub proof fn law_accuracy_is_what_error_leaves(state: NodeState)
    ensures
        ({
            let error = state.report.error_ratio_atto;
            let whole = 1_000_000_000_000_000_000int;
            if error <= whole {
                accuracy(state) * whole <= (whole - error) * 100 < (accuracy(state) + 1) * whole
            } else {
                accuracy(state) == 0
            }
        }),
{
}

/// Packing counts the part of the platform's power that the components use, in percent, and
/// spreading the part that they leave; both are rounded down. Without a platform reading both
/// count half.
pub proof fn law_power_score(state: NodeState)
    ensures
        ({
            let used = state.report.cpu_uw + state.report.memory_uw + state.report.gpu_uw;
            let packed = power_score(state, PlacementStrategy::BinPack);
            let spread = power_score(state, PlacementStrategy::Spread);
            match state.report.platform_uw {
                Some(p) => if used < p {
                    &&& packed * p <= used * 100 < (packed + 1) * p
                    &&& spread * p <= (p - used) * 100 < (spread + 1) * p
                    &&& 99 <= packed + spread <= 100
                } else {
                    packed == 100 && spread == 0
                },
                None => packed == 50 && spread == 50,
            }
        }),
{
    let used = state.report.cpu_uw + state.report.memory_uw + state.report.gpu_uw;
    if let Some(p) = state.report.platform_uw {
        if used < p {
            let d = p as int;
            lemma_floor(used * 100, d);
            lemma_floor((d - used) * 100, d);
            let (a, b) = (used * 100 / d, (d - used) * 100 / d);
            assert(99 <= a + b <= 100) by (nonlinear_arith)
                requires
                    a * d <= used * 100 < (a + 1) * d,
                    b * d <= (d - used) * 100 < (b + 1) * d,
                    0 < d,
            ;
        } else if p > 0 {
            assert(headroom(state.report)->0 == 0);
            vstd::arithmetic::div_mod::lemma_div_basics(p as int);
        }
    }
}

/// A score is the power score and the accuracy by their weights, rounded down, but no more than
/// a hundred.
pub proof fn law_score_weighs(state: NodeState, config: SchedulerConfig)
    ensures
        ({
            let sum = power_score(state, config.strategy) * config.headroom_weight_ppm + accuracy(
                state,
            ) * config.accuracy_weight_ppm;
            let s = score(state, config);
            if sum < 100_000_000 {
                s * 1_000_000 <= sum < (s + 1) * 1_000_000
            } else {
                s == 100
            }
        }),
{
}

/// Better metering never scores less: of two nodes with the same power figures and platform
/// power, the one with the lower error ratio has a score no lower, under either strategy.
pub proof fn law_better_metering_never_scores_less(
    s: NodeScore,
    t: NodeScore,
    agg: ClusterAggregator,
    config: SchedulerConfig,
)
    requires
        is_score(s, agg, config, s.node_name@),
        is_score(t, agg, config, t.node_name@),
        lookup(agg.nodes@, s.node_name@) is Some,
        lookup(agg.nodes@, t.node_name@) is Some,
        ({
            let (a, b) = (
                lookup(agg.nodes@, s.node_name@)->0.report,
                lookup(agg.nodes@, t.node_name@)->0.report,
            );
            &&& a.cpu_uw + a.memory_uw + a.gpu_uw == b.cpu_uw + b.memory_uw + b.gpu_uw
            &&& a.platform_uw == b.platform_uw
            &&& a.error_ratio_atto <= b.error_ratio_atto
        }),
    ensures
        s.score >= t.score,
{
    let a = lookup(agg.nodes@, s.node_name@)->0;
    let b = lookup(agg.nodes@, t.node_name@)->0;
    law_accuracy_is_what_error_leaves(a);
    law_accuracy_is_what_error_leaves(b);
    assert(accuracy(a) >= accuracy(b));
    assert(power_score(a, config.strategy) == power_score(b, config.strategy));
    let (x, y, w) = (accuracy(a), accuracy(b), config.accuracy_weight_ppm as int);
    assert(x * w >= y * w) by (nonlinear_arith)
        requires
            x >= y,
            0 <= w,
    ;
    let p = power_score(a, config.strategy) * config.headroom_weight_ppm;
    vstd::arithmetic::div_mod::lemma_div_is_ordered(p + y * w, p + x * w, 1_000_000);
}

/// Under packing a node that uses more of the same platform power scores no less, and under
/// spreading one that leaves more, where they are metered alike.
pub proof fn law_strategy_decides(
    s: NodeScore,
    t: NodeScore,
    agg: ClusterAggregator,
    config: SchedulerConfig,
)
    requires
        is_score(s, agg, config, s.node_name@),
        is_score(t, agg, config, t.node_name@),
        lookup(agg.nodes@, s.node_name@) is Some,
        lookup(agg.nodes@, t.node_name@) is Some,
        ({
            let (a, b) = (
                lookup(agg.nodes@, s.node_name@)->0.report,
                lookup(agg.nodes@, t.node_name@)->0.report,
            );
            &&& a.cpu_uw + a.memory_uw + a.gpu_uw <= b.cpu_uw + b.memory_uw + b.gpu_uw
            &&& a.platform_uw == b.platform_uw
            &&& a.error_ratio_atto == b.error_ratio_atto
        }),
    ensures
        config.strategy == PlacementStrategy::BinPack ==> s.score <= t.score,
        config.strategy == PlacementStrategy::Spread ==> s.score >= t.score,
{
    let a = lookup(agg.nodes@, s.node_name@)->0;
    let b = lookup(agg.nodes@, t.node_name@)->0;
    if config.strategy == PlacementStrategy::BinPack {
        law_packing_prefers_busy(a, b, config);
    } else {
        law_spreading_prefers_idle(a, b, config);
    }
}

/// A node without power data passes and scores half. One with data passes if and only if its
/// metering is off by half at most and the pods of the namespace together use less than the
/// budget of the namespace, if it has one.
pub proof fn law_filter_decides(
    agg: ClusterAggregator,
    config: SchedulerConfig,
    candidates: Seq<String>,
    ns: Seq<char>,
    k: int,
)
    requires
        0 <= k < candidates.len(),
    ensures
        ({
            let name = candidates[k]@;
            let passed = passing(agg, config, candidates, ns, candidates.len() as int).contains(
                name,
            );
            match lookup(agg.nodes@, name) {
                None => passed,
                Some(state) => passed <==> {
                    &&& state.report.error_ratio_atto * 2 <= 1_000_000_000_000_000_000
                    &&& match lookup(config.namespace_budgets@, ns) {
                        Some(b) => reported_in(
                            agg.pods@,
                            ns,
                            |r: PodPowerReport| r.total_uw as int,
                        ) < b,
                        None => true,
                    }
                },
            }
        }),
{
    let name = candidates[k]@;
    lemma_passing(agg, config, candidates, ns, candidates.len() as int, name);
    assert(exists|j: int| 0 <= j < candidates.len() && (#[trigger] candidates[j])@ == name);
    lemma_namespace_total(agg.pods@, ns, PodFigure::Total, |r: PodPowerReport| r.total_uw as int);
    if !has_pods(agg.pods@, ns) {
        crate::sums::lemma_sum_nothing(
            agg.pods@,
            counted_in(ns, |r: PodPowerReport| r.total_uw as int),
        );
    }
}

/// A node of which nothing is known scores half, and one that is known what its own report makes
/// of it.
pub proof fn law_unknown_node(s: NodeScore, agg: ClusterAggregator, config: SchedulerConfig)
    requires
        is_score(s, agg, config, s.node_name@),
    ensures
        lookup(agg.nodes@, s.node_name@) is None ==> s.score * 2 == 100,
        lookup(agg.nodes@, s.node_name@) matches Some(state) ==> s.score == score(state, config),
{
}

/// A node is refused for its metering before it is refused for a budget: the reason names the
/// metering if and only if more than half of the node's power is unaccounted for.
pub proof fn law_refusal_reason(state: NodeState, budget: Option<u64>, ns: Seq<char>, ns_power: int)
    ensures
        state.report.error_ratio_atto * 2 > 1_000_000_000_000_000_000 <==> begins_with(
            refusal(state, budget, ns, ns_power),
            "power metering unreliable (error ratio: "@,
        ),
        state.report.error_ratio_atto * 2 <= 1_000_000_000_000_000_000 ==> begins_with(
            refusal(state, budget, ns, ns_power),
            "namespace '"@ + ns,
        ),
{
    reveal_strlit("power metering unreliable (error ratio: ");
    reveal_strlit("namespace '");
    let p = "power metering unreliable (error ratio: "@;
    let q = "namespace '"@;
    let r = refusal(state, budget, ns, ns_power);
    if unreliable(state) {
        let rest = decimal(
            nearest(state.report.error_ratio_atto as int, 10_000_000_000_000_000),
        ) + "%)"@;
        assert(r =~= p + rest);
        law_part_is_found(Seq::empty(), p, rest);
    } else {
        let rest = "' power budget exceeded ("@ + decimal(nearest(ns_power, 1_000_000)) + "W / "@
            + decimal(nearest(budget->0 as int, 1_000_000)) + "W)"@;
        assert(r =~= (q + ns) + rest);
        law_part_is_found(Seq::empty(), q + ns, rest);
        assert(r[0] == 'n');
        if begins_with(r, p) {
            assert(r.subrange(0, p.len() as int)[0] == r[0]);
        }
    }
}

} // verus!
