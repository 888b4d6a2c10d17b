//! What the cluster's current state says: power by cluster, namespace, node and pod.

use super::aggregator::{
    history_of, past, ClusterAggregator, NodePowerReport, NodeState, PodPowerReport, PodState,
    SourceStatus,
};
use crate::sort::{in_order, insert_ranked, Ranked};
use crate::sums::{lemma_sum_concat, lemma_sum_single, lemma_used_by_sum, sum_of};
use crate::table::{find, get, lookup, retain};
use crate::tally::{law_tally, mentions, used, used_by, used_by_all};
use crate::text::{contains, named, same};
use vstd::prelude::*;

verus! {

/// Namespace-level aggregation.
#[derive(Debug)]
pub struct NamespacePower {
    pub namespace: String,
    pub cpu_uw: u64,
    pub memory_uw: u64,
    pub gpu_uw: u64,
    pub storage_uw: u64,
    pub io_uw: u64,
    pub total_uw: u64,
    pub pod_count: usize,
}

/// Cluster-level aggregation.
#[derive(Clone, Copy, Debug, PartialEq, Eq, Structural)]
pub struct ClusterPower {
    pub cpu_uw: u64,
    pub memory_uw: u64,
    pub gpu_uw: u64,
    pub platform_uw: u64,
    pub psu_output_uw: u64,
    pub psu_loss_uw: u64,
    pub idle_uw: u64,
    pub total_attributed_uw: u64,
    pub node_count: usize,
    pub pod_count: usize,
    /// The nodes' average, in units of 10⁻¹⁸, rounded down
    pub avg_error_ratio_atto: u128,
}

/// Node summary for API responses.
#[derive(Debug)]
pub struct NodeSummary {
    pub node_name: String,
    pub cpu_uw: u64,
    pub memory_uw: u64,
    pub gpu_uw: u64,
    pub platform_uw: Option<u64>,
    pub psu_output_uw: Option<u64>,
    pub idle_uw: u64,
    pub error_ratio_atto: u128,
    pub pod_count: u32,
    /// Available power headroom (for scheduler)
    pub headroom_uw: Option<u64>,
    pub cpu_source: String,
    pub cpu_reading_type: String,
    pub last_seen: u64,
    pub last_seen_secs_ago: u64,
}

// ─── The cluster ────────────────────────────────────────────────

/// The figures of a node that add up for the cluster.
#[derive(Clone, Copy, Debug, PartialEq, Eq, Structural)]
pub enum NodeFigure {
    Cpu,
    Memory,
    Gpu,
    Platform,
    PsuOutput,
    Idle,
    ErrorRatio,
}

/// One figure of a node. What a node cannot tell counts as nothing.
pub open spec fn node_figure(r: NodePowerReport, f: NodeFigure) -> int {
    match f {
        NodeFigure::Cpu => r.cpu_uw as int,
        NodeFigure::Memory => r.memory_uw as int,
        NodeFigure::Gpu => r.gpu_uw as int,
        NodeFigure::Platform => match r.platform_uw {
            Some(p) => p as int,
            None => 0,
        },
        NodeFigure::PsuOutput => match r.psu_output_uw {
            Some(p) => p as int,
            None => 0,
        },
        NodeFigure::Idle => r.idle_uw as int,
        NodeFigure::ErrorRatio => r.error_ratio_atto as int,
    }
}

/// One figure added up over nodes.
pub open spec fn node_total(nodes: Seq<(String, NodeState)>, f: NodeFigure) -> int
    decreases nodes.len(),
{
    if nodes.len() == 0 {
        0
    } else {
        node_total(nodes.drop_last(), f) + node_figure(nodes.last().1.report, f)
    }
}

fn read_figure(r: &NodePowerReport, f: NodeFigure) -> (v: u128)
    ensures
        v == node_figure(*r, f),
{
    match f {
        NodeFigure::Cpu => r.cpu_uw as u128,
        NodeFigure::Memory => r.memory_uw as u128,
        NodeFigure::Gpu => r.gpu_uw as u128,
        NodeFigure::Platform => match r.platform_uw {
            Some(p) => p as u128,
            None => 0,
        },
        NodeFigure::PsuOutput => match r.psu_output_uw {
            Some(p) => p as u128,
            None => 0,
        },
        NodeFigure::Idle => r.idle_uw as u128,
        NodeFigure::ErrorRatio => r.error_ratio_atto,
    }
}

proof fn lemma_node_total(nodes: Seq<(String, NodeState)>, f: NodeFigure, n: int)
    requires
        0 <= n <= nodes.len(),
    ensures
        0 <= node_total(nodes.take(n), f) <= node_total(nodes, f),
    decreases nodes.len(),
{
    if n == nodes.len() {
        assert(nodes.take(n) =~= nodes);
        if n > 0 {
            lemma_node_total(nodes.drop_last(), f, n - 1);
            assert(nodes.drop_last().take(n - 1) =~= nodes.drop_last());
        }
    } else {
        lemma_node_total(nodes.drop_last(), f, n);
        assert(nodes.drop_last().take(n) =~= nodes.take(n));
    }
}

/// One figure added up over nodes, where the sum can be held.
fn sum_nodes(nodes: &Vec<(String, NodeState)>, f: NodeFigure) -> (r: Option<u128>)
    ensures
        match r {
            Some(v) => v == node_total(nodes@, f),
            None => node_total(nodes@, f) > u128::MAX,
        },
{
    let mut sum: u128 = 0;
    let mut i: usize = 0;
    while i < nodes.len()
        invariant
            i <= nodes@.len(),
            sum == node_total(nodes@.take(i as int), f),
        decreases nodes@.len() - i,
    {
        assert(nodes@.take(i + 1).drop_last() =~= nodes@.take(i as int));
        proof {
            lemma_node_total(nodes@, f, i + 1);
        }
        match sum.checked_add(read_figure(&nodes[i].1.report, f)) {
            Some(s) => {
                sum = s;
            },
            None => {
                return None;
            },
        }
        i = i + 1;
    }
    assert(nodes@.take(i as int) =~= nodes@);
    Some(sum)
}

// ─── Namespaces ─────────────────────────────────────────────────

/// The figures of a pod that add up for its namespace.
#[derive(Clone, Copy, Debug, PartialEq, Eq, Structural)]
pub enum PodFigure {
    Cpu,
    Memory,
    Gpu,
    Storage,
    Io,
    Total,
    Count,
}

/// One figure of a pod.
pub open spec fn pod_figure(r: PodPowerReport, f: PodFigure) -> int {
    match f {
        PodFigure::Cpu => r.cpu_uw as int,
        PodFigure::Memory => r.memory_uw as int,
        PodFigure::Gpu => r.gpu_uw as int,
        PodFigure::Storage => r.storage_uw as int,
        PodFigure::Io => r.io_uw as int,
        PodFigure::Total => r.total_uw as int,
        PodFigure::Count => 1,
    }
}

/// One figure of each pod, under its namespace.
pub open spec fn pod_figures(pods: Seq<(String, PodState)>, f: PodFigure) -> Seq<(Seq<char>, int)> {
    pods.map_values(
        |e: (String, PodState)| (e.1.report.namespace@, pod_figure(e.1.report, f)),
    )
}

/// One figure of a namespace.
pub open spec fn namespace_total(pods: Seq<(String, PodState)>, ns: Seq<char>, f: PodFigure) -> int {
    used_by(pod_figures(pods, f), ns)
}

/// Whether a pod is in a namespace.
pub open spec fn has_pods(pods: Seq<(String, PodState)>, ns: Seq<char>) -> bool {
    exists|i: int| 0 <= i < pods.len() && (#[trigger] pods[i]).1.report.namespace@ == ns
}

fn read_pod_figure(r: &PodPowerReport, f: PodFigure) -> (v: u64)
    ensures
        v == pod_figure(*r, f),
{
    match f {
        PodFigure::Cpu => r.cpu_uw,
        PodFigure::Memory => r.memory_uw,
        PodFigure::Gpu => r.gpu_uw,
        PodFigure::Storage => r.storage_uw,
        PodFigure::Io => r.io_uw,
        PodFigure::Total => r.total_uw,
        PodFigure::Count => 1,
    }
}

/// One figure of a namespace; it always fits in 128 bits.
fn sum_pods(pods: &Vec<(String, PodState)>, ns: &str, f: PodFigure) -> (r: u128)
    ensures
        r == namespace_total(pods@, ns@, f),
        f == PodFigure::Count ==> r <= pods@.len(),
{
    let ghost all = pod_figures(pods@, f);
    let mut sum: u128 = 0;
    let mut i: usize = 0;
    while i < pods.len()
        invariant
            i <= pods@.len(),
            all == pod_figures(pods@, f),
            sum == used_by(all.take(i as int), ns@),
            sum <= i * 0xffff_ffff_ffff_ffff,
            f == PodFigure::Count ==> sum <= i,
        decreases pods@.len() - i,
    {
        assert(all.take(i + 1).drop_last() =~= all.take(i as int));
        if same(pods[i].1.report.namespace.as_str(), ns) {
            sum = sum + read_pod_figure(&pods[i].1.report, f) as u128;
        }
        i = i + 1;
    }
    assert(all.take(i as int) =~= all);
    sum
}

/// The power of one namespace.
pub open spec fn is_namespace_power(p: NamespacePower, pods: Seq<(String, PodState)>) -> bool {
    let ns = p.namespace@;
    &&& p.cpu_uw == namespace_total(pods, ns, PodFigure::Cpu)
    &&& p.memory_uw == namespace_total(pods, ns, PodFigure::Memory)
    &&& p.gpu_uw == namespace_total(pods, ns, PodFigure::Gpu)
    &&& p.storage_uw == namespace_total(pods, ns, PodFigure::Storage)
    &&& p.io_uw == namespace_total(pods, ns, PodFigure::Io)
    &&& p.total_uw == namespace_total(pods, ns, PodFigure::Total)
    &&& p.pod_count == namespace_total(pods, ns, PodFigure::Count)
}

/// Whether the power of a namespace can be held.
pub open spec fn namespace_fits(pods: Seq<(String, PodState)>, ns: Seq<char>) -> bool {
    &&& namespace_total(pods, ns, PodFigure::Cpu) <= u64::MAX
    &&& namespace_total(pods, ns, PodFigure::Memory) <= u64::MAX
    &&& namespace_total(pods, ns, PodFigure::Gpu) <= u64::MAX
    &&& namespace_total(pods, ns, PodFigure::Storage) <= u64::MAX
    &&& namespace_total(pods, ns, PodFigure::Io) <= u64::MAX
    &&& namespace_total(pods, ns, PodFigure::Total) <= u64::MAX
}

/// Whether the namespaces' powers are all there, once each, highest power first.
pub open spec fn are_namespace_powers(
    v: Seq<NamespacePower>,
    pods: Seq<(String, PodState)>,
) -> bool {
    &&& forall|i: int| 0 <= i < v.len() ==> is_namespace_power(#[trigger] v[i], pods)
    &&& forall|i: int, j: int|
        0 <= i < v.len() && 0 <= j < v.len() && i != j ==> (#[trigger] v[i]).namespace@ != (
        #[trigger] v[j]).namespace@
    &&& forall|ns: Seq<char>| #[trigger]
        has_pods(pods, ns) <==> exists|i: int|
            0 <= i < v.len() && (#[trigger] v[i]).namespace@ == ns
    &&& forall|i: int, j: int|
        0 <= i <= j < v.len() ==> (#[trigger] v[i]).total_uw >= (#[trigger] v[j]).total_uw
}

impl Ranked for NamespacePower {
    open spec fn rank(&self) -> int {
        -(self.total_uw as int)
    }

    fn ranks_below(&self, other: &Self) -> (r: bool) {
        self.total_uw >= other.total_uw
    }
}

/// Whether a list has the power of a namespace.
fn lists_namespace(v: &Vec<NamespacePower>, ns: &str) -> (r: bool)
    ensures
        r == exists|i: int| 0 <= i < v@.len() && (#[trigger] v@[i]).namespace@ == ns@,
{
    let mut i: usize = 0;
    while i < v.len()
        invariant
            i <= v@.len(),
            forall|j: int| 0 <= j < i ==> (#[trigger] v@[j]).namespace@ != ns@,
        decreases v@.len() - i,
    {
        if same(v[i].namespace.as_str(), ns) {
            return true;
        }
        i = i + 1;
    }
    false
}

/// The headroom of a node: the platform's power that its components do not use.
pub open spec fn headroom(r: NodePowerReport) -> Option<u64> {
    match r.platform_uw {
        Some(p) => {
            let used = r.cpu_uw + r.memory_uw + r.gpu_uw;
            Some(
                if p > used {
                    (p - used) as u64
                } else {
                    0
                },
            )
        },
        None => None,
    }
}

/// The summary of one node.
pub open spec fn is_summary(s: NodeSummary, state: NodeState, now: u64) -> bool {
    let r = state.report;
    &&& s.node_name@ == r.node_name@
    &&& s.cpu_uw == r.cpu_uw
    &&& s.memory_uw == r.memory_uw
    &&& s.gpu_uw == r.gpu_uw
    &&& s.platform_uw == r.platform_uw
    &&& s.psu_output_uw == r.psu_output_uw
    &&& s.idle_uw == r.idle_uw
    &&& s.error_ratio_atto == r.error_ratio_atto
    &&& s.pod_count == r.pod_count
    &&& s.headroom_uw == headroom(r)
    &&& s.cpu_source@ == r.cpu_source@
    &&& s.cpu_reading_type@ == r.cpu_reading_type@
    &&& s.last_seen == state.received_at
    &&& s.last_seen_secs_ago == (if now > state.received_at {
        (now - state.received_at) / 1_000_000_000
    } else {
        0
    })
}

/// Whether a node's use can be held.
pub open spec fn use_fits(state: NodeState) -> bool {
    state.report.cpu_uw + state.report.memory_uw + state.report.gpu_uw <= u64::MAX
}

/// The sources of all nodes, one node after the other.
pub open spec fn sources_of(nodes: Seq<(String, NodeState)>) -> Seq<SourceStatus>
    decreases nodes.len(),
{
    if nodes.len() == 0 {
        Seq::empty()
    } else {
        sources_of(nodes.drop_last()) + nodes.last().1.report.sources@
    }
}

fn summarize(state: &NodeState, now: u64) -> (s: NodeSummary)
    requires
        use_fits(*state),
    ensures
        is_summary(s, *state, now),
{
    let r: &NodePowerReport = &state.report;
    let in_use: u64 = r.cpu_uw + r.memory_uw + r.gpu_uw;
    let headroom_uw: Option<u64> = match r.platform_uw {
        Some(p) => Some(p.saturating_sub(in_use)),
        None => None,
    };
    NodeSummary {
        node_name: r.node_name.clone(),
        cpu_uw: r.cpu_uw,
        memory_uw: r.memory_uw,
        gpu_uw: r.gpu_uw,
        platform_uw: r.platform_uw,
        psu_output_uw: r.psu_output_uw,
        idle_uw: r.idle_uw,
        error_ratio_atto: r.error_ratio_atto,
        pod_count: r.pod_count,
        headroom_uw,
        cpu_source: r.cpu_source.clone(),
        cpu_reading_type: r.cpu_reading_type.clone(),
        last_seen: state.received_at,
        last_seen_secs_ago: now.saturating_sub(state.received_at) / 1_000_000_000,
    }
}

/// What the first node's CPU source is called, and what kind of reading it gives.
pub open spec fn first_cpu_source(nodes: Seq<(String, NodeState)>) -> (Seq<char>, Seq<char>) {
    if nodes.len() > 0 {
        (nodes[0].1.report.cpu_source@, nodes[0].1.report.cpu_reading_type@)
    } else {
        ("unknown"@, "none"@)
    }
}

/// What the first node's memory source is called.
pub open spec fn first_memory_source(nodes: Seq<(String, NodeState)>) -> Seq<char> {
    if nodes.len() > 0 {
        nodes[0].1.report.memory_source@
    } else {
        "unknown"@
    }
}

impl ClusterAggregator {
    /// The sum of a figure over all nodes.
    pub open spec fn total(&self, f: NodeFigure) -> int {
        node_total(self.nodes@, f)
    }

    /// Whether the cluster's sums can be held.
    pub open spec fn totals_fit(&self) -> bool {
        &&& self.total(NodeFigure::Cpu) + self.total(NodeFigure::Memory) + self.total(
            NodeFigure::Gpu,
        ) <= u64::MAX
        &&& self.total(NodeFigure::Platform) <= u64::MAX
        &&& self.total(NodeFigure::PsuOutput) <= u64::MAX
        &&& self.total(NodeFigure::Idle) <= u64::MAX
        &&& self.total(NodeFigure::ErrorRatio) <= u128::MAX
    }

    /// Whether each namespace's and each node's sums can be held.
    pub open spec fn parts_fit(&self) -> bool {
        &&& forall|ns: Seq<char>| #[trigger]
            has_pods(self.pods@, ns) ==> namespace_fits(self.pods@, ns)
        &&& forall|i: int| 0 <= i < self.nodes@.len() ==> use_fits((#[trigger] self.nodes@[i]).1)
    }

    /// The power of the cluster.
    pub open spec fn is_cluster_power(&self, p: ClusterPower) -> bool {
        let n = self.nodes@.len() as int;
        &&& p.cpu_uw == self.total(NodeFigure::Cpu)
        &&& p.memory_uw == self.total(NodeFigure::Memory)
        &&& p.gpu_uw == self.total(NodeFigure::Gpu)
        &&& p.platform_uw == self.total(NodeFigure::Platform)
        &&& p.psu_output_uw == self.total(NodeFigure::PsuOutput)
        &&& p.psu_loss_uw == (if self.total(NodeFigure::Platform) > self.total(
            NodeFigure::PsuOutput,
        ) {
            self.total(NodeFigure::Platform) - self.total(NodeFigure::PsuOutput)
        } else {
            0
        })
        &&& p.idle_uw == self.total(NodeFigure::Idle)
        &&& p.total_attributed_uw == self.total(NodeFigure::Cpu) + self.total(NodeFigure::Memory)
            + self.total(NodeFigure::Gpu)
        &&& p.node_count == n
        &&& p.pod_count == self.pods@.len()
        &&& p.avg_error_ratio_atto == (if n > 0 {
            self.total(NodeFigure::ErrorRatio) / n
        } else {
            0
        })
    }

    /// Whether the cluster's sums can be held.
    pub fn cluster_in_range(&self) -> (r: bool)
        ensures
            r == self.totals_fit(),
    {
        let cpu: Option<u128> = sum_nodes(&self.nodes, NodeFigure::Cpu);
        let memory: Option<u128> = sum_nodes(&self.nodes, NodeFigure::Memory);
        let gpu: Option<u128> = sum_nodes(&self.nodes, NodeFigure::Gpu);
        let platform: Option<u128> = sum_nodes(&self.nodes, NodeFigure::Platform);
        let output: Option<u128> = sum_nodes(&self.nodes, NodeFigure::PsuOutput);
        let idle: Option<u128> = sum_nodes(&self.nodes, NodeFigure::Idle);
        let error: Option<u128> = sum_nodes(&self.nodes, NodeFigure::ErrorRatio);
        proof {
            lemma_node_total(self.nodes@, NodeFigure::Cpu, 0);
            lemma_node_total(self.nodes@, NodeFigure::Memory, 0);
            lemma_node_total(self.nodes@, NodeFigure::Gpu, 0);
        }
        let limit: u128 = 0xffff_ffff_ffff_ffff;
        match (cpu, memory, gpu, platform, output, idle, error) {
            (Some(c), Some(m), Some(g), Some(p), Some(o), Some(i), Some(_)) => c <= limit && m
                <= limit && g <= limit && c + m + g <= limit && p <= limit && o <= limit && i
                <= limit,
            _ => false,
        }
    }

    /// Whether the sums of each namespace and node can be held.
    pub fn parts_in_range(&self) -> (r: bool)
        ensures
            r == self.parts_fit(),
    {
        let limit: u128 = 0xffff_ffff_ffff_ffff;
        let mut i: usize = 0;
        while i < self.pods.len()
            invariant
                i <= self.pods@.len(),
                limit == 0xffff_ffff_ffff_ffff,
                forall|j: int|
                    0 <= j < i ==> namespace_fits(
                        self.pods@,
                        (#[trigger] self.pods@[j]).1.report.namespace@,
                    ),
            decreases self.pods@.len() - i,
        {
            let ns: &str = self.pods[i].1.report.namespace.as_str();
            if sum_pods(&self.pods, ns, PodFigure::Cpu) > limit || sum_pods(
                &self.pods,
                ns,
                PodFigure::Memory,
            ) > limit || sum_pods(&self.pods, ns, PodFigure::Gpu) > limit || sum_pods(
                &self.pods,
                ns,
                PodFigure::Storage,
            ) > limit || sum_pods(&self.pods, ns, PodFigure::Io) > limit || sum_pods(
                &self.pods,
                ns,
                PodFigure::Total,
            ) > limit {
                assert(has_pods(self.pods@, self.pods@[i as int].1.report.namespace@));
                return false;
            }
            i = i + 1;
        }
        let mut k: usize = 0;
        while k < self.nodes.len()
            invariant
                k <= self.nodes@.len(),
                limit == 0xffff_ffff_ffff_ffff,
                forall|j: int| 0 <= j < k ==> use_fits((#[trigger] self.nodes@[j]).1),
            decreases self.nodes@.len() - k,
        {
            let r: &NodePowerReport = &self.nodes[k].1.report;
            if r.cpu_uw as u128 + r.memory_uw as u128 + r.gpu_uw as u128 > limit {
                assert(!use_fits(self.nodes@[k as int].1));
                return false;
            }
            k = k + 1;
        }
        proof {
            assert forall|ns: Seq<char>| #[trigger]
                has_pods(self.pods@, ns) implies namespace_fits(self.pods@, ns) by {
                let j = choose|j: int|
                    0 <= j < self.pods@.len() && (#[trigger] self.pods@[j]).1.report.namespace@
                        == ns;
                assert(namespace_fits(self.pods@, self.pods@[j].1.report.namespace@));
            }
        }
        true
    }

    /// Cluster-wide power summary.
    pub fn cluster_power(&self) -> (p: ClusterPower)
        requires
            self.totals_fit(),
        ensures
            self.is_cluster_power(p),
    {
        proof {
            lemma_node_total(self.nodes@, NodeFigure::Cpu, 0);
            lemma_node_total(self.nodes@, NodeFigure::Memory, 0);
            lemma_node_total(self.nodes@, NodeFigure::Gpu, 0);
        }
        let cpu: u64 = sum_nodes(&self.nodes, NodeFigure::Cpu).unwrap() as u64;
        let memory: u64 = sum_nodes(&self.nodes, NodeFigure::Memory).unwrap() as u64;
        let gpu: u64 = sum_nodes(&self.nodes, NodeFigure::Gpu).unwrap() as u64;
        let platform: u64 = sum_nodes(&self.nodes, NodeFigure::Platform).unwrap() as u64;
        let psu_output: u64 = sum_nodes(&self.nodes, NodeFigure::PsuOutput).unwrap() as u64;
        let idle: u64 = sum_nodes(&self.nodes, NodeFigure::Idle).unwrap() as u64;
        let error_sum: u128 = sum_nodes(&self.nodes, NodeFigure::ErrorRatio).unwrap();
        let n: usize = self.nodes.len();
        ClusterPower {
            cpu_uw: cpu,
            memory_uw: memory,
            gpu_uw: gpu,
            platform_uw: platform,
            psu_output_uw: psu_output,
            psu_loss_uw: platform.saturating_sub(psu_output),
            idle_uw: idle,
            total_attributed_uw: cpu + memory + gpu,
            node_count: n,
            pod_count: self.pods.len(),
            avg_error_ratio_atto: if n > 0 {
                error_sum / n as u128
            } else {
                0
            },
        }
    }

    /// Power breakdown by namespace, highest power first.
    pub fn namespace_power(&self) -> (r: Vec<NamespacePower>)
        requires
            self.parts_fit(),
        ensures
            are_namespace_powers(r@, self.pods@),
    {
        let mut r: Vec<NamespacePower> = Vec::new();
        let mut i: usize = 0;
        while i < self.pods.len()
            invariant
                i <= self.pods@.len(),
                self.parts_fit(),
                in_order(r@),
                forall|j: int| 0 <= j < r@.len() ==> is_namespace_power(#[trigger] r@[j], self.pods@),
                forall|a: int, b: int|
                    0 <= a < r@.len() && 0 <= b < r@.len() && a != b ==> (
                    #[trigger] r@[a]).namespace@ != (#[trigger] r@[b]).namespace@,
                forall|j: int|
                    0 <= j < r@.len() ==> has_pods(self.pods@, (#[trigger] r@[j]).namespace@),
                forall|j: int|
                    0 <= j < i ==> exists|k: int|
                        0 <= k < r@.len() && (#[trigger] r@[k]).namespace@ == (
                        #[trigger] self.pods@[j]).1.report.namespace@,
            decreases self.pods@.len() - i,
        {
            let ns: &str = self.pods[i].1.report.namespace.as_str();
            let ghost before = r@;
            if !lists_namespace(&r, ns) {
                assert(has_pods(self.pods@, ns@)) by {
                    assert(self.pods@[i as int].1.report.namespace@ == ns@);
                }
                assert(namespace_fits(self.pods@, ns@));
                let power: NamespacePower = NamespacePower {
                    namespace: ns.to_owned(),
                    cpu_uw: sum_pods(&self.pods, ns, PodFigure::Cpu) as u64,
                    memory_uw: sum_pods(&self.pods, ns, PodFigure::Memory) as u64,
                    gpu_uw: sum_pods(&self.pods, ns, PodFigure::Gpu) as u64,
                    storage_uw: sum_pods(&self.pods, ns, PodFigure::Storage) as u64,
                    io_uw: sum_pods(&self.pods, ns, PodFigure::Io) as u64,
                    total_uw: sum_pods(&self.pods, ns, PodFigure::Total) as u64,
                    pod_count: sum_pods(&self.pods, ns, PodFigure::Count) as usize,
                };
                insert_ranked(&mut r, power);
                proof {
                    crate::sort::law_inserted(before, power);
                    crate::sort::lemma_place(before, power);
                    let p = crate::sort::place(before, power);
                    assert forall|j: int| 0 <= j < r@.len() implies #[trigger] r@[j] == if j < p {
                        before[j]
                    } else if j == p {
                        power
                    } else {
                        before[j - 1]
                    } by {}
                    assert forall|j: int| 0 <= j < i implies exists|k: int|
                        0 <= k < r@.len() && (#[trigger] r@[k]).namespace@ == (
                        #[trigger] self.pods@[j]).1.report.namespace@ by {
                        let k = choose|k: int|
                            0 <= k < before.len() && (#[trigger] before[k]).namespace@
                                == self.pods@[j].1.report.namespace@;
                        let m = if k < p {
                            k
                        } else {
                            k + 1
                        };
                        assert(r@[m] == before[k]);
                    }
                    assert(r@[p].namespace@ == self.pods@[i as int].1.report.namespace@);
                }
            }
            i = i + 1;
        }
        proof {
            assert forall|ns: Seq<char>| #[trigger]
                has_pods(self.pods@, ns) <==> exists|k: int|
                    0 <= k < r@.len() && (#[trigger] r@[k]).namespace@ == ns by {
                if has_pods(self.pods@, ns) {
                    let j = choose|j: int|
                        0 <= j < self.pods@.len() && (#[trigger] self.pods@[j]).1.report.namespace@
                            == ns;
                    let k = choose|k: int|
                        0 <= k < r@.len() && (#[trigger] r@[k]).namespace@
                            == self.pods@[j].1.report.namespace@;
                    assert(r@[k].namespace@ == ns);
                }
            }
            assert forall|a: int, b: int| 0 <= a <= b < r@.len() implies (
            #[trigger] r@[a]).total_uw >= (#[trigger] r@[b]).total_uw by {
                assert(r@[a].rank() <= r@[b].rank());
            }
        }
        r
    }

    /// Pods of a specific namespace.
    pub fn pods_in_namespace(&self, namespace: &str) -> (r: Vec<&PodPowerReport>)
        ensures
            ({
                let kept = self.pods@.filter(
                    |e: (String, PodState)| e.1.report.namespace@ == namespace@,
                );
                r@.len() == kept.len() && forall|i: int|
                    0 <= i < kept.len() ==> *(#[trigger] r@[i]) == kept[i].1.report
            }),
    {
        let ghost p = |e: (String, PodState)| e.1.report.namespace@ == namespace@;
        let mut r: Vec<&PodPowerReport> = Vec::new();
        let mut i: usize = 0;
        proof {
            reveal(Seq::filter);
        }
        while i < self.pods.len()
            invariant
                i <= self.pods@.len(),
                p == (|e: (String, PodState)| e.1.report.namespace@ == namespace@),
                r@.len() == self.pods@.take(i as int).filter(p).len(),
                forall|j: int|
                    0 <= j < r@.len() ==> *(#[trigger] r@[j]) == self.pods@.take(i as int).filter(
                        p,
                    )[j].1.report,
            decreases self.pods@.len() - i,
        {
            proof {
                reveal(Seq::filter);
                assert(self.pods@.take(i + 1).drop_last() =~= self.pods@.take(i as int));
            }
            if same(self.pods[i].1.report.namespace.as_str(), namespace) {
                r.push(&self.pods[i].1.report);
            }
            i = i + 1;
        }
        assert(self.pods@.take(i as int) =~= self.pods@);
        r
    }

    /// All node summaries.
    pub fn node_summaries(&self, now: u64) -> (r: Vec<NodeSummary>)
        requires
            self.parts_fit(),
        ensures
            r@.len() == self.nodes@.len(),
            forall|i: int|
                0 <= i < r@.len() ==> is_summary(#[trigger] r@[i], self.nodes@[i].1, now),
    {
        let mut r: Vec<NodeSummary> = Vec::new();
        let mut i: usize = 0;
        while i < self.nodes.len()
            invariant
                i <= self.nodes@.len(),
                self.parts_fit(),
                r@.len() == i,
                forall|j: int|
                    0 <= j < i ==> is_summary(#[trigger] r@[j], self.nodes@[j].1, now),
            decreases self.nodes@.len() - i,
        {
            assert(use_fits(self.nodes@[i as int].1));
            r.push(summarize(&self.nodes[i].1, now));
            i = i + 1;
        }
        r
    }

    /// A specific node's summary.
    pub fn node_summary(&self, node_name: &str, now: u64) -> (r: Option<NodeSummary>)
        requires
            self.parts_fit(),
        ensures
            match r {
                Some(s) => lookup(self.nodes@, node_name@) is Some && is_summary(
                    s,
                    lookup(self.nodes@, node_name@)->0,
                    now,
                ),
                None => lookup(self.nodes@, node_name@) is None,
            },
    {
        match find(&self.nodes, &node_name.to_owned()) {
            Some(i) => {
                assert(use_fits(self.nodes@[i as int].1));
                Some(summarize(&self.nodes[i].1, now))
            },
            None => None,
        }
    }

    /// Power of a specific pod.
    pub fn pod_power(&self, pod_uid: &str) -> (r: Option<&PodPowerReport>)
        ensures
            match r {
                Some(p) => lookup(self.pods@, pod_uid@) is Some && *p == lookup(
                    self.pods@,
                    pod_uid@,
                )->0.report,
                None => lookup(self.pods@, pod_uid@) is None,
            },
    {
        match get(&self.pods, &pod_uid.to_owned()) {
            Some(s) => Some(&s.report),
            None => None,
        }
    }

    /// A namespace's power history since a time.
    pub fn namespace_history(&self, namespace: &str, since: u64) -> (r: Vec<(u64, u64)>)
        ensures
            r@ == past(history_of(self.history@), namespace@).filter(
                |e: (u64, u64)| e.0 >= since,
            ),
    {
        let ghost p = |e: (u64, u64)| e.0 >= since;
        let mut r: Vec<(u64, u64)> = Vec::new();
        let found: Option<&Vec<(u64, u64)>> = get(&self.history, &namespace.to_owned());
        let ghost all = past(history_of(self.history@), namespace@);
        proof {
            reveal(Seq::filter);
        }
        match found {
            Some(v) => {
                assert(v@ == all);
                let mut i: usize = 0;
                while i < v.len()
                    invariant
                        i <= v@.len(),
                        p == (|e: (u64, u64)| e.0 >= since),
                        r@ == v@.take(i as int).filter(p),
                    decreases v@.len() - i,
                {
                    proof {
                        reveal(Seq::filter);
                        assert(v@.take(i + 1).drop_last() =~= v@.take(i as int));
                    }
                    if v[i].0 >= since {
                        r.push(v[i]);
                    }
                    i = i + 1;
                }
                assert(v@.take(i as int) =~= v@);
            },
            None => {
                assert(all =~= Seq::empty());
            },
        }
        r
    }

    /// Number of active nodes.
    pub fn node_count(&self) -> (r: usize)
        ensures
            r == self.nodes@.len(),
    {
        self.nodes.len()
    }

    /// CPU source info from the first reporting node.
    pub fn cpu_source_info(&self) -> (r: (String, String))
        ensures
            (r.0@, r.1@) == first_cpu_source(self.nodes@),
    {
        if self.nodes.len() > 0 {
            (
                self.nodes[0].1.report.cpu_source.clone(),
                self.nodes[0].1.report.cpu_reading_type.clone(),
            )
        } else {
            ("unknown".to_owned(), "none".to_owned())
        }
    }

    /// Memory source info from the first reporting node.
    pub fn memory_source_info(&self) -> (r: String)
        ensures
            r@ == first_memory_source(self.nodes@),
    {
        if self.nodes.len() > 0 {
            self.nodes[0].1.report.memory_source.clone()
        } else {
            "unknown".to_owned()
        }
    }

    /// All source statuses, merged from all nodes.
    pub fn all_sources(&self) -> (r: Vec<&SourceStatus>)
        ensures
            r@.len() == sources_of(self.nodes@).len(),
            forall|i: int| 0 <= i < r@.len() ==> *(#[trigger] r@[i]) == sources_of(self.nodes@)[i],
    {
        let mut r: Vec<&SourceStatus> = Vec::new();
        let mut i: usize = 0;
        while i < self.nodes.len()
            invariant
                i <= self.nodes@.len(),
                r@.len() == sources_of(self.nodes@.take(i as int)).len(),
                forall|k: int|
                    0 <= k < r@.len() ==> *(#[trigger] r@[k]) == sources_of(
                        self.nodes@.take(i as int),
                    )[k],
            decreases self.nodes@.len() - i,
        {
            assert(self.nodes@.take(i + 1).drop_last() =~= self.nodes@.take(i as int));
            let ghost before = sources_of(self.nodes@.take(i as int));
            let sources: &Vec<SourceStatus> = &self.nodes[i].1.report.sources;
            let mut j: usize = 0;
            while j < sources.len()
                invariant
                    j <= sources@.len(),
                    r@.len() == before.len() + j,
                    forall|k: int|
                        0 <= k < r@.len() ==> *(#[trigger] r@[k]) == (before + sources@)[k],
                decreases sources@.len() - j,
            {
                r.push(&sources[j]);
                j = j + 1;
            }
            i = i + 1;
        }
        assert(self.nodes@.take(i as int) =~= self.nodes@);
        r
    }

    /// Drops nodes that the cluster no longer has, and the pods on them. Returns the names of the
    /// nodes that were dropped.
    pub fn evict_removed_nodes(&mut self, live: &Vec<String>) -> (r: Vec<String>)
        requires
            old(self).well_formed(),
        ensures
            final(self).well_formed(),
            final(self).nodes@ == old(self).nodes@.filter(
                |e: (String, NodeState)| named(live@, e.0@),
            ),
            final(self).pods@ == old(self).pods@.filter(
                |e: (String, PodState)|
                    named(live@, e.1.report.node_name@),
            ),
            final(self).history@ == old(self).history@,
            final(self).staleness_threshold == old(self).staleness_threshold,
            final(self).history_retention == old(self).history_retention,
            r@ == old(self).nodes@.filter(
                |e: (String, NodeState)| !named(live@, e.0@),
            ).map_values(|e: (String, NodeState)| e.0),
    {
        let ghost before = *self;
        let ghost gone = |e: (String, NodeState)| !named(live@, e.0@);
        let ghost name = |e: (String, NodeState)| e.0;
        let mut r: Vec<String> = Vec::new();
        let mut i: usize = 0;
        proof {
            reveal(Seq::filter);
        }
        assert(r@ =~= self.nodes@.take(0).filter(gone).map_values(name));
        while i < self.nodes.len()
            invariant
                i <= self.nodes@.len(),
                *self == before,
                gone == (|e: (String, NodeState)| !named(live@, e.0@)),
                name == (|e: (String, NodeState)| e.0),
                r@ == self.nodes@.take(i as int).filter(gone).map_values(name),
            decreases self.nodes@.len() - i,
        {
            proof {
                reveal(Seq::filter);
                assert(self.nodes@.take(i + 1).drop_last() =~= self.nodes@.take(i as int));
            }
            let ghost so_far = self.nodes@.take(i as int).filter(gone);
            if !contains(live, self.nodes[i].0.as_str()) {
                r.push(self.nodes[i].0.clone());
                assert(self.nodes@.take(i + 1).filter(gone) =~= so_far.push(
                    self.nodes@[i as int],
                ));
                assert(r@ =~= self.nodes@.take(i + 1).filter(gone).map_values(name));
            }
            i = i + 1;
        }
        assert(self.nodes@.take(i as int) =~= self.nodes@);
        let live_node = |e: &(String, NodeState)| -> (b: bool)
            ensures
                b == named(live@, e.0@),
            { contains(live, e.0.as_str()) };
        retain(
            &mut self.nodes,
            live_node,
            Ghost(|e: (String, NodeState)| named(live@, e.0@)),
        );
        let live_pod = |e: &(String, PodState)| -> (b: bool)
            ensures
                b == named(live@, e.1.report.node_name@),
            { contains(live, e.1.report.node_name.as_str()) };
        retain(
            &mut self.pods,
            live_pod,
            Ghost(
                |e: (String, PodState)|
                    named(live@, e.1.report.node_name@),
            ),
        );
        proof {
            let p = |e: (String, NodeState)| named(live@, e.0@);
            super::aggregator::lemma_nodes_filtered(before.nodes@, p);
            let q = |e: (String, PodState)|
                named(live@, e.1.report.node_name@);
            super::aggregator::lemma_pods_filtered(before.pods@, q);
        }
        r
    }
}

/// The namespaces' powers add up to the pods': each figure summed over the namespaces is the
/// figure summed over all pods.
pub proof fn law_namespaces_add_up(v: Seq<NamespacePower>, pods: Seq<(String, PodState)>, f: PodFigure)
    requires
        are_namespace_powers(v, pods),
    ensures
        used_by_all(
            pod_figures(pods, f),
            v.map_values(|p: NamespacePower| p.namespace@),
        ) == used(pod_figures(pods, f)),
{
    let list = pod_figures(pods, f);
    let names = v.map_values(|p: NamespacePower| p.namespace@);
    assert(names.no_duplicates());
    assert forall|ns: Seq<char>| #[trigger] mentions(list, ns) implies names.contains(ns) by {
        let i = choose|i: int| 0 <= i < list.len() && (#[trigger] list[i]).0 == ns;
        assert(pods[i].1.report.namespace@ == ns);
        assert(has_pods(pods, ns));
        let k = choose|k: int| 0 <= k < v.len() && (#[trigger] v[k]).namespace@ == ns;
        assert(names[k] == ns);
    }
    law_tally(list, names);
}

// ─── What the answers say of the reports ────────────────────────

/// What a pod counts for in a namespace: nothing if it is in another.
pub open spec fn counted_in(ns: Seq<char>, count: spec_fn(PodPowerReport) -> int) -> spec_fn(
    (String, PodState),
) -> int {
    |e: (String, PodState)|
        if e.1.report.namespace@ == ns {
            count(e.1.report)
        } else {
            0
        }
}

/// What the pods of a namespace report together, by what each report counts for.
pub open spec fn reported_in(
    pods: Seq<(String, PodState)>,
    ns: Seq<char>,
    count: spec_fn(PodPowerReport) -> int,
) -> int {
    sum_of(pods, counted_in(ns, count))
}

/// A namespace's figure as a sum over the reports of its pods.
pub proof fn lemma_namespace_total(
    pods: Seq<(String, PodState)>,
    ns: Seq<char>,
    f: PodFigure,
    count: spec_fn(PodPowerReport) -> int,
)
    requires
        forall|r: PodPowerReport| #[trigger] count(r) == pod_figure(r, f),
    ensures
        namespace_total(pods, ns, f) == reported_in(pods, ns, count),
{
    lemma_used_by_sum(
        pod_figures(pods, f),
        ns,
        pods,
        counted_in(ns, count),
    );
}

/// Each figure of a namespace is the sum of the field of the same name over the reports of its
/// pods, and its count is the number of these.
pub proof fn law_namespace_figures(v: Seq<NamespacePower>, pods: Seq<(String, PodState)>, i: int)
    requires
        are_namespace_powers(v, pods),
        0 <= i < v.len(),
    ensures
        v[i].cpu_uw == reported_in(pods, v[i].namespace@, |r: PodPowerReport| r.cpu_uw as int),
        v[i].memory_uw == reported_in(pods, v[i].namespace@, |r: PodPowerReport| r.memory_uw as int),
        v[i].gpu_uw == reported_in(pods, v[i].namespace@, |r: PodPowerReport| r.gpu_uw as int),
        v[i].storage_uw == reported_in(
            pods,
            v[i].namespace@,
            |r: PodPowerReport| r.storage_uw as int,
        ),
        v[i].io_uw == reported_in(pods, v[i].namespace@, |r: PodPowerReport| r.io_uw as int),
        v[i].total_uw == reported_in(pods, v[i].namespace@, |r: PodPowerReport| r.total_uw as int),
        v[i].pod_count == reported_in(pods, v[i].namespace@, |r: PodPowerReport| 1int),
{
    let ns = v[i].namespace@;
    assert(is_namespace_power(v[i], pods));
    lemma_namespace_total(pods, ns, PodFigure::Cpu, |r: PodPowerReport| r.cpu_uw as int);
    lemma_namespace_total(pods, ns, PodFigure::Memory, |r: PodPowerReport| r.memory_uw as int);
    lemma_namespace_total(pods, ns, PodFigure::Gpu, |r: PodPowerReport| r.gpu_uw as int);
    lemma_namespace_total(pods, ns, PodFigure::Storage, |r: PodPowerReport| r.storage_uw as int);
    lemma_namespace_total(pods, ns, PodFigure::Io, |r: PodPowerReport| r.io_uw as int);
    lemma_namespace_total(pods, ns, PodFigure::Total, |r: PodPowerReport| r.total_uw as int);
    lemma_namespace_total(pods, ns, PodFigure::Count, |r: PodPowerReport| 1int);
}

/// A namespace of one pod has the figures of that pod's report.
pub proof fn law_namespace_of_one_pod(
    v: Seq<NamespacePower>,
    pods: Seq<(String, PodState)>,
    i: int,
    k: int,
)
    requires
        are_namespace_powers(v, pods),
        0 <= i < v.len(),
        0 <= k < pods.len(),
        pods[k].1.report.namespace@ == v[i].namespace@,
        forall|j: int|
            0 <= j < pods.len() && j != k ==> (#[trigger] pods[j]).1.report.namespace@
                != v[i].namespace@,
    ensures
        v[i].cpu_uw == pods[k].1.report.cpu_uw,
        v[i].memory_uw == pods[k].1.report.memory_uw,
        v[i].gpu_uw == pods[k].1.report.gpu_uw,
        v[i].storage_uw == pods[k].1.report.storage_uw,
        v[i].io_uw == pods[k].1.report.io_uw,
        v[i].total_uw == pods[k].1.report.total_uw,
        v[i].pod_count == 1,
{
    law_namespace_figures(v, pods, i);
    let ns = v[i].namespace@;
    lemma_alone(pods, ns, k, |r: PodPowerReport| r.cpu_uw as int);
    lemma_alone(pods, ns, k, |r: PodPowerReport| r.memory_uw as int);
    lemma_alone(pods, ns, k, |r: PodPowerReport| r.gpu_uw as int);
    lemma_alone(pods, ns, k, |r: PodPowerReport| r.storage_uw as int);
    lemma_alone(pods, ns, k, |r: PodPowerReport| r.io_uw as int);
    lemma_alone(pods, ns, k, |r: PodPowerReport| r.total_uw as int);
    lemma_alone(pods, ns, k, |r: PodPowerReport| 1int);
}

proof fn lemma_alone(
    pods: Seq<(String, PodState)>,
    ns: Seq<char>,
    k: int,
    count: spec_fn(PodPowerReport) -> int,
)
    requires
        0 <= k < pods.len(),
        pods[k].1.report.namespace@ == ns,
        forall|j: int|
            0 <= j < pods.len() && j != k ==> (#[trigger] pods[j]).1.report.namespace@ != ns,
    ensures
        reported_in(pods, ns, count) == count(pods[k].1.report),
{
    lemma_sum_single(
        pods,
        counted_in(ns, count),
        k,
    );
}

/// A namespace is listed if and only if a pod of it is known, once, and none stands before one
/// with more power.
pub proof fn law_namespaces_listed(v: Seq<NamespacePower>, pods: Seq<(String, PodState)>, ns: Seq<char>)
    requires
        are_namespace_powers(v, pods),
    ensures
        (exists|i: int| 0 <= i < v.len() && (#[trigger] v[i]).namespace@ == ns) <==> (exists|k: int|
            0 <= k < pods.len() && (#[trigger] pods[k]).1.report.namespace@ == ns),
        forall|i: int, j: int|
            0 <= i < j < v.len() ==> (#[trigger] v[i]).namespace@ != (#[trigger] v[j]).namespace@
                && v[i].total_uw >= v[j].total_uw,
{
    assert(has_pods(pods, ns) <==> exists|i: int|
        0 <= i < v.len() && (#[trigger] v[i]).namespace@ == ns);
}

/// What the nodes report together, by what each report counts for.
pub open spec fn reported_by_nodes(
    nodes: Seq<(String, NodeState)>,
    count: spec_fn(NodePowerReport) -> int,
) -> int {
    sum_of(nodes, |e: (String, NodeState)| count(e.1.report))
}

proof fn lemma_node_total_sum(
    nodes: Seq<(String, NodeState)>,
    f: NodeFigure,
    count: spec_fn(NodePowerReport) -> int,
)
    requires
        forall|r: NodePowerReport| #[trigger] count(r) == node_figure(r, f),
    ensures
        node_total(nodes, f) == reported_by_nodes(nodes, count),
    decreases nodes.len(),
{
    if nodes.len() > 0 {
        lemma_node_total_sum(nodes.drop_last(), f, count);
    }
}

/// Each figure of the cluster is the sum of the field of the same name over the reports of its
/// nodes; a node that does not tell its platform's power counts as none. What is attributed is
/// the power of CPU, memory and GPU, and the loss is what of the platform's power the supplies
/// do not put out. The average error, times the nodes, is their sum but for what is rounded down.
pub proof fn law_cluster_figures(agg: ClusterAggregator, p: ClusterPower)
    requires
        agg.is_cluster_power(p),
    ensures
        p.cpu_uw == reported_by_nodes(agg.nodes@, |r: NodePowerReport| r.cpu_uw as int),
        p.memory_uw == reported_by_nodes(agg.nodes@, |r: NodePowerReport| r.memory_uw as int),
        p.gpu_uw == reported_by_nodes(agg.nodes@, |r: NodePowerReport| r.gpu_uw as int),
        p.idle_uw == reported_by_nodes(agg.nodes@, |r: NodePowerReport| r.idle_uw as int),
        p.platform_uw == reported_by_nodes(
            agg.nodes@,
            |r: NodePowerReport|
                match r.platform_uw {
                    Some(w) => w as int,
                    None => 0,
                },
        ),
        p.psu_output_uw == reported_by_nodes(
            agg.nodes@,
            |r: NodePowerReport|
                match r.psu_output_uw {
                    Some(w) => w as int,
                    None => 0,
                },
        ),
        p.total_attributed_uw == p.cpu_uw + p.memory_uw + p.gpu_uw,
        p.platform_uw >= p.psu_output_uw ==> p.psu_output_uw + p.psu_loss_uw == p.platform_uw,
        p.platform_uw < p.psu_output_uw ==> p.psu_loss_uw == 0,
        p.node_count == agg.nodes@.len(),
        p.pod_count == agg.pods@.len(),
        ({
            let all = reported_by_nodes(
                agg.nodes@,
                |r: NodePowerReport| r.error_ratio_atto as int,
            );
            &&& p.avg_error_ratio_atto * p.node_count <= all
            &&& p.node_count > 0 ==> all < (p.avg_error_ratio_atto + 1) * p.node_count
            &&& p.node_count == 0 ==> p.avg_error_ratio_atto == 0
        }),
{
    let nodes = agg.nodes@;
    lemma_node_total_sum(nodes, NodeFigure::Cpu, |r: NodePowerReport| r.cpu_uw as int);
    lemma_node_total_sum(nodes, NodeFigure::Memory, |r: NodePowerReport| r.memory_uw as int);
    lemma_node_total_sum(nodes, NodeFigure::Gpu, |r: NodePowerReport| r.gpu_uw as int);
    lemma_node_total_sum(nodes, NodeFigure::Idle, |r: NodePowerReport| r.idle_uw as int);
    lemma_node_total_sum(
        nodes,
        NodeFigure::Platform,
        |r: NodePowerReport|
            match r.platform_uw {
                Some(w) => w as int,
                None => 0,
            },
    );
    lemma_node_total_sum(
        nodes,
        NodeFigure::PsuOutput,
        |r: NodePowerReport|
            match r.psu_output_uw {
                Some(w) => w as int,
                None => 0,
            },
    );
    lemma_node_total_sum(
        nodes,
        NodeFigure::ErrorRatio,
        |r: NodePowerReport| r.error_ratio_atto as int,
    );
    let (all, n, avg) = (
        agg.total(NodeFigure::ErrorRatio),
        nodes.len() as int,
        p.avg_error_ratio_atto as int,
    );
    if n > 0 {
        vstd::arithmetic::div_mod::lemma_fundamental_div_mod(all, n);
        vstd::arithmetic::div_mod::lemma_mod_bound(all, n);
        assert(avg * n <= all < (avg + 1) * n) by (nonlinear_arith)
            requires
                all == n * avg + all % n,
                0 <= all % n < n,
        ;
    } else {
        lemma_node_total(nodes, NodeFigure::ErrorRatio, 0);
        assert(avg * 0 == 0);
    }
}

/// A node's summary tells what the node reported, and its headroom is what is left of the
/// platform's power: all three components and the headroom together make the platform's power,
/// unless the components use more, and then there is none. A node heard of later was seen less
/// long ago.
pub proof fn law_summary_tells_report(s: NodeSummary, state: NodeState, now: u64)
    requires
        is_summary(s, state, now),
    ensures
        s.node_name@ == state.report.node_name@,
        s.cpu_uw == state.report.cpu_uw,
        s.memory_uw == state.report.memory_uw,
        s.gpu_uw == state.report.gpu_uw,
        s.idle_uw == state.report.idle_uw,
        s.platform_uw == state.report.platform_uw,
        s.psu_output_uw == state.report.psu_output_uw,
        s.error_ratio_atto == state.report.error_ratio_atto,
        s.pod_count == state.report.pod_count,
        s.headroom_uw is Some <==> state.report.platform_uw is Some,
        s.headroom_uw is Some ==> ({
            let used = s.cpu_uw + s.memory_uw + s.gpu_uw;
            if used <= s.platform_uw->0 {
                used + s.headroom_uw->0 == s.platform_uw->0
            } else {
                s.headroom_uw->0 == 0
            }
        }),
        now >= state.received_at ==> s.last_seen_secs_ago * 1_000_000_000 <= now
            - state.received_at < (s.last_seen_secs_ago + 1) * 1_000_000_000,
{
}

/// What a node counts for by its sources.
pub open spec fn counted_sources(count: spec_fn(SourceStatus) -> int) -> spec_fn(
    (String, NodeState),
) -> int {
    |e: (String, NodeState)| sum_of(e.1.report.sources@, count)
}

/// All sources are those that the nodes report, each node's own; what the cluster's sources are
/// called is what the first node calls its own.
pub proof fn law_sources_told(
    nodes: Seq<(String, NodeState)>,
    count: spec_fn(SourceStatus) -> int,
)
    ensures
        sum_of(sources_of(nodes), count) == sum_of(nodes, counted_sources(count)),
        nodes.len() > 0 ==> first_cpu_source(nodes).0 == nodes[0].1.report.cpu_source@,
        nodes.len() > 0 ==> first_cpu_source(nodes).1 == nodes[0].1.report.cpu_reading_type@,
        nodes.len() > 0 ==> first_memory_source(nodes) == nodes[0].1.report.memory_source@,
        nodes.len() == 0 ==> first_cpu_source(nodes) == ("unknown"@, "none"@)
            && first_memory_source(nodes) == "unknown"@,
    decreases nodes.len(),
{
    if nodes.len() > 0 {
        law_sources_told(nodes.drop_last(), count);
        lemma_sum_concat(
            sources_of(nodes.drop_last()),
            nodes.last().1.report.sources@,
            count,
        );
    }
}

} // verus!
