//! Query API: serves drill-down requests from the cluster controller or the command line, straight
//! from the local store.
//!
//! Power is in microwatts, ratios are in units of 10⁻¹⁸.

use crate::attribution::types::{
    AttributionSnapshot, ContainerPower, PodPower, ProcessPower, Reconciliation,
};
use crate::store::{recent_processes, recent_summaries, LocalStore, PodSummary};
use crate::sums::sum_of;
use vstd::prelude::*;

verus! {

/// Query request types. Lookbacks are in nanoseconds.
#[derive(Debug)]
pub enum QueryRequest {
    /// Get current node-level power summary
    NodeSummary,
    /// Get process-level detail for a specific pod
    PodDetail { pod_uid: String, lookback_ns: u64 },
    /// Get pod-level data for a namespace
    NamespacePods { namespace: String, lookback_ns: u64 },
    /// Get reconciliation history (attribution quality over time)
    ReconciliationHistory { count: usize },
    /// Get agent self-monitoring data
    AgentHealth,
}

/// Query response.
#[derive(Debug)]
pub enum QueryResponse {
    NodeSummary(NodeSummaryResponse),
    PodDetail(PodDetailResponse),
    NamespacePods(NamespacePodsResponse),
    ReconciliationHistory(ReconciliationHistoryResponse),
    AgentHealth(AgentHealthResponse),
    Error(String),
}

#[derive(Clone, Copy, Debug, PartialEq, Eq, Structural)]
pub struct NodeSummaryResponse {
    pub cpu_uw: u64,
    pub memory_uw: u64,
    pub gpu_uw: u64,
    pub platform_uw: Option<u64>,
    pub idle_uw: u64,
    pub error_ratio_atto: u128,
    pub pod_count: usize,
    pub process_count: usize,
}

#[derive(Debug)]
pub struct PodDetailResponse {
    pub pod_uid: String,
    pub processes: Vec<ProcessDetail>,
}

#[derive(Debug)]
pub struct ProcessDetail {
    pub pid: u32,
    pub comm: String,
    pub cpu_uw: u64,
    pub memory_uw: u64,
    pub gpu_uw: u64,
    pub core_count: usize,
}

#[derive(Debug)]
pub struct NamespacePodsResponse {
    pub namespace: String,
    pub pods: Vec<PodSummaryResponse>,
}

#[derive(Debug)]
pub struct PodSummaryResponse {
    pub name: String,
    pub namespace: String,
    pub total_uw: u64,
}

#[derive(Debug)]
pub struct ReconciliationHistoryResponse {
    pub entries: Vec<ReconciliationEntry>,
}

#[derive(Clone, Copy, Debug, PartialEq, Eq, Structural)]
pub struct ReconciliationEntry {
    pub error_ratio_atto: u128,
    pub unaccounted_uw: i64,
}

#[derive(Clone, Copy, Debug, PartialEq, Eq, Structural)]
pub struct AgentHealthResponse {
    pub memory_bytes: usize,
    pub cpu_usage_percent: u32,
    pub ebpf_map_entries: usize,
    pub uptime_secs: u64,
}

/// How many processes the first `n` containers hold.
pub open spec fn container_count(containers: Seq<ContainerPower>, n: int) -> int
    decreases n,
{
    if n <= 0 {
        0
    } else {
        container_count(containers, n - 1) + containers[n - 1].processes@.len()
    }
}

/// How many processes the first `n` pods hold.
pub open spec fn pod_count(pods: Seq<PodPower>, n: int) -> int
    decreases n,
{
    if n <= 0 {
        0
    } else {
        pod_count(pods, n - 1) + container_count(
            pods[n - 1].containers@,
            pods[n - 1].containers@.len() as int,
        )
    }
}

/// How many processes a snapshot tells of, in pods and outside of them.
pub open spec fn process_count(s: AttributionSnapshot) -> int {
    s.processes@.len() + pod_count(s.pods@, s.pods@.len() as int)
}

/// The node's summary by a snapshot.
pub open spec fn node_summary(s: AttributionSnapshot) -> NodeSummaryResponse {
    NodeSummaryResponse {
        cpu_uw: s.node.measured.cpu_uw,
        memory_uw: s.node.measured.memory_uw,
        gpu_uw: s.node.measured.gpu_uw,
        platform_uw: s.node.platform_uw,
        idle_uw: s.idle_power.sum() as u64,
        error_ratio_atto: s.reconciliation.error_ratio_atto,
        pod_count: s.pods@.len() as usize,
        process_count: process_count(s) as usize,
    }
}

/// The detail of one process.
pub open spec fn is_detail(d: ProcessDetail, p: ProcessPower) -> bool {
    &&& d.pid == p.pid
    &&& d.comm@ == p.comm@
    &&& d.cpu_uw == p.power.cpu_uw
    &&& d.memory_uw == p.power.memory_uw
    &&& d.gpu_uw == p.power.gpu_uw
    &&& d.core_count == p.core_detail@.len()
}

/// The summary of one pod.
pub open spec fn is_pod_response(r: PodSummaryResponse, p: PodSummary) -> bool {
    r.name@ == p.name@ && r.namespace@ == p.namespace@ && r.total_uw == p.total_uw
}

/// The time from which on a lookback sees.
pub open spec fn since(now_ns: u64, lookback_ns: u64) -> u64 {
    if now_ns > lookback_ns {
        (now_ns - lookback_ns) as u64
    } else {
        0
    }
}

/// Whether what a store is asked for can be counted.
pub open spec fn answerable(store: LocalStore) -> bool {
    &&& store.detail_ring@.len() > 0 ==> store.detail_ring@.last().idle_power.sum() <= u64::MAX
        && process_count(store.detail_ring@.last()) <= usize::MAX
    &&& store.memory() <= usize::MAX
}

/// The answer to a request.
pub open spec fn is_answer(
    r: QueryResponse,
    store: LocalStore,
    request: QueryRequest,
    now_ns: u64,
) -> bool {
    match request {
        QueryRequest::NodeSummary => if store.detail_ring@.len() > 0 {
            r == QueryResponse::NodeSummary(node_summary(store.detail_ring@.last()))
        } else {
            r matches QueryResponse::Error(e) && e@ == "No data yet"@
        },
        QueryRequest::PodDetail { pod_uid, lookback_ns } => {
            let found = recent_processes(
                store.detail_ring@,
                pod_uid@,
                since(now_ns, lookback_ns),
                store.detail_ring@.len() as int,
            );
            r matches QueryResponse::PodDetail(d) && d.pod_uid@ == pod_uid@ && d.processes@.len()
                == found.len() && forall|i: int|
                0 <= i < found.len() ==> is_detail(#[trigger] d.processes@[i], found[i])
        },
        QueryRequest::NamespacePods { namespace, lookback_ns } => {
            let found = recent_summaries(
                store.summary_ring@,
                namespace@,
                since(now_ns, lookback_ns),
                store.summary_ring@.len() as int,
            );
            r matches QueryResponse::NamespacePods(n) && n.namespace@ == namespace@
                && n.pods@.len() == found.len() && forall|i: int|
                0 <= i < found.len() ==> is_pod_response(#[trigger] n.pods@[i], found[i])
        },
        QueryRequest::ReconciliationHistory { count } => {
            let total = store.detail_ring@.len();
            r matches QueryResponse::ReconciliationHistory(h) && h.entries@.len() == (if count
                < total {
                count as int
            } else {
                total as int
            }) && forall|i: int|
                0 <= i < h.entries@.len() ==> #[trigger] h.entries@[i] == (ReconciliationEntry {
                    error_ratio_atto: store.detail_ring@[total - 1
                        - i].reconciliation.error_ratio_atto,
                    unaccounted_uw: store.detail_ring@[total - 1 - i].reconciliation.unaccounted_uw,
                })
        },
        QueryRequest::AgentHealth => r == QueryResponse::AgentHealth(
            AgentHealthResponse {
                memory_bytes: store.memory() as usize,
                cpu_usage_percent: 0,
                ebpf_map_entries: 0,
                uptime_secs: 0,
            },
        ),
    }
}

proof fn lemma_counts_grow(containers: Seq<ContainerPower>, n: int, m: int)
    requires
        0 <= n <= m <= containers.len(),
    ensures
        0 <= container_count(containers, n) <= container_count(containers, m),
    decreases m,
{
    if n < m {
        lemma_counts_grow(containers, n, m - 1);
    } else if n > 0 {
        lemma_counts_grow(containers, n - 1, n - 1);
    }
}

proof fn lemma_pod_counts_grow(pods: Seq<PodPower>, n: int, m: int)
    requires
        0 <= n <= m <= pods.len(),
    ensures
        0 <= pod_count(pods, n) <= pod_count(pods, m),
    decreases m,
{
    if n < m {
        lemma_pod_counts_grow(pods, n, m - 1);
        lemma_counts_grow(pods[m - 1].containers@, 0, pods[m - 1].containers@.len() as int);
    } else if n > 0 {
        lemma_pod_counts_grow(pods, n - 1, n - 1);
        lemma_counts_grow(pods[n - 1].containers@, 0, pods[n - 1].containers@.len() as int);
    }
}

/// Counts the processes that a snapshot tells of.
fn count_processes(s: &AttributionSnapshot) -> (r: usize)
    requires
        process_count(*s) <= usize::MAX,
    ensures
        r == process_count(*s),
{
    let mut total: usize = s.processes.len();
    let mut i: usize = 0;
    proof {
        lemma_pod_counts_grow(s.pods@, 0, s.pods@.len() as int);
    }
    while i < s.pods.len()
        invariant
            i <= s.pods@.len(),
            process_count(*s) <= usize::MAX,
            total == s.processes@.len() + pod_count(s.pods@, i as int),
        decreases s.pods@.len() - i,
    {
        let containers: &Vec<ContainerPower> = &s.pods[i].containers;
        proof {
            lemma_pod_counts_grow(s.pods@, i + 1, s.pods@.len() as int);
        }
        let mut c: usize = 0;
        while c < containers.len()
            invariant
                i < s.pods@.len(),
                containers@ == s.pods@[i as int].containers@,
                c <= containers@.len(),
                s.processes@.len() + pod_count(s.pods@, i as int) + container_count(
                    containers@,
                    containers@.len() as int,
                ) <= usize::MAX,
                total == s.processes@.len() + pod_count(s.pods@, i as int) + container_count(
                    containers@,
                    c as int,
                ),
            decreases containers@.len() - c,
        {
            proof {
                lemma_counts_grow(containers@, c + 1, containers@.len() as int);
            }
            total = total + containers[c].processes.len();
            c = c + 1;
        }
        i = i + 1;
    }
    total
}

/// Query server that handles incoming requests.
#[derive(Debug)]
pub struct QueryServer {}

impl QueryServer {
    pub fn new() -> (r: Self)
        ensures
            r == (QueryServer {  }),
    {
        QueryServer {  }
    }

    /// Handles a query request against the local store.
    pub fn handle(&self, store: &LocalStore, request: QueryRequest, now_ns: u64) -> (r:
        QueryResponse)
        requires
            answerable(*store),
        ensures
            is_answer(r, *store, request, now_ns),
    {
        match request {
            QueryRequest::NodeSummary => match store.latest() {
                Some(s) => QueryResponse::NodeSummary(
                    NodeSummaryResponse {
                        cpu_uw: s.node.measured.cpu_uw,
                        memory_uw: s.node.measured.memory_uw,
                        gpu_uw: s.node.measured.gpu_uw,
                        platform_uw: s.node.platform_uw,
                        idle_uw: s.idle_power.total_uw(),
                        error_ratio_atto: s.reconciliation.error_ratio_atto,
                        pod_count: s.pods.len(),
                        process_count: count_processes(s),
                    },
                ),
                None => QueryResponse::Error("No data yet".to_owned()),
            },
            QueryRequest::PodDetail { pod_uid, lookback_ns } => {
                let from: u64 = now_ns.saturating_sub(lookback_ns);
                let found: Vec<&ProcessPower> = store.query_pod_processes(pod_uid.as_str(), from);
                let mut processes: Vec<ProcessDetail> = Vec::new();
                let mut i: usize = 0;
                while i < found.len()
                    invariant
                        i <= found@.len(),
                        processes@.len() == i,
                        forall|j: int|
                            0 <= j < i ==> is_detail(#[trigger] processes@[j], *found@[j]),
                    decreases found@.len() - i,
                {
                    let p: &ProcessPower = found[i];
                    processes.push(
                        ProcessDetail {
                            pid: p.pid,
                            comm: p.comm.clone(),
                            cpu_uw: p.power.cpu_uw,
                            memory_uw: p.power.memory_uw,
                            gpu_uw: p.power.gpu_uw,
                            core_count: p.core_detail.len(),
                        },
                    );
                    i = i + 1;
                }
                QueryResponse::PodDetail(PodDetailResponse { pod_uid, processes })
            },
            QueryRequest::NamespacePods { namespace, lookback_ns } => {
                let from: u64 = now_ns.saturating_sub(lookback_ns);
                let found: Vec<&PodSummary> = store.query_namespace_pods(
                    namespace.as_str(),
                    from,
                );
                let mut pods: Vec<PodSummaryResponse> = Vec::new();
                let mut i: usize = 0;
                while i < found.len()
                    invariant
                        i <= found@.len(),
                        pods@.len() == i,
                        forall|j: int|
                            0 <= j < i ==> is_pod_response(#[trigger] pods@[j], *found@[j]),
                    decreases found@.len() - i,
                {
                    let p: &PodSummary = found[i];
                    pods.push(
                        PodSummaryResponse {
                            name: p.name.clone(),
                            namespace: p.namespace.clone(),
                            total_uw: p.total_uw,
                        },
                    );
                    i = i + 1;
                }
                QueryResponse::NamespacePods(NamespacePodsResponse { namespace, pods })
            },
            QueryRequest::ReconciliationHistory { count } => {
                let found: Vec<&Reconciliation> = store.reconciliation_history(count);
                let mut entries: Vec<ReconciliationEntry> = Vec::new();
                let mut i: usize = 0;
                while i < found.len()
                    invariant
                        i <= found@.len(),
                        entries@.len() == i,
                        forall|j: int|
                            0 <= j < i ==> #[trigger] entries@[j] == (ReconciliationEntry {
                                error_ratio_atto: found@[j].error_ratio_atto,
                                unaccounted_uw: found@[j].unaccounted_uw,
                            }),
                    decreases found@.len() - i,
                {
                    entries.push(
                        ReconciliationEntry {
                            error_ratio_atto: found[i].error_ratio_atto,
                            unaccounted_uw: found[i].unaccounted_uw,
                        },
                    );
                    i = i + 1;
                }
                QueryResponse::ReconciliationHistory(ReconciliationHistoryResponse { entries })
            },
            QueryRequest::AgentHealth => QueryResponse::AgentHealth(
                AgentHealthResponse {
                    memory_bytes: store.estimated_memory(),
                    cpu_usage_percent: 0,
                    ebpf_map_entries: 0,
                    uptime_secs: 0,
                },
            ),
        }
    }
}

// ─── What the answers tell ──────────────────────────────────────

/// A node's summary tells what was measured of the node, what it draws when idle in all its parts,
/// and how many pods and processes there are: those in containers and those in none.
pub proof fn law_node_summary(s: AttributionSnapshot)
    requires
        s.idle_power.cpu_uw + s.idle_power.memory_uw + s.idle_power.gpu_uw + s.idle_power.nic_uw
            + s.idle_power.storage_uw <= u64::MAX,
        process_count(s) <= usize::MAX,
        s.pods@.len() <= usize::MAX,
    ensures
        node_summary(s).cpu_uw == s.node.measured.cpu_uw,
        node_summary(s).memory_uw == s.node.measured.memory_uw,
        node_summary(s).gpu_uw == s.node.measured.gpu_uw,
        node_summary(s).platform_uw == s.node.platform_uw,
        node_summary(s).idle_uw == s.idle_power.cpu_uw + s.idle_power.memory_uw
            + s.idle_power.gpu_uw + s.idle_power.nic_uw + s.idle_power.storage_uw,
        node_summary(s).error_ratio_atto == s.reconciliation.error_ratio_atto,
        node_summary(s).pod_count == s.pods@.len(),
        node_summary(s).process_count == s.processes@.len() + sum_of(
            s.pods@,
            |p: PodPower|
                sum_of(p.containers@, |c: ContainerPower| c.processes@.len() as int),
        ),
{
    let n = s.pods@.len() as int;
    lemma_pod_count(s.pods@, n);
    assert(s.pods@.take(n) =~= s.pods@);
}

proof fn lemma_container_count(c: Seq<ContainerPower>, n: int)
    requires
        0 <= n <= c.len(),
    ensures
        container_count(c, n) == sum_of(
            c.take(n),
            |c: ContainerPower| c.processes@.len() as int,
        ),
        container_count(c, n) >= 0,
    decreases n,
{
    if n > 0 {
        lemma_container_count(c, n - 1);
        assert(c.take(n).drop_last() =~= c.take(n - 1));
        assert(c.take(n).last() == c[n - 1]);
    } else {
        assert(c.take(0) =~= Seq::empty());
    }
}

proof fn lemma_pod_count(pods: Seq<PodPower>, n: int)
    requires
        0 <= n <= pods.len(),
    ensures
        pod_count(pods, n) == sum_of(
            pods.take(n),
            |p: PodPower|
                sum_of(p.containers@, |c: ContainerPower| c.processes@.len() as int),
        ),
        pod_count(pods, n) >= 0,
    decreases n,
{
    if n > 0 {
        lemma_pod_count(pods, n - 1);
        let c = pods[n - 1].containers@;
        let all = c.len() as int;
        lemma_container_count(c, all);
        assert(c.take(all) =~= c);
        assert(pods.take(n).drop_last() =~= pods.take(n - 1));
        assert(pods.take(n).last() == pods[n - 1]);
    } else {
        assert(pods.take(0) =~= Seq::empty());
    }
}

/// An answer on a process tells its own power and on how many cores it ran, and one on a pod its
/// name and its total.
pub proof fn law_details(d: ProcessDetail, p: ProcessPower, r: PodSummaryResponse, s: PodSummary)
    requires
        is_detail(d, p),
        is_pod_response(r, s),
    ensures
        d.pid == p.pid,
        d.comm@ == p.comm@,
        d.cpu_uw == p.power.cpu_uw,
        d.memory_uw == p.power.memory_uw,
        d.gpu_uw == p.power.gpu_uw,
        d.core_count == p.core_detail@.len(),
        r.name@ == s.name@,
        r.namespace@ == s.namespace@,
        r.total_uw == s.total_uw,
{
}

/// A look back over a time reaches to that long before now, or to the start of time.
pub proof fn law_lookback(now_ns: u64, lookback_ns: u64, ts: u64)
    ensures
        ts >= since(now_ns, lookback_ns) <==> now_ns - ts <= lookback_ns,
{
}

/// Reconciliations are told newest first, as many as are asked for and known; a store without a
/// snapshot knows no node.
pub proof fn law_history_told(
    r: QueryResponse,
    store: LocalStore,
    count: usize,
    now_ns: u64,
    i: int,
)
    requires
        is_answer(r, store, QueryRequest::ReconciliationHistory { count }, now_ns),
    ensures
        r matches QueryResponse::ReconciliationHistory(h) && {
            &&& h.entries@.len() <= count
            &&& h.entries@.len() <= store.detail_ring@.len()
            &&& h.entries@.len() == count || h.entries@.len() == store.detail_ring@.len()
            &&& 0 <= i < h.entries@.len() ==> h.entries@[i].error_ratio_atto
                == store.detail_ring@[store.detail_ring@.len() - 1
                - i].reconciliation.error_ratio_atto
            &&& 0 <= i < h.entries@.len() ==> h.entries@[i].unaccounted_uw
                == store.detail_ring@[store.detail_ring@.len() - 1 - i].reconciliation.unaccounted_uw
        },
{
}

} // verus!
