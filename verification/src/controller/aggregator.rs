//! Cluster aggregator: maintains the cluster-wide view of power consumption.
//!
//! Receives pod-level power summaries from node agents and aggregates them by namespace and for
//! the cluster. Kept are the latest power of every known pod and node, and for each namespace a
//! rolling window of history.

pub use crate::report::{
    pod_reports, AgentReport, NodePowerReport, PodPowerReport, PodReport, SourceStatus,
};
use crate::sums::{lemma_sum_filter, lemma_sum_push, sum_of};
use crate::table::{
    distinct_keys, enter, find, has_key, law_put, law_retain, lemma_filter, lemma_position,
    lemma_position_unique, lookup, position, put, retain,
};
use crate::text::same;
use vstd::prelude::*;

verus! {

/// Current power state of a pod.
#[derive(Debug)]
pub struct PodState {
    pub report: PodPowerReport,
    /// Nanoseconds on a monotonic clock
    pub received_at: u64,
}

/// Current power state of a node.
#[derive(Debug)]
pub struct NodeState {
    pub report: NodePowerReport,
    /// Nanoseconds on a monotonic clock
    pub received_at: u64,
}

/// The cluster aggregator.
#[derive(Debug)]
pub struct ClusterAggregator {
    /// Current pod state, keyed by UID
    pub pods: Vec<(String, PodState)>,
    /// Current node state, keyed by name
    pub nodes: Vec<(String, NodeState)>,
    /// How long stale data is kept, in nanoseconds
    pub staleness_threshold: u64,
    /// For each namespace, power values with the time they are of
    pub history: Vec<(String, Vec<(u64, u64)>)>,
    /// How long history is kept, in nanoseconds
    pub history_retention: u64,
}

/// The history that a table stands for.
pub open spec fn history_of(h: Seq<(String, Vec<(u64, u64)>)>) -> Map<Seq<char>, Seq<(u64, u64)>> {
    Map::new(|ns: Seq<char>| has_key(h, ns), |ns: Seq<char>| lookup(h, ns)->0@)
}

/// Whether something received then is fresh now.
pub open spec fn fresh(received_at: u64, now: u64, threshold: u64) -> bool {
    received_at + threshold > now
}

/// Whether a history entry is recent enough to be kept.
pub open spec fn recent(ts: u64, wall: u64, retention: u64) -> bool {
    ts + retention >= wall
}

/// Whether a report is of the pod `uid`.
pub open spec fn reports_pod(pods: Seq<PodPowerReport>, uid: Seq<char>) -> bool {
    exists|i: int| 0 <= i < pods.len() && (#[trigger] pods[i]).pod_uid@ == uid
}

/// Whether a pod's state outlives a report of its node: it is of another node, or reported again.
pub open spec fn outlives(
    e: (String, PodState),
    node_name: Seq<char>,
    reported: Seq<PodPowerReport>,
) -> bool {
    e.1.report.node_name@ != node_name || reports_pod(reported, e.0@)
}

/// The pods once those of a report are entered.
pub open spec fn pods_entered(
    pods: Seq<(String, PodState)>,
    reported: Seq<PodPowerReport>,
    now: u64,
) -> Seq<(String, PodState)>
    decreases reported.len(),
{
    if reported.len() == 0 {
        pods
    } else {
        put(
            pods_entered(pods, reported.drop_last(), now),
            reported.last().pod_uid,
            PodState { report: reported.last(), received_at: now },
        )
    }
}

/// The values of a namespace's history.
pub open spec fn past(h: Map<Seq<char>, Seq<(u64, u64)>>, ns: Seq<char>) -> Seq<(u64, u64)> {
    if h.contains_key(ns) {
        h[ns]
    } else {
        Seq::empty()
    }
}

/// The history once the pods of a report are recorded.
pub open spec fn history_entered(
    h: Map<Seq<char>, Seq<(u64, u64)>>,
    reported: Seq<PodPowerReport>,
) -> Map<Seq<char>, Seq<(u64, u64)>>
    decreases reported.len(),
{
    if reported.len() == 0 {
        h
    } else {
        let before = history_entered(h, reported.drop_last());
        let p = reported.last();
        before.insert(p.namespace@, past(before, p.namespace@).push((p.timestamp_ns, p.total_uw)))
    }
}

/// The recent values of a namespace's history.
pub open spec fn recent_values(v: Seq<(u64, u64)>, wall: u64, retention: u64) -> Seq<(u64, u64)> {
    v.filter(|e: (u64, u64)| recent(e.0, wall, retention))
}

/// The history without what is too old, and without namespaces of which nothing is left.
pub open spec fn history_trimmed(
    h: Map<Seq<char>, Seq<(u64, u64)>>,
    wall: u64,
    retention: u64,
) -> Map<Seq<char>, Seq<(u64, u64)>> {
    Map::new(
        |ns: Seq<char>| h.contains_key(ns) && recent_values(h[ns], wall, retention).len() > 0,
        |ns: Seq<char>| recent_values(h[ns], wall, retention),
    )
}

impl ClusterAggregator {
    /// Every pod, node and namespace is kept once, under its own name.
    pub open spec fn well_formed(&self) -> bool {
        &&& distinct_keys(self.pods@)
        &&& distinct_keys(self.nodes@)
        &&& distinct_keys(self.history@)
        &&& forall|i: int|
            0 <= i < self.pods@.len() ==> (#[trigger] self.pods@[i]).0@
                == self.pods@[i].1.report.pod_uid@
        &&& forall|i: int|
            0 <= i < self.nodes@.len() ==> (#[trigger] self.nodes@[i]).0@
                == self.nodes@[i].1.report.node_name@
    }

    /// The pods after a report.
    pub open spec fn pods_after(&self, report: AgentReport, now: u64) -> Seq<(String, PodState)> {
        pods_entered(
            self.pods@.filter(
                |e: (String, PodState)| outlives(e, report.node.node_name@, report.pods@),
            ),
            report.pods@,
            now,
        ).filter(
            |e: (String, PodState)| fresh(e.1.received_at, now, self.staleness_threshold),
        )
    }

    /// The nodes after a report.
    pub open spec fn nodes_after(&self, report: AgentReport, now: u64) -> Seq<(String, NodeState)> {
        put(
            self.nodes@,
            report.node.node_name,
            NodeState { report: report.node, received_at: now },
        ).filter(
            |e: (String, NodeState)| fresh(e.1.received_at, now, self.staleness_threshold),
        )
    }

    /// The history after a report.
    pub open spec fn history_after(&self, report: AgentReport, wall: u64) -> Map<
        Seq<char>,
        Seq<(u64, u64)>,
    > {
        history_trimmed(
            history_entered(history_of(self.history@), report.pods@),
            wall,
            self.history_retention,
        )
    }

    /// Whether this becomes `after` when what is stale is evicted.
    pub open spec fn evicts_to(&self, after: ClusterAggregator, now: u64) -> bool {
        &&& after.pods@ == self.pods@.filter(
            |e: (String, PodState)| fresh(e.1.received_at, now, self.staleness_threshold),
        )
        &&& after.nodes@ == self.nodes@.filter(
            |e: (String, NodeState)| fresh(e.1.received_at, now, self.staleness_threshold),
        )
        &&& after.history@ == self.history@
        &&& after.staleness_threshold == self.staleness_threshold
        &&& after.history_retention == self.history_retention
    }

    /// Whether this becomes `after` by a report.
    pub open spec fn becomes(
        &self,
        after: ClusterAggregator,
        report: AgentReport,
        now: u64,
        wall: u64,
    ) -> bool {
        &&& after.pods@ == self.pods_after(report, now)
        &&& after.nodes@ == self.nodes_after(report, now)
        &&& history_of(after.history@) == self.history_after(report, wall)
        &&& after.staleness_threshold == self.staleness_threshold
        &&& after.history_retention == self.history_retention
    }

    /// Whether this becomes `after` by reports, one after the other.
    pub open spec fn becomes_by_all(
        &self,
        after: ClusterAggregator,
        reports: Seq<AgentReport>,
        now: u64,
        wall: u64,
    ) -> bool
        decreases reports.len(),
    {
        if reports.len() == 0 {
            after == *self
        } else {
            exists|mid: ClusterAggregator|
                self.becomes_by_all(mid, reports.drop_last(), now, wall) && #[trigger] mid.becomes(
                    after,
                    reports.last(),
                    now,
                    wall,
                )
        }
    }

    pub fn new() -> (r: Self)
        ensures
            r.well_formed(),
            r.pods@.len() == 0,
            r.nodes@.len() == 0,
            r.history@.len() == 0,
            r.staleness_threshold == 60_000_000_000,
            r.history_retention == 3_600_000_000_000,
    {
        ClusterAggregator {
            pods: Vec::new(),
            nodes: Vec::new(),
            staleness_threshold: 60_000_000_000,
            history: Vec::new(),
            history_retention: 3_600_000_000_000,
        }
    }

    /// Takes in a report from a node agent, at `now` on the monotonic clock and `wall` since the
    /// Unix epoch.
    ///
    /// Updates the current state of the node and its pods. Pods that were on this node but are no
    /// longer reported are dropped, and so is whatever has not been reported for too long.
    pub fn ingest(&mut self, report: AgentReport, now: u64, wall: u64)
        requires
            old(self).well_formed(),
        ensures
            final(self).well_formed(),
            old(self).becomes(*final(self), report, now, wall),
    {
        let ghost before = *self;
        let ghost given = report;
        let AgentReport { node, pods } = report;
        let ghost reported = pods@;
        let node_name: String = node.node_name.clone();

        // Remove pods previously on this node that are no longer reported
        let stays = |e: &(String, PodState)| -> (b: bool)
            ensures
                b == outlives(*e, node_name@, pods@),
            {
                !same(e.1.report.node_name.as_str(), node_name.as_str()) || lists_pod(
                    &pods,
                    e.0.as_str(),
                )
            };
        retain(
            &mut self.pods,
            stays,
            Ghost(
                |e: (String, PodState)| outlives(e, given.node.node_name@, given.pods@),
            ),
        );
        proof {
            lemma_pods_filtered(
                before.pods@,
                |e: (String, PodState)| outlives(e, given.node.node_name@, given.pods@),
            );
        }

        // Update node state
        let ghost nodes0 = self.nodes@;
        enter(
            &mut self.nodes,
            node_name,
            NodeState { report: node, received_at: now },
        );
        proof {
            lemma_node_put(
                nodes0,
                given.node.node_name,
                NodeState { report: given.node, received_at: now },
            );
        }

        // Update or insert reported pods
        let ghost kept = self.pods@;
        let ghost past0 = history_of(self.history@);
        for pod in it: pods.into_iter()
            invariant
                it.seq() == reported,
                self.pods@ == pods_entered(kept, reported.take(it.index() as int), now),
                history_of(self.history@) =~= history_entered(
                    past0,
                    reported.take(it.index() as int),
                ),
                distinct_keys(self.pods@),
                distinct_keys(self.history@),
                forall|j: int|
                    0 <= j < self.pods@.len() ==> (#[trigger] self.pods@[j]).0@
                        == self.pods@[j].1.report.pod_uid@,
                self.nodes@ == put(
                    nodes0,
                    given.node.node_name,
                    NodeState { report: given.node, received_at: now },
                ),
                self.staleness_threshold == before.staleness_threshold,
                self.history_retention == before.history_retention,
        {
            let ghost i = it.index() as int;
            assert(pod == reported[i]);
            assert(reported.take(i + 1).drop_last() =~= reported.take(i));
            let ghost pods0 = self.pods@;
            let namespace: String = pod.namespace.clone();
            let total: u64 = pod.total_uw;
            let ts: u64 = pod.timestamp_ns;
            let uid: String = pod.pod_uid.clone();
            enter(&mut self.pods, uid, PodState { report: pod, received_at: now });
            proof {
                lemma_pod_put(
                    pods0,
                    reported[i].pod_uid,
                    PodState { report: reported[i], received_at: now },
                );
            }
            record(&mut self.history, namespace, ts, total);
        }
        assert(reported.take(reported.len() as int) =~= reported);

        self.evict_stale(now);
        self.trim_history(wall);
    }

    /// Drops pods and nodes that have not reported recently.
    pub fn evict_stale(&mut self, now: u64)
        requires
            old(self).well_formed(),
        ensures
            final(self).well_formed(),
            old(self).evicts_to(*final(self), now),
    {
        let threshold: u64 = self.staleness_threshold;
        let ghost before = *self;
        let fresh_pod = |e: &(String, PodState)| -> (b: bool)
            ensures
                b == fresh(e.1.received_at, now, threshold),
            { e.1.received_at as u128 + threshold as u128 > now as u128 };
        retain(
            &mut self.pods,
            fresh_pod,
            Ghost(
                |e: (String, PodState)|
                    fresh(e.1.received_at, now, before.staleness_threshold),
            ),
        );
        let fresh_node = |e: &(String, NodeState)| -> (b: bool)
            ensures
                b == fresh(e.1.received_at, now, threshold),
            { e.1.received_at as u128 + threshold as u128 > now as u128 };
        retain(
            &mut self.nodes,
            fresh_node,
            Ghost(
                |e: (String, NodeState)|
                    fresh(e.1.received_at, now, before.staleness_threshold),
            ),
        );
        proof {
            let p = |e: (String, PodState)|
                fresh(e.1.received_at, now, before.staleness_threshold);
            lemma_pods_filtered(before.pods@, p);
            let q = |e: (String, NodeState)|
                fresh(e.1.received_at, now, before.staleness_threshold);
            lemma_nodes_filtered(before.nodes@, q);
        }
    }

    /// Trims history beyond the retention window.
    fn trim_history(&mut self, wall: u64)
        requires
            old(self).well_formed(),
        ensures
            final(self).well_formed(),
            final(self).pods@ == old(self).pods@,
            final(self).nodes@ == old(self).nodes@,
            history_of(final(self).history@) == history_trimmed(
                history_of(old(self).history@),
                wall,
                old(self).history_retention,
            ),
            final(self).staleness_threshold == old(self).staleness_threshold,
            final(self).history_retention == old(self).history_retention,
    {
        let retention: u64 = self.history_retention;
        let ghost before = self.history@;
        let ghost map0 = history_of(before);
        let mut i: usize = 0;
        while i < self.history.len()
            invariant
                i <= self.history@.len() == before.len(),
                retention == old(self).history_retention,
                distinct_keys(before),
                forall|j: int| 0 <= j < before.len() ==> (#[trigger] self.history@[j]).0 == before[j].0,
                forall|j: int|
                    0 <= j < i ==> (#[trigger] self.history@[j]).1@ == recent_values(
                        before[j].1@,
                        wall,
                        retention,
                    ),
                forall|j: int| i <= j < before.len() ==> self.history@[j] == before[j],
                self.pods@ == old(self).pods@,
                self.nodes@ == old(self).nodes@,
                self.staleness_threshold == old(self).staleness_threshold,
                self.history_retention == old(self).history_retention,
            decreases before.len() - i,
        {
            let is_recent = |e: &(u64, u64)| -> (b: bool)
                ensures
                    b == recent(e.0, wall, retention),
                { e.0 as u128 + retention as u128 >= wall as u128 };
            retain(
                &mut self.history[i].1,
                is_recent,
                Ghost(|e: (u64, u64)| recent(e.0, wall, retention)),
            );
            i = i + 1;
        }
        let ghost trimmed = self.history@;
        assert(distinct_keys(trimmed)) by {
            assert forall|a: int, b: int| 0 <= a < b < trimmed.len() implies (
            #[trigger] trimmed[a]).0@ != (#[trigger] trimmed[b]).0@ by {
                assert(before[a].0@ != before[b].0@);
                assert(trimmed[a].0 == before[a].0);
            }
        }
        let some_left = |e: &(String, Vec<(u64, u64)>)| -> (b: bool)
            ensures
                b == (e.1@.len() > 0),
            { e.1.len() > 0 };
        retain(
            &mut self.history,
            some_left,
            Ghost(|e: (String, Vec<(u64, u64)>)| e.1@.len() > 0),
        );
        proof {
            let p = |e: (String, Vec<(u64, u64)>)| e.1@.len() > 0;
            law_retain(trimmed, p, Seq::empty());
            let target = history_trimmed(map0, wall, retention);
            let got = history_of(self.history@);
            assert forall|ns: Seq<char>|
                (#[trigger] got.contains_key(ns) <==> target.contains_key(ns)) && (
                got.contains_key(ns) ==> got[ns] == target[ns]) by {
                law_retain(trimmed, p, ns);
                lemma_position(trimmed, ns);
                lemma_position(before, ns);
                if position(before, ns) >= 0 {
                    let k = position(before, ns);
                    assert(trimmed[k].0 == before[k].0);
                    lemma_position_unique(trimmed, k);
                    assert(lookup(trimmed, ns) == Some(trimmed[k].1));
                } else if position(trimmed, ns) >= 0 {
                    let k = position(trimmed, ns);
                    assert(trimmed[k].0 == before[k].0);
                }
                lemma_position(self.history@, ns);
            }
            assert(got =~= target);
        }
    }
}

pub proof fn lemma_pods_filtered(
    pods: Seq<(String, PodState)>,
    p: spec_fn((String, PodState)) -> bool,
)
    requires
        distinct_keys(pods),
        forall|i: int|
            0 <= i < pods.len() ==> (#[trigger] pods[i]).0@ == pods[i].1.report.pod_uid@,
    ensures
        distinct_keys(pods.filter(p)),
        forall|i: int|
            0 <= i < pods.filter(p).len() ==> (#[trigger] pods.filter(p)[i]).0@ == pods.filter(
                p,
            )[i].1.report.pod_uid@,
{
    law_retain(pods, p, Seq::empty());
    lemma_filter(pods, p);
    assert forall|i: int| 0 <= i < pods.filter(p).len() implies (
    #[trigger] pods.filter(p)[i]).0@ == pods.filter(p)[i].1.report.pod_uid@ by {
        let k = pods.index_of(pods.filter(p)[i]);
        assert(pods[k].0@ == pods[k].1.report.pod_uid@);
    }
}

pub proof fn lemma_nodes_filtered(
    nodes: Seq<(String, NodeState)>,
    p: spec_fn((String, NodeState)) -> bool,
)
    requires
        distinct_keys(nodes),
        forall|i: int|
            0 <= i < nodes.len() ==> (#[trigger] nodes[i]).0@ == nodes[i].1.report.node_name@,
    ensures
        distinct_keys(nodes.filter(p)),
        forall|i: int|
            0 <= i < nodes.filter(p).len() ==> (#[trigger] nodes.filter(p)[i]).0@ == nodes.filter(
                p,
            )[i].1.report.node_name@,
{
    law_retain(nodes, p, Seq::empty());
    lemma_filter(nodes, p);
    assert forall|i: int| 0 <= i < nodes.filter(p).len() implies (#[trigger] nodes.filter(p)[i]).0@
        == nodes.filter(p)[i].1.report.node_name@ by {
        let k = nodes.index_of(nodes.filter(p)[i]);
        assert(nodes[k].0@ == nodes[k].1.report.node_name@);
    }
}

proof fn lemma_node_put(nodes: Seq<(String, NodeState)>, k: String, v: NodeState)
    requires
        distinct_keys(nodes),
        forall|i: int|
            0 <= i < nodes.len() ==> (#[trigger] nodes[i]).0@ == nodes[i].1.report.node_name@,
        k@ == v.report.node_name@,
    ensures
        distinct_keys(put(nodes, k, v)),
        forall|i: int|
            0 <= i < put(nodes, k, v).len() ==> (#[trigger] put(nodes, k, v)[i]).0@ == put(
                nodes,
                k,
                v,
            )[i].1.report.node_name@,
{
    law_put(nodes, k, v, k@);
    lemma_position(nodes, k@);
    let t = put(nodes, k, v);
    assert forall|i: int| 0 <= i < t.len() implies (#[trigger] t[i]).0@
        == t[i].1.report.node_name@ by {
        if i < nodes.len() && i != position(nodes, k@) {
            assert(t[i] == nodes[i]);
        }
    }
}

proof fn lemma_pod_put(pods: Seq<(String, PodState)>, k: String, v: PodState)
    requires
        distinct_keys(pods),
        forall|i: int|
            0 <= i < pods.len() ==> (#[trigger] pods[i]).0@ == pods[i].1.report.pod_uid@,
        k@ == v.report.pod_uid@,
    ensures
        distinct_keys(put(pods, k, v)),
        forall|i: int|
            0 <= i < put(pods, k, v).len() ==> (#[trigger] put(pods, k, v)[i]).0@ == put(
                pods,
                k,
                v,
            )[i].1.report.pod_uid@,
{
    law_put(pods, k, v, k@);
    lemma_position(pods, k@);
    let t = put(pods, k, v);
    assert forall|i: int| 0 <= i < t.len() implies (#[trigger] t[i]).0@
        == t[i].1.report.pod_uid@ by {
        if i < pods.len() && i != position(pods, k@) {
            assert(t[i] == pods[i]);
        }
    }
}

/// Whether a report lists the pod `uid`.
fn lists_pod(pods: &Vec<PodPowerReport>, uid: &str) -> (r: bool)
    ensures
        r == reports_pod(pods@, uid@),
{
    let mut i: usize = 0;
    while i < pods.len()
        invariant
            i <= pods@.len(),
            forall|j: int| 0 <= j < i ==> (#[trigger] pods@[j]).pod_uid@ != uid@,
        decreases pods@.len() - i,
    {
        if same(pods[i].pod_uid.as_str(), uid) {
            return true;
        }
        i = i + 1;
    }
    false
}

/// Records a value in the history of a namespace.
fn record(h: &mut Vec<(String, Vec<(u64, u64)>)>, namespace: String, ts: u64, total: u64)
    requires
        distinct_keys(old(h)@),
    ensures
        distinct_keys(final(h)@),
        history_of(final(h)@) == history_of(old(h)@).insert(
            namespace@,
            past(history_of(old(h)@), namespace@).push((ts, total)),
        ),
{
    let ghost before = h@;
    let ghost ns = namespace@;
    match find(h, &namespace) {
        Some(i) => {
            h[i].1.push((ts, total));
            proof {
                lemma_position(before, ns);
                let after = h@;
                assert(after[i as int].0 == before[i as int].0);
                assert(distinct_keys(after)) by {
                    assert forall|a: int, b: int| 0 <= a < b < after.len() implies (
                    #[trigger] after[a]).0@ != (#[trigger] after[b]).0@ by {
                        assert(before[a].0@ != before[b].0@);
                        assert(after[a].0 == before[a].0);
                        assert(after[b].0 == before[b].0);
                    }
                }
                let target = history_of(before).insert(
                    ns,
                    past(history_of(before), ns).push((ts, total)),
                );
                let got = history_of(after);
                assert forall|k: Seq<char>|
                    (#[trigger] got.contains_key(k) <==> target.contains_key(k)) && (
                    got.contains_key(k) ==> got[k] == target[k]) by {
                    lemma_position(before, k);
                    lemma_position(after, k);
                    if position(before, k) >= 0 {
                        let p = position(before, k);
                        assert(after[p].0 == before[p].0);
                        lemma_position_unique(after, p);
                        lemma_position_unique(before, p);
                    } else if position(after, k) >= 0 {
                        let p = position(after, k);
                        assert(after[p].0 == before[p].0);
                    }
                }
                assert(got =~= target);
            }
        },
        None => {
            let mut values: Vec<(u64, u64)> = Vec::new();
            values.push((ts, total));
            h.push((namespace, values));
            proof {
                let after = h@;
                lemma_position(before, ns);
                law_put(before, namespace, values, ns);
                assert(after == put(before, namespace, values));
                let target = history_of(before).insert(
                    ns,
                    past(history_of(before), ns).push((ts, total)),
                );
                let got = history_of(after);
                assert forall|k: Seq<char>|
                    (#[trigger] got.contains_key(k) <==> target.contains_key(k)) && (
                    got.contains_key(k) ==> got[k] == target[k]) by {
                    law_put(before, namespace, values, k);
                    lemma_position(before, k);
                    lemma_position(after, k);
                    if k == ns {
                        assert(values@ =~= past(history_of(before), ns).push((ts, total)));
                    }
                }
                assert(got =~= target);
            }
        },
    }
}

// ─── Laws ───────────────────────────────────────────────────────

/// The last report of a pod.
proof fn last_report(reported: Seq<PodPowerReport>, uid: Seq<char>) -> (i: int)
    requires
        reports_pod(reported, uid),
    ensures
        0 <= i < reported.len(),
        reported[i].pod_uid@ == uid,
        forall|j: int| i < j < reported.len() ==> (#[trigger] reported[j]).pod_uid@ != uid,
    decreases reported.len(),
{
    let n = reported.len() - 1;
    if reported[n].pod_uid@ == uid {
        n
    } else {
        let k = choose|k: int| 0 <= k < reported.len() && (#[trigger] reported[k]).pod_uid@ == uid;
        let before = reported.drop_last();
        assert(before[k].pod_uid@ == uid);
        let i = last_report(before, uid);
        assert forall|j: int| i < j < reported.len() implies (#[trigger] reported[j]).pod_uid@
            != uid by {
            if j < n {
                assert(before[j] == reported[j]);
            }
        }
        i
    }
}

/// Entering reports keeps keys distinct.
proof fn lemma_entered_distinct(
    pods: Seq<(String, PodState)>,
    reported: Seq<PodPowerReport>,
    now: u64,
)
    requires
        distinct_keys(pods),
    ensures
        distinct_keys(pods_entered(pods, reported, now)),
    decreases reported.len(),
{
    if reported.len() > 0 {
        let p = reported.last();
        lemma_entered_distinct(pods, reported.drop_last(), now);
        law_put(
            pods_entered(pods, reported.drop_last(), now),
            p.pod_uid,
            PodState { report: p, received_at: now },
            p.pod_uid@,
        );
    }
}

/// Under a UID that is not reported stands what stood there.
proof fn lemma_entered_other(
    pods: Seq<(String, PodState)>,
    reported: Seq<PodPowerReport>,
    now: u64,
    uid: Seq<char>,
)
    requires
        distinct_keys(pods),
        !reports_pod(reported, uid),
    ensures
        lookup(pods_entered(pods, reported, now), uid) == lookup(pods, uid),
    decreases reported.len(),
{
    if reported.len() > 0 {
        let before = reported.drop_last();
        let p = reported[reported.len() - 1];
        assert(p.pod_uid@ != uid);
        assert(!reports_pod(before, uid)) by {
            if reports_pod(before, uid) {
                let i = choose|i: int|
                    0 <= i < before.len() && (#[trigger] before[i]).pod_uid@ == uid;
                assert(reported[i].pod_uid@ == uid);
            }
        }
        lemma_entered_other(pods, before, now, uid);
        lemma_entered_distinct(pods, before, now);
        law_put(
            pods_entered(pods, before, now),
            p.pod_uid,
            PodState { report: p, received_at: now },
            uid,
        );
    }
}

/// Under a reported UID stands its last report.
proof fn lemma_entered_last(
    pods: Seq<(String, PodState)>,
    reported: Seq<PodPowerReport>,
    now: u64,
    i: int,
)
    requires
        distinct_keys(pods),
        0 <= i < reported.len(),
        forall|j: int|
            i < j < reported.len() ==> (#[trigger] reported[j]).pod_uid@ != reported[i].pod_uid@,
    ensures
        lookup(pods_entered(pods, reported, now), reported[i].pod_uid@) == Some(
            PodState { report: reported[i], received_at: now },
        ),
    decreases reported.len(),
{
    let before = reported.drop_last();
    let p = reported[reported.len() - 1];
    let uid = reported[i].pod_uid@;
    lemma_entered_distinct(pods, before, now);
    law_put(
        pods_entered(pods, before, now),
        p.pod_uid,
        PodState { report: p, received_at: now },
        uid,
    );
    if i < before.len() {
        assert(before[i] == reported[i]);
        assert forall|j: int| i < j < before.len() implies (#[trigger] before[j]).pod_uid@
            != before[i].pod_uid@ by {
            assert(before[j] == reported[j]);
        }
        lemma_entered_last(pods, before, now, i);
    }
}

impl ClusterAggregator {
    /// What a node reports of a pod is what is known of the pod from then on.
    pub proof fn law_reported_pod_is_known(&self, report: AgentReport, now: u64, i: int)
        requires
            self.well_formed(),
            self.staleness_threshold > 0,
            0 <= i < report.pods@.len(),
            forall|j: int|
                i < j < report.pods@.len() ==> (#[trigger] report.pods@[j]).pod_uid@
                    != report.pods@[i].pod_uid@,
        ensures
            lookup(self.pods_after(report, now), report.pods@[i].pod_uid@) == Some(
                PodState { report: report.pods@[i], received_at: now },
            ),
    {
        let uid = report.pods@[i].pod_uid@;
        let stay = |e: (String, PodState)| outlives(e, report.node.node_name@, report.pods@);
        let keep = |e: (String, PodState)| fresh(e.1.received_at, now, self.staleness_threshold);
        law_retain(self.pods@, stay, uid);
        let kept = self.pods@.filter(stay);
        lemma_entered_distinct(kept, report.pods@, now);
        lemma_entered_last(kept, report.pods@, now, i);
        let entered = pods_entered(kept, report.pods@, now);
        law_retain(entered, keep, uid);
        lemma_position(entered, uid);
    }

    /// A report says nothing of pods that it does not list: one of another node stays as it was
    /// while it is fresh, and one of the reporting node is gone.
    pub proof fn law_unreported_pod(&self, report: AgentReport, now: u64, uid: Seq<char>)
        requires
            self.well_formed(),
            !reports_pod(report.pods@, uid),
        ensures
            lookup(self.pods_after(report, now), uid) == match lookup(self.pods@, uid) {
                Some(s) => if s.report.node_name@ != report.node.node_name@ && fresh(
                    s.received_at,
                    now,
                    self.staleness_threshold,
                ) {
                    Some(s)
                } else {
                    None
                },
                None => None,
            },
    {
        let stay = |e: (String, PodState)| outlives(e, report.node.node_name@, report.pods@);
        let keep = |e: (String, PodState)| fresh(e.1.received_at, now, self.staleness_threshold);
        law_retain(self.pods@, stay, uid);
        lemma_position(self.pods@, uid);
        let kept = self.pods@.filter(stay);
        lemma_entered_distinct(kept, report.pods@, now);
        lemma_entered_other(kept, report.pods@, now, uid);
        let entered = pods_entered(kept, report.pods@, now);
        law_retain(entered, keep, uid);
        lemma_position(entered, uid);
        lemma_position(kept, uid);
    }

    /// A report says nothing of other nodes: each stays as it was while it is fresh.
    pub proof fn law_other_node(&self, report: AgentReport, now: u64, name: Seq<char>)
        requires
            self.well_formed(),
            name != report.node.node_name@,
        ensures
            lookup(self.nodes_after(report, now), name) == match lookup(self.nodes@, name) {
                Some(s) => if fresh(s.received_at, now, self.staleness_threshold) {
                    Some(s)
                } else {
                    None
                },
                None => None,
            },
    {
        let keep = |e: (String, NodeState)| fresh(e.1.received_at, now, self.staleness_threshold);
        let state = NodeState { report: report.node, received_at: now };
        let entered = put(self.nodes@, report.node.node_name, state);
        law_put(self.nodes@, report.node.node_name, state, name);
        law_retain(entered, keep, name);
        lemma_position(entered, name);
    }

    /// A report that comes a second time, at the same time, changes nothing that is known of pods
    /// and nodes. Only the history records it again.
    pub proof fn law_same_report_again(
        &self,
        after: ClusterAggregator,
        report: AgentReport,
        now: u64,
        wall: u64,
        uid: Seq<char>,
        name: Seq<char>,
    )
        requires
            self.well_formed(),
            after.well_formed(),
            self.becomes(after, report, now, wall),
        ensures
            lookup(after.pods_after(report, now), uid) == lookup(after.pods@, uid),
            lookup(after.nodes_after(report, now), name) == lookup(after.nodes@, name),
    {
        let stay = |e: (String, PodState)| outlives(e, report.node.node_name@, report.pods@);
        let keep = |e: (String, PodState)| fresh(e.1.received_at, now, self.staleness_threshold);
        if reports_pod(report.pods@, uid) {
            let i = last_report(report.pods@, uid);
            law_retain(self.pods@, stay, uid);
            law_retain(after.pods@, stay, uid);
            let first = self.pods@.filter(stay);
            let second = after.pods@.filter(stay);
            lemma_entered_distinct(first, report.pods@, now);
            lemma_entered_distinct(second, report.pods@, now);
            lemma_entered_last(first, report.pods@, now, i);
            lemma_entered_last(second, report.pods@, now, i);
            let once = pods_entered(first, report.pods@, now);
            let twice = pods_entered(second, report.pods@, now);
            assert(report.pods@[i].pod_uid@ == uid);
            law_retain(once, keep, uid);
            law_retain(twice, keep, uid);
            lemma_position(once, uid);
            lemma_position(twice, uid);
        } else {
            self.law_unreported_pod(report, now, uid);
            after.law_unreported_pod(report, now, uid);
        }
        let keep_node = |e: (String, NodeState)|
            fresh(e.1.received_at, now, self.staleness_threshold);
        let own = report.node.node_name;
        if name == own@ {
            let state = NodeState { report: report.node, received_at: now };
            let once = put(self.nodes@, own, state);
            let twice = put(after.nodes@, own, state);
            law_put(self.nodes@, own, state, name);
            law_put(after.nodes@, own, state, name);
            law_retain(once, keep_node, name);
            law_retain(twice, keep_node, name);
            lemma_position(once, name);
            lemma_position(twice, name);
        } else {
            self.law_other_node(report, now, name);
            after.law_other_node(report, now, name);
        }
    }

    /// Eviction keeps all that is fresh, unchanged, and nothing else; the history it leaves alone.
    pub proof fn law_eviction_keeps_fresh(
        &self,
        after: ClusterAggregator,
        now: u64,
        uid: Seq<char>,
        name: Seq<char>,
    )
        requires
            self.well_formed(),
            self.evicts_to(after, now),
        ensures
            lookup(after.pods@, uid) == match lookup(self.pods@, uid) {
                Some(s) => if fresh(s.received_at, now, self.staleness_threshold) {
                    Some(s)
                } else {
                    None
                },
                None => None,
            },
            lookup(after.nodes@, name) == match lookup(self.nodes@, name) {
                Some(s) => if fresh(s.received_at, now, self.staleness_threshold) {
                    Some(s)
                } else {
                    None
                },
                None => None,
            },
            after.history@ == self.history@,
    {
        let keep = |e: (String, PodState)| fresh(e.1.received_at, now, self.staleness_threshold);
        let keep_node = |e: (String, NodeState)|
            fresh(e.1.received_at, now, self.staleness_threshold);
        law_retain(self.pods@, keep, uid);
        law_retain(self.nodes@, keep_node, name);
        lemma_position(self.pods@, uid);
        lemma_position(self.nodes@, name);
    }

    /// Nothing stale is kept: after a report all that is known of pods and nodes was received
    /// within the threshold, and the reporting node is known by this report.
    pub proof fn law_nothing_stale(&self, report: AgentReport, now: u64)
        requires
            self.well_formed(),
            self.staleness_threshold > 0,
        ensures
            forall|i: int|
                0 <= i < self.pods_after(report, now).len() ==> fresh(
                    (#[trigger] self.pods_after(report, now)[i]).1.received_at,
                    now,
                    self.staleness_threshold,
                ),
            forall|i: int|
                0 <= i < self.nodes_after(report, now).len() ==> fresh(
                    (#[trigger] self.nodes_after(report, now)[i]).1.received_at,
                    now,
                    self.staleness_threshold,
                ),
            lookup(self.nodes_after(report, now), report.node.node_name@) == Some(
                NodeState { report: report.node, received_at: now },
            ),
    {
        let stay = |e: (String, PodState)| outlives(e, report.node.node_name@, report.pods@);
        let keep = |e: (String, PodState)| fresh(e.1.received_at, now, self.staleness_threshold);
        lemma_filter(pods_entered(self.pods@.filter(stay), report.pods@, now), keep);
        let keep_node = |e: (String, NodeState)|
            fresh(e.1.received_at, now, self.staleness_threshold);
        let name = report.node.node_name;
        let state = NodeState { report: report.node, received_at: now };
        let entered = put(self.nodes@, name, state);
        lemma_filter(entered, keep_node);
        law_put(self.nodes@, name, state, name@);
        law_retain(entered, keep_node, name@);
        lemma_position(entered, name@);
    }
}

/// What was received counts while less than the threshold has passed since, and a value in the
/// history while it is no older than the retention.
pub proof fn law_age(received_at: u64, now: u64, threshold: u64, ts: u64, wall: u64, retention: u64)
    ensures
        fresh(received_at, now, threshold) <==> now - received_at < threshold,
        recent(ts, wall, retention) <==> wall - ts <= retention,
{
}

/// What a value in the history counts for while it is no older than the retention.
pub open spec fn counted_recent(
    wall: u64,
    retention: u64,
    count: spec_fn((u64, u64)) -> int,
) -> spec_fn((u64, u64)) -> int {
    |e: (u64, u64)|
        if wall - e.0 <= retention {
            count(e)
        } else {
            0
        }
}

/// What a reported pod counts for in a namespace, by its time and its power.
pub open spec fn counted_pod(ns: Seq<char>, count: spec_fn((u64, u64)) -> int) -> spec_fn(
    PodPowerReport,
) -> int {
    |p: PodPowerReport|
        if p.namespace@ == ns {
            count((p.timestamp_ns, p.total_uw))
        } else {
            0
        }
}

proof fn lemma_history_entered(
    h: Map<Seq<char>, Seq<(u64, u64)>>,
    reported: Seq<PodPowerReport>,
    ns: Seq<char>,
    count: spec_fn((u64, u64)) -> int,
)
    ensures
        sum_of(past(history_entered(h, reported), ns), count) == sum_of(past(h, ns), count)
            + sum_of(reported, counted_pod(ns, count)),
    decreases reported.len(),
{
    if reported.len() > 0 {
        lemma_history_entered(h, reported.drop_last(), ns, count);
        let before = history_entered(h, reported.drop_last());
        let p = reported.last();
        lemma_sum_push(past(before, ns), (p.timestamp_ns, p.total_uw), count);
    }
}

impl ClusterAggregator {
    /// A namespace's history holds the power of each of its pods that a report tells, at the time
    /// that the pod tells, and what it held before, as far as that is no older than the retention;
    /// nothing else, and each as often as it came.
    pub proof fn law_history(
        &self,
        report: AgentReport,
        wall: u64,
        ns: Seq<char>,
        count: spec_fn((u64, u64)) -> int,
    )
        ensures
            sum_of(past(self.history_after(report, wall), ns), count) == sum_of(
                past(history_of(self.history@), ns),
                counted_recent(wall, self.history_retention, count),
            ) + sum_of(
                report.pods@,
                counted_pod(ns, counted_recent(wall, self.history_retention, count)),
            ),
    {
        let h = history_of(self.history@);
        let g = counted_recent(wall, self.history_retention, count);
        let entered = history_entered(h, report.pods@);
        lemma_history_entered(h, report.pods@, ns, g);
        let p = |e: (u64, u64)| recent(e.0, wall, self.history_retention);
        lemma_sum_filter(past(entered, ns), p, count, g);
        let kept = past(entered, ns).filter(p);
        if entered.contains_key(ns) {
            if kept.len() == 0 {
                assert(kept =~= Seq::empty());
            }
        } else {
            reveal(Seq::filter);
            assert(kept =~= Seq::empty());
        }
    }

    /// The reporting node is known by its own report, and a pod of another node that was received
    /// less than the threshold ago stays as it is.
    pub proof fn law_what_stays(&self, report: AgentReport, now: u64, uid: Seq<char>)
        requires
            self.well_formed(),
            self.staleness_threshold > 0,
        ensures
            lookup(self.nodes_after(report, now), report.node.node_name@) == Some(
                NodeState { report: report.node, received_at: now },
            ),
            !reports_pod(report.pods@, uid) ==> (match lookup(self.pods@, uid) {
                Some(s) => if s.report.node_name@ != report.node.node_name@ && now - s.received_at
                    < self.staleness_threshold {
                    lookup(self.pods_after(report, now), uid) == Some(s)
                } else {
                    lookup(self.pods_after(report, now), uid) is None
                },
                None => lookup(self.pods_after(report, now), uid) is None,
            }),
    {
        self.law_nothing_stale(report, now);
        if !reports_pod(report.pods@, uid) {
            self.law_unreported_pod(report, now, uid);
        }
    }
}

} // verus!
