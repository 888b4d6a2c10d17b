//! Local store: bounded ring buffers for attribution snapshots.
//!
//! - Detail ring: full process-level snapshots (for drill-down queries)
//! - Summary ring: pod-level summaries (for longer retention)
//! - Outbox: summaries that wait to be sent upstream
//!
//! When a ring is full, its oldest entry makes room.

use crate::attribution::types::{
    AttributionSnapshot, ContainerPower, PodPower, ProcessPower, Reconciliation,
};
use crate::sums::{lemma_sum_concat, lemma_sum_nothing, sum_of};
use crate::text::same;
use std::collections::VecDeque;
use vstd::prelude::*;

verus! {

/// Compact pod summary for longer retention and upstream reporting.
#[derive(Debug)]
pub struct PodSummary {
    /// Nanoseconds on a monotonic clock
    pub timestamp_ns: u64,
    pub pod_uid: String,
    pub name: String,
    pub namespace: String,
    pub cpu_uw: u64,
    pub memory_uw: u64,
    pub gpu_uw: u64,
    pub total_uw: u64,
}

impl Clone for PodSummary {
    fn clone(&self) -> (r: Self)
        ensures
            r == *self,
    {
        PodSummary {
            timestamp_ns: self.timestamp_ns,
            pod_uid: self.pod_uid.clone(),
            name: self.name.clone(),
            namespace: self.namespace.clone(),
            cpu_uw: self.cpu_uw,
            memory_uw: self.memory_uw,
            gpu_uw: self.gpu_uw,
            total_uw: self.total_uw,
        }
    }
}

/// The summary of a pod at a time.
pub open spec fn summary_of(pod: PodPower, now_ns: u64) -> PodSummary {
    PodSummary {
        timestamp_ns: now_ns,
        pod_uid: pod.pod_uid,
        name: pod.name,
        namespace: pod.namespace,
        cpu_uw: pod.power.cpu_uw,
        memory_uw: pod.power.memory_uw,
        gpu_uw: pod.power.gpu_uw,
        total_uw: pod.power.sum() as u64,
    }
}

impl PodSummary {
    /// Summarizes a pod.
    pub fn from_pod(pod: &PodPower, now_ns: u64) -> (r: Self)
        requires
            pod.power.sum() <= u64::MAX,
        ensures
            r == summary_of(*pod, now_ns),
    {
        PodSummary {
            timestamp_ns: now_ns,
            pod_uid: pod.pod_uid.clone(),
            name: pod.name.clone(),
            namespace: pod.namespace.clone(),
            cpu_uw: pod.power.cpu_uw,
            memory_uw: pod.power.memory_uw,
            gpu_uw: pod.power.gpu_uw,
            total_uw: pod.power.total_uw(),
        }
    }
}

/// Agent profile determines store capacity.
#[derive(Clone, Copy, Debug, PartialEq, Eq, Structural)]
pub enum StoreProfile {
    /// Edge: ~10MB budget
    Minimal { detail_capacity: usize, summary_capacity: usize },
    /// Standard cluster node: ~50MB budget
    Standard { detail_capacity: usize, summary_capacity: usize },
    /// High-fidelity: ~200MB budget
    Full { detail_capacity: usize, summary_capacity: usize },
}

impl StoreProfile {
    pub fn minimal() -> (r: Self)
        ensures
            r == (StoreProfile::Minimal { detail_capacity: 100, summary_capacity: 5_000 }),
    {
        StoreProfile::Minimal { detail_capacity: 100, summary_capacity: 5_000 }
    }

    pub fn standard() -> (r: Self)
        ensures
            r == (StoreProfile::Standard { detail_capacity: 500, summary_capacity: 50_000 }),
    {
        StoreProfile::Standard { detail_capacity: 500, summary_capacity: 50_000 }
    }

    pub fn full() -> (r: Self)
        ensures
            r == (StoreProfile::Full { detail_capacity: 2_000, summary_capacity: 100_000 }),
    {
        StoreProfile::Full { detail_capacity: 2_000, summary_capacity: 100_000 }
    }

    /// How many snapshots are kept.
    pub open spec fn details(self) -> usize {
        match self {
            StoreProfile::Minimal { detail_capacity, .. } => detail_capacity,
            StoreProfile::Standard { detail_capacity, .. } => detail_capacity,
            StoreProfile::Full { detail_capacity, .. } => detail_capacity,
        }
    }

    /// How many summaries are kept.
    pub open spec fn summaries(self) -> usize {
        match self {
            StoreProfile::Minimal { summary_capacity, .. } => summary_capacity,
            StoreProfile::Standard { summary_capacity, .. } => summary_capacity,
            StoreProfile::Full { summary_capacity, .. } => summary_capacity,
        }
    }

    pub fn detail_capacity(&self) -> (r: usize)
        ensures
            r == self.details(),
    {
        match self {
            StoreProfile::Minimal { detail_capacity, .. } => *detail_capacity,
            StoreProfile::Standard { detail_capacity, .. } => *detail_capacity,
            StoreProfile::Full { detail_capacity, .. } => *detail_capacity,
        }
    }

    pub fn summary_capacity(&self) -> (r: usize)
        ensures
            r == self.summaries(),
    {
        match self {
            StoreProfile::Minimal { summary_capacity, .. } => *summary_capacity,
            StoreProfile::Standard { summary_capacity, .. } => *summary_capacity,
            StoreProfile::Full { summary_capacity, .. } => *summary_capacity,
        }
    }
}

/// A ring with one more value; the oldest makes room if the ring is full.
pub open spec fn ring_push<T>(ring: Seq<T>, capacity: usize, t: T) -> Seq<T> {
    if ring.len() >= capacity && ring.len() > 0 {
        ring.skip(1).push(t)
    } else {
        ring.push(t)
    }
}

/// A ring with several more values.
pub open spec fn ring_push_all<T>(ring: Seq<T>, capacity: usize, items: Seq<T>) -> Seq<T>
    decreases items.len(),
{
    if items.len() == 0 {
        ring
    } else {
        ring_push(ring_push_all(ring, capacity, items.drop_last()), capacity, items.last())
    }
}

/// The most that a ring of some capacity ever holds: a value always finds room.
pub open spec fn ring_limit(capacity: usize) -> int {
    if capacity == 0 {
        1
    } else {
        capacity as int
    }
}

/// A ring never outgrows its capacity.
pub proof fn law_ring_is_bounded<T>(ring: Seq<T>, capacity: usize, items: Seq<T>)
    requires
        ring.len() <= ring_limit(capacity),
    ensures
        ring_push_all(ring, capacity, items).len() <= ring_limit(capacity),
    decreases items.len(),
{
    if items.len() > 0 {
        law_ring_is_bounded(ring, capacity, items.drop_last());
    }
}

/// A ring keeps what came last: pushing keeps the newest values, in their order.
pub proof fn law_ring_keeps_newest<T>(ring: Seq<T>, capacity: usize, t: T)
    requires
        ring.len() <= ring_limit(capacity),
    ensures
        ring_push(ring, capacity, t).last() == t,
        ring_push(ring, capacity, t).len() == if ring.len() < capacity {
            ring.len() + 1
        } else {
            ring_limit(capacity) as nat
        },
        forall|i: int|
            1 <= i < ring_push(ring, capacity, t).len() ==> #[trigger] ring_push(
                ring,
                capacity,
                t,
            )[ring_push(ring, capacity, t).len() - 1 - i] == ring[ring.len() - i],
{
}

/// The processes of the first `n` containers.
pub open spec fn container_processes(containers: Seq<ContainerPower>, n: int) -> Seq<ProcessPower>
    decreases n,
{
    if n <= 0 {
        Seq::empty()
    } else {
        container_processes(containers, n - 1) + containers[n - 1].processes@
    }
}

/// The processes of the pod `uid`, among the first `n` pods.
pub open spec fn pod_processes(pods: Seq<PodPower>, uid: Seq<char>, n: int) -> Seq<ProcessPower>
    decreases n,
{
    if n <= 0 {
        Seq::empty()
    } else if pods[n - 1].pod_uid@ == uid {
        pod_processes(pods, uid, n - 1) + container_processes(
            pods[n - 1].containers@,
            pods[n - 1].containers@.len() as int,
        )
    } else {
        pod_processes(pods, uid, n - 1)
    }
}

/// The processes of the pod `uid` in the latest of the first `n` snapshots, newest first, as far
/// back as a time.
pub open spec fn recent_processes(
    ring: Seq<AttributionSnapshot>,
    uid: Seq<char>,
    since: u64,
    n: int,
) -> Seq<ProcessPower>
    decreases n,
{
    if n <= 0 || ring[n - 1].timestamp_ns < since {
        Seq::empty()
    } else {
        pod_processes(ring[n - 1].pods@, uid, ring[n - 1].pods@.len() as int) + recent_processes(
            ring,
            uid,
            since,
            n - 1,
        )
    }
}

/// The summaries of a namespace's pods in the latest of the first `n`, newest first, as far back
/// as a time.
pub open spec fn recent_summaries(
    ring: Seq<PodSummary>,
    namespace: Seq<char>,
    since: u64,
    n: int,
) -> Seq<PodSummary>
    decreases n,
{
    if n <= 0 || ring[n - 1].timestamp_ns < since {
        Seq::empty()
    } else if ring[n - 1].namespace@ == namespace {
        seq![ring[n - 1]] + recent_summaries(ring, namespace, since, n - 1)
    } else {
        recent_summaries(ring, namespace, since, n - 1)
    }
}

/// Local store with bounded ring buffers.
#[derive(Debug)]
pub struct LocalStore {
    /// Full snapshots for drill-down queries
    pub detail_ring: VecDeque<AttributionSnapshot>,
    /// Compact pod summaries for longer retention
    pub summary_ring: VecDeque<PodSummary>,
    /// Pending summaries to send upstream (not yet acknowledged)
    pub outbox: VecDeque<PodSummary>,
    pub profile: StoreProfile,
}

/// The summaries of a snapshot's pods.
pub open spec fn pod_summaries(s: AttributionSnapshot, now_ns: u64) -> Seq<PodSummary> {
    s.pods@.map_values(|p: PodPower| summary_of(p, now_ns))
}

/// Whether a store becomes `after` when a snapshot is pushed.
pub open spec fn pushed(
    before: LocalStore,
    after: LocalStore,
    snapshot: AttributionSnapshot,
    now_ns: u64,
) -> bool {
    let summaries = pod_summaries(snapshot, now_ns);
    &&& after.detail_ring@ == ring_push(before.detail_ring@, before.profile.details(), snapshot)
    &&& after.summary_ring@ == ring_push_all(
        before.summary_ring@,
        before.profile.summaries(),
        summaries,
    )
    &&& after.outbox@ == before.outbox@ + summaries
    &&& after.profile == before.profile
}

impl LocalStore {
    /// No ring is over its capacity.
    pub open spec fn bounded(&self) -> bool {
        self.detail_ring@.len() <= ring_limit(self.profile.details()) && self.summary_ring@.len()
            <= ring_limit(self.profile.summaries())
    }

    pub fn new(profile: StoreProfile) -> (r: Self)
        ensures
            r.detail_ring@.len() == 0,
            r.summary_ring@.len() == 0,
            r.outbox@.len() == 0,
            r.profile == profile,
            r.bounded(),
    {
        LocalStore {
            detail_ring: VecDeque::new(),
            summary_ring: VecDeque::new(),
            outbox: VecDeque::new(),
            profile,
        }
    }

    /// Stores a new attribution snapshot: the snapshot in the detail ring, summaries of its pods
    /// in the summary ring and the outbox.
    pub fn push(&mut self, snapshot: AttributionSnapshot, now_ns: u64)
        requires
            forall|i: int|
                0 <= i < snapshot.pods@.len() ==> (#[trigger] snapshot.pods@[i]).power.sum()
                    <= u64::MAX,
        ensures
            pushed(*old(self), *final(self), snapshot, now_ns),
            old(self).bounded() ==> final(self).bounded(),
    {
        let ghost summaries = pod_summaries(snapshot, now_ns);
        let ghost ring0 = self.summary_ring@;
        let ghost outbox0 = self.outbox@;
        let capacity: usize = self.profile.summary_capacity();
        let mut i: usize = 0;
        assert(outbox0 + summaries.take(0) =~= outbox0);
        while i < snapshot.pods.len()
            invariant
                i <= snapshot.pods@.len(),
                forall|j: int|
                    0 <= j < snapshot.pods@.len() ==> (#[trigger] snapshot.pods@[j]).power.sum()
                        <= u64::MAX,
                summaries == snapshot.pods@.map_values(|p: PodPower| summary_of(p, now_ns)),
                capacity == self.profile.summaries(),
                self.profile == old(self).profile,
                self.detail_ring@ == old(self).detail_ring@,
                self.summary_ring@ == ring_push_all(ring0, capacity, summaries.take(i as int)),
                self.outbox@ == outbox0 + summaries.take(i as int),
            decreases snapshot.pods@.len() - i,
        {
            assert(snapshot.pods@[i as int].power.sum() <= u64::MAX);
            let summary: PodSummary = PodSummary::from_pod(&snapshot.pods[i], now_ns);
            assert(summary == summaries[i as int]);
            assert(summaries.take(i + 1).drop_last() =~= summaries.take(i as int));
            let ghost before = self.summary_ring@;
            if self.summary_ring.len() >= capacity {
                self.summary_ring.pop_front();
            }
            self.outbox.push_back(summary.clone());
            self.summary_ring.push_back(summary);
            assert(self.summary_ring@ =~= ring_push(before, capacity, summary));
            assert(self.outbox@ =~= outbox0 + summaries.take(i + 1));
            i = i + 1;
        }
        assert(summaries.take(i as int) =~= summaries);
        let ghost details0 = self.detail_ring@;
        if self.detail_ring.len() >= self.profile.detail_capacity() {
            self.detail_ring.pop_front();
        }
        self.detail_ring.push_back(snapshot);
        assert(self.detail_ring@ =~= ring_push(details0, self.profile.details(), snapshot));
        proof {
            if old(self).bounded() {
                law_ring_is_bounded(ring0, capacity, summaries);
            }
        }
    }

    /// The latest snapshot.
    pub fn latest(&self) -> (r: Option<&AttributionSnapshot>)
        ensures
            match r {
                Some(s) => self.detail_ring@.len() > 0 && *s == self.detail_ring@.last(),
                None => self.detail_ring@.len() == 0,
            },
    {
        let n: usize = self.detail_ring.len();
        if n > 0 {
            Some(&self.detail_ring[n - 1])
        } else {
            None
        }
    }

    /// Process detail of a pod in recent history, newest first.
    pub fn query_pod_processes(&self, pod_uid: &str, since: u64) -> (r: Vec<&ProcessPower>)
        ensures
            ({
                let found = recent_processes(
                    self.detail_ring@,
                    pod_uid@,
                    since,
                    self.detail_ring@.len() as int,
                );
                r@.len() == found.len() && forall|i: int|
                    0 <= i < found.len() ==> *(#[trigger] r@[i]) == found[i]
            }),
    {
        let ghost ring = self.detail_ring@;
        let ghost all = recent_processes(ring, pod_uid@, since, ring.len() as int);
        let mut r: Vec<&ProcessPower> = Vec::new();
        let mut n: usize = self.detail_ring.len();
        let ghost mut got: Seq<ProcessPower> = Seq::empty();
        assert(got + all =~= all);
        while n > 0 && self.detail_ring[n - 1].timestamp_ns >= since
            invariant
                n <= ring.len(),
                ring == self.detail_ring@,
                all == recent_processes(ring, pod_uid@, since, ring.len() as int),
                all == got + recent_processes(ring, pod_uid@, since, n as int),
                r@.len() == got.len(),
                forall|i: int| 0 <= i < got.len() ==> *(#[trigger] r@[i]) == got[i],
            decreases n,
        {
            let snapshot: &AttributionSnapshot = &self.detail_ring[n - 1];
            let ghost before = got;
            let ghost here = pod_processes(
                snapshot.pods@,
                pod_uid@,
                snapshot.pods@.len() as int,
            );
            let mut i: usize = 0;
            assert(before + Seq::<ProcessPower>::empty() =~= before);
            while i < snapshot.pods.len()
                invariant
                    i <= snapshot.pods@.len(),
                    got == before + pod_processes(snapshot.pods@, pod_uid@, i as int),
                    r@.len() == got.len(),
                    forall|k: int| 0 <= k < got.len() ==> *(#[trigger] r@[k]) == got[k],
                decreases snapshot.pods@.len() - i,
            {
                let pod: &PodPower = &snapshot.pods[i];
                if same(pod.pod_uid.as_str(), pod_uid) {
                    let ghost before_pod = got;
                    let mut c: usize = 0;
                    assert(before_pod + Seq::<ProcessPower>::empty() =~= before_pod);
                    while c < pod.containers.len()
                        invariant
                            c <= pod.containers@.len(),
                            got == before_pod + container_processes(
                                pod.containers@,
                                c as int,
                            ),
                            r@.len() == got.len(),
                            forall|k: int| 0 <= k < got.len() ==> *(#[trigger] r@[k]) == got[k],
                        decreases pod.containers@.len() - c,
                    {
                        let container: &ContainerPower = &pod.containers[c];
                        let ghost before_container = got;
                        let mut p: usize = 0;
                        assert(before_container + container.processes@.take(0)
                            =~= before_container);
                        while p < container.processes.len()
                            invariant
                                p <= container.processes@.len(),
                                got == before_container + container.processes@.take(p as int),
                                r@.len() == got.len(),
                                forall|k: int|
                                    0 <= k < got.len() ==> *(#[trigger] r@[k]) == got[k],
                            decreases container.processes@.len() - p,
                        {
                            r.push(&container.processes[p]);
                            proof {
                                got = got.push(container.processes@[p as int]);
                                assert(got =~= before_container + container.processes@.take(
                                    p + 1,
                                ));
                            }
                            p = p + 1;
                        }
                        proof {
                            assert(container.processes@.take(p as int)
                                =~= container.processes@);
                            assert(got =~= before_pod + container_processes(
                                pod.containers@,
                                c + 1,
                            ));
                        }
                        c = c + 1;
                    }
                    assert(got =~= before + pod_processes(snapshot.pods@, pod_uid@, i + 1));
                }
                i = i + 1;
            }
            proof {
                assert(got + recent_processes(ring, pod_uid@, since, n - 1) =~= before + (here
                    + recent_processes(ring, pod_uid@, since, n - 1)));
            }
            n = n - 1;
        }
        assert(got + Seq::<ProcessPower>::empty() =~= got);
        r
    }

    /// Pod summaries of a namespace in recent history, newest first.
    pub fn query_namespace_pods(&self, namespace: &str, since: u64) -> (r: Vec<&PodSummary>)
        ensures
            ({
                let found = recent_summaries(
                    self.summary_ring@,
                    namespace@,
                    since,
                    self.summary_ring@.len() as int,
                );
                r@.len() == found.len() && forall|i: int|
                    0 <= i < found.len() ==> *(#[trigger] r@[i]) == found[i]
            }),
    {
        let ghost ring = self.summary_ring@;
        let ghost all = recent_summaries(ring, namespace@, since, ring.len() as int);
        let mut r: Vec<&PodSummary> = Vec::new();
        let mut n: usize = self.summary_ring.len();
        let ghost mut got: Seq<PodSummary> = Seq::empty();
        assert(got + all =~= all);
        while n > 0 && self.summary_ring[n - 1].timestamp_ns >= since
            invariant
                n <= ring.len(),
                ring == self.summary_ring@,
                all == recent_summaries(ring, namespace@, since, ring.len() as int),
                all == got + recent_summaries(ring, namespace@, since, n as int),
                r@.len() == got.len(),
                forall|i: int| 0 <= i < got.len() ==> *(#[trigger] r@[i]) == got[i],
            decreases n,
        {
            let summary: &PodSummary = &self.summary_ring[n - 1];
            let ghost before = got;
            if same(summary.namespace.as_str(), namespace) {
                r.push(summary);
                proof {
                    got = got.push(*summary);
                    assert(got + recent_summaries(ring, namespace@, since, n - 1) =~= before + (
                    seq![*summary] + recent_summaries(ring, namespace@, since, n - 1)));
                }
            }
            n = n - 1;
        }
        assert(got + Seq::<PodSummary>::empty() =~= got);
        r
    }

    /// The latest reconciliations, newest first.
    pub fn reconciliation_history(&self, count: usize) -> (r: Vec<&Reconciliation>)
        ensures
            r@.len() == if count < self.detail_ring@.len() {
                count as int
            } else {
                self.detail_ring@.len() as int
            },
            forall|i: int|
                0 <= i < r@.len() ==> *(#[trigger] r@[i])
                    == self.detail_ring@[self.detail_ring@.len() - 1 - i].reconciliation,
    {
        let total: usize = self.detail_ring.len();
        let mut r: Vec<&Reconciliation> = Vec::new();
        let mut i: usize = 0;
        while i < total && i < count
            invariant
                i <= total == self.detail_ring@.len(),
                i <= count,
                r@.len() == i,
                forall|j: int|
                    0 <= j < i ==> *(#[trigger] r@[j])
                        == self.detail_ring@[self.detail_ring@.len() - 1 - j].reconciliation,
            decreases total - i,
        {
            r.push(&self.detail_ring[total - 1 - i].reconciliation);
            i = i + 1;
        }
        r
    }

    /// Takes all pending summaries, to be sent to the cluster controller.
    pub fn drain_outbox(&mut self) -> (r: Vec<PodSummary>)
        ensures
            r@ == old(self).outbox@,
            final(self).outbox@.len() == 0,
            final(self).detail_ring@ == old(self).detail_ring@,
            final(self).summary_ring@ == old(self).summary_ring@,
            final(self).profile == old(self).profile,
    {
        let ghost all = self.outbox@;
        let mut r: Vec<PodSummary> = Vec::new();
        while self.outbox.len() > 0
            invariant
                r@ + self.outbox@ =~= all,
                self.detail_ring@ == old(self).detail_ring@,
                self.summary_ring@ == old(self).summary_ring@,
                self.profile == old(self).profile,
            decreases self.outbox@.len(),
        {
            let first: Option<PodSummary> = self.outbox.pop_front();
            r.push(first.unwrap());
        }
        r
    }

    /// Puts summaries back in front of the outbox if they could not be sent.
    pub fn requeue(&mut self, summaries: Vec<PodSummary>)
        ensures
            final(self).outbox@ == summaries@ + old(self).outbox@,
            final(self).detail_ring@ == old(self).detail_ring@,
            final(self).summary_ring@ == old(self).summary_ring@,
            final(self).profile == old(self).profile,
    {
        let ghost given = summaries@;
        let ghost before = self.outbox@;
        let mut left: Vec<PodSummary> = summaries;
        assert(given.skip(given.len() as int) + before =~= before);
        assert(given.take(given.len() as int) =~= given);
        while left.len() > 0
            invariant
                left@.len() <= given.len(),
                left@ == given.take(left@.len() as int),
                self.outbox@ == given.skip(left@.len() as int) + before,
                self.detail_ring@ == old(self).detail_ring@,
                self.summary_ring@ == old(self).summary_ring@,
                self.profile == old(self).profile,
            decreases left@.len(),
        {
            let ghost n = left@.len() as int;
            let last: Option<PodSummary> = left.pop();
            self.outbox.push_front(last.unwrap());
            assert(self.outbox@ =~= given.skip(n - 1) + before);
            assert(left@ =~= given.take(n - 1));
        }
        assert(given.skip(0) =~= given);
    }

    /// The estimate of memory usage in bytes: 4 KB for each snapshot, 128 bytes for each summary.
    pub open spec fn memory(&self) -> nat {
        self.detail_ring@.len() * 4096 + self.summary_ring@.len() * 128 + self.outbox@.len() * 128
    }

    /// Current memory usage estimate in bytes.
    pub fn estimated_memory(&self) -> (r: usize)
        requires
            self.memory() <= usize::MAX,
        ensures
            r == self.memory(),
    {
        self.detail_ring.len() * 4096 + self.summary_ring.len() * 128 + self.outbox.len() * 128
    }
}

/// A failed send loses nothing: what was drained and is put back is pending again, in its order,
/// before whatever came in meanwhile.
pub proof fn law_requeue_restores(drained: Seq<PodSummary>, meanwhile: Seq<PodSummary>)
    ensures
        (drained + meanwhile).take(drained.len() as int) == drained,
        (drained + meanwhile).skip(drained.len() as int) == meanwhile,
{
    assert((drained + meanwhile).take(drained.len() as int) =~= drained);
    assert((drained + meanwhile).skip(drained.len() as int) =~= meanwhile);
}

/// The summaries of several snapshots, in the order in which these were pushed.
pub open spec fn all_summaries(pushes: Seq<(AttributionSnapshot, u64)>) -> Seq<PodSummary>
    decreases pushes.len(),
{
    if pushes.len() == 0 {
        Seq::empty()
    } else {
        all_summaries(pushes.drop_last()) + pod_summaries(pushes.last().0, pushes.last().1)
    }
}

/// How many of `n` snapshots a store keeps in detail.
pub open spec fn kept_details(profile: StoreProfile, n: int) -> int {
    if n < ring_limit(profile.details()) {
        n
    } else {
        ring_limit(profile.details())
    }
}

/// What an empty store gives back after pushes, of which `states` are the stores before the first
/// and after each: the latest snapshot is the one pushed last, the reconciliations are those of the
/// last snapshots that fit, newest first, and the outbox has the summaries of all of them in the
/// order in which they were pushed.
pub proof fn law_store_after_pushes(
    states: Seq<LocalStore>,
    pushes: Seq<(AttributionSnapshot, u64)>,
)
    requires
        states.len() == pushes.len() + 1,
        states[0].detail_ring@.len() == 0,
        states[0].outbox@.len() == 0,
        forall|i: int|
            #![trigger pushes[i]]
            0 <= i < pushes.len() ==> pushed(
                states[i],
                states[i + 1],
                pushes[i].0,
                pushes[i].1,
            ),
    ensures
        states.last().profile == states[0].profile,
        states.last().detail_ring@.len() == kept_details(states[0].profile, pushes.len() as int),
        pushes.len() > 0 ==> states.last().detail_ring@.last() == pushes.last().0,
        forall|i: int|
            0 <= i < states.last().detail_ring@.len() ==> #[trigger] states.last().detail_ring@[i]
                == pushes[pushes.len() - states.last().detail_ring@.len() + i].0,
        forall|i: int|
            0 <= i < states.last().detail_ring@.len() ==> (
            #[trigger] pushes[pushes.len() - 1 - i]).0.reconciliation
                == states.last().detail_ring@[states.last().detail_ring@.len() - 1
                - i].reconciliation,
        states.last().outbox@ == all_summaries(pushes),
    decreases pushes.len(),
{
    if pushes.len() > 0 {
        let earlier = pushes.drop_last();
        let stages = states.drop_last();
        assert forall|i: int|
            #![trigger earlier[i]]
            0 <= i < earlier.len() implies pushed(
            stages[i],
            stages[i + 1],
            earlier[i].0,
            earlier[i].1,
        ) by {
            assert(earlier[i] == pushes[i]);
        }
        law_store_after_pushes(stages, earlier);
        let n = pushes.len() - 1;
        assert(pushed(states[n], states[n + 1], pushes[n].0, pushes[n].1));
        let before = states[n].detail_ring@;
        let after = states.last().detail_ring@;
        assert(stages.last() == states[n]);
        assert(after == ring_push(before, states[n].profile.details(), pushes[n].0));
        assert forall|i: int| 0 <= i < after.len() implies #[trigger] after[i]
            == pushes[pushes.len() - after.len() + i].0 by {
            if i < after.len() - 1 {
                let j = before.len() - (after.len() - 1) + i;
                assert(after[i] == before[j]);
                assert(before[j] == earlier[earlier.len() - before.len() + j].0);
            }
        }
        assert forall|i: int| 0 <= i < after.len() implies (
        #[trigger] pushes[pushes.len() - 1 - i]).0.reconciliation == after[after.len() - 1
            - i].reconciliation by {
            assert(after[after.len() - 1 - i] == pushes[pushes.len() - after.len() + (after.len()
                - 1 - i)].0);
        }
    } else {
        assert(states.last().outbox@ =~= all_summaries(pushes));
    }
}

// ─── What queries give back ─────────────────────────────────────

/// A pod's summary tells who it is and its power of each kind; its total is that of all kinds.
pub proof fn law_summary(pod: PodPower, now_ns: u64)
    requires
        pod.power.cpu_uw + pod.power.memory_uw + pod.power.gpu_uw + pod.power.nic_uw
            + pod.power.storage_uw <= u64::MAX,
    ensures
        ({
            let s = summary_of(pod, now_ns);
            &&& s.timestamp_ns == now_ns
            &&& s.pod_uid == pod.pod_uid && s.name == pod.name && s.namespace == pod.namespace
            &&& s.cpu_uw == pod.power.cpu_uw
            &&& s.memory_uw == pod.power.memory_uw
            &&& s.gpu_uw == pod.power.gpu_uw
            &&& s.total_uw == pod.power.cpu_uw + pod.power.memory_uw + pod.power.gpu_uw
                + pod.power.nic_uw + pod.power.storage_uw
        }),
{
}

/// What a container counts for by its processes.
pub open spec fn counted_container(count: spec_fn(ProcessPower) -> int) -> spec_fn(
    ContainerPower,
) -> int {
    |c: ContainerPower| sum_of(c.processes@, count)
}

/// What a pod counts for by its processes, if it is the one that is asked for.
pub open spec fn counted_pod(uid: Seq<char>, count: spec_fn(ProcessPower) -> int) -> spec_fn(
    PodPower,
) -> int {
    |p: PodPower|
        if p.pod_uid@ == uid {
            sum_of(p.containers@, counted_container(count))
        } else {
            0
        }
}

/// What a snapshot counts for by the processes of a pod, if it is not too old.
pub open spec fn counted_snapshot(
    uid: Seq<char>,
    since: u64,
    count: spec_fn(ProcessPower) -> int,
) -> spec_fn(AttributionSnapshot) -> int {
    |s: AttributionSnapshot|
        if s.timestamp_ns >= since {
            sum_of(s.pods@, counted_pod(uid, count))
        } else {
            0
        }
}

proof fn lemma_container_processes(
    c: Seq<ContainerPower>,
    n: int,
    count: spec_fn(ProcessPower) -> int,
)
    requires
        0 <= n <= c.len(),
    ensures
        sum_of(container_processes(c, n), count) == sum_of(c.take(n), counted_container(count)),
    decreases n,
{
    if n > 0 {
        lemma_container_processes(c, n - 1, count);
        lemma_sum_concat(container_processes(c, n - 1), c[n - 1].processes@, count);
        assert(c.take(n).drop_last() =~= c.take(n - 1));
        assert(c.take(n).last() == c[n - 1]);
    } else {
        assert(c.take(0) =~= Seq::empty());
    }
}

proof fn lemma_pod_processes(
    pods: Seq<PodPower>,
    uid: Seq<char>,
    n: int,
    count: spec_fn(ProcessPower) -> int,
)
    requires
        0 <= n <= pods.len(),
    ensures
        sum_of(pod_processes(pods, uid, n), count) == sum_of(
            pods.take(n),
            counted_pod(uid, count),
        ),
    decreases n,
{
    if n > 0 {
        lemma_pod_processes(pods, uid, n - 1, count);
        let c = pods[n - 1].containers@;
        let all = c.len() as int;
        lemma_container_processes(c, all, count);
        assert(c.take(all) =~= c);
        lemma_sum_concat(
            pod_processes(pods, uid, n - 1),
            container_processes(c, all),
            count,
        );
        assert(pods.take(n).drop_last() =~= pods.take(n - 1));
        assert(pods.take(n).last() == pods[n - 1]);
    } else {
        assert(pods.take(0) =~= Seq::empty());
    }
}

/// What is recalled of a pod is every process in every container of it, in every snapshot since
/// the time that is asked for, where snapshots were stored in order of time.
pub proof fn law_processes_recalled(
    ring: Seq<AttributionSnapshot>,
    uid: Seq<char>,
    since: u64,
    n: int,
    count: spec_fn(ProcessPower) -> int,
)
    requires
        0 <= n <= ring.len(),
        forall|i: int, j: int|
            0 <= i <= j < n ==> (#[trigger] ring[i]).timestamp_ns <= (
            #[trigger] ring[j]).timestamp_ns,
    ensures
        sum_of(recent_processes(ring, uid, since, n), count) == sum_of(
            ring.take(n),
            counted_snapshot(uid, since, count),
        ),
    decreases n,
{
    let f = counted_snapshot(uid, since, count);
    if n > 0 {
        assert(ring.take(n).drop_last() =~= ring.take(n - 1));
        assert(ring.take(n).last() == ring[n - 1]);
        if ring[n - 1].timestamp_ns < since {
            let t = ring.take(n);
            assert forall|i: int| 0 <= i < t.len() implies f(#[trigger] t[i]) == 0 by {
                assert(ring[i].timestamp_ns <= ring[n - 1].timestamp_ns);
            }
            lemma_sum_nothing(t, f);
        } else {
            law_processes_recalled(ring, uid, since, n - 1, count);
            let pods = ring[n - 1].pods@;
            let all = pods.len() as int;
            lemma_pod_processes(pods, uid, all, count);
            assert(pods.take(all) =~= pods);
            lemma_sum_concat(
                pod_processes(pods, uid, all),
                recent_processes(ring, uid, since, n - 1),
                count,
            );
        }
    } else {
        assert(ring.take(0) =~= Seq::empty());
    }
}

/// What is recalled of a namespace is every summary of it since the time that is asked for, where
/// summaries were stored in order of time.
pub proof fn law_summaries_recalled(
    ring: Seq<PodSummary>,
    namespace: Seq<char>,
    since: u64,
    n: int,
    count: spec_fn(PodSummary) -> int,
)
    requires
        0 <= n <= ring.len(),
        forall|i: int, j: int|
            0 <= i <= j < n ==> (#[trigger] ring[i]).timestamp_ns <= (
            #[trigger] ring[j]).timestamp_ns,
    ensures
        sum_of(recent_summaries(ring, namespace, since, n), count) == sum_of(
            ring.take(n),
            |s: PodSummary|
                if s.timestamp_ns >= since && s.namespace@ == namespace {
                    count(s)
                } else {
                    0
                },
        ),
    decreases n,
{
    let f = |s: PodSummary|
        if s.timestamp_ns >= since && s.namespace@ == namespace {
            count(s)
        } else {
            0
        };
    if n > 0 {
        let t = ring.take(n);
        assert(t.drop_last() =~= ring.take(n - 1));
        assert(t.last() == ring[n - 1]);
        if ring[n - 1].timestamp_ns < since {
            assert forall|i: int| 0 <= i < t.len() implies f(#[trigger] t[i]) == 0 by {
                assert(ring[i].timestamp_ns <= ring[n - 1].timestamp_ns);
            }
            lemma_sum_nothing(t, f);
        } else {
            law_summaries_recalled(ring, namespace, since, n - 1, count);
            let one = seq![ring[n - 1]];
            assert(one.drop_last() =~= Seq::empty());
            assert(sum_of(one.drop_last(), count) == 0);
            assert(sum_of(one, count) == count(ring[n - 1]));
            lemma_sum_concat(one, recent_summaries(ring, namespace, since, n - 1), count);
        }
    } else {
        assert(ring.take(0) =~= Seq::empty());
    }
}

/// A push adds the snapshot to the details and one summary for each of its pods to the summaries
/// and the outbox; it takes nothing out of the outbox.
pub proof fn law_push(
    before: LocalStore,
    after: LocalStore,
    snapshot: AttributionSnapshot,
    now_ns: u64,
    i: int,
)
    requires
        pushed(before, after, snapshot, now_ns),
    ensures
        after.detail_ring@.len() > 0,
        after.detail_ring@.last() == snapshot,
        after.outbox@.len() == before.outbox@.len() + snapshot.pods@.len(),
        0 <= i < before.outbox@.len() ==> after.outbox@[i] == before.outbox@[i],
        0 <= i < snapshot.pods@.len() ==> after.outbox@[before.outbox@.len() + i] == summary_of(
            snapshot.pods@[i],
            now_ns,
        ),
        after.profile == before.profile,
{
}

} // verus!
