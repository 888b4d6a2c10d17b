//! Sharing a node's power out to its pods.

use super::procfs::{ProcessSample, MAX_AMOUNT};
use super::usage::{
    add_pods, has_entry, lemma_wide_usage, sum_used_by, sum_wide_by, usage, wide_usage,
};
use crate::arith::{
    blend, blend_of, law_share, lemma_blend_bounds, lemma_share_bounds, part_of, share, share_of,
    MAX_WHOLE,
};
use crate::report::PodPowerReport;
use crate::sums::sum_of;
use crate::table::{distinct_keys, enter, get, law_put, lookup, put};
use crate::tally::{
    law_tally, lemma_used, mentions, natural_amounts, used, used_by, used_by_all,
};
use crate::text::{contains, distinct, named};
use crate::wide::Wide;
use std::collections::HashMap;
use vstd::arithmetic::div_mod::*;
use vstd::prelude::*;

verus! {

broadcast use vstd::std_specs::hash::group_hash_axioms;

/// What the cluster knows of a pod.
#[derive(Debug)]
pub struct PodInfo {
    pub name: String,
    pub namespace: String,
}

/// How a node's power is shared out to its pods.
pub struct PodShares {
    pub cpu_total_uw: int,
    pub cpu: Seq<(Seq<char>, int)>,
    pub cpu_whole: int,
    /// Cache misses, by which memory accesses are told
    pub access: Seq<(Seq<char>, int)>,
    pub access_whole: int,
    pub memory: Seq<(Seq<char>, int)>,
    pub memory_whole: int,
    pub memory_total_uw: int,
    /// Whether a pod is reported that only holds memory
    pub report_idle: bool,
}

impl PodShares {
    /// The CPU power of the pod `uid`: its part of all, by its usage.
    pub open spec fn cpu_uw(self, uid: Seq<char>) -> int {
        share_of(self.cpu_total_uw, used_by(self.cpu, uid), self.cpu_whole)
    }

    /// The memory power of the pod `uid`: six tenths by the memory it holds and four tenths by its
    /// cache misses; by the memory it holds alone where no cache misses were counted.
    pub open spec fn memory_uw(self, uid: Seq<char>) -> int {
        if self.access_whole > 0 {
            blend_of(
                self.memory_total_uw,
                used_by(self.memory, uid),
                self.memory_whole,
                used_by(self.access, uid),
                self.access_whole,
            )
        } else {
            share_of(self.memory_total_uw, used_by(self.memory, uid), self.memory_whole)
        }
    }

    /// Whether the pod `uid` is reported.
    pub open spec fn listed(self, uid: Seq<char>) -> bool {
        mentions(self.cpu, uid) || (self.report_idle && mentions(self.memory, uid))
    }

    /// Whether each pod's power can be held.
    pub open spec fn in_range(self) -> bool {
        forall|uid: Seq<char>|
            self.listed(uid) ==> #[trigger] self.cpu_uw(uid) + self.memory_uw(uid) <= u64::MAX
    }
}

/// The name and namespace of the pod `uid`: what the cluster says, or the UID and "unknown".
pub open spec fn pod_identity(cache: Seq<(String, PodInfo)>, uid: Seq<char>) -> (
    Seq<char>,
    Seq<char>,
) {
    match lookup(cache, uid) {
        Some(info) => (info.name@, info.namespace@),
        None => (uid, "unknown"@),
    }
}

/// The report of one pod.
pub open spec fn is_pod_report(
    p: PodPowerReport,
    node_name: Seq<char>,
    cache: Seq<(String, PodInfo)>,
    cpu_uw: int,
    memory_uw: int,
    now_ns: u64,
) -> bool {
    &&& p.node_name@ == node_name
    &&& (p.pod_name@, p.namespace@) == pod_identity(cache, p.pod_uid@)
    &&& p.cpu_uw == cpu_uw
    &&& p.memory_uw == memory_uw
    &&& p.gpu_uw == 0
    &&& p.storage_uw == 0
    &&& p.io_uw == 0
    &&& p.total_uw == cpu_uw + memory_uw
    &&& p.timestamp_ns == now_ns
}

/// Whether the pod `uid` is among the reports.
pub open spec fn reported(reports: Seq<PodPowerReport>, uid: Seq<char>) -> bool {
    exists|i: int| 0 <= i < reports.len() && (#[trigger] reports[i]).pod_uid@ == uid
}

/// The reports of all pods that `shares` lists, once each.
pub open spec fn are_pod_reports(
    reports: Seq<PodPowerReport>,
    node_name: Seq<char>,
    cache: Seq<(String, PodInfo)>,
    shares: PodShares,
    now_ns: u64,
) -> bool {
    &&& forall|i: int|
        0 <= i < reports.len() ==> is_pod_report(
            #[trigger] reports[i],
            node_name,
            cache,
            shares.cpu_uw(reports[i].pod_uid@),
            shares.memory_uw(reports[i].pod_uid@),
            now_ns,
        )
    &&& forall|i: int, j: int|
        0 <= i < j < reports.len() ==> (#[trigger] reports[i]).pod_uid@ != (
        #[trigger] reports[j]).pod_uid@
    &&& forall|uid: Seq<char>| #[trigger] reported(reports, uid) <==> shares.listed(uid)
}

/// A plan of [`PodShares`] that can be carried out.
#[derive(Debug)]
pub struct Plan {
    pub cpu_total_uw: u64,
    pub cpu: Vec<(String, Wide)>,
    pub cpu_whole: Wide,
    pub access: Vec<(String, u128)>,
    pub access_whole: u128,
    pub memory: Vec<(String, u128)>,
    pub memory_whole: u128,
    pub memory_total_uw: u64,
    pub report_idle: bool,
}

impl Plan {
    pub open spec fn shares(self) -> PodShares {
        PodShares {
            cpu_total_uw: self.cpu_total_uw as int,
            cpu: wide_usage(self.cpu@),
            cpu_whole: self.cpu_whole@,
            access: usage(self.access@),
            access_whole: self.access_whole as int,
            memory: usage(self.memory@),
            memory_whole: self.memory_whole as int,
            memory_total_uw: self.memory_total_uw as int,
            report_idle: self.report_idle,
        }
    }

    /// No usage exceeds the whole that it is measured against.
    pub open spec fn well_formed(self) -> bool {
        &&& used(wide_usage(self.cpu@)) <= self.cpu_whole@
        &&& used(usage(self.access@)) <= self.access_whole <= MAX_WHOLE
        &&& used(usage(self.memory@)) <= self.memory_whole <= MAX_WHOLE
    }
}

/// Reports every pod that a plan lists.
pub fn report_pods(
    node_name: &str,
    cache: &Vec<(String, PodInfo)>,
    plan: &Plan,
    now_ns: u64,
) -> (r: Vec<PodPowerReport>)
    requires
        plan.well_formed(),
        plan.shares().in_range(),
    ensures
        are_pod_reports(r@, node_name@, cache@, plan.shares(), now_ns),
        reported_cpu(r@) <= plan.cpu_total_uw,
        reported_memory(r@) <= plan.memory_total_uw,
{
    let ghost shares = plan.shares();
    let mut uids: Vec<String> = Vec::new();
    add_pods(&mut uids, &plan.cpu);
    if plan.report_idle {
        add_pods(&mut uids, &plan.memory);
    }
    proof {
        lemma_wide_usage(plan.cpu@);
        assert forall|uid: Seq<char>| #[trigger] named(uids@, uid) <==> shares.listed(uid) by {
            lemma_same_keys(plan.cpu@, wide_usage(plan.cpu@), uid);
            lemma_same_keys(plan.memory@, usage(plan.memory@), uid);
        }
    }
    let mut r: Vec<PodPowerReport> = Vec::new();
    let mut i: usize = 0;
    while i < uids.len()
        invariant
            i <= uids@.len(),
            plan.well_formed(),
            shares == plan.shares(),
            shares.in_range(),
            natural_amounts(wide_usage(plan.cpu@)),
            distinct(uids@),
            forall|uid: Seq<char>| #[trigger] named(uids@, uid) <==> shares.listed(uid),
            r@.len() == i,
            forall|j: int|
                0 <= j < i ==> is_pod_report(
                    #[trigger] r@[j],
                    node_name@,
                    cache@,
                    shares.cpu_uw(r@[j].pod_uid@),
                    shares.memory_uw(r@[j].pod_uid@),
                    now_ns,
                ),
            forall|j: int| 0 <= j < i ==> (#[trigger] r@[j]).pod_uid@ == uids@[j]@,
        decreases uids@.len() - i,
    {
        let uid: String = uids[i].clone();
        assert(named(uids@, uid@)) by {
            assert(uids@[i as int]@ == uid@);
        }
        let cpu_used: Wide = sum_wide_by(&plan.cpu, uid.as_str());
        let memory_used: u128 = sum_used_by(&plan.memory, uid.as_str());
        proof {
            lemma_used(wide_usage(plan.cpu@), uid@);
        }
        let cpu_uw: u64 = part_of(plan.cpu_total_uw, &cpu_used, &plan.cpu_whole);
        let memory_uw: u64 = if plan.access_whole > 0 {
            blend(
                plan.memory_total_uw,
                memory_used,
                plan.memory_whole,
                sum_used_by(&plan.access, uid.as_str()),
                plan.access_whole,
            )
        } else {
            share(plan.memory_total_uw, memory_used, plan.memory_whole)
        };
        assert(cpu_uw == shares.cpu_uw(uid@));
        assert(memory_uw == shares.memory_uw(uid@));
        let (pod_name, namespace): (String, String) = match get(cache, &uid) {
            Some(info) => (info.name.clone(), info.namespace.clone()),
            None => (uid.clone(), "unknown".to_owned()),
        };
        r.push(
            PodPowerReport {
                node_name: node_name.to_owned(),
                pod_uid: uid,
                pod_name,
                namespace,
                cpu_uw,
                memory_uw,
                gpu_uw: 0,
                storage_uw: 0,
                io_uw: 0,
                total_uw: cpu_uw + memory_uw,
                timestamp_ns: now_ns,
            },
        );
        i = i + 1;
    }
    proof {
        assert forall|uid: Seq<char>| #[trigger]
            reported(r@, uid) <==> shares.listed(uid) by {
            if named(uids@, uid) {
                let k = choose|k: int| 0 <= k < uids@.len() && (#[trigger] uids@[k])@ == uid;
                assert(r@[k].pod_uid@ == uid);
            }
            if reported(r@, uid) {
                let k = choose|k: int| 0 <= k < r@.len() && (#[trigger] r@[k]).pod_uid@ == uid;
                assert(uids@[k]@ == uid);
            }
        }
        assert forall|j: int, k: int| 0 <= j < k < r@.len() implies (#[trigger] r@[j]).pod_uid@ != (
        #[trigger] r@[k]).pod_uid@ by {
            assert(uids@[j]@ != uids@[k]@);
        }
        law_pods_conserve(r@, node_name@, cache@, shares, now_ns);
    }
    r
}

proof fn lemma_same_keys<T>(list: Seq<(String, T)>, keys: Seq<(Seq<char>, int)>, uid: Seq<char>)
    requires
        list.len() == keys.len(),
        forall|i: int| 0 <= i < keys.len() ==> (#[trigger] keys[i]).0 == list[i].0@,
    ensures
        has_entry(list, uid) == mentions(keys, uid),
{
    if has_entry(list, uid) {
        let i = choose|i: int| 0 <= i < list.len() && (#[trigger] list[i]).0@ == uid;
        assert(keys[i].0 == uid);
    }
    if mentions(keys, uid) {
        let i = choose|i: int| 0 <= i < keys.len() && (#[trigger] keys[i]).0 == uid;
        assert(list[i].0@ == uid);
    }
}

// ─── Conservation ───────────────────────────────────────────────

/// The CPU power of all reported pods.
pub open spec fn reported_cpu(reports: Seq<PodPowerReport>) -> int
    decreases reports.len(),
{
    if reports.len() == 0 {
        0
    } else {
        reported_cpu(reports.drop_last()) + reports.last().cpu_uw
    }
}

/// The memory power of all reported pods.
pub open spec fn reported_memory(reports: Seq<PodPowerReport>) -> int
    decreases reports.len(),
{
    if reports.len() == 0 {
        0
    } else {
        reported_memory(reports.drop_last()) + reports.last().memory_uw
    }
}

/// The UIDs of the reported pods.
pub open spec fn reported_uids(reports: Seq<PodPowerReport>) -> Seq<Seq<char>> {
    reports.map_values(|p: PodPowerReport| p.pod_uid@)
}

impl PodShares {
    /// No usage is negative, and none exceeds the whole that it is measured against.
    pub open spec fn well_formed(self) -> bool {
        &&& natural_amounts(self.cpu)
        &&& natural_amounts(self.access)
        &&& natural_amounts(self.memory)
        &&& used(self.cpu) <= self.cpu_whole
        &&& used(self.access) <= self.access_whole
        &&& used(self.memory) <= self.memory_whole
        &&& 0 <= self.cpu_total_uw
        &&& 0 <= self.memory_total_uw
    }

    /// No pod draws more than there was to share out.
    pub proof fn lemma_in_range(self)
        requires
            self.well_formed(),
            self.cpu_total_uw + self.memory_total_uw <= u64::MAX,
        ensures
            self.in_range(),
    {
        assert forall|uid: Seq<char>| self.listed(uid) implies #[trigger] self.cpu_uw(uid)
            + self.memory_uw(uid) <= u64::MAX by {
            lemma_used(self.cpu, uid);
            lemma_used(self.memory, uid);
            lemma_used(self.access, uid);
            lemma_share_bounds(self.cpu_total_uw, used_by(self.cpu, uid), self.cpu_whole);
            if self.access_whole > 0 {
                lemma_blend_bounds(
                    self.memory_total_uw,
                    used_by(self.memory, uid),
                    self.memory_whole,
                    used_by(self.access, uid),
                    self.access_whole,
                );
            } else {
                lemma_share_bounds(
                    self.memory_total_uw,
                    used_by(self.memory, uid),
                    self.memory_whole,
                );
            }
        }
    }

    /// The CPU power of some pods, scaled up by what it was divided by.
    proof fn lemma_cpu_scaled(self, reports: Seq<PodPowerReport>)
        requires
            self.well_formed(),
            forall|i: int|
                0 <= i < reports.len() ==> (#[trigger] reports[i]).cpu_uw == self.cpu_uw(
                    reports[i].pod_uid@,
                ),
        ensures
            if self.cpu_whole > 0 {
                reported_cpu(reports) * self.cpu_whole <= self.cpu_total_uw * used_by_all(
                    self.cpu,
                    reported_uids(reports),
                )
            } else {
                reported_cpu(reports) == 0
            },
        decreases reports.len(),
    {
        let uids = reported_uids(reports);
        lemma_used(self.cpu, Seq::<char>::empty());
        if reports.len() > 0 {
            let before = reports.drop_last();
            assert forall|i: int| 0 <= i < before.len() implies (#[trigger] before[i]).cpu_uw
                == self.cpu_uw(before[i].pod_uid@) by {
                assert(before[i] == reports[i]);
            }
            self.lemma_cpu_scaled(before);
            assert(uids.drop_last() =~= reported_uids(before));
            let last = reports[reports.len() - 1];
            let part = used_by(self.cpu, last.pod_uid@);
            let q = last.cpu_uw as int;
            if self.cpu_whole > 0 {
                lemma_scaled_step(
                    reported_cpu(before),
                    used_by_all(self.cpu, reported_uids(before)),
                    q,
                    part,
                    self.cpu_total_uw,
                    self.cpu_whole,
                );
            }
        } else {
            let (total_uw, whole) = (self.cpu_total_uw, self.cpu_whole);
            assert(0 * whole == 0 && total_uw * 0 == 0) by (nonlinear_arith);
        }
    }

    /// The memory power of some pods, scaled up by what it was divided by.
    proof fn lemma_memory_scaled(self, reports: Seq<PodPowerReport>)
        requires
            self.well_formed(),
            forall|i: int|
                0 <= i < reports.len() ==> (#[trigger] reports[i]).memory_uw == self.memory_uw(
                    reports[i].pod_uid@,
                ),
        ensures
            ({
                let got = reported_memory(reports);
                let m = self.memory_total_uw;
                let a = used_by_all(self.memory, reported_uids(reports));
                let b = used_by_all(self.access, reported_uids(reports));
                let wa = self.memory_whole;
                let wb = self.access_whole;
                if wb <= 0 && wa > 0 {
                    got * wa <= m * a
                } else if wb <= 0 || (wa == 0 && wb == 0) {
                    got == 0
                } else if wa == 0 {
                    got * (5 * wb) <= 2 * m * b
                } else if wb == 0 {
                    got * (5 * wa) <= 3 * m * a
                } else {
                    got * (5 * wa * wb) <= m * (3 * a * wb + 2 * b * wa)
                }
            }),
        decreases reports.len(),
    {
        let uids = reported_uids(reports);
        let m = self.memory_total_uw;
        let wa = self.memory_whole;
        let wb = self.access_whole;
        lemma_used(self.memory, Seq::<char>::empty());
        lemma_used(self.access, Seq::<char>::empty());
        if reports.len() > 0 {
            let before = reports.drop_last();
            assert forall|i: int| 0 <= i < before.len() implies (#[trigger] before[i]).memory_uw
                == self.memory_uw(before[i].pod_uid@) by {
                assert(before[i] == reports[i]);
            }
            self.lemma_memory_scaled(before);
            assert(uids.drop_last() =~= reported_uids(before));
            let last = reports[reports.len() - 1];
            let g = reported_memory(before);
            let q = last.memory_uw as int;
            let a = used_by_all(self.memory, reported_uids(before));
            let b = used_by_all(self.access, reported_uids(before));
            let pa = used_by(self.memory, last.pod_uid@);
            let pb = used_by(self.access, last.pod_uid@);
            if wb <= 0 && wa > 0 {
                lemma_scaled_step(g, a, q, pa, m, wa);
            } else if wb <= 0 || (wa == 0 && wb == 0) {
            } else if wa == 0 {
                lemma_floor(2 * m * pb, 5 * wb);
                assert((g + q) * (5 * wb) == g * (5 * wb) + 5 * wb * q) by (nonlinear_arith);
                assert(2 * m * (b + pb) == 2 * m * b + 2 * m * pb) by (nonlinear_arith);
            } else if wb == 0 {
                lemma_floor(3 * m * pa, 5 * wa);
                assert((g + q) * (5 * wa) == g * (5 * wa) + 5 * wa * q) by (nonlinear_arith);
                assert(3 * m * (a + pa) == 3 * m * a + 3 * m * pa) by (nonlinear_arith);
            } else {
                let d = 5 * wa * wb;
                let n = m * (3 * pa * wb + 2 * pb * wa);
                assert(0 < d) by (nonlinear_arith)
                    requires
                        d == 5 * wa * wb,
                        0 < wa,
                        0 < wb,
                ;
                lemma_floor(n, d);
                assert((g + q) * d == g * d + d * q) by (nonlinear_arith);
                assert(m * (3 * (a + pa) * wb + 2 * (b + pb) * wa) == m * (3 * a * wb + 2 * b * wa)
                    + n) by (nonlinear_arith)
                    requires
                        n == m * (3 * pa * wb + 2 * pb * wa),
                ;
            }
        } else {
            assert(reported_memory(reports) == 0);
            assert(used_by_all(self.memory, uids) == 0);
            assert(used_by_all(self.access, uids) == 0);
            assert(m * (3 * 0 * wb + 2 * 0 * wa) == 0 && 0 * wa == 0 && m * 0 == 0 && 0 * (5 * wb)
                == 0 && 2 * m * 0 == 0 && 0 * (5 * wa) == 0 && 3 * m * 0 == 0 && 0 * (5 * wa * wb)
                == 0) by (nonlinear_arith);
        }
    }
}

proof fn lemma_floor(n: int, d: int)
    requires
        0 < d,
    ensures
        d * (n / d) <= n,
{
    lemma_fundamental_div_mod(n, d);
    lemma_mod_bound(n, d);
}

proof fn lemma_scaled_step(got: int, parts: int, q: int, part: int, total: int, whole: int)
    requires
        0 < whole,
        got * whole <= total * parts,
        q == share_of(total, part, whole),
    ensures
        (got + q) * whole <= total * (parts + part),
{
    lemma_floor(total * part, whole);
    assert((got + q) * whole == got * whole + whole * q) by (nonlinear_arith);
    assert(total * (parts + part) == total * parts + total * part) by (nonlinear_arith);
}

/// Sharing out conserves power: the reported pods together never draw more than there was to
/// share out, neither in their processors nor in memory.
pub proof fn law_pods_conserve(
    reports: Seq<PodPowerReport>,
    node_name: Seq<char>,
    cache: Seq<(String, PodInfo)>,
    shares: PodShares,
    now_ns: u64,
)
    requires
        shares.well_formed(),
        are_pod_reports(reports, node_name, cache, shares, now_ns),
    ensures
        reported_cpu(reports) <= shares.cpu_total_uw,
        reported_memory(reports) <= shares.memory_total_uw,
{
    let uids = reported_uids(reports);
    assert(uids.no_duplicates());
    lemma_used(shares.memory, Seq::<char>::empty());
    lemma_used(shares.cpu, Seq::<char>::empty());
    lemma_used(shares.access, Seq::<char>::empty());
    law_tally(shares.cpu, uids);
    law_tally(shares.access, uids);
    law_tally(shares.memory, uids);
    shares.lemma_cpu_scaled(reports);
    shares.lemma_memory_scaled(reports);
    let cpu = reported_cpu(reports);
    let (total_uw, whole, c) = (
        shares.cpu_total_uw,
        shares.cpu_whole,
        used_by_all(shares.cpu, uids),
    );
    if whole > 0 {
        assert(cpu <= total_uw) by (nonlinear_arith)
            requires
                cpu * whole <= total_uw * c,
                c <= whole,
                0 <= total_uw,
                0 < whole,
        ;
    }
    let b = used_by_all(shares.access, uids);
    let got = reported_memory(reports);
    let m = shares.memory_total_uw;
    let a = used_by_all(shares.memory, uids);
    let wa = shares.memory_whole;
    let wb = shares.access_whole;
    if wb <= 0 && wa > 0 {
        assert(got <= m) by (nonlinear_arith)
            requires
                got * wa <= m * a,
                a <= wa,
                0 <= m,
                0 < wa,
        ;
    } else if wb <= 0 || (wa == 0 && wb == 0) {
    } else if wa == 0 {
        assert(got <= m) by (nonlinear_arith)
            requires
                got * (5 * wb) <= 2 * m * b,
                b <= wb,
                0 <= m,
                0 < wb,
        ;
    } else if wb == 0 {
        assert(got <= m) by (nonlinear_arith)
            requires
                got * (5 * wa) <= 3 * m * a,
                a <= wa,
                0 <= m,
                0 < wa,
        ;
    } else {
        let d = 5 * wa * wb;
        let n = 3 * a * wb + 2 * b * wa;
        assert(0 < d && n <= d) by (nonlinear_arith)
            requires
                d == 5 * wa * wb,
                n == 3 * a * wb + 2 * b * wa,
                a <= wa,
                b <= wb,
                0 < wa,
                0 < wb,
        ;
        assert(got <= m) by (nonlinear_arith)
            requires
                got * d <= m * n,
                n <= d,
                0 <= m,
                0 < d,
        ;
    }
}

// ─── By process files ───────────────────────────────────────────

/// What the agent remembers of each process between intervals.
#[derive(Debug)]
pub struct ProcessCaches {
    /// CPU time in clock ticks
    pub cpu_ticks: HashMap<u32, u128>,
    /// Minor and major page faults
    pub page_faults: HashMap<u32, (u64, u64)>,
    /// Memory in KB
    pub memory_kb: HashMap<u32, u128>,
}

/// What [`ProcessCaches`] hold.
pub struct CacheContents {
    pub cpu_ticks: Map<u32, u128>,
    pub page_faults: Map<u32, (u64, u64)>,
    pub memory_kb: Map<u32, u128>,
}

impl View for ProcessCaches {
    type V = CacheContents;

    open spec fn view(&self) -> CacheContents {
        CacheContents {
            cpu_ticks: self.cpu_ticks@,
            page_faults: self.page_faults@,
            memory_kb: self.memory_kb@,
        }
    }
}

/// Memory is read anew in every fifth interval.
pub open spec fn refreshes(tick_count: u64) -> bool {
    tick_count % 5 == 0
}

impl CacheContents {
    /// Whether the memory of `pid` has to be read.
    pub open spec fn wants_memory(self, pid: u32, tick_count: u64) -> bool {
        refreshes(tick_count) || !self.memory_kb.contains_key(pid)
    }

    /// The contents after one process was seen.
    pub open spec fn after(self, s: ProcessSample, tick_count: u64) -> CacheContents {
        CacheContents {
            cpu_ticks: self.cpu_ticks.insert(s.pid, s.stat.cpu_ticks),
            page_faults: self.page_faults.insert(s.pid, (s.stat.minflt, s.stat.majflt)),
            memory_kb: if self.wants_memory(s.pid, tick_count) {
                self.memory_kb.insert(
                    s.pid,
                    match s.memory_kb {
                        Some(kb) => kb,
                        None => 0,
                    },
                )
            } else {
                self.memory_kb
            },
        }
    }

    /// The contents after all of `samples` were seen.
    pub open spec fn after_all(self, samples: Seq<ProcessSample>, tick_count: u64) -> CacheContents
        decreases samples.len(),
    {
        if samples.len() == 0 {
            self
        } else {
            self.after_all(samples.drop_last(), tick_count).after(samples.last(), tick_count)
        }
    }

    /// The CPU time of a process since it was last seen; none if it is new.
    pub open spec fn cpu_delta(self, s: ProcessSample) -> int {
        if self.cpu_ticks.contains_key(s.pid) && self.cpu_ticks[s.pid] <= s.stat.cpu_ticks {
            s.stat.cpu_ticks - self.cpu_ticks[s.pid]
        } else {
            0
        }
    }

    /// The memory that a process counts with.
    pub open spec fn memory_of(self, s: ProcessSample, tick_count: u64) -> int {
        self.after(s, tick_count).memory_kb[s.pid] as int
    }

    /// The CPU time of all processes.
    pub open spec fn all_cpu(self, samples: Seq<ProcessSample>, tick_count: u64) -> int
        decreases samples.len(),
    {
        if samples.len() == 0 {
            0
        } else {
            self.all_cpu(samples.drop_last(), tick_count) + self.after_all(
                samples.drop_last(),
                tick_count,
            ).cpu_delta(samples.last())
        }
    }

    /// The memory of all processes.
    pub open spec fn all_memory(self, samples: Seq<ProcessSample>, tick_count: u64) -> int
        decreases samples.len(),
    {
        if samples.len() == 0 {
            0
        } else {
            self.all_memory(samples.drop_last(), tick_count) + self.after_all(
                samples.drop_last(),
                tick_count,
            ).memory_of(samples.last(), tick_count)
        }
    }

    /// The CPU time of the processes that belong to pods.
    pub open spec fn pod_cpu(self, samples: Seq<ProcessSample>, tick_count: u64) -> Seq<
        (Seq<char>, int),
    >
        decreases samples.len(),
    {
        if samples.len() == 0 {
            Seq::empty()
        } else {
            let before = self.pod_cpu(samples.drop_last(), tick_count);
            match samples.last().pod_uid {
                Some(uid) => before.push(
                    (
                        uid@,
                        self.after_all(samples.drop_last(), tick_count).cpu_delta(samples.last()),
                    ),
                ),
                None => before,
            }
        }
    }

    /// The memory of the processes that belong to pods.
    pub open spec fn pod_memory(self, samples: Seq<ProcessSample>, tick_count: u64) -> Seq<
        (Seq<char>, int),
    >
        decreases samples.len(),
    {
        if samples.len() == 0 {
            Seq::empty()
        } else {
            let before = self.pod_memory(samples.drop_last(), tick_count);
            match samples.last().pod_uid {
                Some(uid) => before.push(
                    (
                        uid@,
                        self.after_all(samples.drop_last(), tick_count).memory_of(
                            samples.last(),
                            tick_count,
                        ),
                    ),
                ),
                None => before,
            }
        }
    }

    /// How a node's power is shared out by its process files: against all of its processes, also
    /// those that belong to no pod.
    pub open spec fn shares(
        self,
        samples: Seq<ProcessSample>,
        tick_count: u64,
        total_cpu_uw: u64,
        total_mem_uw: u64,
        total_llc_misses: int,
        pod_misses: Seq<(Seq<char>, int)>,
    ) -> PodShares {
        PodShares {
            cpu_total_uw: total_cpu_uw as int,
            cpu: self.pod_cpu(samples, tick_count),
            cpu_whole: self.all_cpu(samples, tick_count),
            access: pod_misses,
            access_whole: total_llc_misses,
            memory: self.pod_memory(samples, tick_count),
            memory_whole: self.all_memory(samples, tick_count),
            memory_total_uw: total_mem_uw as int,
            report_idle: false,
        }
    }

    /// What is remembered is what files can say.
    pub open spec fn well_formed(self) -> bool {
        forall|pid: u32| #[trigger]
            self.memory_kb.contains_key(pid) ==> self.memory_kb[pid] <= MAX_AMOUNT
    }

    proof fn lemma_sums(self, samples: Seq<ProcessSample>, tick_count: u64)
        requires
            self.well_formed(),
            forall|i: int| 0 <= i < samples.len() ==> (#[trigger] samples[i]).plausible(),
        ensures
            self.after_all(samples, tick_count).well_formed(),
            0 <= self.all_cpu(samples, tick_count) <= samples.len() * 0x4_0000_0000_0000_0000,
            0 <= self.all_memory(samples, tick_count) <= samples.len() * 0x4_0000_0000_0000_0000,
        decreases samples.len(),
    {
        if samples.len() > 0 {
            let before = samples.drop_last();
            assert forall|i: int| 0 <= i < before.len() implies (
            #[trigger] before[i]).plausible() by {
                assert(before[i] == samples[i]);
            }
            self.lemma_sums(before, tick_count);
            assert(samples[samples.len() - 1].plausible());
        }
    }

    /// Where the node's power can be held, so can that of each of its pods.
    pub proof fn lemma_in_range(
        self,
        samples: Seq<ProcessSample>,
        tick_count: u64,
        total_cpu_uw: u64,
        total_mem_uw: u64,
        total_llc_misses: int,
        pod_misses: Seq<(Seq<char>, int)>,
    )
        requires
            natural_amounts(pod_misses),
            used(pod_misses) <= total_llc_misses,
            self.well_formed(),
            samples.len() <= u32::MAX,
            forall|i: int| 0 <= i < samples.len() ==> (#[trigger] samples[i]).plausible(),
            total_cpu_uw + total_mem_uw <= u64::MAX,
        ensures
            self.shares(
                samples,
                tick_count,
                total_cpu_uw,
                total_mem_uw,
                total_llc_misses,
                pod_misses,
            ).in_range(),
    {
        self.lemma_sums(samples, tick_count);
        self.lemma_pod_sums(samples, tick_count);
        self.shares(
            samples,
            tick_count,
            total_cpu_uw,
            total_mem_uw,
            total_llc_misses,
            pod_misses,
        ).lemma_in_range();
    }

    proof fn lemma_pod_sums(self, samples: Seq<ProcessSample>, tick_count: u64)
        ensures
            natural_amounts(self.pod_cpu(samples, tick_count)),
            natural_amounts(self.pod_memory(samples, tick_count)),
            used(self.pod_cpu(samples, tick_count)) <= self.all_cpu(samples, tick_count),
            used(self.pod_memory(samples, tick_count)) <= self.all_memory(samples, tick_count),
        decreases samples.len(),
    {
        if samples.len() > 0 {
            self.lemma_pod_sums(samples.drop_last(), tick_count);
            let c = self.pod_cpu(samples.drop_last(), tick_count);
            let m = self.pod_memory(samples.drop_last(), tick_count);
            if samples.last().pod_uid is Some {
                assert(self.pod_cpu(samples, tick_count).drop_last() =~= c);
                assert(self.pod_memory(samples, tick_count).drop_last() =~= m);
            }
        }
    }
}

impl ProcessCaches {
    /// Caches that remember nothing.
    pub fn new() -> (r: Self)
        ensures
            r@ == (CacheContents {
                cpu_ticks: Map::empty(),
                page_faults: Map::empty(),
                memory_kb: Map::empty(),
            }),
            r@.well_formed(),
    {
        ProcessCaches {
            cpu_ticks: HashMap::new(),
            page_faults: HashMap::new(),
            memory_kb: HashMap::new(),
        }
    }
}

/// Whether the memory of a process has to be read this interval.
pub fn needs_memory(caches: &ProcessCaches, pid: u32, tick_count: u64) -> (r: bool)
    ensures
        r == caches@.wants_memory(pid, tick_count),
{
    tick_count % 5 == 0 || !caches.memory_kb.contains_key(&pid)
}

/// The CPU time of a process since it was last seen, and the memory it counts with.
fn observe(caches: &mut ProcessCaches, s: &ProcessSample, tick_count: u64) -> (r: (u128, u128))
    ensures
        final(caches)@ == old(caches)@.after(*s, tick_count),
        r.0 == old(caches)@.cpu_delta(*s),
        r.1 == old(caches)@.memory_of(*s, tick_count),
{
    let delta: u128 = match caches.cpu_ticks.get(&s.pid) {
        Some(prev) => if *prev <= s.stat.cpu_ticks {
            s.stat.cpu_ticks - *prev
        } else {
            0
        },
        None => 0,
    };
    let wanted: bool = needs_memory(caches, s.pid, tick_count);
    caches.cpu_ticks.insert(s.pid, s.stat.cpu_ticks);
    caches.page_faults.insert(s.pid, (s.stat.minflt, s.stat.majflt));
    let memory: u128 = if wanted {
        let kb: u128 = match s.memory_kb {
            Some(kb) => kb,
            None => 0,
        };
        caches.memory_kb.insert(s.pid, kb);
        kb
    } else {
        match caches.memory_kb.get(&s.pid) {
            Some(kb) => *kb,
            None => 0,
        }
    };
    assert(caches@.memory_kb =~= old(caches)@.after(*s, tick_count).memory_kb);
    (delta, memory)
}

/// The cache misses of pods, as a list of amounts.
pub open spec fn miss_list(pod_misses: Seq<(String, u64)>) -> Seq<(Seq<char>, int)> {
    pod_misses.map_values(|e: (String, u64)| (e.0@, e.1 as int))
}

/// Lists cache misses as amounts.
pub fn widen(pod_misses: &Vec<(String, u64)>) -> (r: Vec<(String, u128)>)
    ensures
        usage(r@) == miss_list(pod_misses@),
{
    let ghost all = miss_list(pod_misses@);
    let mut r: Vec<(String, u128)> = Vec::new();
    let mut i: usize = 0;
    assert(usage(r@) =~= all.take(0));
    while i < pod_misses.len()
        invariant
            i <= pod_misses@.len(),
            all == miss_list(pod_misses@),
            usage(r@) == all.take(i as int),
        decreases pod_misses@.len() - i,
    {
        let ghost before = usage(r@);
        let uid: String = pod_misses[i].0.clone();
        r.push((uid, pod_misses[i].1 as u128));
        i = i + 1;
        assert(usage(r@) =~= before.push((uid@, pod_misses@[i - 1].1 as int)));
        assert(usage(r@) =~= all.take(i as int));
    }
    assert(usage(r@) =~= all);
    r
}

/// Shares a node's power out to its pods, by what their processes did since they were last seen.
///
/// - CPU power goes by CPU time.
/// - Memory power goes by memory held (60%) and last-level cache misses (40%), which `pod_misses`
///   lists by pod, out of `total_llc_misses`; by memory held alone where none were counted.
pub fn enumerate_pods(
    node_name: &str,
    total_cpu_uw: u64,
    total_mem_uw: u64,
    total_llc_misses: u128,
    pod_misses: &Vec<(String, u64)>,
    pod_cache: &Vec<(String, PodInfo)>,
    caches: &mut ProcessCaches,
    tick_count: u64,
    samples: &Vec<ProcessSample>,
    now_ns: u64,
) -> (r: Vec<PodPowerReport>)
    requires
        old(caches)@.well_formed(),
        samples@.len() <= u32::MAX,
        used(miss_list(pod_misses@)) <= total_llc_misses <= MAX_WHOLE,
        forall|i: int| 0 <= i < samples@.len() ==> (#[trigger] samples@[i]).plausible(),
        old(caches)@.shares(
            samples@,
            tick_count,
            total_cpu_uw,
            total_mem_uw,
            total_llc_misses as int,
            miss_list(pod_misses@),
        ).in_range(),
    ensures
        final(caches)@ == old(caches)@.after_all(samples@, tick_count),
        final(caches)@.well_formed(),
        are_pod_reports(
            r@,
            node_name@,
            pod_cache@,
            old(caches)@.shares(
                samples@,
                tick_count,
                total_cpu_uw,
                total_mem_uw,
                total_llc_misses as int,
                miss_list(pod_misses@),
            ),
            now_ns,
        ),
        reported_cpu(r@) <= total_cpu_uw,
        reported_memory(r@) <= total_mem_uw,
{
    let ghost start = caches@;
    let mut cpu: Vec<(String, Wide)> = Vec::new();
    let mut memory: Vec<(String, u128)> = Vec::new();
    let mut all_cpu: u128 = 0;
    let mut all_memory: u128 = 0;
    let mut i: usize = 0;
    assert(wide_usage(cpu@) =~= Seq::empty());
    assert(usage(memory@) =~= Seq::empty());
    while i < samples.len()
        invariant
            i <= samples@.len() <= u32::MAX,
            start.well_formed(),
            forall|j: int| 0 <= j < samples@.len() ==> (#[trigger] samples@[j]).plausible(),
            caches@ == start.after_all(samples@.take(i as int), tick_count),
            all_cpu == start.all_cpu(samples@.take(i as int), tick_count),
            all_memory == start.all_memory(samples@.take(i as int), tick_count),
            wide_usage(cpu@) == start.pod_cpu(samples@.take(i as int), tick_count),
            usage(memory@) == start.pod_memory(samples@.take(i as int), tick_count),
            used(wide_usage(cpu@)) <= all_cpu,
            used(usage(memory@)) <= all_memory,
        decreases samples@.len() - i,
    {
        let ghost before_cpu = wide_usage(cpu@);
        let ghost before_memory = usage(memory@);
        assert(samples@.take(i + 1).drop_last() =~= samples@.take(i as int));
        proof {
            start.lemma_sums(samples@.take(i + 1), tick_count);
        }
        let (delta, kb) = observe(caches, &samples[i], tick_count);
        all_cpu = all_cpu + delta;
        all_memory = all_memory + kb;
        match &samples[i].pod_uid {
            Some(uid) => {
                cpu.push((uid.clone(), Wide::from_wide(delta)));
                memory.push((uid.clone(), kb));
                assert(wide_usage(cpu@) =~= before_cpu.push((uid@, delta as int)));
                assert(usage(memory@) =~= before_memory.push((uid@, kb as int)));
                assert(wide_usage(cpu@).drop_last() =~= before_cpu);
                assert(usage(memory@).drop_last() =~= before_memory);
            },
            None => {},
        }
        i = i + 1;
    }
    assert(samples@.take(i as int) =~= samples@);
    proof {
        start.lemma_sums(samples@, tick_count);
    }
    let access: Vec<(String, u128)> = widen(pod_misses);
    let plan: Plan = Plan {
        cpu_total_uw: total_cpu_uw,
        cpu,
        cpu_whole: Wide::from_wide(all_cpu),
        access,
        access_whole: total_llc_misses,
        memory,
        memory_whole: all_memory,
        memory_total_uw: total_mem_uw,
        report_idle: false,
    };
    assert(plan.shares() == start.shares(
        samples@,
        tick_count,
        total_cpu_uw,
        total_mem_uw,
        total_llc_misses as int,
        miss_list(pod_misses@),
    ));
    report_pods(node_name, pod_cache, &plan, now_ns)
}

// ─── Caches ─────────────────────────────────────────────────────

/// What a map holds under the keys in a set.
pub open spec fn kept<V>(m: Map<u32, V>, keys: Set<u32>) -> Map<u32, V> {
    m.restrict(keys)
}

fn keep_ticks(m: &HashMap<u32, u128>, active: &Vec<u32>) -> (r: HashMap<u32, u128>)
    ensures
        r@ == kept(m@, active@.to_set()),
{
    let mut r: HashMap<u32, u128> = HashMap::new();
    let mut i: usize = 0;
    assert(r@ =~= kept(m@, active@.take(0).to_set()));
    while i < active.len()
        invariant
            i <= active@.len(),
            r@ == kept(m@, active@.take(i as int).to_set()),
        decreases active@.len() - i,
    {
        let pid: u32 = active[i];
        proof {
            lemma_to_set_push(active@, i as int);
        }
        if let Some(v) = m.get(&pid) {
            r.insert(pid, *v);
        }
        i = i + 1;
        assert(r@ =~= kept(m@, active@.take(i as int).to_set()));
    }
    assert(active@.take(i as int) =~= active@);
    r
}

fn keep_faults(m: &HashMap<u32, (u64, u64)>, active: &Vec<u32>) -> (r: HashMap<u32, (u64, u64)>)
    ensures
        r@ == kept(m@, active@.to_set()),
{
    let mut r: HashMap<u32, (u64, u64)> = HashMap::new();
    let mut i: usize = 0;
    assert(r@ =~= kept(m@, active@.take(0).to_set()));
    while i < active.len()
        invariant
            i <= active@.len(),
            r@ == kept(m@, active@.take(i as int).to_set()),
        decreases active@.len() - i,
    {
        let pid: u32 = active[i];
        proof {
            lemma_to_set_push(active@, i as int);
        }
        if let Some(v) = m.get(&pid) {
            r.insert(pid, *v);
        }
        i = i + 1;
        assert(r@ =~= kept(m@, active@.take(i as int).to_set()));
    }
    assert(active@.take(i as int) =~= active@);
    r
}

pub proof fn lemma_to_set_push(s: Seq<u32>, i: int)
    requires
        0 <= i < s.len(),
    ensures
        s.take(i + 1).to_set() =~= s.take(i).to_set().insert(s[i]),
{
    let t = s.take(i + 1);
    assert forall|x: u32| t.to_set().contains(x) <==> s.take(i).to_set().insert(s[i]).contains(
        x,
    ) by {
        if s.take(i).contains(x) {
            let k = s.take(i).index_of(x);
            assert(t[k] == x);
        }
        if t.contains(x) && x != s[i] {
            let k = t.index_of(x);
            assert(s.take(i)[k] == x);
        }
        assert(t[i] == s[i]);
    }
}

/// Forgets the processes that are gone, so that the caches do not grow without bound.
pub fn cleanup_stale_pids(caches: &mut ProcessCaches, active: &Vec<u32>)
    ensures
        old(caches)@.well_formed() ==> final(caches)@.well_formed(),
        final(caches)@ == (CacheContents {
            cpu_ticks: kept(old(caches)@.cpu_ticks, active@.to_set()),
            page_faults: kept(old(caches)@.page_faults, active@.to_set()),
            memory_kb: kept(old(caches)@.memory_kb, active@.to_set()),
        }),
{
    caches.cpu_ticks = keep_ticks(&caches.cpu_ticks, active);
    caches.page_faults = keep_faults(&caches.page_faults, active);
    caches.memory_kb = keep_ticks(&caches.memory_kb, active);
}

/// What is known of pods once a list of them, each with its UID, was entered into `cache`.
pub open spec fn with_pods(cache: Seq<(String, PodInfo)>, pods: Seq<(String, PodInfo)>) -> Seq<
    (String, PodInfo),
>
    decreases pods.len(),
{
    if pods.len() == 0 {
        cache
    } else {
        put(with_pods(cache, pods.drop_last()), pods.last().0, pods.last().1)
    }
}

/// Renews what is known of the node's pods: whatever was known before is forgotten.
pub fn refresh_pod_cache(pods: Vec<(String, PodInfo)>) -> (r: Vec<(String, PodInfo)>)
    ensures
        r@ == with_pods(Seq::empty(), pods@),
{
    let ghost given = pods@;
    let mut r: Vec<(String, PodInfo)> = Vec::new();
    for e in it: pods.into_iter()
        invariant
            it.seq() == given,
            r@ == with_pods(Seq::empty(), given.take(it.index() as int)),
    {
        let ghost i = it.index() as int;
        assert(given.take(i + 1).drop_last() =~= given.take(i));
        let (uid, info): (String, PodInfo) = e;
        enter(&mut r, uid, info);
    }
    assert(given.take(given.len() as int) =~= given);
    r
}

/// The namespaces of the known pods.
pub open spec fn namespaces(cache: Seq<(String, PodInfo)>) -> Set<Seq<char>> {
    cache.map_values(|e: (String, PodInfo)| e.1.namespace@).to_set()
}

/// Counts the namespaces of the known pods.
pub fn count_unique_namespaces(cache: &Vec<(String, PodInfo)>) -> (r: usize)
    ensures
        r == namespaces(cache@).len(),
{
    let ghost all = cache@.map_values(|e: (String, PodInfo)| e.1.namespace@);
    let mut found: Vec<String> = Vec::new();
    let mut i: usize = 0;
    while i < cache.len()
        invariant
            i <= cache@.len(),
            all == cache@.map_values(|e: (String, PodInfo)| e.1.namespace@),
            distinct(found@),
            forall|ns: Seq<char>| #[trigger]
                named(found@, ns) <==> all.take(i as int).contains(ns),
        decreases cache@.len() - i,
    {
        let ghost before = found@;
        let ghost key = cache@[i as int].1.namespace@;
        if !contains(&found, cache[i].1.namespace.as_str()) {
            found.push(cache[i].1.namespace.clone());
        }
        proof {
            assert forall|ns: Seq<char>| #[trigger]
                named(found@, ns) <==> all.take(i + 1).contains(ns) by {
                let t = all.take(i + 1);
                assert(t[i as int] == key);
                if all.take(i as int).contains(ns) {
                    let k = all.take(i as int).index_of(ns);
                    assert(t[k] == ns);
                }
                if t.contains(ns) && ns != key {
                    let k = t.index_of(ns);
                    assert(all.take(i as int)[k] == ns);
                }
                if named(before, ns) {
                    let k = choose|k: int| 0 <= k < before.len() && (#[trigger] before[k])@ == ns;
                    assert(found@[k]@ == ns);
                }
                if ns == key && !named(before, key) {
                    assert(found@[before.len() as int]@ == ns);
                }
                if named(found@, ns) && !named(before, ns) {
                    let k = choose|k: int| 0 <= k < found@.len() && (#[trigger] found@[k])@ == ns;
                    if k < before.len() {
                        assert(before[k]@ == ns);
                    }
                }
            }
        }
        i = i + 1;
    }
    proof {
        assert(all.take(i as int) =~= all);
        let listed = found@.map_values(|s: String| s@);
        assert(listed.no_duplicates());
        listed.unique_seq_to_set();
        assert(listed.to_set() =~= namespaces(cache@)) by {
            assert forall|ns: Seq<char>| listed.to_set().contains(ns) <==> namespaces(
                cache@,
            ).contains(ns) by {
                if listed.contains(ns) {
                    let k = listed.index_of(ns);
                    assert(found@[k]@ == ns);
                    assert(named(found@, ns));
                }
                if named(found@, ns) {
                    let k = choose|k: int| 0 <= k < found@.len() && (#[trigger] found@[k])@ == ns;
                    assert(listed[k] == ns);
                }
            }
        }
    }
    found.len()
}

// ─── What the reports say of the processes ──────────────────────

/// A report names its node, and its pod as the cluster knows it; a pod that the cluster does not
/// know goes by its UID. Its total is its CPU and memory power.
pub proof fn law_pod_is_named(
    reports: Seq<PodPowerReport>,
    node_name: Seq<char>,
    cache: Seq<(String, PodInfo)>,
    shares: PodShares,
    now_ns: u64,
    i: int,
)
    requires
        are_pod_reports(reports, node_name, cache, shares, now_ns),
        0 <= i < reports.len(),
    ensures
        reports[i].node_name@ == node_name,
        reports[i].timestamp_ns == now_ns,
        reports[i].total_uw == reports[i].cpu_uw + reports[i].memory_uw,
        reports[i].gpu_uw == 0 && reports[i].storage_uw == 0 && reports[i].io_uw == 0,
        ({
            let known = lookup(cache, reports[i].pod_uid@);
            if known is Some {
                reports[i].pod_name@ == known->0.name@ && reports[i].namespace@
                    == known->0.namespace@
            } else {
                reports[i].pod_name@ == reports[i].pod_uid@ && reports[i].namespace@ == "unknown"@
            }
        }),
        forall|j: int|
            0 <= j < reports.len() && j != i ==> (#[trigger] reports[j]).pod_uid@
                != reports[i].pod_uid@,
{
}

/// What a process counts for by the CPU time since it was last seen; one that is new, or whose
/// time fell, counts for nothing.
pub open spec fn ran_since(prev: Map<u32, u128>) -> spec_fn(ProcessSample) -> int {
    |s: ProcessSample|
        if prev.contains_key(s.pid) && s.stat.cpu_ticks >= prev[s.pid] {
            s.stat.cpu_ticks - prev[s.pid]
        } else {
            0
        }
}

/// What a process counts for by its memory: what was read of it in every fifth interval or where
/// it is new, else what is remembered.
pub open spec fn memory_since(prev: Map<u32, u128>, tick_count: u64) -> spec_fn(ProcessSample) -> int {
    |s: ProcessSample|
        if prev.contains_key(s.pid) && tick_count % 5 != 0 {
            prev[s.pid] as int
        } else if s.memory_kb is Some {
            s.memory_kb->0 as int
        } else {
            0
        }
}

/// The same for the processes of the pod `uid` alone.
pub open spec fn of_pod(uid: Seq<char>, count: spec_fn(ProcessSample) -> int) -> spec_fn(
    ProcessSample,
) -> int {
    |s: ProcessSample|
        if s.pod_uid is Some && s.pod_uid->0@ == uid {
            count(s)
        } else {
            0
        }
}

impl CacheContents {
    proof fn lemma_unseen(self, samples: Seq<ProcessSample>, tick_count: u64, pid: u32)
        requires
            forall|i: int| 0 <= i < samples.len() ==> (#[trigger] samples[i]).pid != pid,
        ensures
            self.after_all(samples, tick_count).cpu_ticks.contains_key(pid)
                == self.cpu_ticks.contains_key(pid),
            self.after_all(samples, tick_count).cpu_ticks[pid] == self.cpu_ticks[pid],
            self.after_all(samples, tick_count).memory_kb.contains_key(pid)
                == self.memory_kb.contains_key(pid),
            self.after_all(samples, tick_count).memory_kb[pid] == self.memory_kb[pid],
        decreases samples.len(),
    {
        if samples.len() > 0 {
            assert forall|i: int| 0 <= i < samples.drop_last().len() implies (
            #[trigger] samples.drop_last()[i]).pid != pid by {
                assert(samples[i].pid != pid);
            }
            self.lemma_unseen(samples.drop_last(), tick_count, pid);
            assert(samples[samples.len() - 1].pid != pid);
        }
    }

    proof fn lemma_process_sums(
        self,
        samples: Seq<ProcessSample>,
        tick_count: u64,
        uid: Seq<char>,
    )
        requires
            forall|i: int, j: int|
                0 <= i < j < samples.len() ==> (#[trigger] samples[i]).pid != (
                #[trigger] samples[j]).pid,
        ensures
            self.all_cpu(samples, tick_count) == sum_of(samples, ran_since(self.cpu_ticks)),
            self.all_memory(samples, tick_count) == sum_of(
                samples,
                memory_since(self.memory_kb, tick_count),
            ),
            used_by(self.pod_cpu(samples, tick_count), uid) == sum_of(
                samples,
                of_pod(uid, ran_since(self.cpu_ticks)),
            ),
            used_by(self.pod_memory(samples, tick_count), uid) == sum_of(
                samples,
                of_pod(uid, memory_since(self.memory_kb, tick_count)),
            ),
            mentions(self.pod_cpu(samples, tick_count), uid) <==> exists|i: int|
                0 <= i < samples.len() && (#[trigger] samples[i]).pod_uid is Some
                    && samples[i].pod_uid->0@ == uid,
        decreases samples.len(),
    {
        if samples.len() > 0 {
            let before = samples.drop_last();
            let last = samples[samples.len() - 1];
            assert forall|i: int, j: int| 0 <= i < j < before.len() implies (
            #[trigger] before[i]).pid != (#[trigger] before[j]).pid by {
                assert(samples[i].pid != samples[j].pid);
            }
            self.lemma_process_sums(before, tick_count, uid);
            assert forall|i: int| 0 <= i < before.len() implies (#[trigger] before[i]).pid
                != last.pid by {
                assert(samples[i].pid != samples[samples.len() - 1].pid);
            }
            self.lemma_unseen(before, tick_count, last.pid);
            let (cpu, memory) = (
                self.pod_cpu(before, tick_count),
                self.pod_memory(before, tick_count),
            );
            let after = self.pod_cpu(samples, tick_count);
            if last.pod_uid is Some {
                assert(after.drop_last() =~= cpu);
                assert(self.pod_memory(samples, tick_count).drop_last() =~= memory);
                assert(after[cpu.len() as int].0 == last.pod_uid->0@);
            }
            if mentions(cpu, uid) {
                let k = choose|k: int| 0 <= k < cpu.len() && (#[trigger] cpu[k]).0 == uid;
                assert(after[k].0 == uid);
                let i = choose|i: int|
                    0 <= i < before.len() && (#[trigger] before[i]).pod_uid is Some
                        && before[i].pod_uid->0@ == uid;
                assert(samples[i].pod_uid is Some);
            }
            if mentions(after, uid) && !mentions(cpu, uid) {
                let k = choose|k: int| 0 <= k < after.len() && (#[trigger] after[k]).0 == uid;
                if k < cpu.len() {
                    assert(cpu[k].0 == uid);
                }
                assert(samples[samples.len() - 1].pod_uid is Some);
            }
            if exists|i: int|
                0 <= i < samples.len() && (#[trigger] samples[i]).pod_uid is Some
                    && samples[i].pod_uid->0@ == uid {
                let i = choose|i: int|
                    0 <= i < samples.len() && (#[trigger] samples[i]).pod_uid is Some
                        && samples[i].pod_uid->0@ == uid;
                if i < before.len() {
                    assert(before[i].pod_uid is Some && before[i].pod_uid->0@ == uid);
                    assert(mentions(cpu, uid));
                } else {
                    assert(after[cpu.len() as int].0 == uid);
                }
            }
        }
    }

    proof fn lemma_pod_lists(self, samples: Seq<ProcessSample>, tick_count: u64)
        ensures
            natural_amounts(self.pod_cpu(samples, tick_count)),
            natural_amounts(self.pod_memory(samples, tick_count)),
            used(self.pod_cpu(samples, tick_count)) <= self.all_cpu(samples, tick_count),
            used(self.pod_memory(samples, tick_count)) <= self.all_memory(samples, tick_count),
        decreases samples.len(),
    {
        if samples.len() > 0 {
            let before = samples.drop_last();
            self.lemma_pod_lists(before, tick_count);
            if samples.last().pod_uid is Some {
                assert(self.pod_cpu(samples, tick_count).drop_last() =~= self.pod_cpu(
                    before,
                    tick_count,
                ));
                assert(self.pod_memory(samples, tick_count).drop_last() =~= self.pod_memory(
                    before,
                    tick_count,
                ));
            }
        }
    }

    /// By process files: a pod is reported if and only if a process of it was seen. Its CPU power
    /// is to the node's as the CPU time that its processes used since they were last seen is to
    /// that of all processes. Where no cache misses were counted, its memory power is to the
    /// node's as the memory of its processes is to that of all processes. Both are rounded down.
    pub proof fn law_processes_decide(
        self,
        r: Seq<PodPowerReport>,
        node_name: Seq<char>,
        cache: Seq<(String, PodInfo)>,
        samples: Seq<ProcessSample>,
        tick_count: u64,
        total_cpu_uw: u64,
        total_mem_uw: u64,
        total_llc_misses: int,
        pod_misses: Seq<(Seq<char>, int)>,
        now_ns: u64,
        uid: Seq<char>,
    )
        requires
            forall|i: int, j: int|
                0 <= i < j < samples.len() ==> (#[trigger] samples[i]).pid != (
                #[trigger] samples[j]).pid,
            are_pod_reports(
                r,
                node_name,
                cache,
                self.shares(
                    samples,
                    tick_count,
                    total_cpu_uw,
                    total_mem_uw,
                    total_llc_misses,
                    pod_misses,
                ),
                now_ns,
            ),
        ensures
            (exists|i: int| 0 <= i < r.len() && (#[trigger] r[i]).pod_uid@ == uid) <==> exists|k: int|
                0 <= k < samples.len() && (#[trigger] samples[k]).pod_uid is Some
                    && samples[k].pod_uid->0@ == uid,
            forall|i: int|
                0 <= i < r.len() && (#[trigger] r[i]).pod_uid@ == uid ==> {
                    let all = sum_of(samples, ran_since(self.cpu_ticks));
                    let own = sum_of(samples, of_pod(uid, ran_since(self.cpu_ticks)));
                    if all > 0 {
                        r[i].cpu_uw * all <= total_cpu_uw * own < (r[i].cpu_uw + 1) * all
                    } else {
                        r[i].cpu_uw == 0
                    }
                },
            total_llc_misses == 0 ==> forall|i: int|
                0 <= i < r.len() && (#[trigger] r[i]).pod_uid@ == uid ==> {
                    let count = memory_since(self.memory_kb, tick_count);
                    let all = sum_of(samples, count);
                    let own = sum_of(samples, of_pod(uid, count));
                    if all > 0 {
                        r[i].memory_uw * all <= total_mem_uw * own < (r[i].memory_uw + 1) * all
                    } else {
                        r[i].memory_uw == 0
                    }
                },
    {
        let shares = self.shares(
            samples,
            tick_count,
            total_cpu_uw,
            total_mem_uw,
            total_llc_misses,
            pod_misses,
        );
        self.lemma_process_sums(samples, tick_count, uid);
        self.lemma_pod_lists(samples, tick_count);
        lemma_used(shares.cpu, uid);
        lemma_used(shares.memory, uid);
        assert(reported(r, uid) <==> shares.listed(uid));
        if shares.cpu_whole > 0 {
            law_share(total_cpu_uw as int, used_by(shares.cpu, uid), shares.cpu_whole);
        }
        if shares.memory_whole > 0 {
            law_share(total_mem_uw as int, used_by(shares.memory, uid), shares.memory_whole);
        }
    }
}

/// What is remembered of a process is what its last sample told: its time and its page faults.
pub proof fn law_last_sample_remembered(
    cache: CacheContents,
    samples: Seq<ProcessSample>,
    tick_count: u64,
    i: int,
)
    requires
        0 <= i < samples.len(),
        forall|j: int| i < j < samples.len() ==> (#[trigger] samples[j]).pid != samples[i].pid,
    ensures
        ({
            let after = cache.after_all(samples, tick_count);
            let pid = samples[i].pid;
            &&& after.cpu_ticks.contains_key(pid)
            &&& after.cpu_ticks[pid] == samples[i].stat.cpu_ticks
            &&& after.page_faults.contains_key(pid)
            &&& after.page_faults[pid] == (samples[i].stat.minflt, samples[i].stat.majflt)
            &&& after.memory_kb.contains_key(pid)
        }),
    decreases samples.len(),
{
    let rest = samples.drop_last();
    if i < samples.len() - 1 {
        assert forall|j: int| i < j < rest.len() implies (#[trigger] rest[j]).pid
            != rest[i].pid by {
            assert(samples[j].pid != samples[i].pid);
        }
        law_last_sample_remembered(cache, rest, tick_count, i);
        assert(samples[samples.len() - 1].pid != samples[i].pid);
    }
}

/// What is known of a pod is what the last entry for it tells; of a pod without an entry, what was
/// known before.
pub proof fn law_pods_known(
    cache: Seq<(String, PodInfo)>,
    pods: Seq<(String, PodInfo)>,
    uid: Seq<char>,
    i: int,
)
    requires
        distinct_keys(cache),
        -1 <= i < pods.len(),
        i >= 0 ==> pods[i].0@ == uid,
        forall|j: int| i < j < pods.len() ==> (#[trigger] pods[j]).0@ != uid,
    ensures
        distinct_keys(with_pods(cache, pods)),
        lookup(with_pods(cache, pods), uid) == if i >= 0 {
            Some(pods[i].1)
        } else {
            lookup(cache, uid)
        },
    decreases pods.len(),
{
    if pods.len() > 0 {
        let rest = pods.drop_last();
        let last = pods[pods.len() - 1];
        assert(pods.last() == last);
        if i < pods.len() - 1 {
            assert forall|j: int| i < j < rest.len() implies (#[trigger] rest[j]).0@ != uid by {
                assert(pods[j].0@ != uid);
            }
            law_pods_known(cache, rest, uid, i);
        } else {
            lemma_pods_distinct(cache, rest);
        }
        law_put(with_pods(cache, rest), last.0, last.1, uid);
    }
}

proof fn lemma_pods_distinct(cache: Seq<(String, PodInfo)>, pods: Seq<(String, PodInfo)>)
    requires
        distinct_keys(cache),
    ensures
        distinct_keys(with_pods(cache, pods)),
    decreases pods.len(),
{
    if pods.len() > 0 {
        lemma_pods_distinct(cache, pods.drop_last());
        law_put(
            with_pods(cache, pods.drop_last()),
            pods.last().0,
            pods.last().1,
            pods.last().0@,
        );
    }
}

/// A process's memory is read in one interval of any five in a row, and whenever it is not known
/// yet. Once the processes that are gone are forgotten, just what is known of the others is left.
pub proof fn law_memory_read(c: CacheContents, pid: u32, tick: u64, keys: Set<u32>)
    requires
        tick <= u64::MAX - 4,
    ensures
        !c.memory_kb.contains_key(pid) ==> c.wants_memory(pid, tick),
        c.memory_kb.contains_key(pid) && c.wants_memory(pid, tick) ==> !c.wants_memory(
            pid,
            (tick + 1) as u64,
        ) && !c.wants_memory(pid, (tick + 2) as u64) && !c.wants_memory(pid, (tick + 3) as u64)
            && !c.wants_memory(pid, (tick + 4) as u64),
        c.wants_memory(pid, tick) || c.wants_memory(pid, (tick + 1) as u64) || c.wants_memory(
            pid,
            (tick + 2) as u64,
        ) || c.wants_memory(pid, (tick + 3) as u64) || c.wants_memory(pid, (tick + 4) as u64),
        kept(c.cpu_ticks, keys).contains_key(pid) <==> c.cpu_ticks.contains_key(pid)
            && keys.contains(pid),
        kept(c.cpu_ticks, keys).contains_key(pid) ==> kept(c.cpu_ticks, keys)[pid]
            == c.cpu_ticks[pid],
{
}

} // verus!
