//! Sharing storage and network power out to pods, by the bytes that their processes moved.
//!
//! Power that no bytes account for stays with the node: storage that is powered but idle, or the
//! traffic of processes that belong to no pod.

use super::kernel_pods::PodProcess;
use super::procfs::{keyed_number, read_keyed_number, MAX_AMOUNT};
use super::usage::{sum_used_by, usage};
use crate::arith::{law_share, share, share_of};
use crate::report::{pod_reports, PodPowerReport, PodReport};
use crate::sums::{lemma_sum_natural, sum_of};
use crate::table::{get, lookup};
use crate::tally::{law_tally, lemma_used, used, used_by, used_by_all};
use std::collections::HashMap;
use vstd::arithmetic::div_mod::*;
use vstd::prelude::*;

verus! {

broadcast use vstd::std_specs::hash::group_hash_axioms;

// ─── Bytes ──────────────────────────────────────────────────────

/// The bytes that a process's `io` file says it read from disk and wrote to it.
pub open spec fn disk_bytes(content: Seq<char>) -> Option<int> {
    match (keyed_number(content, "read_bytes:"@), keyed_number(content, "write_bytes:"@)) {
        (Some(r), Some(w)) => Some(r + w),
        _ => None,
    }
}

/// Reads the bytes that a process moved from the text of its `io` file.
pub fn read_disk_bytes(content: &str) -> (r: Option<u128>)
    ensures
        match r {
            Some(n) => disk_bytes(content@) == Some(n as int) && n <= MAX_AMOUNT,
            None => disk_bytes(content@) is None,
        },
{
    match (read_keyed_number(content, "read_bytes:"), read_keyed_number(content, "write_bytes:")) {
        (Some(r), Some(w)) => Some(r as u128 + w as u128),
        _ => None,
    }
}

/// What one process moved since it started.
#[derive(Debug)]
pub struct IoSample {
    pub pid: u32,
    pub bytes: u128,
    /// The pod that the process belongs to
    pub pod_uid: Option<String>,
}

/// What was moved in an interval: by pods, and by all processes.
#[derive(Debug)]
pub struct IoUse {
    pub pods: Vec<(String, u128)>,
    pub total: u128,
}

impl IoUse {
    /// Pods moved no more than all processes.
    pub open spec fn well_formed(self) -> bool {
        used(usage(self.pods@)) <= self.total
    }
}

/// What processes had moved when they were last seen.
#[derive(Debug)]
pub struct IoMeter {
    pub prev: HashMap<u32, u128>,
}

/// What is remembered once processes were seen.
pub open spec fn io_after(prev: Map<u32, u128>, samples: Seq<IoSample>) -> Map<u32, u128>
    decreases samples.len(),
{
    if samples.len() == 0 {
        prev
    } else {
        io_after(prev, samples.drop_last()).insert(samples.last().pid, samples.last().bytes)
    }
}

/// What a process moved since it was last seen; nothing if it is new.
pub open spec fn io_delta(prev: Map<u32, u128>, s: IoSample) -> int {
    if prev.contains_key(s.pid) && prev[s.pid] <= s.bytes {
        s.bytes - prev[s.pid]
    } else {
        0
    }
}

/// What all processes moved.
pub open spec fn io_total(prev: Map<u32, u128>, samples: Seq<IoSample>) -> int
    decreases samples.len(),
{
    if samples.len() == 0 {
        0
    } else {
        io_total(prev, samples.drop_last()) + io_delta(
            io_after(prev, samples.drop_last()),
            samples.last(),
        )
    }
}

/// What the processes that belong to pods moved, each under its pod.
pub open spec fn io_by_pod(prev: Map<u32, u128>, samples: Seq<IoSample>) -> Seq<(Seq<char>, int)>
    decreases samples.len(),
{
    if samples.len() == 0 {
        Seq::empty()
    } else {
        let before = io_by_pod(prev, samples.drop_last());
        match samples.last().pod_uid {
            Some(uid) => before.push(
                (uid@, io_delta(io_after(prev, samples.drop_last()), samples.last())),
            ),
            None => before,
        }
    }
}

impl IoMeter {
    /// A meter that has seen nothing.
    pub fn new() -> (r: Self)
        ensures
            r.prev@ == Map::<u32, u128>::empty(),
    {
        IoMeter { prev: HashMap::new() }
    }

    /// Tells what was moved since the processes were last seen.
    pub fn measure(&mut self, samples: &Vec<IoSample>) -> (r: IoUse)
        requires
            samples@.len() <= u32::MAX,
            forall|i: int| 0 <= i < samples@.len() ==> (#[trigger] samples@[i]).bytes <= MAX_AMOUNT,
        ensures
            final(self).prev@ == io_after(old(self).prev@, samples@),
            r.total == io_total(old(self).prev@, samples@),
            usage(r.pods@) == io_by_pod(old(self).prev@, samples@),
            r.well_formed(),
    {
        let ghost start = self.prev@;
        let mut pods: Vec<(String, u128)> = Vec::new();
        let mut total: u128 = 0;
        let mut i: usize = 0;
        assert(usage(pods@) =~= Seq::empty());
        while i < samples.len()
            invariant
                i <= samples@.len() <= u32::MAX,
                forall|j: int|
                    0 <= j < samples@.len() ==> (#[trigger] samples@[j]).bytes <= MAX_AMOUNT,
                self.prev@ == io_after(start, samples@.take(i as int)),
                total == io_total(start, samples@.take(i as int)),
                total <= i * 0x4_0000_0000_0000_0000,
                usage(pods@) == io_by_pod(start, samples@.take(i as int)),
                used(usage(pods@)) <= total,
            decreases samples@.len() - i,
        {
            let ghost before = usage(pods@);
            let s: &IoSample = &samples[i];
            assert(samples@[i as int].bytes <= MAX_AMOUNT);
            assert(samples@.take(i + 1).drop_last() =~= samples@.take(i as int));
            let delta: u128 = match self.prev.get(&s.pid) {
                Some(prev) => if *prev <= s.bytes {
                    s.bytes - *prev
                } else {
                    0
                },
                None => 0,
            };
            self.prev.insert(s.pid, s.bytes);
            total = total + delta;
            if let Some(uid) = &s.pod_uid {
                pods.push((uid.clone(), delta));
                assert(usage(pods@) =~= before.push((uid@, delta as int)));
                assert(usage(pods@).drop_last() =~= before);
            }
            i = i + 1;
        }
        assert(samples@.take(i as int) =~= samples@);
        IoUse { pods, total }
    }

    /// Forgets the processes that are gone.
    pub fn forget(&mut self, active: &Vec<u32>)
        ensures
            final(self).prev@ == old(self).prev@.restrict(active@.to_set()),
    {
        let mut kept: HashMap<u32, u128> = HashMap::new();
        let mut i: usize = 0;
        assert(kept@ =~= self.prev@.restrict(active@.take(0).to_set()));
        while i < active.len()
            invariant
                i <= active@.len(),
                kept@ == self.prev@.restrict(active@.take(i as int).to_set()),
            decreases active@.len() - i,
        {
            let pid: u32 = active[i];
            proof {
                super::pods::lemma_to_set_push(active@, i as int);
            }
            if let Some(v) = self.prev.get(&pid) {
                kept.insert(pid, *v);
            }
            i = i + 1;
            assert(kept@ =~= self.prev@.restrict(active@.take(i as int).to_set()));
        }
        assert(active@.take(i as int) =~= active@);
        self.prev = kept;
    }
}

/// The TCP bytes of all processes.
pub open spec fn tcp_total(net: Seq<(u32, (u64, u64))>) -> int
    decreases net.len(),
{
    if net.len() == 0 {
        0
    } else {
        tcp_total(net.drop_last()) + net.last().1.0 + net.last().1.1
    }
}

/// The TCP bytes of the processes that belong to pods, each under its pod.
pub open spec fn tcp_by_pod(
    net: Seq<(u32, (u64, u64))>,
    pid_pods: Seq<(u32, PodProcess)>,
) -> Seq<(Seq<char>, int)>
    decreases net.len(),
{
    if net.len() == 0 {
        Seq::empty()
    } else {
        let before = tcp_by_pod(net.drop_last(), pid_pods);
        match lookup(pid_pods, net.last().0) {
            Some(p) => before.push((p.pod_uid@, net.last().1.0 + net.last().1.1)),
            None => before,
        }
    }
}

/// Tells what was sent and received over TCP, of what the kernel counted for each process.
pub fn tcp_use(net: &Vec<(u32, (u64, u64))>, pid_pods: &Vec<(u32, PodProcess)>) -> (r: IoUse)
    requires
        net@.len() <= u32::MAX,
    ensures
        r.total == tcp_total(net@),
        usage(r.pods@) == tcp_by_pod(net@, pid_pods@),
        r.well_formed(),
{
    let mut pods: Vec<(String, u128)> = Vec::new();
    let mut total: u128 = 0;
    let mut i: usize = 0;
    assert(usage(pods@) =~= Seq::empty());
    while i < net.len()
        invariant
            i <= net@.len() <= u32::MAX,
            total == tcp_total(net@.take(i as int)),
            total <= i * 0x1_ffff_ffff_ffff_fffe,
            usage(pods@) == tcp_by_pod(net@.take(i as int), pid_pods@),
            used(usage(pods@)) <= total,
        decreases net@.len() - i,
    {
        let ghost before = usage(pods@);
        assert(net@.take(i + 1).drop_last() =~= net@.take(i as int));
        let (pid, counted): (u32, (u64, u64)) = net[i];
        let bytes: u128 = counted.0 as u128 + counted.1 as u128;
        total = total + bytes;
        if let Some(p) = get(pid_pods, &pid) {
            pods.push((p.pod_uid.clone(), bytes));
            assert(usage(pods@) =~= before.push((p.pod_uid@, bytes as int)));
            assert(usage(pods@).drop_last() =~= before);
        }
        i = i + 1;
    }
    assert(net@.take(i as int) =~= net@);
    IoUse { pods, total }
}

// ─── Power ──────────────────────────────────────────────────────

/// A pod's part of a power, by the bytes that it moved.
pub open spec fn part_by_bytes(power_uw: u64, io: IoUse, uid: Seq<char>) -> int {
    share_of(power_uw as int, used_by(usage(io.pods@), uid), io.total as int)
}

/// A report with a pod's part of the storage power.
pub open spec fn with_storage(p: PodReport, storage_uw: u64, disk: IoUse) -> PodReport {
    PodReport { storage_uw: part_by_bytes(storage_uw, disk, p.pod_uid), ..p }
}

/// The CPU power of all reported pods.
pub open spec fn cpu_sum(pods: Seq<PodReport>) -> int
    decreases pods.len(),
{
    if pods.len() == 0 {
        0
    } else {
        cpu_sum(pods.drop_last()) + pods.last().cpu_uw
    }
}

/// A report with a pod's part of the network power: by TCP bytes where they are counted, else by
/// CPU power.
pub open spec fn with_network(
    p: PodReport,
    nic_uw: u64,
    tcp: Option<IoUse>,
    all_cpu: int,
) -> PodReport {
    PodReport {
        io_uw: match tcp {
            Some(io) => part_by_bytes(nic_uw, io, p.pod_uid),
            None => share_of(nic_uw as int, p.cpu_uw, all_cpu),
        },
        ..p
    }
}

fn read_part(power_uw: u64, io: &IoUse, uid: &str) -> (r: u64)
    requires
        io.well_formed(),
    ensures
        r == part_by_bytes(power_uw, *io, uid@),
{
    share(power_uw, sum_used_by(&io.pods, uid), io.total)
}

/// Shares the node's storage power out to its pods, by the bytes that each moved.
pub fn share_storage(pods: &mut Vec<PodPowerReport>, storage_uw: u64, disk: &IoUse)
    requires
        disk.well_formed(),
    ensures
        pod_reports(final(pods)@) == pod_reports(old(pods)@).map_values(
            |p: PodReport| with_storage(p, storage_uw, *disk),
        ),
{
    let ghost before = pod_reports(pods@);
    let ghost after = before.map_values(|p: PodReport| with_storage(p, storage_uw, *disk));
    let mut i: usize = 0;
    while i < pods.len()
        invariant
            i <= pods@.len() == before.len(),
            disk.well_formed(),
            after == before.map_values(|p: PodReport| with_storage(p, storage_uw, *disk)),
            forall|j: int| 0 <= j < i ==> (#[trigger] pods@[j])@ == after[j],
            forall|j: int| i <= j < before.len() ==> (#[trigger] pods@[j])@ == before[j],
        decreases before.len() - i,
    {
        let part: u64 = read_part(storage_uw, disk, pods[i].pod_uid.as_str());
        pods[i].storage_uw = part;
        assert(pods@[i as int]@ == after[i as int]);
        i = i + 1;
    }
    assert(pod_reports(pods@) =~= after);
}

fn sum_cpu(pods: &Vec<PodPowerReport>) -> (r: u128)
    ensures
        r == cpu_sum(pod_reports(pods@)),
        forall|j: int| 0 <= j < pods@.len() ==> (#[trigger] pods@[j]).cpu_uw <= r,
{
    let ghost all = pod_reports(pods@);
    let count: usize = pods.len();
    let mut sum: u128 = 0;
    let mut i: usize = 0;
    while i < count
        invariant
            i <= count == pods@.len(),
            all == pod_reports(pods@),
            sum == cpu_sum(all.take(i as int)),
            sum <= i * 0xffff_ffff_ffff_ffff,
            forall|j: int| 0 <= j < i ==> (#[trigger] pods@[j]).cpu_uw <= sum,
        decreases count - i,
    {
        assert(all.take(i + 1).drop_last() =~= all.take(i as int));
        assert(all[i as int] == pods@[i as int]@);
        assert(i * 0xffff_ffff_ffff_ffff + 0xffff_ffff_ffff_ffff <= u128::MAX);
        sum = sum + pods[i].cpu_uw as u128;
        i = i + 1;
    }
    assert(all.take(i as int) =~= all);
    sum
}

/// Shares the node's network power out to its pods.
pub fn share_network(pods: &mut Vec<PodPowerReport>, nic_uw: u64, tcp: &Option<IoUse>)
    requires
        tcp is Some ==> tcp->0.well_formed(),
    ensures
        pod_reports(final(pods)@) == pod_reports(old(pods)@).map_values(
            |p: PodReport| with_network(p, nic_uw, *tcp, cpu_sum(pod_reports(old(pods)@))),
        ),
{
    let all_cpu: u128 = sum_cpu(pods);
    let ghost given = pods@;
    let ghost before = pod_reports(pods@);
    let ghost after = before.map_values(
        |p: PodReport| with_network(p, nic_uw, *tcp, all_cpu as int),
    );
    let mut i: usize = 0;
    while i < pods.len()
        invariant
            i <= pods@.len() == before.len(),
            before == pod_reports(given),
            tcp is Some ==> tcp->0.well_formed(),
            forall|j: int| 0 <= j < given.len() ==> (#[trigger] given[j]).cpu_uw <= all_cpu,
            after == before.map_values(
                |p: PodReport| with_network(p, nic_uw, *tcp, all_cpu as int),
            ),
            forall|j: int| 0 <= j < i ==> (#[trigger] pods@[j])@ == after[j],
            forall|j: int| i <= j < before.len() ==> (#[trigger] pods@[j])@ == before[j],
        decreases before.len() - i,
    {
        assert(pods@[i as int]@ == given[i as int]@);
        assert(given[i as int].cpu_uw <= all_cpu);
        let part: u64 = match tcp {
            Some(io) => read_part(nic_uw, io, pods[i].pod_uid.as_str()),
            None => share(nic_uw, pods[i].cpu_uw as u128, all_cpu),
        };
        pods[i].io_uw = part;
        assert(pods@[i as int]@ == after[i as int]);
        i = i + 1;
    }
    assert(pod_reports(pods@) =~= after);
}

// ─── Laws ───────────────────────────────────────────────────────

/// The parts of pods, added up.
pub open spec fn parts_sum(power_uw: u64, io: IoUse, uids: Seq<Seq<char>>) -> int
    decreases uids.len(),
{
    if uids.len() == 0 {
        0
    } else {
        parts_sum(power_uw, io, uids.drop_last()) + part_by_bytes(power_uw, io, uids.last())
    }
}

proof fn lemma_parts(power_uw: u64, io: IoUse, uids: Seq<Seq<char>>)
    requires
        io.total > 0,
    ensures
        parts_sum(power_uw, io, uids) * io.total <= power_uw * used_by_all(usage(io.pods@), uids),
    decreases uids.len(),
{
    let w = io.total as int;
    let p = power_uw as int;
    if uids.len() > 0 {
        lemma_parts(power_uw, io, uids.drop_last());
        let s = parts_sum(power_uw, io, uids.drop_last());
        let u = used_by_all(usage(io.pods@), uids.drop_last());
        let x = used_by(usage(io.pods@), uids.last());
        let q = part_by_bytes(power_uw, io, uids.last());
        lemma_fundamental_div_mod(p * x, w);
        lemma_mod_bound(p * x, w);
        assert((s + q) * w == s * w + w * q) by (nonlinear_arith);
        assert(p * (u + x) == p * u + p * x) by (nonlinear_arith);
    } else {
        assert(0 * w == 0);
        assert(p * 0 == 0);
    }
}

/// Sharing out by bytes conserves power: different pods together never get more than there was.
pub proof fn law_io_conserves(power_uw: u64, io: IoUse, uids: Seq<Seq<char>>)
    requires
        io.well_formed(),
        uids.no_duplicates(),
    ensures
        parts_sum(power_uw, io, uids) <= power_uw,
    decreases uids.len(),
{
    law_tally(usage(io.pods@), uids);
    let s = parts_sum(power_uw, io, uids);
    let w = io.total as int;
    let p = power_uw as int;
    if w > 0 {
        lemma_parts(power_uw, io, uids);
        let u = used_by_all(usage(io.pods@), uids);
        assert(s <= p) by (nonlinear_arith)
            requires
                s * w <= p * u,
                u <= w,
                0 < w,
                0 <= p,
        ;
    } else {
        lemma_no_bytes(power_uw, io, uids);
    }
}

proof fn lemma_no_bytes(power_uw: u64, io: IoUse, uids: Seq<Seq<char>>)
    requires
        io.total == 0,
    ensures
        parts_sum(power_uw, io, uids) == 0,
    decreases uids.len(),
{
    if uids.len() > 0 {
        lemma_no_bytes(power_uw, io, uids.drop_last());
    }
}

/// Where nothing was moved, no pod gets anything.
pub proof fn law_idle_io_is_not_attributed(power_uw: u64, io: IoUse, uid: Seq<char>)
    requires
        io.well_formed(),
        used_by(usage(io.pods@), uid) == 0,
    ensures
        part_by_bytes(power_uw, io, uid) == 0,
{
    let w = io.total as int;
    assert(power_uw * 0 == 0);
    if w > 0 {
        lemma_div_basics(w);
    }
}

/// What a process counts for by the bytes that it moved since it was last seen; one that is new,
/// or whose count fell, counts for nothing.
pub open spec fn moved_since(prev: Map<u32, u128>) -> spec_fn(IoSample) -> int {
    |s: IoSample|
        if prev.contains_key(s.pid) && s.bytes >= prev[s.pid] {
            s.bytes - prev[s.pid]
        } else {
            0
        }
}

/// The same for the processes of the pod `uid` alone.
pub open spec fn moved_for(prev: Map<u32, u128>, uid: Seq<char>) -> spec_fn(IoSample) -> int {
    |s: IoSample|
        if s.pod_uid is Some && s.pod_uid->0@ == uid && prev.contains_key(s.pid) && s.bytes
            >= prev[s.pid] {
            s.bytes - prev[s.pid]
        } else {
            0
        }
}

proof fn lemma_io_unseen(prev: Map<u32, u128>, samples: Seq<IoSample>, pid: u32)
    requires
        forall|i: int| 0 <= i < samples.len() ==> (#[trigger] samples[i]).pid != pid,
    ensures
        io_after(prev, samples).contains_key(pid) == prev.contains_key(pid),
        io_after(prev, samples)[pid] == prev[pid],
    decreases samples.len(),
{
    if samples.len() > 0 {
        assert forall|i: int| 0 <= i < samples.drop_last().len() implies (
        #[trigger] samples.drop_last()[i]).pid != pid by {
            assert(samples[i].pid != pid);
        }
        lemma_io_unseen(prev, samples.drop_last(), pid);
        assert(samples[samples.len() - 1].pid != pid);
    }
}

proof fn lemma_io_sums(prev: Map<u32, u128>, samples: Seq<IoSample>, uid: Seq<char>)
    requires
        forall|i: int, j: int|
            0 <= i < j < samples.len() ==> (#[trigger] samples[i]).pid != (#[trigger] samples[j]).pid,
    ensures
        io_total(prev, samples) == sum_of(samples, moved_since(prev)),
        used_by(io_by_pod(prev, samples), uid) == sum_of(samples, moved_for(prev, uid)),
    decreases samples.len(),
{
    if samples.len() > 0 {
        let before = samples.drop_last();
        let last = samples[samples.len() - 1];
        assert forall|i: int, j: int| 0 <= i < j < before.len() implies (#[trigger] before[i]).pid
            != (#[trigger] before[j]).pid by {
            assert(samples[i].pid != samples[j].pid);
        }
        lemma_io_sums(prev, before, uid);
        assert forall|i: int| 0 <= i < before.len() implies (#[trigger] before[i]).pid
            != last.pid by {
            assert(samples[i].pid != samples[samples.len() - 1].pid);
        }
        lemma_io_unseen(prev, before, last.pid);
        if last.pod_uid is Some {
            assert(io_by_pod(prev, samples).drop_last() =~= io_by_pod(prev, before));
        }
    }
}

/// A pod's storage power is to the node's as the bytes that its processes moved since they were
/// last seen are to those of all processes, rounded down; nothing else of its report changes.
pub proof fn law_storage_goes_with_bytes(
    p: PodReport,
    storage_uw: u64,
    disk: IoUse,
    prev: Map<u32, u128>,
    samples: Seq<IoSample>,
)
    requires
        disk.well_formed(),
        disk.total == io_total(prev, samples),
        usage(disk.pods@) == io_by_pod(prev, samples),
        forall|i: int, j: int|
            0 <= i < j < samples.len() ==> (#[trigger] samples[i]).pid != (#[trigger] samples[j]).pid,
    ensures
        ({
            let after = with_storage(p, storage_uw, disk);
            let all = sum_of(samples, moved_since(prev));
            let own = sum_of(samples, moved_for(prev, p.pod_uid));
            &&& all > 0 ==> after.storage_uw * all <= storage_uw * own < (after.storage_uw + 1) * all
            &&& all == 0 ==> after.storage_uw == 0
            &&& after.cpu_uw == p.cpu_uw && after.memory_uw == p.memory_uw && after.gpu_uw
                == p.gpu_uw && after.io_uw == p.io_uw && after.total_uw == p.total_uw
            &&& after.pod_uid == p.pod_uid && after.pod_name == p.pod_name && after.namespace
                == p.namespace && after.node_name == p.node_name
        }),
{
    lemma_io_sums(prev, samples, p.pod_uid);
    lemma_used(usage(disk.pods@), p.pod_uid);
    if disk.total > 0 {
        law_share(storage_uw as int, used_by(usage(disk.pods@), p.pod_uid), disk.total as int);
    }
}

/// What a process counts for by its TCP bytes, both ways.
pub open spec fn carried() -> spec_fn((u32, (u64, u64))) -> int {
    |e: (u32, (u64, u64))| e.1.0 + e.1.1
}

/// The same for the processes of the pod `uid` alone.
pub open spec fn carried_for(pid_pods: Seq<(u32, PodProcess)>, uid: Seq<char>) -> spec_fn(
    (u32, (u64, u64)),
) -> int {
    |e: (u32, (u64, u64))|
        if lookup(pid_pods, e.0) is Some && lookup(pid_pods, e.0)->0.pod_uid@ == uid {
            e.1.0 + e.1.1
        } else {
            0
        }
}

proof fn lemma_tcp_sums(
    net: Seq<(u32, (u64, u64))>,
    pid_pods: Seq<(u32, PodProcess)>,
    uid: Seq<char>,
)
    ensures
        tcp_total(net) == sum_of(net, carried()),
        used_by(tcp_by_pod(net, pid_pods), uid) == sum_of(net, carried_for(pid_pods, uid)),
    decreases net.len(),
{
    if net.len() > 0 {
        lemma_tcp_sums(net.drop_last(), pid_pods, uid);
        if lookup(pid_pods, net.last().0) is Some {
            assert(tcp_by_pod(net, pid_pods).drop_last() =~= tcp_by_pod(net.drop_last(), pid_pods));
        }
    }
}

/// A pod's network power is to the node's as the TCP bytes that its processes sent and received
/// are to those of all processes, rounded down; nothing else of its report changes.
pub proof fn law_network_goes_with_bytes(
    p: PodReport,
    nic_uw: u64,
    tcp: IoUse,
    all_cpu: int,
    net: Seq<(u32, (u64, u64))>,
    pid_pods: Seq<(u32, PodProcess)>,
)
    requires
        tcp.well_formed(),
        tcp.total == tcp_total(net),
        usage(tcp.pods@) == tcp_by_pod(net, pid_pods),
    ensures
        ({
            let after = with_network(p, nic_uw, Some(tcp), all_cpu);
            let all = sum_of(net, carried());
            let own = sum_of(net, carried_for(pid_pods, p.pod_uid));
            &&& all > 0 ==> after.io_uw * all <= nic_uw * own < (after.io_uw + 1) * all
            &&& all == 0 ==> after.io_uw == 0
            &&& after.cpu_uw == p.cpu_uw && after.memory_uw == p.memory_uw && after.gpu_uw
                == p.gpu_uw && after.storage_uw == p.storage_uw && after.total_uw == p.total_uw
        }),
{
    lemma_tcp_sums(net, pid_pods, p.pod_uid);
    lemma_used(usage(tcp.pods@), p.pod_uid);
    if tcp.total > 0 {
        law_share(nic_uw as int, used_by(usage(tcp.pods@), p.pod_uid), tcp.total as int);
    }
}

/// The CPU power of a report.
pub open spec fn report_cpu() -> spec_fn(PodReport) -> int {
    |p: PodReport| p.cpu_uw
}

proof fn lemma_cpu_sum(pods: Seq<PodReport>)
    ensures
        cpu_sum(pods) == sum_of(pods, report_cpu()),
    decreases pods.len(),
{
    if pods.len() > 0 {
        lemma_cpu_sum(pods.drop_last());
    }
}

/// Where TCP bytes are not counted, a pod's network power is to the node's as its CPU power is to
/// that of all pods, rounded down.
pub proof fn law_network_goes_with_cpu(pods: Seq<PodReport>, nic_uw: u64, i: int)
    requires
        0 <= i < pods.len(),
        forall|j: int| 0 <= j < pods.len() ==> 0 <= (#[trigger] pods[j]).cpu_uw,
    ensures
        ({
            let after = with_network(pods[i], nic_uw, None, cpu_sum(pods));
            let all = sum_of(pods, report_cpu());
            &&& all > 0 ==> after.io_uw * all <= nic_uw * pods[i].cpu_uw < (after.io_uw + 1) * all
            &&& all == 0 ==> after.io_uw == 0
        }),
{
    lemma_cpu_sum(pods);
    lemma_sum_natural(pods, report_cpu());
    let all = sum_of(pods, report_cpu());
    assert(report_cpu()(pods[i]) <= all);
    if all > 0 {
        law_share(nic_uw as int, pods[i].cpu_uw, all);
    }
}

/// A process's bytes are those that it read and wrote together; both must be told.
pub proof fn law_disk_bytes(content: Seq<char>, read: int, written: int)
    ensures
        keyed_number(content, "read_bytes:"@) == Some(read) && keyed_number(
            content,
            "write_bytes:"@,
        ) == Some(written) ==> disk_bytes(content) == Some(read + written),
        keyed_number(content, "read_bytes:"@) is None ==> disk_bytes(content) is None,
        keyed_number(content, "write_bytes:"@) is None ==> disk_bytes(content) is None,
{
}

/// What is remembered of a process is what its last sample told; of one without a sample, what was
/// remembered before.
pub proof fn law_bytes_remembered(
    prev: Map<u32, u128>,
    samples: Seq<IoSample>,
    pid: u32,
    i: int,
)
    requires
        -1 <= i < samples.len(),
        i >= 0 ==> samples[i].pid == pid,
        forall|j: int| i < j < samples.len() ==> (#[trigger] samples[j]).pid != pid,
    ensures
        i >= 0 ==> io_after(prev, samples).contains_pair(pid, samples[i].bytes),
        i < 0 ==> io_after(prev, samples).contains_key(pid) == prev.contains_key(pid),
        i < 0 && prev.contains_key(pid) ==> io_after(prev, samples)[pid] == prev[pid],
    decreases samples.len(),
{
    if samples.len() > 0 && i < samples.len() - 1 {
        let rest = samples.drop_last();
        assert forall|j: int| i < j < rest.len() implies (#[trigger] rest[j]).pid != pid by {
            assert(samples[j].pid != pid);
        }
        law_bytes_remembered(prev, rest, pid, i);
        assert(samples[samples.len() - 1].pid != pid);
    }
}

} // verus!
