//! What the kernel-side observer does at each event, and how its maps are drained.
//!
//! Each CPU has a state: the task that runs, or the frequency it runs at, and since when. An
//! event accounts the time that has passed to what was, and records what is now.

use super::EbpfSnapshot;
use crate::arith::low_word;
use crate::common::{
    CpuFreqState, CpuSchedState, PidNetBytes, MAX_CPU_FREQ_ENTRIES, MAX_PID_CGROUP_ENTRIES,
    MAX_PID_CPU_ENTRIES, MAX_PID_NET_ENTRIES,
};
use crate::table::{
    distinct_keys, enter, find, get, has_key, law_put, lemma_position, lookup, position, put,
    retain, Key,
};
use std::collections::HashMap;
use vstd::prelude::*;

verus! {

broadcast use vstd::std_specs::hash::group_hash_axioms;

/// Hardware counters of a task.
#[derive(Clone, Copy, Debug, PartialEq, Eq, Structural)]
pub struct PidCpuCounters {
    pub instructions: u64,
    pub cycles: u64,
    pub cache_misses: u64,
}

/// Maximum entries in the map of hardware counters.
pub const MAX_PID_HW_COUNTER_ENTRIES: u32 = 65536;

/// The kernel's maps.
#[derive(Debug)]
pub struct KernelMaps {
    /// (cpu, pid) → nanoseconds
    pub pid_cpu_time: Vec<((u32, u32), u64)>,
    /// (cpu, KHz) → nanoseconds
    pub cpu_freq_time: Vec<((u32, u32), u64)>,
    /// pid → cgroup
    pub pid_cgroup: Vec<(u32, u64)>,
    /// pid → TCP bytes
    pub pid_net_bytes: Vec<(u32, PidNetBytes)>,
    /// (cpu, pid) → hardware counters
    pub pid_hw_counters: Vec<((u32, u32), PidCpuCounters)>,
}

/// A map with a value under a key. A new key finds no room in a full map, and is dropped.
pub open spec fn stored<K: View, V>(s: Seq<(K, V)>, max: u32, k: K, v: V) -> Seq<(K, V)> {
    if has_key(s, k@) || s.len() < max {
        put(s, k, v)
    } else {
        s
    }
}

/// A map with an amount added under a key, in 64 bits.
pub open spec fn accumulated<K: View>(s: Seq<(K, u64)>, max: u32, k: K, amount: u64) -> Seq<
    (K, u64),
> {
    match lookup(s, k@) {
        Some(v) => put(s, k, low_word(v + amount) as u64),
        None => stored(s, max, k, amount),
    }
}

fn word_sum(a: u64, b: u64) -> (r: u64)
    ensures
        r == low_word(a + b),
{
    ((a as u128 + b as u128) % 0x1_0000_0000_0000_0000) as u64
}

fn store<K: Key, V>(v: &mut Vec<(K, V)>, max: u32, k: K, value: V)
    ensures
        final(v)@ == stored(old(v)@, max, k, value),
{
    if find(v, &k).is_some() || v.len() < max as usize {
        enter(v, k, value);
    }
}

fn accumulate<K: Key>(v: &mut Vec<(K, u64)>, max: u32, k: K, amount: u64)
    ensures
        final(v)@ == accumulated(old(v)@, max, k, amount),
{
    let sum: Option<u64> = match get(v, &k) {
        Some(x) => Some(word_sum(*x, amount)),
        None => None,
    };
    match sum {
        Some(x) => {
            enter(v, k, x);
        },
        None => {
            store(v, max, k, amount);
        },
    }
}

// ─── Task switches ──────────────────────────────────────────────

/// A task switch on a CPU.
#[derive(Clone, Copy, Debug)]
pub struct SwitchEvent {
    pub now_ns: u64,
    pub cpu: u32,
    pub prev_pid: u32,
    pub next_pid: u32,
    /// The cgroup of the incoming task
    pub cgroup_id: u64,
    /// The hardware counters as the outgoing task leaves and as the incoming one starts, where
    /// they are tracked
    pub counters: Option<(PidCpuCounters, PidCpuCounters)>,
}

/// What a CPU remembers of the running task.
#[derive(Clone, Copy, Debug, PartialEq, Eq, Structural)]
pub struct TaskState {
    pub sched: CpuSchedState,
    /// The hardware counters as the task started
    pub start: PidCpuCounters,
}

/// How long the outgoing task ran. Nothing is known before the first switch, nor of the idle task.
pub open spec fn run_time(state: TaskState, now_ns: u64) -> u64 {
    if state.sched.current_pid != 0 && state.sched.start_time_ns != 0 && now_ns
        > state.sched.start_time_ns {
        (now_ns - state.sched.start_time_ns) as u64
    } else {
        0
    }
}

/// One number less another, and never less than nothing.
pub open spec fn excess(a: u64, b: u64) -> u64 {
    if a > b {
        (a - b) as u64
    } else {
        0
    }
}

/// What the counters advanced by.
pub open spec fn counter_advance(now: PidCpuCounters, start: PidCpuCounters) -> PidCpuCounters {
    PidCpuCounters {
        instructions: excess(now.instructions, start.instructions),
        cycles: excess(now.cycles, start.cycles),
        cache_misses: excess(now.cache_misses, start.cache_misses),
    }
}

/// Counters with more counted, in 64 bits.
pub open spec fn counters_plus(a: PidCpuCounters, b: PidCpuCounters) -> PidCpuCounters {
    PidCpuCounters {
        instructions: low_word(a.instructions + b.instructions) as u64,
        cycles: low_word(a.cycles + b.cycles) as u64,
        cache_misses: low_word(a.cache_misses + b.cache_misses) as u64,
    }
}

/// The hardware counter map after a switch.
pub open spec fn counters_after(
    s: Seq<((u32, u32), PidCpuCounters)>,
    state: TaskState,
    e: SwitchEvent,
) -> Seq<((u32, u32), PidCpuCounters)> {
    match e.counters {
        Some((leaving, _)) => {
            let d = counter_advance(leaving, state.start);
            let k = (e.cpu, e.prev_pid);
            if run_time(state, e.now_ns) > 0 && (d.instructions > 0 || d.cycles > 0) {
                match lookup(s, k) {
                    Some(v) => put(s, k, counters_plus(v, d)),
                    None => stored(s, MAX_PID_HW_COUNTER_ENTRIES, k, d),
                }
            } else {
                s
            }
        },
        None => s,
    }
}

/// The state of a CPU after a switch.
pub open spec fn state_after(state: TaskState, e: SwitchEvent) -> TaskState {
    TaskState {
        sched: CpuSchedState { current_pid: e.next_pid, start_time_ns: e.now_ns },
        start: match e.counters {
            Some((_, starting)) => starting,
            None => state.start,
        },
    }
}

/// The time map after a switch.
pub open spec fn times_after(s: Seq<((u32, u32), u64)>, state: TaskState, e: SwitchEvent) -> Seq<
    ((u32, u32), u64),
> {
    if run_time(state, e.now_ns) > 0 {
        accumulated(
            s,
            MAX_PID_CPU_ENTRIES,
            (e.cpu, e.prev_pid),
            run_time(state, e.now_ns),
        )
    } else {
        s
    }
}

/// The cgroup map after a switch.
pub open spec fn cgroups_after(s: Seq<(u32, u64)>, e: SwitchEvent) -> Seq<(u32, u64)> {
    if e.next_pid != 0 {
        stored(s, MAX_PID_CGROUP_ENTRIES, e.next_pid, e.cgroup_id)
    } else {
        s
    }
}

/// The frequency map after a change.
pub open spec fn frequencies_after(
    s: Seq<((u32, u32), u64)>,
    state: CpuFreqState,
    cpu: u32,
    now_ns: u64,
) -> Seq<((u32, u32), u64)> {
    if state.current_freq_khz != 0 && state.start_time_ns != 0 && now_ns > state.start_time_ns {
        accumulated(
            s,
            MAX_CPU_FREQ_ENTRIES,
            (cpu, state.current_freq_khz),
            (now_ns - state.start_time_ns) as u64,
        )
    } else {
        s
    }
}

/// Accounts the outgoing task's time and counters, and records the incoming task and its cgroup.
pub fn handle_sched_switch(maps: &mut KernelMaps, state: &mut TaskState, e: &SwitchEvent)
    ensures
        *final(state) == state_after(*old(state), *e),
        final(maps).pid_cpu_time@ == times_after(old(maps).pid_cpu_time@, *old(state), *e),
        final(maps).pid_cgroup@ == cgroups_after(old(maps).pid_cgroup@, *e),
        final(maps).pid_cpu_time@ == (if run_time(*old(state), e.now_ns) > 0 {
            accumulated(
                old(maps).pid_cpu_time@,
                MAX_PID_CPU_ENTRIES,
                (e.cpu, e.prev_pid),
                run_time(*old(state), e.now_ns),
            )
        } else {
            old(maps).pid_cpu_time@
        }),
        final(maps).pid_hw_counters@ == counters_after(
            old(maps).pid_hw_counters@,
            *old(state),
            *e,
        ),
        final(maps).pid_cgroup@ == (if e.next_pid != 0 {
            stored(old(maps).pid_cgroup@, MAX_PID_CGROUP_ENTRIES, e.next_pid, e.cgroup_id)
        } else {
            old(maps).pid_cgroup@
        }),
        final(maps).cpu_freq_time@ == old(maps).cpu_freq_time@,
        final(maps).pid_net_bytes@ == old(maps).pid_net_bytes@,
{
    let ran: u64 = if state.sched.current_pid != 0 && state.sched.start_time_ns != 0 {
        e.now_ns.saturating_sub(state.sched.start_time_ns)
    } else {
        0
    };
    if ran > 0 {
        accumulate(&mut maps.pid_cpu_time, MAX_PID_CPU_ENTRIES, (e.cpu, e.prev_pid), ran);
        if let Some((leaving, _)) = e.counters {
            let delta: PidCpuCounters = PidCpuCounters {
                instructions: leaving.instructions.saturating_sub(state.start.instructions),
                cycles: leaving.cycles.saturating_sub(state.start.cycles),
                cache_misses: leaving.cache_misses.saturating_sub(state.start.cache_misses),
            };
            if delta.instructions > 0 || delta.cycles > 0 {
                let key: (u32, u32) = (e.cpu, e.prev_pid);
                let sum: Option<PidCpuCounters> = match get(&maps.pid_hw_counters, &key) {
                    Some(v) => Some(
                        PidCpuCounters {
                            instructions: word_sum(v.instructions, delta.instructions),
                            cycles: word_sum(v.cycles, delta.cycles),
                            cache_misses: word_sum(v.cache_misses, delta.cache_misses),
                        },
                    ),
                    None => None,
                };
                match sum {
                    Some(v) => {
                        enter(&mut maps.pid_hw_counters, key, v);
                    },
                    None => {
                        store(
                            &mut maps.pid_hw_counters,
                            MAX_PID_HW_COUNTER_ENTRIES,
                            key,
                            delta,
                        );
                    },
                }
            }
        }
    }
    state.sched.current_pid = e.next_pid;
    state.sched.start_time_ns = e.now_ns;
    if let Some((_, starting)) = e.counters {
        state.start = starting;
    }
    if e.next_pid != 0 {
        store(&mut maps.pid_cgroup, MAX_PID_CGROUP_ENTRIES, e.next_pid, e.cgroup_id);
    }
}

/// No time is lost between switches: two switches in a row on one CPU account to the task between
/// them exactly the time from the first to the second.
pub proof fn law_time_between_switches(state: TaskState, first: SwitchEvent, second: SwitchEvent)
    requires
        first.next_pid != 0,
        first.now_ns != 0,
        first.now_ns <= second.now_ns,
    ensures
        run_time(state_after(state, first), second.now_ns) == second.now_ns - first.now_ns,
{
}

// ─── Frequency changes ──────────────────────────────────────────

/// Accounts the time at the previous frequency, and records the new one.
pub fn handle_cpu_frequency(
    maps: &mut KernelMaps,
    state: &mut CpuFreqState,
    cpu: u32,
    freq_khz: u32,
    now_ns: u64,
)
    ensures
        *final(state) == (CpuFreqState { current_freq_khz: freq_khz, start_time_ns: now_ns }),
        final(maps).cpu_freq_time@ == frequencies_after(
            old(maps).cpu_freq_time@,
            *old(state),
            cpu,
            now_ns,
        ),
        final(maps).cpu_freq_time@ == (if old(state).current_freq_khz != 0 && old(
            state,
        ).start_time_ns != 0 && now_ns > old(state).start_time_ns {
            accumulated(
                old(maps).cpu_freq_time@,
                MAX_CPU_FREQ_ENTRIES,
                (cpu, old(state).current_freq_khz),
                (now_ns - old(state).start_time_ns) as u64,
            )
        } else {
            old(maps).cpu_freq_time@
        }),
        final(maps).pid_cpu_time@ == old(maps).pid_cpu_time@,
        final(maps).pid_cgroup@ == old(maps).pid_cgroup@,
        final(maps).pid_net_bytes@ == old(maps).pid_net_bytes@,
        final(maps).pid_hw_counters@ == old(maps).pid_hw_counters@,
{
    if state.current_freq_khz != 0 && state.start_time_ns != 0 {
        let spent: u64 = now_ns.saturating_sub(state.start_time_ns);
        if spent > 0 {
            accumulate(
                &mut maps.cpu_freq_time,
                MAX_CPU_FREQ_ENTRIES,
                (cpu, state.current_freq_khz),
                spent,
            );
        }
    }
    state.current_freq_khz = freq_khz;
    state.start_time_ns = now_ns;
}

// ─── TCP ────────────────────────────────────────────────────────

/// The network map with bytes sent and received by a task. The idle task has none.
pub open spec fn net_after(s: Seq<(u32, PidNetBytes)>, pid: u32, tx: u64, rx: u64) -> Seq<
    (u32, PidNetBytes),
> {
    if pid == 0 {
        s
    } else {
        match lookup(s, pid) {
            Some(v) => put(
                s,
                pid,
                PidNetBytes {
                    tx_bytes: low_word(v.tx_bytes + tx) as u64,
                    rx_bytes: low_word(v.rx_bytes + rx) as u64,
                },
            ),
            None => stored(
                s,
                MAX_PID_NET_ENTRIES,
                pid,
                PidNetBytes { tx_bytes: tx, rx_bytes: rx },
            ),
        }
    }
}

fn count_bytes(v: &mut Vec<(u32, PidNetBytes)>, pid: u32, tx: u64, rx: u64)
    ensures
        final(v)@ == net_after(old(v)@, pid, tx, rx),
{
    if pid == 0 {
        return ;
    }
    let sum: Option<PidNetBytes> = match get(v, &pid) {
        Some(b) => Some(
            PidNetBytes {
                tx_bytes: word_sum(b.tx_bytes, tx),
                rx_bytes: word_sum(b.rx_bytes, rx),
            },
        ),
        None => None,
    };
    match sum {
        Some(b) => {
            enter(v, pid, b);
        },
        None => {
            store(v, MAX_PID_NET_ENTRIES, pid, PidNetBytes { tx_bytes: tx, rx_bytes: rx });
        },
    }
}

/// Counts bytes that a task sends.
pub fn tcp_sendmsg(maps: &mut KernelMaps, pid: u32, size: u64)
    ensures
        final(maps).pid_net_bytes@ == net_after(old(maps).pid_net_bytes@, pid, size, 0),
        final(maps).pid_cpu_time@ == old(maps).pid_cpu_time@,
        final(maps).cpu_freq_time@ == old(maps).cpu_freq_time@,
        final(maps).pid_cgroup@ == old(maps).pid_cgroup@,
        final(maps).pid_hw_counters@ == old(maps).pid_hw_counters@,
{
    count_bytes(&mut maps.pid_net_bytes, pid, size, 0);
}

/// Counts bytes that a task received: what the call returned, if that is no error.
pub fn tcp_recvmsg(maps: &mut KernelMaps, pid: u32, ret: i64)
    ensures
        final(maps).pid_net_bytes@ == (if ret > 0 {
            net_after(old(maps).pid_net_bytes@, pid, 0, ret as u64)
        } else {
            old(maps).pid_net_bytes@
        }),
        final(maps).pid_cpu_time@ == old(maps).pid_cpu_time@,
        final(maps).cpu_freq_time@ == old(maps).cpu_freq_time@,
        final(maps).pid_cgroup@ == old(maps).pid_cgroup@,
        final(maps).pid_hw_counters@ == old(maps).pid_hw_counters@,
{
    if ret > 0 {
        count_bytes(&mut maps.pid_net_bytes, pid, 0, ret as u64);
    }
}

// ─── Draining ───────────────────────────────────────────────────

/// A map as a list of triples.
pub open spec fn triples(s: Seq<((u32, u32), u64)>) -> Seq<(u32, u32, u64)> {
    s.map_values(|e: ((u32, u32), u64)| (e.0.0, e.0.1, e.1))
}

/// Reads all entries of a map and deletes them.
pub fn take_triples(v: &mut Vec<((u32, u32), u64)>) -> (r: Vec<(u32, u32, u64)>)
    ensures
        r@ == triples(old(v)@),
        final(v)@.len() == 0,
{
    let ghost all = triples(v@);
    let mut r: Vec<(u32, u32, u64)> = Vec::new();
    let mut i: usize = 0;
    while i < v.len()
        invariant
            i <= v@.len(),
            v@ == old(v)@,
            all == triples(v@),
            r@ == all.take(i as int),
        decreases v@.len() - i,
    {
        let e: ((u32, u32), u64) = v[i];
        r.push((e.0.0, e.0.1, e.1));
        i = i + 1;
        assert(r@ =~= all.take(i as int));
    }
    assert(r@ =~= all);
    v.clear();
    r
}

/// What a table holds, as a map.
pub open spec fn as_map<V>(s: Seq<(u32, V)>) -> Map<u32, V> {
    Map::new(|k: u32| has_key(s, k), |k: u32| lookup(s, k)->0)
}

proof fn lemma_as_map_push<V>(s: Seq<(u32, V)>, i: int)
    requires
        0 <= i < s.len(),
    ensures
        as_map(s.take(i + 1)) =~= as_map(s.take(i)).insert(s[i].0, s[i].1),
{
    let t = s.take(i + 1);
    let t0 = s.take(i);
    assert(t.drop_last() =~= t0);
    assert forall|k: u32|
        (#[trigger] as_map(t).contains_key(k) <==> as_map(t0).insert(s[i].0, s[i].1).contains_key(
            k,
        )) && (as_map(t).contains_key(k) ==> as_map(t)[k] == as_map(t0).insert(
            s[i].0,
            s[i].1,
        )[k]) by {
        crate::table::lemma_position(t, k);
        crate::table::lemma_position(t0, k);
        if k != s[i].0 && position(t0, k) >= 0 {
            assert(t[position(t0, k)] == t0[position(t0, k)]);
        }
    }
}

/// Reads the map of cgroups.
pub fn read_cgroups(v: &Vec<(u32, u64)>) -> (r: HashMap<u32, u64>)
    ensures
        r@ == as_map(v@),
{
    let mut r: HashMap<u32, u64> = HashMap::new();
    let mut i: usize = 0;
    assert(r@ =~= as_map(v@.take(0)));
    while i < v.len()
        invariant
            i <= v@.len(),
            r@ == as_map(v@.take(i as int)),
        decreases v@.len() - i,
    {
        proof {
            lemma_as_map_push(v@, i as int);
        }
        r.insert(v[i].0, v[i].1);
        i = i + 1;
    }
    assert(v@.take(i as int) =~= v@);
    r
}

/// The bytes of each task.
pub open spec fn byte_pairs(s: Seq<(u32, PidNetBytes)>) -> Seq<(u32, (u64, u64))> {
    s.map_values(|e: (u32, PidNetBytes)| (e.0, (e.1.tx_bytes, e.1.rx_bytes)))
}

/// The counters of each task on each CPU.
pub open spec fn counter_triples(s: Seq<((u32, u32), PidCpuCounters)>) -> Seq<
    ((u32, u32), (u64, u64, u64)),
> {
    s.map_values(
        |e: ((u32, u32), PidCpuCounters)|
            (e.0, (e.1.instructions, e.1.cycles, e.1.cache_misses)),
    )
}

impl KernelMaps {
    /// Empty maps.
    pub fn new() -> (r: Self)
        ensures
            r.pid_cpu_time@.len() == 0,
            r.cpu_freq_time@.len() == 0,
            r.pid_cgroup@.len() == 0,
            r.pid_net_bytes@.len() == 0,
            r.pid_hw_counters@.len() == 0,
    {
        KernelMaps {
            pid_cpu_time: Vec::new(),
            cpu_freq_time: Vec::new(),
            pid_cgroup: Vec::new(),
            pid_net_bytes: Vec::new(),
            pid_hw_counters: Vec::new(),
        }
    }

    /// Reads all entries of the accumulating maps and deletes them. The cgroup map is no
    /// accumulator: it is read and stays. Hardware counters are drained only while they are
    /// tracked.
    pub fn drain(&mut self, pid_pmc_active: bool) -> (r: EbpfSnapshot)
        ensures
            r.pid_cpu_times@ == triples(old(self).pid_cpu_time@),
            r.cpu_freq_times@ == triples(old(self).cpu_freq_time@),
            r.pid_cgroups@ == as_map(old(self).pid_cgroup@),
            r.pid_net_bytes@ == as_map(byte_pairs(old(self).pid_net_bytes@)),
            r.pid_hw_counters@ == (if pid_pmc_active {
                counter_triples(old(self).pid_hw_counters@)
            } else {
                Seq::empty()
            }),
            final(self).pid_cpu_time@.len() == 0,
            final(self).cpu_freq_time@.len() == 0,
            final(self).pid_cgroup@ == old(self).pid_cgroup@,
            final(self).pid_net_bytes@.len() == 0,
            pid_pmc_active ==> final(self).pid_hw_counters@.len() == 0,
            !pid_pmc_active ==> final(self).pid_hw_counters@ == old(self).pid_hw_counters@,
    {
        let ghost cgroups = self.pid_cgroup@;
        let ghost bytes = byte_pairs(self.pid_net_bytes@);
        let ghost counters = counter_triples(self.pid_hw_counters@);
        let pid_cpu_times: Vec<(u32, u32, u64)> = take_triples(&mut self.pid_cpu_time);
        let cpu_freq_times: Vec<(u32, u32, u64)> = take_triples(&mut self.cpu_freq_time);
        let pid_cgroups: HashMap<u32, u64> = read_cgroups(&self.pid_cgroup);
        let mut pid_net_bytes: HashMap<u32, (u64, u64)> = HashMap::new();
        let mut j: usize = 0;
        assert(pid_net_bytes@ =~= as_map(bytes.take(0)));
        while j < self.pid_net_bytes.len()
            invariant
                j <= bytes.len(),
                bytes == byte_pairs(self.pid_net_bytes@),
                self.pid_cgroup@ == cgroups,
                self.pid_hw_counters@ == old(self).pid_hw_counters@,
                self.pid_cpu_time@.len() == 0,
                self.cpu_freq_time@.len() == 0,
                pid_net_bytes@ == as_map(bytes.take(j as int)),
            decreases bytes.len() - j,
        {
            proof {
                lemma_as_map_push(bytes, j as int);
            }
            let e: (u32, PidNetBytes) = self.pid_net_bytes[j];
            pid_net_bytes.insert(e.0, (e.1.tx_bytes, e.1.rx_bytes));
            j = j + 1;
        }
        assert(bytes.take(j as int) =~= bytes);
        self.pid_net_bytes.clear();
        let mut pid_hw_counters: Vec<((u32, u32), (u64, u64, u64))> = Vec::new();
        if pid_pmc_active {
            let mut k: usize = 0;
            while k < self.pid_hw_counters.len()
                invariant
                    k <= counters.len(),
                    counters == counter_triples(self.pid_hw_counters@),
                    self.pid_cgroup@ == cgroups,
                    self.pid_cpu_time@.len() == 0,
                    self.cpu_freq_time@.len() == 0,
                    self.pid_net_bytes@.len() == 0,
                    pid_hw_counters@ == counters.take(k as int),
                decreases counters.len() - k,
            {
                let e: ((u32, u32), PidCpuCounters) = self.pid_hw_counters[k];
                pid_hw_counters.push((e.0, (e.1.instructions, e.1.cycles, e.1.cache_misses)));
                k = k + 1;
                assert(pid_hw_counters@ =~= counters.take(k as int));
            }
            assert(pid_hw_counters@ =~= counters);
            self.pid_hw_counters.clear();
        } else {
            assert(pid_hw_counters@ =~= Seq::empty());
        }
        EbpfSnapshot { pid_cpu_times, cpu_freq_times, pid_cgroups, pid_net_bytes, pid_hw_counters }
    }

    /// Forgets the cgroups of PIDs that no longer exist, so that the map does not fill up. Returns
    /// how many were forgotten.
    pub fn cleanup_dead_pids(&mut self, live: &Vec<u32>) -> (r: usize)
        ensures
            final(self).pid_cgroup@ == old(self).pid_cgroup@.filter(
                |e: (u32, u64)| live@.contains(e.0),
            ),
            r == old(self).pid_cgroup@.len() - final(self).pid_cgroup@.len(),
            final(self).pid_cpu_time@ == old(self).pid_cpu_time@,
            final(self).cpu_freq_time@ == old(self).cpu_freq_time@,
            final(self).pid_net_bytes@ == old(self).pid_net_bytes@,
            final(self).pid_hw_counters@ == old(self).pid_hw_counters@,
    {
        let before: usize = self.pid_cgroup.len();
        let alive = |e: &(u32, u64)| -> (b: bool)
            ensures
                b == live@.contains(e.0),
            { lists(live, e.0) };
        retain(&mut self.pid_cgroup, alive, Ghost(|e: (u32, u64)| live@.contains(e.0)));
        proof {
            lemma_filter_len(old(self).pid_cgroup@, |e: (u32, u64)| live@.contains(e.0));
        }
        before - self.pid_cgroup.len()
    }
}

proof fn lemma_filter_len(s: Seq<(u32, u64)>, p: spec_fn((u32, u64)) -> bool)
    ensures
        s.filter(p).len() <= s.len(),
    decreases s.len(),
{
    reveal(Seq::filter);
    if s.len() > 0 {
        lemma_filter_len(s.drop_last(), p);
    }
}

fn lists(pids: &Vec<u32>, pid: u32) -> (r: bool)
    ensures
        r == pids@.contains(pid),
{
    let mut i: usize = 0;
    while i < pids.len()
        invariant
            i <= pids@.len(),
            forall|j: int| 0 <= j < i ==> pids@[j] != pid,
        decreases pids@.len() - i,
    {
        if pids[i] == pid {
            return true;
        }
        i = i + 1;
    }
    false
}

// ─── Laws ───────────────────────────────────────────────────────

/// What is accumulated under a key adds up, up to 64 bits; a key that is new starts with the first
/// amount while there is room, and no other key is touched.
pub proof fn law_amounts_add_up<K: View>(s: Seq<(K, u64)>, max: u32, k: K, amount: u64, other: K::V)
    requires
        distinct_keys(s),
    ensures
        distinct_keys(accumulated(s, max, k, amount)),
        lookup(s, k@) matches Some(v) ==> v + amount <= u64::MAX ==> lookup(
            accumulated(s, max, k, amount),
            k@,
        ) == Some((v + amount) as u64),
        lookup(s, k@) is None && s.len() < max ==> lookup(accumulated(s, max, k, amount), k@)
            == Some(amount),
        lookup(s, k@) is None && s.len() >= max ==> lookup(accumulated(s, max, k, amount), k@)
            is None,
        other != k@ ==> lookup(accumulated(s, max, k, amount), other) == lookup(s, other),
{
    let v = match lookup(s, k@) {
        Some(v) => low_word(v + amount) as u64,
        None => amount,
    };
    law_put(s, k, v, k@);
    law_put(s, k, v, other);
    lemma_position(s, k@);
}

/// A task's bytes add up: those sent to those sent, those received to those received. The idle
/// task has none, and no other task's are touched.
pub proof fn law_bytes_add_up(s: Seq<(u32, PidNetBytes)>, pid: u32, tx: u64, rx: u64, other: u32)
    requires
        distinct_keys(s),
    ensures
        pid == 0 ==> net_after(s, pid, tx, rx) == s,
        other != pid ==> lookup(net_after(s, pid, tx, rx), other) == lookup(s, other),
        pid != 0 ==> (match lookup(s, pid) {
            Some(b) => b.tx_bytes + tx <= u64::MAX && b.rx_bytes + rx <= u64::MAX ==> (
            match lookup(net_after(s, pid, tx, rx), pid) {
                Some(a) => a.tx_bytes == b.tx_bytes + tx && a.rx_bytes == b.rx_bytes + rx,
                None => false,
            }),
            None => s.len() < MAX_PID_NET_ENTRIES ==> (match lookup(
                net_after(s, pid, tx, rx),
                pid,
            ) {
                Some(a) => a.tx_bytes == tx && a.rx_bytes == rx,
                None => false,
            }),
        }),
{
    let v = match lookup(s, pid) {
        Some(b) => PidNetBytes {
            tx_bytes: low_word(b.tx_bytes + tx) as u64,
            rx_bytes: low_word(b.rx_bytes + rx) as u64,
        },
        None => PidNetBytes { tx_bytes: tx, rx_bytes: rx },
    };
    law_put(s, pid, v, pid);
    law_put(s, pid, v, other);
    lemma_position(s, pid);
}

/// A task's counters are what they advanced by while it ran, between its start and its leaving;
/// what one task counts is never another's.
pub proof fn law_counters_add_up(
    s: Seq<((u32, u32), PidCpuCounters)>,
    state: TaskState,
    e: SwitchEvent,
    leaving: PidCpuCounters,
    starting: PidCpuCounters,
    other: (u32, u32),
)
    requires
        distinct_keys(s),
        e.counters == Some((leaving, starting)),
        state.sched.current_pid != 0,
        0 < state.sched.start_time_ns < e.now_ns,
        state.start.instructions <= leaving.instructions,
        state.start.cycles <= leaving.cycles,
        state.start.instructions < leaving.instructions || state.start.cycles < leaving.cycles,
        state.start.cache_misses <= leaving.cache_misses,
        s.len() < MAX_PID_HW_COUNTER_ENTRIES,
    ensures
        ({
            let k = (e.cpu, e.prev_pid);
            let before = match lookup(s, k) {
                Some(v) => v,
                None => PidCpuCounters { instructions: 0, cycles: 0, cache_misses: 0 },
            };
            &&& match lookup(counters_after(s, state, e), k) {
                Some(v) => {
                    &&& before.instructions + (leaving.instructions - state.start.instructions)
                        <= u64::MAX ==> v.instructions == before.instructions + (
                    leaving.instructions - state.start.instructions)
                    &&& before.cycles + (leaving.cycles - state.start.cycles) <= u64::MAX
                        ==> v.cycles == before.cycles + (leaving.cycles - state.start.cycles)
                    &&& before.cache_misses + (leaving.cache_misses - state.start.cache_misses)
                        <= u64::MAX ==> v.cache_misses == before.cache_misses + (
                    leaving.cache_misses - state.start.cache_misses)
                },
                None => false,
            }
            &&& other != k ==> lookup(counters_after(s, state, e), other) == lookup(s, other)
        }),
{
    let k = (e.cpu, e.prev_pid);
    let d = counter_advance(leaving, state.start);
    let v = match lookup(s, k) {
        Some(v) => counters_plus(v, d),
        None => d,
    };
    law_put(s, k, v, k);
    law_put(s, k, v, other);
    lemma_position(s, k);
}

/// Before the first switch, after the idle task, and without tracked counters nothing is counted.
pub proof fn law_nothing_to_count(
    s: Seq<((u32, u32), PidCpuCounters)>,
    state: TaskState,
    e: SwitchEvent,
)
    ensures
        state.sched.current_pid == 0 || state.sched.start_time_ns == 0 || e.now_ns
            <= state.sched.start_time_ns ==> run_time(state, e.now_ns) == 0 && counters_after(
            s,
            state,
            e,
        ) == s,
        e.counters is None ==> counters_after(s, state, e) == s && state_after(state, e).start
            == state.start,
        e.counters matches Some((leaving, _)) ==> leaving.instructions <= state.start.instructions
            && leaving.cycles <= state.start.cycles ==> counters_after(s, state, e) == s,
        e.counters matches Some((_, starting)) ==> state_after(state, e).start == starting,
        state_after(state, e).sched.current_pid == e.next_pid,
        state_after(state, e).sched.start_time_ns == e.now_ns,
{
}

/// What is drained is what was in the maps: each entry with its two keys and its amount.
pub proof fn law_drained_entries(
    s: Seq<((u32, u32), u64)>,
    b: Seq<(u32, PidNetBytes)>,
    c: Seq<((u32, u32), PidCpuCounters)>,
    i: int,
)
    ensures
        triples(s).len() == s.len(),
        byte_pairs(b).len() == b.len(),
        counter_triples(c).len() == c.len(),
        0 <= i < s.len() ==> (triples(s)[i].0, triples(s)[i].1) == s[i].0 && triples(s)[i].2
            == s[i].1,
        0 <= i < b.len() ==> byte_pairs(b)[i].0 == b[i].0 && byte_pairs(b)[i].1 == (
            b[i].1.tx_bytes,
            b[i].1.rx_bytes,
        ),
        0 <= i < c.len() ==> counter_triples(c)[i].0 == c[i].0 && counter_triples(c)[i].1 == (
            c[i].1.instructions,
            c[i].1.cycles,
            c[i].1.cache_misses,
        ),
{
}

/// What a map holds under a key, nothing where it has none.
pub open spec fn amount_at(s: Seq<((u32, u32), u64)>, k: (u32, u32)) -> int {
    match lookup(s, k) {
        Some(v) => v as int,
        None => 0,
    }
}

/// A switch adds the time since the task was put on the CPU to that of the outgoing task on that
/// CPU, and nothing to any other; the incoming task's cgroup is remembered.
pub proof fn law_switch_counts_time(
    s: Seq<((u32, u32), u64)>,
    cgroups: Seq<(u32, u64)>,
    state: TaskState,
    e: SwitchEvent,
    other: (u32, u32),
)
    requires
        distinct_keys(s),
        distinct_keys(cgroups),
        state.sched.current_pid != 0,
        0 < state.sched.start_time_ns <= e.now_ns,
        s.len() < MAX_PID_CPU_ENTRIES,
        cgroups.len() < MAX_PID_CGROUP_ENTRIES,
        amount_at(s, (e.cpu, e.prev_pid)) + (e.now_ns - state.sched.start_time_ns) <= u64::MAX,
    ensures
        amount_at(times_after(s, state, e), (e.cpu, e.prev_pid)) == amount_at(
            s,
            (e.cpu, e.prev_pid),
        ) + (e.now_ns - state.sched.start_time_ns),
        other != (e.cpu, e.prev_pid) ==> amount_at(times_after(s, state, e), other) == amount_at(
            s,
            other,
        ),
        e.next_pid != 0 ==> lookup(cgroups_after(cgroups, e), e.next_pid) == Some(e.cgroup_id),
        e.next_pid == 0 ==> cgroups_after(cgroups, e) == cgroups,
{
    let k = (e.cpu, e.prev_pid);
    law_amounts_add_up(s, MAX_PID_CPU_ENTRIES, k, run_time(state, e.now_ns), other);
    law_put(cgroups, e.next_pid, e.cgroup_id, e.next_pid);
}

/// A change of frequency adds the time since the last one to that of the frequency that the CPU
/// had, and nothing to any other. Where no frequency is known yet nothing is added.
pub proof fn law_change_counts_time(
    s: Seq<((u32, u32), u64)>,
    state: CpuFreqState,
    cpu: u32,
    now_ns: u64,
    other: (u32, u32),
)
    requires
        distinct_keys(s),
        s.len() < MAX_CPU_FREQ_ENTRIES,
        state.start_time_ns <= now_ns,
        amount_at(s, (cpu, state.current_freq_khz)) + (now_ns - state.start_time_ns) <= u64::MAX,
    ensures
        state.current_freq_khz != 0 && state.start_time_ns != 0 ==> amount_at(
            frequencies_after(s, state, cpu, now_ns),
            (cpu, state.current_freq_khz),
        ) == amount_at(s, (cpu, state.current_freq_khz)) + (now_ns - state.start_time_ns),
        state.current_freq_khz == 0 || state.start_time_ns == 0 ==> frequencies_after(
            s,
            state,
            cpu,
            now_ns,
        ) == s,
        other != (cpu, state.current_freq_khz) ==> amount_at(
            frequencies_after(s, state, cpu, now_ns),
            other,
        ) == amount_at(s, other),
{
    let k = (cpu, state.current_freq_khz);
    law_amounts_add_up(
        s,
        MAX_CPU_FREQ_ENTRIES,
        k,
        (now_ns - state.start_time_ns) as u64,
        other,
    );
}

} // verus!
