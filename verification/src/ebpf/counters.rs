//! Hardware counters of CPU cores: what they advanced by since they were last read.

use super::tracing::{counter_advance, excess, PidCpuCounters};
use super::ObserverError;
use crate::arith::{lemma_word_sum_bound, word_sum};
use crate::common::CoreCounters;
use crate::sums::sum_of;
use crate::text::{
    chars_of, decimal, is_digit, law_decimal_reads_back, law_split, number_of, parse_number, split,
    split_on, trim, trimmed, views,
};
use vstd::prelude::*;

verus! {

/// What the perf subsystem calls the counters of retired instructions, CPU cycles and cache
/// misses.
pub const PERF_COUNT_HW_CPU_CYCLES: u64 = 0;

pub const PERF_COUNT_HW_INSTRUCTIONS: u64 = 1;

pub const PERF_COUNT_HW_CACHE_MISSES: u64 = 3;

/// Per-core hardware counter deltas.
#[derive(Clone, Copy, Debug, PartialEq, Eq, Structural)]
pub struct CoreCounterDeltas {
    pub core_id: u32,
    pub instructions: u64,
    pub cycles: u64,
    pub cache_misses: u64,
}

/// What each core's counters were when they were last read.
#[derive(Debug)]
pub struct HwCounterReader {
    pub cores: Vec<u32>,
    pub prev: Vec<PidCpuCounters>,
}

/// What one core's counters advanced by.
pub open spec fn core_delta(core: u32, now: PidCpuCounters, prev: PidCpuCounters) -> CoreCounterDeltas {
    let d = counter_advance(now, prev);
    CoreCounterDeltas {
        core_id: core,
        instructions: d.instructions,
        cycles: d.cycles,
        cache_misses: d.cache_misses,
    }
}

/// The cache misses of all cores.
pub open spec fn all_misses(d: Seq<CoreCounterDeltas>) -> Seq<u64> {
    d.map_values(|x: CoreCounterDeltas| x.cache_misses)
}

impl HwCounterReader {
    /// One set of counters for each core.
    pub open spec fn well_formed(&self) -> bool {
        self.cores@.len() == self.prev@.len()
    }

    /// What the counters advanced by, core by core.
    pub open spec fn deltas(&self, now: Seq<PidCpuCounters>) -> Seq<CoreCounterDeltas> {
        Seq::new(self.cores@.len(), |i: int| core_delta(self.cores@[i], now[i], self.prev@[i]))
    }

    /// Counters of cores 0 up to `num_cores`, which start at nothing.
    pub fn new(num_cores: u32) -> (r: Self)
        ensures
            r.well_formed(),
            r.cores@ == Seq::new(num_cores as nat, |i: int| i as u32),
            forall|i: int|
                0 <= i < num_cores ==> #[trigger] r.prev@[i] == (PidCpuCounters {
                    instructions: 0,
                    cycles: 0,
                    cache_misses: 0,
                }),
    {
        let mut cores: Vec<u32> = Vec::new();
        let mut prev: Vec<PidCpuCounters> = Vec::new();
        let mut i: u32 = 0;
        while i < num_cores
            invariant
                i <= num_cores,
                cores@.len() == i,
                prev@.len() == i,
                forall|j: int| 0 <= j < i ==> #[trigger] cores@[j] == j,
                forall|j: int|
                    0 <= j < i ==> #[trigger] prev@[j] == (PidCpuCounters {
                        instructions: 0,
                        cycles: 0,
                        cache_misses: 0,
                    }),
            decreases num_cores - i,
        {
            cores.push(i);
            prev.push(PidCpuCounters { instructions: 0, cycles: 0, cache_misses: 0 });
            i = i + 1;
        }
        assert(cores@ =~= Seq::new(num_cores as nat, |i: int| i as u32));
        HwCounterReader { cores, prev }
    }

    /// Per-core counter deltas since the last read. `now` holds what was read of each core; a
    /// counter that could not be read counts as 0.
    pub fn read_deltas(&mut self, now: &Vec<PidCpuCounters>) -> (r: Vec<CoreCounterDeltas>)
        requires
            old(self).well_formed(),
            now@.len() == old(self).cores@.len(),
        ensures
            r@ == old(self).deltas(now@),
            final(self).prev@ == now@,
            final(self).cores@ == old(self).cores@,
            final(self).well_formed(),
    {
        let ghost all = self.deltas(now@);
        let ghost prev0 = self.prev@;
        let mut r: Vec<CoreCounterDeltas> = Vec::new();
        let mut i: usize = 0;
        while i < self.cores.len()
            invariant
                i <= self.cores@.len(),
                self.cores@ == old(self).cores@,
                prev0 == old(self).prev@,
                now@.len() == self.cores@.len(),
                self.prev@.len() == self.cores@.len(),
                prev0.len() == self.cores@.len(),
                all == old(self).deltas(now@),
                forall|j: int| 0 <= j < i ==> self.prev@[j] == now@[j],
                forall|j: int| i <= j < prev0.len() ==> self.prev@[j] == prev0[j],
                r@ == all.take(i as int),
            decreases self.cores@.len() - i,
        {
            let p: PidCpuCounters = self.prev[i];
            let n: PidCpuCounters = now[i];
            r.push(
                CoreCounterDeltas {
                    core_id: self.cores[i],
                    instructions: n.instructions.saturating_sub(p.instructions),
                    cycles: n.cycles.saturating_sub(p.cycles),
                    cache_misses: n.cache_misses.saturating_sub(p.cache_misses),
                },
            );
            self.prev.set(i, n);
            i = i + 1;
            assert(r@ =~= all.take(i as int));
        }
        assert(r@ =~= all);
        assert(self.prev@ =~= now@);
        r
    }

    /// Whether the total cache misses since the last read can be held.
    pub fn misses_in_range(&self, now: &Vec<PidCpuCounters>) -> (r: bool)
        requires
            self.well_formed(),
            now@.len() == self.cores@.len(),
        ensures
            r == (word_sum(all_misses(self.deltas(now@))) <= u64::MAX),
    {
        let ghost all = all_misses(self.deltas(now@));
        let mut sum: u64 = 0;
        let mut i: usize = 0;
        while i < self.cores.len()
            invariant
                i <= self.cores@.len(),
                self.well_formed(),
                now@.len() == self.cores@.len(),
                all == all_misses(self.deltas(now@)),
                sum == word_sum(all.take(i as int)),
            decreases self.cores@.len() - i,
        {
            assert(all.take(i + 1).drop_last() =~= all.take(i as int));
            proof {
                lemma_word_sum_take(all, i + 1);
            }
            match sum.checked_add(now[i].cache_misses.saturating_sub(self.prev[i].cache_misses)) {
                Some(n) => {
                    sum = n;
                },
                None => {
                    return false;
                },
            }
            i = i + 1;
        }
        assert(all.take(i as int) =~= all);
        true
    }

    /// Total cache misses across all cores since the last read.
    pub fn total_deltas(&mut self, now: &Vec<PidCpuCounters>) -> (r: u64)
        requires
            old(self).well_formed(),
            now@.len() == old(self).cores@.len(),
            word_sum(all_misses(old(self).deltas(now@))) <= u64::MAX,
        ensures
            r == word_sum(all_misses(old(self).deltas(now@))),
            final(self).prev@ == now@,
            final(self).cores@ == old(self).cores@,
            final(self).well_formed(),
    {
        let deltas: Vec<CoreCounterDeltas> = self.read_deltas(now);
        let ghost all = all_misses(deltas@);
        let mut sum: u64 = 0;
        let mut i: usize = 0;
        while i < deltas.len()
            invariant
                i <= deltas@.len(),
                all == all_misses(deltas@),
                word_sum(all) <= u64::MAX,
                sum == word_sum(all.take(i as int)),
            decreases deltas@.len() - i,
        {
            assert(all.take(i + 1).drop_last() =~= all.take(i as int));
            proof {
                lemma_word_sum_take(all, i + 1);
            }
            sum = sum + deltas[i].cache_misses;
            i = i + 1;
        }
        assert(all.take(i as int) =~= all);
        sum
    }
}

proof fn lemma_word_sum_take(s: Seq<u64>, n: int)
    requires
        0 <= n <= s.len(),
    ensures
        0 <= word_sum(s.take(n)) <= word_sum(s),
    decreases s.len(),
{
    if n == s.len() {
        assert(s.take(n) =~= s);
        lemma_word_sum_bound(s);
    } else {
        lemma_word_sum_take(s.drop_last(), n);
        assert(s.drop_last().take(n) =~= s.take(n));
    }
}

/// One core with its counters when they were last read.
#[derive(Clone, Copy, Debug, PartialEq, Eq, Structural)]
pub struct CorePerfGroup {
    pub cpu: u32,
    pub prev: CoreCounters,
}

/// Reads the counters of all cores for the attribution engine.
#[derive(Debug)]
pub struct PerfCounterReader {
    pub groups: Vec<CorePerfGroup>,
}

/// What one core's counters advanced by. Cache references are not counted.
pub open spec fn group_delta(now: CoreCounters, prev: CoreCounters) -> CoreCounters {
    CoreCounters {
        instructions: excess(now.instructions, prev.instructions),
        cycles: excess(now.cycles, prev.cycles),
        cache_misses: excess(now.cache_misses, prev.cache_misses),
        cache_refs: 0,
    }
}

/// The index of the first core from `from` on whose counters could not be read, or the number of
/// cores.
pub open spec fn first_unread(now: Seq<Option<CoreCounters>>, from: int) -> int
    decreases now.len() - from,
{
    if from < 0 || from >= now.len() {
        now.len() as int
    } else if now[from] is None {
        from
    } else {
        first_unread(now, from + 1)
    }
}

impl PerfCounterReader {
    /// What the cores remember once the first `n` were read.
    pub open spec fn groups_after(&self, now: Seq<Option<CoreCounters>>, n: int) -> Seq<
        CorePerfGroup,
    > {
        Seq::new(
            self.groups@.len(),
            |i: int|
                if i < n {
                    CorePerfGroup { cpu: self.groups@[i].cpu, prev: now[i]->0 }
                } else {
                    self.groups@[i]
                },
        )
    }

    /// Counters of cores 0 up to `num_cores`, which start at nothing.
    pub fn new(num_cores: u32) -> (r: Self)
        ensures
            r.groups@ == Seq::new(
                num_cores as nat,
                |i: int|
                    CorePerfGroup {
                        cpu: i as u32,
                        prev: CoreCounters {
                            instructions: 0,
                            cycles: 0,
                            cache_misses: 0,
                            cache_refs: 0,
                        },
                    },
            ),
    {
        let mut groups: Vec<CorePerfGroup> = Vec::new();
        let zero: CoreCounters = CoreCounters {
            instructions: 0,
            cycles: 0,
            cache_misses: 0,
            cache_refs: 0,
        };
        let mut i: u32 = 0;
        while i < num_cores
            invariant
                i <= num_cores,
                groups@.len() == i,
                forall|j: int|
                    0 <= j < i ==> #[trigger] groups@[j] == (CorePerfGroup {
                        cpu: j as u32,
                        prev: zero,
                    }),
            decreases num_cores - i,
        {
            groups.push(CorePerfGroup { cpu: i, prev: zero });
            i = i + 1;
        }
        assert(groups@ =~= Seq::new(
            num_cores as nat,
            |i: int| CorePerfGroup { cpu: i as u32, prev: zero },
        ));
        PerfCounterReader { groups }
    }

    /// Number of cores being monitored.
    pub fn num_cores(&self) -> (r: usize)
        ensures
            r == self.groups@.len(),
    {
        self.groups.len()
    }

    /// The counters of all cores as deltas since the last read. It stops at the first core whose
    /// counters could not be read.
    pub fn read_all_cores(&mut self, now: &Vec<Option<CoreCounters>>) -> (r: Result<
        Vec<(u32, CoreCounters)>,
        ObserverError,
    >)
        requires
            now@.len() == old(self).groups@.len(),
        ensures
            final(self).groups@ == old(self).groups_after(now@, first_unread(now@, 0)),
            match r {
                Ok(v) => first_unread(now@, 0) == now@.len() && v@ == Seq::new(
                    now@.len(),
                    |i: int|
                        (
                            old(self).groups@[i].cpu,
                            group_delta(now@[i]->0, old(self).groups@[i].prev),
                        ),
                ),
                Err(e) => first_unread(now@, 0) < now@.len() && e is PerfCounter,
            },
    {
        let ghost before = *self;
        let ghost all = Seq::new(
            now@.len(),
            |i: int|
                (before.groups@[i].cpu, group_delta(now@[i]->0, before.groups@[i].prev)),
        );
        let mut r: Vec<(u32, CoreCounters)> = Vec::new();
        let mut i: usize = 0;
        assert(self.groups@ =~= before.groups_after(now@, 0));
        while i < self.groups.len()
            invariant
                i <= now@.len(),
                now@.len() == before.groups@.len(),
                self.groups@.len() == now@.len(),
                before == *old(self),
                first_unread(now@, 0) == first_unread(now@, i as int),
                self.groups@ =~= before.groups_after(now@, i as int),
                all == Seq::new(
                    now@.len(),
                    |i: int|
                        (before.groups@[i].cpu, group_delta(now@[i]->0, before.groups@[i].prev)),
                ),
                r@ == all.take(i as int),
            decreases now@.len() - i,
        {
            match now[i] {
                None => {
                    return Err(
                        ObserverError::PerfCounter("counter could not be read".to_owned()),
                    );
                },
                Some(current) => {
                    let group: CorePerfGroup = self.groups[i];
                    let p: CoreCounters = group.prev;
                    r.push(
                        (
                            group.cpu,
                            CoreCounters {
                                instructions: current.instructions.saturating_sub(p.instructions),
                                cycles: current.cycles.saturating_sub(p.cycles),
                                cache_misses: current.cache_misses.saturating_sub(p.cache_misses),
                                cache_refs: 0,
                            },
                        ),
                    );
                    self.groups.set(i, CorePerfGroup { cpu: group.cpu, prev: current });
                    assert(r@ =~= all.take(i + 1));
                },
            }
            i = i + 1;
        }
        assert(r@ =~= all);
        Ok(r)
    }
}

// ─── CPUs ───────────────────────────────────────────────────────

/// What one entry of a CPU list counts: one for a single CPU, all of a range. An entry that is
/// neither, or a range whose ends are no numbers, counts nothing.
pub open spec fn entry_count(entry: Seq<char>) -> Option<int> {
    let parts = split_on(entry, '-');
    if parts.len() == 1 {
        Some(1)
    } else if parts.len() == 2 {
        match (number_of(parts[0], usize::MAX as int), number_of(parts[1], usize::MAX as int)) {
            (Some(start), Some(end)) => Some(end - start + 1),
            _ => None,
        }
    } else {
        None
    }
}

/// What the first `n` entries of a CPU list count.
pub open spec fn list_count(entries: Seq<Seq<char>>, n: int) -> Option<int>
    decreases n,
{
    if n <= 0 {
        Some(0)
    } else {
        match (list_count(entries, n - 1), entry_count(entries[n - 1])) {
            (Some(a), Some(b)) => Some(a + b),
            _ => None,
        }
    }
}

/// Whether no range runs backwards, and the count can be held.
pub open spec fn countable(entries: Seq<Seq<char>>) -> bool {
    &&& forall|i: int|
        0 <= i < entries.len() && entry_count(#[trigger] entries[i]) is Some ==> entry_count(
            entries[i],
        )->0 >= 1
    &&& forall|n: int|
        0 <= n <= entries.len() && #[trigger] list_count(entries, n) is Some ==> list_count(
            entries,
            n,
        )->0 <= usize::MAX
}

/// What one entry of a CPU list counts, if it counts anything: what it adds, and whether it can be
/// added.
fn count_entry(entry: &Vec<char>) -> (r: Option<(u64, bool)>)
    ensures
        match r {
            Some((n, forward)) => entry_count(entry@) is Some && forward == (entry_count(entry@)->0
                >= 1) && (forward ==> n == entry_count(entry@)->0 - 1),
            None => entry_count(entry@) is None,
        },
{
    let parts: Vec<Vec<char>> = split(entry, '-');
    assert(views(parts@).len() == parts@.len());
    if parts.len() == 1 {
        return Some((0, true));
    }
    if parts.len() != 2 {
        return None;
    }
    assert(views(parts@)[0] == parts@[0]@);
    assert(views(parts@)[1] == parts@[1]@);
    let start: Option<u64> = parse_number(&parts[0], usize::MAX as u64);
    let end: Option<u64> = parse_number(&parts[1], usize::MAX as u64);
    match (start, end) {
        (Some(a), Some(b)) => if b >= a {
            Some((b - a, true))
        } else {
            Some((0, false))
        },
        _ => None,
    }
}

/// Whether the CPUs in a list can be counted.
pub fn cpus_in_range(list: &str) -> (r: bool)
    ensures
        r == countable(split_on(trimmed(list@), ',')),
{
    let entries: Vec<Vec<char>> = split(&trim(&chars_of(list)), ',');
    let ghost all = split_on(trimmed(list@), ',');
    let mut count: Option<u128> = Some(0);
    let mut i: usize = 0;
    assert(views(entries@).len() == entries@.len());
    while i < entries.len()
        invariant
            i <= entries@.len() == all.len(),
            views(entries@) == all,
            all == split_on(trimmed(list@), ','),
            list_count(all, i as int) == match count {
                Some(n) => Some(n as int),
                None => None,
            },
            count is Some ==> count->0 <= usize::MAX,
            forall|j: int|
                0 <= j < i && entry_count(#[trigger] all[j]) is Some ==> entry_count(all[j])->0
                    >= 1,
            forall|n: int|
                0 <= n <= i && #[trigger] list_count(all, n) is Some ==> list_count(all, n)->0
                    <= usize::MAX,
        decreases entries@.len() - i,
    {
        assert(all[i as int] == entries@[i as int]@);
        match count_entry(&entries[i]) {
            Some((n, forward)) => {
                if !forward {
                    assert(entry_count(all[i as int]) is Some);
                    return false;
                }
                if let Some(c) = count {
                    let next: u128 = c + n as u128 + 1;
                    assert(list_count(all, i + 1) == Some(next as int));
                    if next > usize::MAX as u128 {
                        return false;
                    }
                    count = Some(next);
                }
            },
            None => {
                count = None;
            },
        }
        i = i + 1;
    }
    true
}

/// Counts the CPUs in a list such as `0-7,16-23`.
pub fn num_online_cpus(list: &str) -> (r: Result<usize, ObserverError>)
    requires
        countable(split_on(trimmed(list@), ',')),
    ensures
        ({
            let entries = split_on(trimmed(list@), ',');
            match r {
                Ok(n) => list_count(entries, entries.len() as int) == Some(n as int),
                Err(e) => list_count(entries, entries.len() as int) is None && e is PerfCounter,
            }
        }),
{
    let entries: Vec<Vec<char>> = split(&trim(&chars_of(list)), ',');
    let ghost all = split_on(trimmed(list@), ',');
    let mut count: usize = 0;
    let mut i: usize = 0;
    while i < entries.len()
        invariant
            i <= entries@.len(),
            views(entries@) == all,
            all == split_on(trimmed(list@), ','),
            countable(all),
            list_count(all, i as int) == Some(count as int),
        decreases entries@.len() - i,
    {
        assert(all[i as int] == entries@[i as int]@);
        assert(entry_count(all[i as int]) is Some ==> list_count(all, i + 1) is Some);
        let parts: Vec<Vec<char>> = split(&entries[i], '-');
        assert(views(parts@).len() == parts@.len());
        if parts.len() == 1 {
            count = count + 1;
        } else if parts.len() == 2 {
            let start: Option<u64> = parse_number(&parts[0], usize::MAX as u64);
            let end: Option<u64> = parse_number(&parts[1], usize::MAX as u64);
            match (start, end) {
                (Some(a), Some(b)) => {
                    count = count + ((b - a) as usize + 1);
                },
                _ => {
                    proof {
                        lemma_list_fails(all, i + 1, all.len() as int);
                    }
                    return Err(ObserverError::PerfCounter("bad cpu range".to_owned()));
                },
            }
        } else {
            proof {
                lemma_list_fails(all, i + 1, all.len() as int);
            }
            return Err(ObserverError::PerfCounter("bad cpu format".to_owned()));
        }
        i = i + 1;
    }
    Ok(count)
}

proof fn lemma_list_fails(entries: Seq<Seq<char>>, n: int, m: int)
    requires
        0 <= n <= m,
        list_count(entries, n) is None,
    ensures
        list_count(entries, m) is None,
    decreases m - n,
{
    if n < m {
        lemma_list_fails(entries, n, m - 1);
    }
}

// ─── Laws ───────────────────────────────────────────────────────

/// A counter that ran on advanced by the difference, and one that started anew by nothing; over
/// two readings in a row the advances add up.
pub proof fn law_advances(a: PidCpuCounters, b: PidCpuCounters, c: PidCpuCounters, core: u32)
    requires
        a.instructions <= b.instructions <= c.instructions,
        a.cycles <= b.cycles <= c.cycles,
        a.cache_misses <= b.cache_misses <= c.cache_misses,
    ensures
        core_delta(core, b, a).core_id == core,
        core_delta(core, b, a).instructions == b.instructions - a.instructions,
        core_delta(core, b, a).cycles == b.cycles - a.cycles,
        core_delta(core, b, a).cache_misses == b.cache_misses - a.cache_misses,
        core_delta(core, b, a).instructions + core_delta(core, c, b).instructions == core_delta(
            core,
            c,
            a,
        ).instructions,
        core_delta(core, a, b).instructions == 0,
        core_delta(core, a, b).cycles == 0,
        core_delta(core, a, b).cache_misses == 0,
{
}

/// A core's counters advanced by the difference to what was read last, each by its own.
pub proof fn law_core_advances(now: CoreCounters, prev: CoreCounters)
    ensures
        prev.instructions <= now.instructions ==> group_delta(now, prev).instructions
            == now.instructions - prev.instructions,
        prev.cycles <= now.cycles ==> group_delta(now, prev).cycles == now.cycles - prev.cycles,
        prev.cache_misses <= now.cache_misses ==> group_delta(now, prev).cache_misses
            == now.cache_misses - prev.cache_misses,
        now.instructions <= prev.instructions ==> group_delta(now, prev).instructions == 0,
        now.cycles <= prev.cycles ==> group_delta(now, prev).cycles == 0,
        now.cache_misses <= prev.cache_misses ==> group_delta(now, prev).cache_misses == 0,
        group_delta(now, prev).cache_refs == 0,
{
}

/// Reading stops at the first core that could not be read: those before it are remembered as they
/// were read, and the others as they were.
pub proof fn law_reading_stops(r: PerfCounterReader, now: Seq<Option<CoreCounters>>, i: int)
    requires
        now.len() == r.groups@.len(),
        0 <= i < now.len(),
    ensures
        ({
            let n = first_unread(now, 0);
            let after = r.groups_after(now, n);
            &&& 0 <= n <= now.len()
            &&& n < now.len() ==> now[n] is None
            &&& i < n ==> now[i] is Some && after[i].prev == now[i]->0 && after[i].cpu
                == r.groups@[i].cpu
            &&& i >= n ==> after[i] == r.groups@[i]
        }),
{
    lemma_first_unread(now, 0);
}

proof fn lemma_first_unread(now: Seq<Option<CoreCounters>>, from: int)
    requires
        0 <= from <= now.len(),
    ensures
        from <= first_unread(now, from) <= now.len(),
        first_unread(now, from) < now.len() ==> now[first_unread(now, from)] is None,
        forall|i: int| from <= i < first_unread(now, from) ==> (#[trigger] now[i]) is Some,
    decreases now.len() - from,
{
    if from < now.len() && now[from] is Some {
        lemma_first_unread(now, from + 1);
    }
}

/// A number alone counts for one CPU, and a range for all from its first to its last.
pub proof fn law_cpu_range(a: int, b: int)
    requires
        0 <= a <= b <= usize::MAX,
    ensures
        entry_count(decimal(a)) == Some(1int),
        entry_count(decimal(a).push('-') + decimal(b)) == Some(b - a + 1),
{
    let x = decimal(a);
    let y = decimal(b);
    law_decimal_reads_back(a, usize::MAX as int);
    law_decimal_reads_back(b, usize::MAX as int);
    assert(!x.contains('-')) by {
        if x.contains('-') {
            assert(is_digit(x[x.index_of('-')]));
        }
    }
    assert(!y.contains('-')) by {
        if y.contains('-') {
            assert(is_digit(y[y.index_of('-')]));
        }
    }
    law_split(x, '-', y);
    law_split(y, '-', y);
    assert(split_on(x.push('-') + y, '-') =~= seq![x, y]);
}

/// A list counts for what its entries count for together.
pub proof fn law_cpu_list(entries: Seq<Seq<char>>, n: int)
    requires
        0 <= n <= entries.len(),
        forall|i: int| 0 <= i < n ==> entry_count(#[trigger] entries[i]) is Some,
    ensures
        list_count(entries, n) == Some(
            sum_of(entries.take(n), |e: Seq<char>| entry_count(e)->0),
        ),
    decreases n,
{
    if n > 0 {
        law_cpu_list(entries, n - 1);
        assert(entry_count(entries[n - 1]) is Some);
        assert(entries.take(n).drop_last() =~= entries.take(n - 1));
        assert(entries.take(n).last() == entries[n - 1]);
    } else {
        assert(entries.take(0) =~= Seq::empty());
    }
}

/// Each core tells by how much its own counters advanced since they were read last.
pub proof fn law_each_core(r: HwCounterReader, now: Seq<PidCpuCounters>, i: int)
    requires
        0 <= i < r.cores@.len(),
        now[i].instructions >= r.prev@[i].instructions,
        now[i].cycles >= r.prev@[i].cycles,
        now[i].cache_misses >= r.prev@[i].cache_misses,
    ensures
        r.deltas(now).len() == r.cores@.len(),
        r.deltas(now)[i].core_id == r.cores@[i],
        r.deltas(now)[i].instructions + r.prev@[i].instructions == now[i].instructions,
        r.deltas(now)[i].cycles + r.prev@[i].cycles == now[i].cycles,
        r.deltas(now)[i].cache_misses + r.prev@[i].cache_misses == now[i].cache_misses,
{
}

} // verus!
