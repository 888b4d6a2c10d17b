//! Tiered polling of power sources, with heartbeat reconciliation.
//!
//! Sources are polled in tiers by how fast they answer. At every heartbeat all of them are read
//! together, and the platform's reading is held against the sum of the components.

use super::source::{Component, Granularity, PowerReading, PowerSource};
use crate::arith::{divide_up, energy_to_power, low_word, power_of, ratio_up};
use crate::attribution::engine::EnergyInput;
use crate::sums::{lemma_sum_push, sum_of};
use crate::tally::{lemma_used, mentions, natural_amounts, used, used_by};
use vstd::prelude::*;

verus! {

/// Configuration for the hardware collector. All intervals are in nanoseconds.
#[derive(Clone, Copy, Debug, PartialEq, Eq, Structural)]
pub struct CollectorConfig {
    /// Fast tier interval (RAPL, cpufreq)
    pub fast_interval: u64,
    /// Medium tier interval (GPU)
    pub medium_interval: u64,
    /// Slow tier interval (Redfish, IPMI)
    pub slow_interval: u64,
    /// Heartbeat: all sources read together for reconciliation
    pub heartbeat_interval: u64,
}

impl Default for CollectorConfig {
    fn default() -> (r: Self)
        ensures
            r == (CollectorConfig {
                fast_interval: 100_000_000,
                medium_interval: 500_000_000,
                slow_interval: 3_000_000_000,
                heartbeat_interval: 5_000_000_000,
            }),
    {
        CollectorConfig {
            fast_interval: 100_000_000,
            medium_interval: 500_000_000,
            slow_interval: 3_000_000_000,
            heartbeat_interval: 5_000_000_000,
        }
    }
}

/// Polling tier of a source.
#[derive(Clone, Copy, Debug, PartialEq, Eq, Structural)]
pub enum Tier {
    Fast,
    Medium,
    Slow,
}

/// The fastest tier whose interval is no shorter than a source's own.
pub open spec fn tier_of(interval: u64, config: CollectorConfig) -> Tier {
    if interval <= config.fast_interval {
        Tier::Fast
    } else if interval <= config.medium_interval {
        Tier::Medium
    } else {
        Tier::Slow
    }
}

/// Assigns a source to a polling tier based on its default interval.
pub fn classify_tier(interval: u64, config: &CollectorConfig) -> (r: Tier)
    ensures
        r == tier_of(interval, *config),
{
    if interval <= config.fast_interval {
        Tier::Fast
    } else if interval <= config.medium_interval {
        Tier::Medium
    } else {
        Tier::Slow
    }
}

/// A registered source with its tier and its last two readings.
#[derive(Debug)]
pub struct RegisteredSource<S> {
    pub source: S,
    pub tier: Tier,
    pub last_reading: Option<PowerReading>,
    pub prev_reading: Option<PowerReading>,
}

/// Component sum against platform measurement.
#[derive(Debug)]
pub struct Reconciliation {
    /// Platform (PSU) measured power in microwatts
    pub platform_uw: Option<u64>,
    /// Sum of all component power readings in microwatts
    pub component_sum_uw: u64,
    /// Per-component power breakdown in microwatts
    pub per_component: Vec<(Component, u64)>,
    /// Unaccounted: platform - component_sum (positive = underreporting)
    pub unaccounted_uw: i64,
    /// Error ratio |unaccounted| / platform, in units of 10⁻¹⁸, rounded up
    pub error_ratio_atto: u128,
    /// When the reconciliation was made: nanoseconds on a monotonic clock
    pub timestamp_ns: u64,
}

// ─── Deltas ─────────────────────────────────────────────────────

/// What a counter with the given maximum advanced by. A counter that fell has wrapped around, or
/// was reset if its maximum is not known.
pub open spec fn counter_delta(prev: int, curr: int, max: int) -> int {
    if curr >= prev {
        curr - prev
    } else if max > 0 {
        (max - prev) + curr
    } else {
        curr
    }
}

/// Whether a counter keeps to its maximum: one that wrapped around had not exceeded it.
pub open spec fn keeps_to_max(prev: int, curr: int, max: int) -> bool {
    curr < prev && max > 0 ==> prev <= max
}

/// What a counter advanced by.
pub fn advance(prev: u64, curr: u64, max: u64) -> (r: u64)
    requires
        keeps_to_max(prev as int, curr as int, max as int),
    ensures
        r == counter_delta(prev as int, curr as int, max as int),
{
    if curr >= prev {
        curr - prev
    } else if max > 0 {
        (max - prev) + curr
    } else {
        curr
    }
}

/// The time from one reading to the next; none if the clock ran backwards.
pub open spec fn elapsed(current: PowerReading, previous: PowerReading) -> int {
    if current.timestamp_ns > previous.timestamp_ns {
        current.timestamp_ns - previous.timestamp_ns
    } else {
        0
    }
}

/// The energy between two readings: by the counter, or power by time where there is no counter.
pub open spec fn energy_delta(current: PowerReading, previous: PowerReading) -> int {
    match (current.energy_uj, previous.energy_uj) {
        (Some(curr), Some(prev)) => counter_delta(
            prev as int,
            curr as int,
            current.max_energy_uj as int,
        ),
        (None, None) => match (current.power_uw, previous.power_uw) {
            (Some(curr), Some(_)) => low_word(
                curr * elapsed(current, previous) / 1_000_000_000,
            ),
            _ => 0,
        },
        _ => 0,
    }
}

/// Whether the energy between two readings is defined.
pub open spec fn has_delta(current: PowerReading, previous: PowerReading) -> bool {
    current.energy_uj is Some && previous.energy_uj is Some ==> keeps_to_max(
        previous.energy_uj->0 as int,
        current.energy_uj->0 as int,
        current.max_energy_uj as int,
    )
}

/// Computes energy delta between two readings, handling wraparound.
pub fn compute_energy_delta(current: &PowerReading, previous: &PowerReading) -> (r: u64)
    requires
        has_delta(*current, *previous),
    ensures
        r == energy_delta(*current, *previous),
{
    match (current.energy_uj, previous.energy_uj) {
        (Some(curr), Some(prev)) => advance(prev, curr, current.max_energy_uj),
        (None, None) => match (current.power_uw, previous.power_uw) {
            (Some(curr), Some(_)) => {
                let time: u64 = current.timestamp_ns.saturating_sub(previous.timestamp_ns);
                assert(0 <= curr * time <= 0xffff_ffff_ffff_ffff * 0xffff_ffff_ffff_ffff)
                    by (nonlinear_arith)
                    requires
                        0 <= curr <= 0xffff_ffff_ffff_ffff,
                        0 <= time <= 0xffff_ffff_ffff_ffff,
                ;
                let energy: u128 = curr as u128 * time as u128 / 1_000_000_000;
                (energy % 0x1_0000_0000_0000_0000) as u64
            },
            _ => 0,
        },
        _ => 0,
    }
}

impl<S> RegisteredSource<S> {
    /// The energy between the last two readings, if there are two.
    pub open spec fn delta(self) -> int {
        match (self.last_reading, self.prev_reading) {
            (Some(curr), Some(prev)) => energy_delta(curr, prev),
            _ => 0,
        }
    }

    /// Whether that energy is defined.
    pub open spec fn sane(self) -> bool {
        match (self.last_reading, self.prev_reading) {
            (Some(curr), Some(prev)) => has_delta(curr, prev),
            _ => true,
        }
    }

    /// The source with one more reading.
    pub open spec fn rotated(self, reading: Option<PowerReading>) -> RegisteredSource<S> {
        match reading {
            Some(_) => RegisteredSource {
                source: self.source,
                tier: self.tier,
                last_reading: reading,
                prev_reading: self.last_reading,
            },
            None => self,
        }
    }

    /// The power that the last readings tell, if they tell any: as it was read, or by the energy
    /// between the last two.
    pub open spec fn power(self) -> Option<int> {
        match self.last_reading {
            Some(curr) => match curr.power_uw {
                Some(p) => Some(p as int),
                None => match self.prev_reading {
                    Some(prev) => Some(
                        low_word(power_of(energy_delta(curr, prev), elapsed(curr, prev))),
                    ),
                    None => None,
                },
            },
            None => None,
        }
    }

    fn read_delta(&self) -> (r: u64)
        requires
            self.sane(),
        ensures
            r == self.delta(),
    {
        match (&self.last_reading, &self.prev_reading) {
            (Some(curr), Some(prev)) => compute_energy_delta(curr, prev),
            _ => 0,
        }
    }

    fn read_power(&self) -> (r: Option<u64>)
        requires
            self.sane(),
        ensures
            self.power() == match r {
                Some(p) => Some(p as int),
                None => None,
            },
    {
        match &self.last_reading {
            Some(curr) => match curr.power_uw {
                Some(p) => Some(p),
                None => match &self.prev_reading {
                    Some(prev) => {
                        let delta: u64 = compute_energy_delta(curr, prev);
                        let time: u64 = curr.timestamp_ns.saturating_sub(prev.timestamp_ns);
                        Some(energy_to_power(delta, time))
                    },
                    None => None,
                },
            },
            None => None,
        }
    }
}

// ─── Energy of an interval ──────────────────────────────────────

/// The energy that the last of the first `n` sources with any tells for one component of one
/// socket.
pub open spec fn socket_uj<S>(
    sources: Seq<RegisteredSource<S>>,
    component: Component,
    socket: int,
    n: int,
) -> int
    decreases n,
{
    if n <= 0 {
        0
    } else {
        let s = sources[n - 1];
        match (s.last_reading, s.delta() != 0) {
            (Some(r), true) => if r.component == component && r.granularity == Granularity::Socket(
                socket as u8,
            ) {
                s.delta()
            } else {
                socket_uj(sources, component, socket, n - 1)
            },
            _ => socket_uj(sources, component, socket, n - 1),
        }
    }
}

/// The energies of the GPUs among the first `n` sources that used any.
pub open spec fn gpu_uj<S>(sources: Seq<RegisteredSource<S>>, n: int) -> Seq<u64>
    decreases n,
{
    if n <= 0 {
        Seq::empty()
    } else {
        let s = sources[n - 1];
        match (s.last_reading, s.delta() != 0) {
            (Some(r), true) => if r.component == Component::Gpu {
                gpu_uj(sources, n - 1).push(s.delta() as u64)
            } else {
                gpu_uj(sources, n - 1)
            },
            _ => gpu_uj(sources, n - 1),
        }
    }
}

/// The energy of the platform, by the last of the first `n` sources that tells any.
pub open spec fn platform_uj<S>(sources: Seq<RegisteredSource<S>>, n: int) -> Option<u64>
    decreases n,
{
    if n <= 0 {
        None
    } else {
        let s = sources[n - 1];
        match (s.last_reading, s.delta() != 0) {
            (Some(r), true) => if r.component == Component::Platform {
                Some(s.delta() as u64)
            } else {
                platform_uj(sources, n - 1)
            },
            _ => platform_uj(sources, n - 1),
        }
    }
}

// ─── Reconciliation ─────────────────────────────────────────────

/// What each of the first `n` sources adds to its component's power.
pub open spec fn component_powers<S>(sources: Seq<RegisteredSource<S>>, n: int) -> Seq<
    (Component, int),
>
    decreases n,
{
    if n <= 0 {
        Seq::empty()
    } else {
        let s = sources[n - 1];
        let before = component_powers(sources, n - 1);
        match s.power() {
            Some(p) => if s.last_reading->0.component == Component::Platform {
                before
            } else {
                before.push((s.last_reading->0.component, p))
            },
            None => before,
        }
    }
}

/// The power of the platform, by the last of the first `n` sources that tells it.
pub open spec fn platform_power<S>(sources: Seq<RegisteredSource<S>>, n: int) -> Option<int>
    decreases n,
{
    if n <= 0 {
        None
    } else {
        let s = sources[n - 1];
        match s.power() {
            Some(p) => if s.last_reading->0.component == Component::Platform {
                Some(p)
            } else {
                platform_power(sources, n - 1)
            },
            None => platform_power(sources, n - 1),
        }
    }
}

/// Whether the sums of a reconciliation can be held.
pub open spec fn reconcilable<S>(sources: Seq<RegisteredSource<S>>) -> bool {
    let n = sources.len() as int;
    &&& forall|i: int| 0 <= i < n ==> (#[trigger] sources[i]).sane()
    &&& match platform_power(sources, n) {
        Some(p) => p <= i64::MAX && used(component_powers(sources, n)) <= i64::MAX,
        None => used(component_powers(sources, n)) <= u64::MAX,
    }
}

/// The entry of a component.
pub open spec fn component_entry(v: Seq<(Component, u64)>, c: Component) -> Option<u64>
    decreases v.len(),
{
    if v.len() == 0 {
        None
    } else if v.last().0 == c {
        Some(v.last().1)
    } else {
        component_entry(v.drop_last(), c)
    }
}

/// Whether each component has one entry at most.
pub open spec fn one_entry_each(v: Seq<(Component, u64)>) -> bool {
    forall|i: int, j: int| 0 <= i < j < v.len() ==> (#[trigger] v[i]).0 != (#[trigger] v[j]).0
}

/// The reconciliation of the sources' last readings.
pub open spec fn is_reconciliation<S>(
    r: Reconciliation,
    sources: Seq<RegisteredSource<S>>,
    now_ns: u64,
) -> bool {
    let n = sources.len() as int;
    let list = component_powers(sources, n);
    let platform = platform_power(sources, n);
    &&& r.timestamp_ns == now_ns
    &&& r.platform_uw == match platform {
        Some(p) => Some(p as u64),
        None => None,
    }
    &&& r.component_sum_uw == used(list)
    &&& one_entry_each(r.per_component@)
    &&& forall|c: Component| #[trigger]
        component_entry(r.per_component@, c) == if mentions(list, c) {
            Some(used_by(list, c) as u64)
        } else {
            None
        }
    &&& r.unaccounted_uw == match platform {
        Some(p) => p - used(list),
        None => 0,
    }
    &&& r.error_ratio_atto == match platform {
        Some(p) => if p > 0 {
            let u = p - used(list);
            ratio_up(
                if u < 0 {
                    -u
                } else {
                    u
                },
                p,
            )
        } else {
            0
        },
        None => 0,
    }
}

/// Adds to the entry of a component.
fn add_power(v: &mut Vec<(Component, u64)>, c: Component, p: u64)
    requires
        match component_entry(old(v)@, c) {
            Some(x) => x + p <= u64::MAX,
            None => true,
        },
        one_entry_each(old(v)@),
    ensures
        one_entry_each(final(v)@),
        forall|d: Component| #[trigger]
            component_entry(final(v)@, d) == if d == c {
                match component_entry(old(v)@, c) {
                    Some(x) => Some((x + p) as u64),
                    None => Some(p),
                }
            } else {
                component_entry(old(v)@, d)
            },
{
    let ghost s = v@;
    let mut i: usize = v.len();
    assert(s.take(i as int) =~= s);
    while i > 0
        invariant
            i <= s.len(),
            v@ == s,
            s == old(v)@,
            one_entry_each(s),
            component_entry(s, c) == component_entry(s.take(i as int), c),
            forall|j: int| i <= j < s.len() ==> (#[trigger] s[j]).0 != c,
            match component_entry(s, c) {
                Some(x) => x + p <= u64::MAX,
                None => true,
            },
        decreases i,
    {
        i = i - 1;
        assert(s.take(i + 1).drop_last() =~= s.take(i as int));
        if v[i].0 == c {
            let x: u64 = v[i].1;
            v[i].1 = x + p;
            proof {
                assert(v@ =~= s.update(i as int, (c, (x + p) as u64)));
                assert forall|a: int, b: int| 0 <= a < b < v@.len() implies (#[trigger] v@[a]).0
                    != (#[trigger] v@[b]).0 by {
                    assert(v@[a].0 == s[a].0 && v@[b].0 == s[b].0);
                }
                assert forall|d: Component| #[trigger] component_entry(v@, d) == if d == c {
                    Some((x + p) as u64)
                } else {
                    component_entry(s, d)
                } by {
                    lemma_entry_update(s, i as int, (x + p) as u64, d);
                }
            }
            return ;
        }
    }
    v.push((c, p));
    proof {
        assert forall|d: Component| #[trigger] component_entry(v@, d) == if d == c {
            Some(p)
        } else {
            component_entry(s, d)
        } by {
            assert(v@.drop_last() =~= s);
        }
    }
}

proof fn lemma_entry_update(s: Seq<(Component, u64)>, i: int, x: u64, d: Component)
    requires
        0 <= i < s.len(),
        forall|j: int| i < j < s.len() ==> (#[trigger] s[j]).0 != s[i].0,
    ensures
        component_entry(s.update(i, (s[i].0, x)), d) == if d == s[i].0 {
            Some(x)
        } else {
            component_entry(s, d)
        },
    decreases s.len(),
{
    let t = s.update(i, (s[i].0, x));
    if i == s.len() - 1 {
        assert(t.drop_last() =~= s.drop_last());
    } else {
        assert(t.drop_last() =~= s.drop_last().update(i, (s[i].0, x)));
        assert(s[s.len() - 1].0 != s[i].0);
        assert forall|j: int| i < j < s.drop_last().len() implies (#[trigger] s.drop_last()[j]).0
            != s.drop_last()[i].0 by {
            assert(s.drop_last()[j] == s[j]);
        }
        lemma_entry_update(s.drop_last(), i, x, d);
    }
}

proof fn lemma_powers_natural<S>(sources: Seq<RegisteredSource<S>>, n: int)
    requires
        0 <= n <= sources.len(),
        forall|i: int| 0 <= i < sources.len() ==> (#[trigger] sources[i]).sane(),
    ensures
        natural_amounts(component_powers(sources, n)),
    decreases n,
{
    if n > 0 {
        lemma_powers_natural(sources, n - 1);
        let before = component_powers(sources, n - 1);
        let list = component_powers(sources, n);
        assert(sources[n - 1].power() is Some ==> sources[n - 1].power()->0 >= 0);
        assert forall|i: int| 0 <= i < list.len() implies 0 <= (#[trigger] list[i]).1 by {
            if i < before.len() {
                assert(list[i] == before[i]);
            }
        }
    }
}

/// The sums of some of the sources never exceed those of all of them.
proof fn lemma_powers_grow<S>(sources: Seq<RegisteredSource<S>>, n: int)
    requires
        0 <= n <= sources.len(),
        forall|i: int| 0 <= i < sources.len() ==> (#[trigger] sources[i]).sane(),
    ensures
        used(component_powers(sources, n)) <= used(
            component_powers(sources, sources.len() as int),
        ),
    decreases sources.len() - n,
{
    if n < sources.len() {
        lemma_powers_grow(sources, n + 1);
        let before = component_powers(sources, n);
        let list = component_powers(sources, n + 1);
        assert(sources[n].power() is Some ==> sources[n].power()->0 >= 0);
        if list.len() > before.len() {
            assert(list.drop_last() =~= before);
        }
    }
}

/// Holds the platform's last reading against the sum of the components'.
pub fn reconcile<S>(sources: &Vec<RegisteredSource<S>>, now_ns: u64) -> (r: Reconciliation)
    requires
        reconcilable(sources@),
    ensures
        is_reconciliation(r, sources@, now_ns),
{
    let ghost n = sources@.len() as int;
    let mut per_component: Vec<(Component, u64)> = Vec::new();
    let mut platform_uw: Option<u64> = None;
    let mut component_sum: u64 = 0;
    let mut i: usize = 0;
    while i < sources.len()
        invariant
            i <= sources@.len() == n,
            reconcilable(sources@),
            platform_power(sources@, i as int) == match platform_uw {
                Some(p) => Some(p as int),
                None => None,
            },
            component_sum == used(component_powers(sources@, i as int)),
            one_entry_each(per_component@),
            forall|c: Component| #[trigger]
                component_entry(per_component@, c) == if mentions(
                    component_powers(sources@, i as int),
                    c,
                ) {
                    Some(used_by(component_powers(sources@, i as int), c) as u64)
                } else {
                    None
                },
        decreases sources@.len() - i,
    {
        let ghost before = component_powers(sources@, i as int);
        let ghost after = component_powers(sources@, i + 1);
        let ghost entries = per_component@;
        assert(sources@[i as int].sane());
        proof {
            lemma_powers_natural(sources@, i + 1);
            lemma_powers_natural(sources@, i as int);
            lemma_powers_grow(sources@, i + 1);
        }
        match sources[i].read_power() {
            Some(p) => {
                let component: Component = match &sources[i].last_reading {
                    Some(reading) => reading.component,
                    None => Component::Platform,
                };
                if component == Component::Platform {
                    platform_uw = Some(p);
                } else {
                    proof {
                        assert(after == before.push((component, p as int)));
                        assert(after.drop_last() =~= before);
                        lemma_used(before, component);
                        lemma_used(after, component);
                        assert(component_entry(entries, component) is Some ==> component_entry(
                            entries,
                            component,
                        )->0 == used_by(before, component));
                    }
                    component_sum = component_sum + p;
                    add_power(&mut per_component, component, p);
                    proof {
                        assert forall|c: Component| #[trigger]
                            component_entry(per_component@, c) == if mentions(after, c) {
                                Some(used_by(after, c) as u64)
                            } else {
                                None
                            } by {
                            assert(after[before.len() as int].0 == component);
                            lemma_used(before, c);
                            if mentions(before, c) {
                                let k = choose|k: int|
                                    0 <= k < before.len() && (#[trigger] before[k]).0 == c;
                                assert(after[k].0 == c);
                            }
                            if mentions(after, c) && c != component {
                                let k = choose|k: int|
                                    0 <= k < after.len() && (#[trigger] after[k]).0 == c;
                                assert(before[k].0 == c);
                            }
                            assert(component_entry(entries, c) == if mentions(before, c) {
                                Some(used_by(before, c) as u64)
                            } else {
                                None
                            });
                            assert(component_entry(entries, component) == if mentions(
                                before,
                                component,
                            ) {
                                Some(used_by(before, component) as u64)
                            } else {
                                None
                            });
                        }
                    }
                }
            },
            None => {},
        }
        i = i + 1;
    }
    let (unaccounted_uw, error_ratio_atto): (i64, u128) = match platform_uw {
        Some(platform) => {
            let unaccounted: i64 = platform as i64 - component_sum as i64;
            let size: u64 = if platform < component_sum {
                component_sum - platform
            } else {
                platform - component_sum
            };
            let ratio: u128 = if platform > 0 {
                divide_up(size, platform)
            } else {
                0
            };
            (unaccounted, ratio)
        },
        None => (0, 0),
    };
    Reconciliation {
        platform_uw,
        component_sum_uw: component_sum,
        per_component,
        unaccounted_uw,
        error_ratio_atto,
        timestamp_ns: now_ns,
    }
}

// ─── The collector ──────────────────────────────────────────────

/// The hardware collector manages all power sources and provides energy deltas to the
/// attribution engine.
#[derive(Debug)]
pub struct HardwareCollector<S> {
    pub sources: Vec<RegisteredSource<S>>,
    pub config: CollectorConfig,
    pub last_heartbeat: u64,
    pub last_fast: u64,
    pub last_medium: u64,
    pub last_slow: u64,
    pub last_reconciliation: Option<Reconciliation>,
    pub num_sockets: u32,
}

/// Whether an interval has passed since a time.
pub open spec fn passed(now: u64, since: u64, interval: u64) -> bool {
    now >= since && now - since >= interval || interval == 0
}

fn has_passed(now: u64, since: u64, interval: u64) -> (r: bool)
    ensures
        r == passed(now, since, interval),
{
    now.saturating_sub(since) >= interval
}

impl<S> HardwareCollector<S> {
    /// Whether all sources are due together.
    pub open spec fn heartbeat_due(&self, now: u64) -> bool {
        passed(now, self.last_heartbeat, self.config.heartbeat_interval)
    }

    /// Whether the sources of a tier are due.
    pub open spec fn tier_due(&self, tier: Tier, now: u64) -> bool {
        self.heartbeat_due(now) || match tier {
            Tier::Fast => passed(now, self.last_fast, self.config.fast_interval),
            Tier::Medium => passed(now, self.last_medium, self.config.medium_interval),
            Tier::Slow => passed(now, self.last_slow, self.config.slow_interval),
        }
    }

    /// The sources once those that are due have taken their readings.
    pub open spec fn sources_after(&self, readings: Seq<Option<PowerReading>>, now: u64) -> Seq<
        RegisteredSource<S>,
    > {
        Seq::new(
            self.sources@.len(),
            |i: int|
                if self.tier_due(self.sources@[i].tier, now) {
                    self.sources@[i].rotated(readings[i])
                } else {
                    self.sources@[i]
                },
        )
    }

    /// Whether a collector is what this one becomes by a tick, and the tick tells of news.
    pub open spec fn ticks_to(
        &self,
        after: HardwareCollector<S>,
        readings: Seq<Option<PowerReading>>,
        now: u64,
        news: bool,
    ) -> bool {
        let beat = self.heartbeat_due(now);
        &&& news == (beat || self.any_read(readings, now))
        &&& after.sources@ == self.sources_after(readings, now)
        &&& after.last_heartbeat == if beat {
            now
        } else {
            self.last_heartbeat
        }
        &&& after.last_fast == if self.tier_due(Tier::Fast, now) {
            now
        } else {
            self.last_fast
        }
        &&& after.last_medium == if self.tier_due(Tier::Medium, now) {
            now
        } else {
            self.last_medium
        }
        &&& after.last_slow == if self.tier_due(Tier::Slow, now) {
            now
        } else {
            self.last_slow
        }
        &&& if beat {
            after.last_reconciliation is Some && is_reconciliation(
                after.last_reconciliation->0,
                after.sources@,
                now,
            )
        } else {
            after.last_reconciliation == self.last_reconciliation
        }
    }

    /// Whether any source that is due was read.
    pub open spec fn any_read(&self, readings: Seq<Option<PowerReading>>, now: u64) -> bool {
        exists|i: int|
            0 <= i < self.sources@.len() && self.tier_due(
                (#[trigger] self.sources@[i]).tier,
                now,
            ) && readings[i] is Some
    }

    /// Whether the sources of a tier are due to be read.
    pub fn is_due(&self, tier: Tier, now: u64) -> (r: bool)
        ensures
            r == self.tier_due(tier, now),
    {
        if has_passed(now, self.last_heartbeat, self.config.heartbeat_interval) {
            return true;
        }
        match tier {
            Tier::Fast => has_passed(now, self.last_fast, self.config.fast_interval),
            Tier::Medium => has_passed(now, self.last_medium, self.config.medium_interval),
            Tier::Slow => has_passed(now, self.last_slow, self.config.slow_interval),
        }
    }

    /// Takes the readings of the sources that are due. `readings` holds a reading for each source
    /// that was read. Returns true if new data is available.
    pub fn tick(&mut self, readings: Vec<Option<PowerReading>>, now: u64) -> (r: bool)
        requires
            readings@.len() == old(self).sources@.len(),
            old(self).heartbeat_due(now) ==> reconcilable(
                old(self).sources_after(readings@, now),
            ),
        ensures
            old(self).ticks_to(*final(self), readings@, now, r),
            r == (old(self).heartbeat_due(now) || old(self).any_read(readings@, now)),
            final(self).sources@ == old(self).sources_after(readings@, now),
            final(self).config == old(self).config,
            final(self).num_sockets == old(self).num_sockets,
            final(self).last_heartbeat == if old(self).heartbeat_due(now) {
                now
            } else {
                old(self).last_heartbeat
            },
            final(self).last_fast == if old(self).tier_due(Tier::Fast, now) {
                now
            } else {
                old(self).last_fast
            },
            final(self).last_medium == if old(self).tier_due(Tier::Medium, now) {
                now
            } else {
                old(self).last_medium
            },
            final(self).last_slow == if old(self).tier_due(Tier::Slow, now) {
                now
            } else {
                old(self).last_slow
            },
            if old(self).heartbeat_due(now) {
                final(self).last_reconciliation is Some && is_reconciliation(
                    final(self).last_reconciliation->0,
                    final(self).sources@,
                    now,
                )
            } else {
                final(self).last_reconciliation == old(self).last_reconciliation
            },
    {
        let heartbeat: bool = has_passed(
            now,
            self.last_heartbeat,
            self.config.heartbeat_interval,
        );
        let fast: bool = self.is_due(Tier::Fast, now);
        let medium: bool = self.is_due(Tier::Medium, now);
        let slow: bool = self.is_due(Tier::Slow, now);
        let ghost before = *self;
        let ghost given = readings@;
        let ghost after = self.sources_after(given, now);
        let mut left: Vec<Option<PowerReading>> = readings;
        let mut any: bool = false;
        let mut i: usize = self.sources.len();
        assert(given.take(i as int) =~= given);
        while i > 0
            invariant
                i <= before.sources@.len(),
                given.len() == before.sources@.len(),
                self.sources@.len() == before.sources@.len(),
                left@ == given.take(i as int),
                after == before.sources_after(given, now),
                heartbeat == before.heartbeat_due(now),
                fast == before.tier_due(Tier::Fast, now),
                medium == before.tier_due(Tier::Medium, now),
                slow == before.tier_due(Tier::Slow, now),
                self.config == before.config,
                self.num_sockets == before.num_sockets,
                self.last_heartbeat == before.last_heartbeat,
                self.last_fast == before.last_fast,
                self.last_medium == before.last_medium,
                self.last_slow == before.last_slow,
                self.last_reconciliation == before.last_reconciliation,
                forall|j: int| 0 <= j < i ==> self.sources@[j] == before.sources@[j],
                forall|j: int| i <= j < before.sources@.len() ==> self.sources@[j] == after[j],
                any == exists|j: int|
                    i <= j < before.sources@.len() && before.tier_due(
                        (#[trigger] before.sources@[j]).tier,
                        now,
                    ) && given[j] is Some,
            decreases i,
        {
            i = i - 1;
            let reading: Option<PowerReading> = left.pop().unwrap();
            assert(reading == given[i as int]);
            assert(left@ =~= given.take(i as int));
            let due: bool = match self.sources[i].tier {
                Tier::Fast => fast,
                Tier::Medium => medium,
                Tier::Slow => slow,
            };
            assert(due == before.tier_due(before.sources@[i as int].tier, now));
            if due && reading.is_some() {
                any = true;
                let last: Option<PowerReading> = self.sources[i].last_reading.take();
                self.sources[i].prev_reading = last;
                self.sources[i].last_reading = reading;
                assert(self.sources@[i as int] == after[i as int]);
            } else {
                assert(self.sources@[i as int] == after[i as int]);
            }
        }
        assert(self.sources@ =~= after);
        if fast {
            self.last_fast = now;
        }
        if medium {
            self.last_medium = now;
        }
        if slow {
            self.last_slow = now;
        }
        if heartbeat {
            self.last_reconciliation = Some(reconcile(&self.sources, now));
            self.last_heartbeat = now;
            return true;
        }
        any
    }

    /// Whether an energy input is what the latest readings tell.
    pub open spec fn is_input(&self, r: EnergyInput, interval_ns: u64) -> bool {
        let n = self.sources@.len() as int;
        &&& r.interval_ns == interval_ns
        &&& r.socket_energy_uj@.len() == self.num_sockets
        &&& r.dram_energy_uj@.len() == self.num_sockets
        &&& forall|k: int|
            0 <= k < self.num_sockets && k < 256 ==> #[trigger] r.socket_energy_uj@[k] == socket_uj(
                self.sources@,
                Component::Cpu,
                k,
                n,
            )
        &&& forall|k: int|
            0 <= k < self.num_sockets && k < 256 ==> #[trigger] r.dram_energy_uj@[k] == socket_uj(
                self.sources@,
                Component::Memory,
                k,
                n,
            )
        &&& r.gpu_energy_uj@ == gpu_uj(self.sources@, n)
        &&& r.platform_energy_uj == platform_uj(self.sources@, n)
    }

    /// Builds the energy input of the attribution engine from the latest readings.
    pub fn energy_input(&self, interval_ns: u64) -> (r: EnergyInput)
        requires
            forall|i: int| 0 <= i < self.sources@.len() ==> (#[trigger] self.sources@[i]).sane(),
        ensures
            r.interval_ns == interval_ns,
            r.socket_energy_uj@.len() == self.num_sockets,
            r.dram_energy_uj@.len() == self.num_sockets,
            forall|k: int|
                0 <= k < self.num_sockets ==> #[trigger] r.socket_energy_uj@[k] == if k < 256 {
                    socket_uj(self.sources@, Component::Cpu, k, self.sources@.len() as int)
                } else {
                    0
                },
            forall|k: int|
                0 <= k < self.num_sockets ==> #[trigger] r.dram_energy_uj@[k] == if k < 256 {
                    socket_uj(self.sources@, Component::Memory, k, self.sources@.len() as int)
                } else {
                    0
                },
            self.is_input(r, interval_ns),
            r.gpu_energy_uj@ == gpu_uj(self.sources@, self.sources@.len() as int),
            r.platform_energy_uj == platform_uj(self.sources@, self.sources@.len() as int),
    {
        let mut sockets: Vec<u64> = zeros(self.num_sockets);
        let mut dram: Vec<u64> = zeros(self.num_sockets);
        let mut gpu: Vec<u64> = Vec::new();
        let mut platform: Option<u64> = None;
        let mut i: usize = 0;
        while i < self.sources.len()
            invariant
                i <= self.sources@.len(),
                forall|j: int|
                    0 <= j < self.sources@.len() ==> (#[trigger] self.sources@[j]).sane(),
                sockets@.len() == self.num_sockets,
                dram@.len() == self.num_sockets,
                forall|k: int|
                    0 <= k < self.num_sockets ==> #[trigger] sockets@[k] == if k < 256 {
                        socket_uj(self.sources@, Component::Cpu, k, i as int)
                    } else {
                        0
                    },
                forall|k: int|
                    0 <= k < self.num_sockets ==> #[trigger] dram@[k] == if k < 256 {
                        socket_uj(self.sources@, Component::Memory, k, i as int)
                    } else {
                        0
                    },
                gpu@ == gpu_uj(self.sources@, i as int),
                platform == platform_uj(self.sources@, i as int),
            decreases self.sources@.len() - i,
        {
            assert(self.sources@[i as int].sane());
            let delta: u64 = self.sources[i].read_delta();
            if delta != 0 {
                if let Some(reading) = &self.sources[i].last_reading {
                    match (reading.component, reading.granularity) {
                        (Component::Cpu, Granularity::Socket(s)) => {
                            if (s as usize) < sockets.len() {
                                sockets.set(s as usize, delta);
                            }
                        },
                        (Component::Memory, Granularity::Socket(s)) => {
                            if (s as usize) < dram.len() {
                                dram.set(s as usize, delta);
                            }
                        },
                        (Component::Gpu, _) => {
                            gpu.push(delta);
                        },
                        (Component::Platform, _) => {
                            platform = Some(delta);
                        },
                        _ => {},
                    }
                }
            }
            i = i + 1;
        }
        EnergyInput {
            socket_energy_uj: sockets,
            dram_energy_uj: dram,
            gpu_energy_uj: gpu,
            platform_energy_uj: platform,
            interval_ns,
        }
    }

    /// The latest reconciliation.
    pub fn last_reconciliation(&self) -> (r: Option<&Reconciliation>)
        ensures
            self.last_reconciliation == match r {
                Some(x) => Some(*x),
                None => None,
            },
    {
        self.last_reconciliation.as_ref()
    }
}

impl<S: PowerSource> HardwareCollector<S> {
    /// Creates a collector with discovered sources.
    pub fn new(sources: Vec<S>, config: CollectorConfig, num_sockets: u32, now: u64) -> (r: Self)
        ensures
            r.sources@.len() == sources@.len(),
            forall|i: int|
                0 <= i < sources@.len() ==> #[trigger] r.sources@[i] == (RegisteredSource {
                    source: sources@[i],
                    tier: tier_of(sources@[i].facts().poll_interval_ns, config),
                    last_reading: None,
                    prev_reading: None,
                }),
            r.config == config,
            r.last_heartbeat == now,
            r.last_fast == now,
            r.last_medium == now,
            r.last_slow == now,
            r.last_reconciliation is None,
            r.num_sockets == num_sockets,
    {
        let ghost given = sources@;
        let mut registered: Vec<RegisteredSource<S>> = Vec::new();
        for source in it: sources.into_iter()
            invariant
                it.seq() == given,
                registered@.len() == it.index(),
                forall|j: int|
                    0 <= j < it.index() ==> #[trigger] registered@[j] == (RegisteredSource {
                        source: given[j],
                        tier: tier_of(given[j].facts().poll_interval_ns, config),
                        last_reading: None,
                        prev_reading: None,
                    }),
        {
            let tier: Tier = classify_tier(source.default_poll_interval(), &config);
            registered.push(
                RegisteredSource { source, tier, last_reading: None, prev_reading: None },
            );
        }
        HardwareCollector {
            sources: registered,
            config,
            last_heartbeat: now,
            last_fast: now,
            last_medium: now,
            last_slow: now,
            last_reconciliation: None,
            num_sockets,
        }
    }
}

fn zeros(n: u32) -> (r: Vec<u64>)
    ensures
        r@.len() == n,
        forall|i: int| 0 <= i < n ==> #[trigger] r@[i] == 0,
{
    let mut r: Vec<u64> = Vec::new();
    let mut i: u32 = 0;
    while i < n
        invariant
            i <= n,
            r@.len() == i,
            forall|j: int| 0 <= j < i ==> #[trigger] r@[j] == 0,
        decreases n - i,
    {
        r.push(0);
        i = i + 1;
    }
    r
}

// ─── What the energies and powers say of the readings ───────────

/// The law of a counter: what it stood at before and what it advanced by make what it stands at
/// now, or that and its maximum once more where it fell; a counter that fell and has no maximum
/// began anew.
pub proof fn law_counter_delta(prev: u64, curr: u64, max: u64)
    requires
        keeps_to_max(prev as int, curr as int, max as int),
    ensures
        ({
            let d = counter_delta(prev as int, curr as int, max as int);
            &&& 0 <= d
            &&& curr >= prev ==> prev + d == curr
            &&& curr < prev && max > 0 ==> prev + d == curr + max
            &&& curr < prev && max == 0 ==> d == curr
        }),
{
}

/// The energy between two readings is what the counter advanced by where both have one. Where
/// neither has, it is the present power over the time between them, in whole microjoules, as far
/// as 64 bits hold it. Otherwise there is none.
pub proof fn law_energy_delta(current: PowerReading, previous: PowerReading)
    requires
        has_delta(current, previous),
    ensures
        ({
            let d = energy_delta(current, previous);
            match (current.energy_uj, previous.energy_uj) {
                (Some(c), Some(p)) => if c >= p {
                    p + d == c
                } else if current.max_energy_uj > 0 {
                    p + d == c + current.max_energy_uj
                } else {
                    d == c
                },
                (None, None) => if current.power_uw is Some && previous.power_uw is Some
                    && current.timestamp_ns > previous.timestamp_ns {
                    let work = current.power_uw->0 * (current.timestamp_ns
                        - previous.timestamp_ns);
                    work < 0x1_0000_0000_0000_0000 * 1_000_000_000 ==> d * 1_000_000_000 <= work
                        < (d + 1) * 1_000_000_000
                } else {
                    d == 0
                },
                _ => d == 0,
            }
        }),
{
    if current.energy_uj is None && previous.energy_uj is None && current.power_uw is Some
        && previous.power_uw is Some {
        let time = elapsed(current, previous);
        let work = current.power_uw->0 * time;
        assert(0 <= work) by (nonlinear_arith)
            requires
                0 <= time,
                work == current.power_uw->0 * time,
        ;
        assert(time == 0 ==> work == 0) by (nonlinear_arith)
            requires
                work == current.power_uw->0 * time,
        ;
        if work < 0x1_0000_0000_0000_0000 * 1_000_000_000 {
            assert(work / 1_000_000_000 < 0x1_0000_0000_0000_0000);
            vstd::arithmetic::div_mod::lemma_small_mod(
                (work / 1_000_000_000) as nat,
                0x1_0000_0000_0000_0000,
            );
        }
    }
}

/// Whether a source has used energy of a component: its last reading is of the component and
/// its last two readings tell of some.
pub open spec fn spent<S>(s: RegisteredSource<S>, component: Component) -> bool {
    s.last_reading is Some && s.last_reading->0.component == component && s.delta() != 0
}

/// Counts a GPU that used energy.
pub open spec fn gpu_counted<S>() -> spec_fn(RegisteredSource<S>) -> int {
    |s: RegisteredSource<S>|
        if spent(s, Component::Gpu) {
            1
        } else {
            0
        }
}

/// What a source counts for by the energy of a GPU.
pub open spec fn gpu_energy<S>() -> spec_fn(RegisteredSource<S>) -> int {
    |s: RegisteredSource<S>|
        if spent(s, Component::Gpu) {
            s.delta()
        } else {
            0
        }
}

/// Energies added up.
pub open spec fn energy_sum() -> spec_fn(u64) -> int {
    |e: u64| e as int
}

proof fn lemma_delta_range<S>(s: RegisteredSource<S>)
    requires
        s.sane(),
    ensures
        0 <= s.delta() <= u64::MAX,
{
    if let (Some(c), Some(p)) = (s.last_reading, s.prev_reading) {
        law_energy_delta(c, p);
    }
}

proof fn lemma_gpu_energies<S>(sources: Seq<RegisteredSource<S>>, n: int)
    requires
        0 <= n <= sources.len(),
        forall|i: int| 0 <= i < sources.len() ==> (#[trigger] sources[i]).sane(),
    ensures
        gpu_uj(sources, n).len() == sum_of(sources.take(n), gpu_counted()),
        sum_of(gpu_uj(sources, n), energy_sum()) == sum_of(sources.take(n), gpu_energy()),
        forall|i: int|
            0 <= i < n && spent(#[trigger] sources[i], Component::Gpu) ==> gpu_uj(
                sources,
                n,
            )[sum_of(sources.take(i), gpu_counted())] == sources[i].delta(),
        0 <= sum_of(sources.take(n), gpu_counted()),
        forall|i: int|
            0 <= i < n ==> 0 <= #[trigger] sum_of(sources.take(i), gpu_counted()) <= sum_of(
                sources.take(n),
                gpu_counted(),
            ),
    decreases n,
{
    if n > 0 {
        lemma_gpu_energies(sources, n - 1);
        let before = gpu_uj(sources, n - 1);
        let s = sources[n - 1];
        lemma_delta_range(s);
        assert(sources.take(n).drop_last() =~= sources.take(n - 1));
        assert(sources.take(n).last() == s);
        if spent(s, Component::Gpu) {
            lemma_sum_push(before, s.delta() as u64, energy_sum());
        }
        let after = gpu_uj(sources, n);
        assert forall|i: int| 0 <= i < n && spent(#[trigger] sources[i], Component::Gpu) implies
            after[sum_of(sources.take(i), gpu_counted())] == sources[i].delta() by {
            if i < n - 1 {
                let k = sum_of(sources.take(i), gpu_counted());
                assert(sources.take(i + 1).drop_last() =~= sources.take(i));
                assert(sources.take(i + 1).last() == sources[i]);
                assert(k + 1 == sum_of(sources.take(i + 1), gpu_counted()));
                if i + 1 < n - 1 {
                    assert(sum_of(sources.take(i + 1), gpu_counted()) <= before.len());
                }
                assert(0 <= k < before.len());
                assert(after[k] == before[k]);
            }
        }
        assert forall|i: int| 0 <= i < n implies 0 <= #[trigger] sum_of(
            sources.take(i),
            gpu_counted(),
        ) <= sum_of(sources.take(n), gpu_counted()) by {
            if i < n - 1 {
                assert(sum_of(sources.take(i), gpu_counted()) <= sum_of(
                    sources.take(n - 1),
                    gpu_counted(),
                ));
            }
        }
    } else {
        assert(sources.take(0) =~= Seq::empty());
    }
}

/// No GPU's energy is lost or counted twice: an energy input has as many GPU energies as there
/// are sources that a GPU's energy was read from, they sum to what these sources tell, and each
/// stands as far down the list as there are others before its source.
pub proof fn law_gpu_energies<S>(
    collector: HardwareCollector<S>,
    r: EnergyInput,
    interval_ns: u64,
)
    requires
        forall|i: int|
            0 <= i < collector.sources@.len() ==> (#[trigger] collector.sources@[i]).sane(),
        collector.is_input(r, interval_ns),
    ensures
        r.gpu_energy_uj@.len() == sum_of(collector.sources@, gpu_counted()),
        sum_of(r.gpu_energy_uj@, energy_sum()) == sum_of(collector.sources@, gpu_energy()),
        forall|i: int|
            0 <= i < collector.sources@.len() && spent(
                #[trigger] collector.sources@[i],
                Component::Gpu,
            ) ==> r.gpu_energy_uj@[sum_of(collector.sources@.take(i), gpu_counted())]
                == collector.sources@[i].delta(),
{
    let n = collector.sources@.len() as int;
    lemma_gpu_energies(collector.sources@, n);
    assert(collector.sources@.take(n) =~= collector.sources@);
}

proof fn lemma_socket_energy<S>(
    sources: Seq<RegisteredSource<S>>,
    component: Component,
    socket: int,
    n: int,
    i: int,
)
    requires
        0 <= n <= sources.len(),
        0 <= socket < 256,
        -1 <= i < n,
        i >= 0 ==> spent(sources[i], component) && sources[i].last_reading->0.granularity
            == Granularity::Socket(socket as u8),
        forall|j: int|
            i < j < n && spent(#[trigger] sources[j], component)
                ==> sources[j].last_reading->0.granularity != Granularity::Socket(socket as u8),
    ensures
        socket_uj(sources, component, socket, n) == if i >= 0 {
            sources[i].delta()
        } else {
            0
        },
    decreases n,
{
    if n > 0 && i < n - 1 {
        assert(spent(sources[n - 1], component) ==> sources[n - 1].last_reading->0.granularity
            != Granularity::Socket(socket as u8));
        lemma_socket_energy(sources, component, socket, n - 1, i);
    }
}

/// The energy of a socket's CPU or memory is that of the last source that read some of it; a
/// socket of which no source read any has none. The platform's energy is likewise that of the
/// last source that read some of it.
pub proof fn law_socket_energies<S>(
    collector: HardwareCollector<S>,
    r: EnergyInput,
    interval_ns: u64,
    socket: int,
    i: int,
)
    requires
        collector.is_input(r, interval_ns),
        0 <= socket < collector.num_sockets,
        socket < 256,
        -1 <= i < collector.sources@.len(),
    ensures
        r.interval_ns == interval_ns,
        r.socket_energy_uj@.len() == collector.num_sockets,
        r.dram_energy_uj@.len() == collector.num_sockets,
        last_of_socket(collector.sources@, Component::Cpu, socket, i)
            ==> r.socket_energy_uj@[socket] == if i >= 0 {
            collector.sources@[i].delta()
        } else {
            0
        },
        last_of_socket(collector.sources@, Component::Memory, socket, i)
            ==> r.dram_energy_uj@[socket] == if i >= 0 {
            collector.sources@[i].delta()
        } else {
            0
        },
{
    let n = collector.sources@.len() as int;
    if last_of_socket(collector.sources@, Component::Cpu, socket, i) {
        lemma_socket_energy(collector.sources@, Component::Cpu, socket, n, i);
    }
    if last_of_socket(collector.sources@, Component::Memory, socket, i) {
        lemma_socket_energy(collector.sources@, Component::Memory, socket, n, i);
    }
}

/// Whether source `i` is the last that read energy of a socket's component; -1 is no source.
pub open spec fn last_of_socket<S>(
    sources: Seq<RegisteredSource<S>>,
    component: Component,
    socket: int,
    i: int,
) -> bool {
    &&& i >= 0 ==> spent(sources[i], component) && sources[i].last_reading->0.granularity
        == Granularity::Socket(socket as u8)
    &&& forall|j: int|
        i < j < sources.len() && spent(#[trigger] sources[j], component)
            ==> sources[j].last_reading->0.granularity != Granularity::Socket(socket as u8)
}

proof fn lemma_platform_energy<S>(sources: Seq<RegisteredSource<S>>, n: int, i: int)
    requires
        0 <= n <= sources.len(),
        -1 <= i < n,
        i >= 0 ==> spent(sources[i], Component::Platform),
        forall|j: int| i < j < n ==> !spent(#[trigger] sources[j], Component::Platform),
    ensures
        platform_uj(sources, n) == if i >= 0 {
            Some(sources[i].delta() as u64)
        } else {
            None
        },
    decreases n,
{
    if n > 0 && i < n - 1 {
        assert(!spent(sources[n - 1], Component::Platform));
        lemma_platform_energy(sources, n - 1, i);
    }
}

/// The platform's energy is that of the last source that read some of it; without one there is
/// none.
pub proof fn law_platform_energy<S>(
    collector: HardwareCollector<S>,
    r: EnergyInput,
    interval_ns: u64,
    i: int,
)
    requires
        forall|k: int|
            0 <= k < collector.sources@.len() ==> (#[trigger] collector.sources@[k]).sane(),
        collector.is_input(r, interval_ns),
        -1 <= i < collector.sources@.len(),
        i >= 0 ==> spent(collector.sources@[i], Component::Platform),
        forall|j: int|
            i < j < collector.sources@.len() ==> !spent(
                #[trigger] collector.sources@[j],
                Component::Platform,
            ),
    ensures
        i < 0 ==> r.platform_energy_uj is None,
        i >= 0 ==> r.platform_energy_uj is Some && r.platform_energy_uj->0
            == collector.sources@[i].delta(),
{
    lemma_platform_energy(collector.sources@, collector.sources@.len() as int, i);
    if i >= 0 {
        lemma_delta_range(collector.sources@[i]);
    }
}

/// A source's power is what its last reading tells. Where that tells only energy, it is the
/// energy since the reading before by the time since then, rounded down, as far as 64 bits hold
/// it. Without readings there is none.
pub proof fn law_source_power<S>(s: RegisteredSource<S>)
    requires
        s.sane(),
    ensures
        s.last_reading is None ==> s.power() is None,
        s.last_reading is Some && s.last_reading->0.power_uw is Some ==> s.power() is Some
            && s.power()->0 == s.last_reading->0.power_uw->0,
        s.last_reading is Some && s.last_reading->0.power_uw is None && s.prev_reading is None
            ==> s.power() is None,
        s.last_reading is Some && s.last_reading->0.power_uw is None && s.prev_reading is Some ==> {
            let time = s.last_reading->0.timestamp_ns - s.prev_reading->0.timestamp_ns;
            let work = s.delta() * 1_000_000_000;
            &&& s.power() is Some
            &&& time > 0 && work < 0x1_0000_0000_0000_0000 * time ==> s.power()->0 * time <= work
                < (s.power()->0 + 1) * time
            &&& time <= 0 ==> s.power()->0 == 0
        },
{
    if s.last_reading is Some && s.last_reading->0.power_uw is None && s.prev_reading is Some {
        let time = s.last_reading->0.timestamp_ns - s.prev_reading->0.timestamp_ns;
        let work = s.delta() * 1_000_000_000;
        lemma_delta_range(s);
        if time > 0 {
            crate::arith::law_power(s.delta(), time);
            if work < 0x1_0000_0000_0000_0000 * time {
                let p = power_of(s.delta(), time);
                assert(p < 0x1_0000_0000_0000_0000) by (nonlinear_arith)
                    requires
                        p * time <= work,
                        work < 0x1_0000_0000_0000_0000 * time,
                        time > 0,
                ;
                vstd::arithmetic::div_mod::lemma_small_mod(p as nat, 0x1_0000_0000_0000_0000);
            }
        }
    }
}

/// What a source adds to the power of all components: nothing if it is the platform's own.
pub open spec fn component_counted<S>() -> spec_fn(RegisteredSource<S>) -> int {
    |s: RegisteredSource<S>|
        if s.power() is Some && s.last_reading->0.component != Component::Platform {
            s.power()->0
        } else {
            0
        }
}

/// What a source adds to the power of one component.
pub open spec fn counted_for<S>(c: Component) -> spec_fn(RegisteredSource<S>) -> int {
    |s: RegisteredSource<S>|
        if s.power() is Some && s.last_reading->0.component == c {
            s.power()->0
        } else {
            0
        }
}

proof fn lemma_component_powers<S>(sources: Seq<RegisteredSource<S>>, n: int, c: Component)
    requires
        0 <= n <= sources.len(),
        c != Component::Platform,
    ensures
        used(component_powers(sources, n)) == sum_of(sources.take(n), component_counted()),
        used_by(component_powers(sources, n), c) == sum_of(sources.take(n), counted_for(c)),
        mentions(component_powers(sources, n), c) <==> exists|i: int|
            0 <= i < n && (#[trigger] sources[i]).power() is Some
                && sources[i].last_reading->0.component == c,
    decreases n,
{
    if n > 0 {
        lemma_component_powers(sources, n - 1, c);
        assert(sources.take(n).drop_last() =~= sources.take(n - 1));
        let before = component_powers(sources, n - 1);
        let after = component_powers(sources, n);
        let s = sources[n - 1];
        assert(sources.take(n).last() == s);
        if s.power() is Some && s.last_reading->0.component != Component::Platform {
            assert(after.drop_last() =~= before);
            assert(after[before.len() as int].0 == s.last_reading->0.component);
        }
        if mentions(before, c) {
            let k = choose|k: int| 0 <= k < before.len() && (#[trigger] before[k]).0 == c;
            assert(after[k].0 == c);
            let i = choose|i: int|
                0 <= i < n - 1 && (#[trigger] sources[i]).power() is Some
                    && sources[i].last_reading->0.component == c;
            assert(0 <= i < n && sources[i].power() is Some);
        }
        if mentions(after, c) && !mentions(before, c) {
            let k = choose|k: int| 0 <= k < after.len() && (#[trigger] after[k]).0 == c;
            if k < before.len() {
                assert(before[k].0 == c);
            }
            assert(sources[n - 1].power() is Some && s.last_reading->0.component == c);
        }
        if exists|i: int|
            0 <= i < n && (#[trigger] sources[i]).power() is Some
                && sources[i].last_reading->0.component == c {
            let i = choose|i: int|
                0 <= i < n && (#[trigger] sources[i]).power() is Some
                    && sources[i].last_reading->0.component == c;
            if i < n - 1 {
                assert(mentions(before, c));
            } else {
                assert(after[before.len() as int].0 == c);
            }
        }
    } else {
        assert(sources.take(0) =~= Seq::empty());
    }
}

/// A reconciliation's sum of components is what all sources but the platform's tell together,
/// and a component has an entry where a source tells its power: what these tell together.
pub proof fn law_reconciled_components<S>(
    r: Reconciliation,
    sources: Seq<RegisteredSource<S>>,
    now_ns: u64,
    c: Component,
)
    requires
        reconcilable(sources),
        is_reconciliation(r, sources, now_ns),
        c != Component::Platform,
    ensures
        r.component_sum_uw == sum_of(sources, component_counted()),
        component_entry(r.per_component@, c) is Some <==> exists|i: int|
            0 <= i < sources.len() && (#[trigger] sources[i]).power() is Some
                && sources[i].last_reading->0.component == c,
        component_entry(r.per_component@, c) is Some ==> component_entry(r.per_component@, c)->0
            == sum_of(sources, counted_for(c)),
{
    let n = sources.len() as int;
    lemma_component_powers(sources, n, c);
    assert(sources.take(n) =~= sources);
    lemma_powers_natural(sources, n);
    lemma_used(component_powers(sources, n), c);
}

/// The platform's power against the components': the unaccounted power and the components' sum
/// make the platform's power, and the error ratio is the size of the gap by that power, in units
/// of 10⁻¹⁸, rounded up.
pub proof fn law_reconciled_platform<S>(
    r: Reconciliation,
    sources: Seq<RegisteredSource<S>>,
    now_ns: u64,
)
    requires
        reconcilable(sources),
        is_reconciliation(r, sources, now_ns),
    ensures
        r.platform_uw is Some ==> r.unaccounted_uw + r.component_sum_uw == r.platform_uw->0,
        r.platform_uw is None ==> r.unaccounted_uw == 0 && r.error_ratio_atto == 0,
        r.platform_uw is Some && r.platform_uw->0 > 0 ==> {
            let gap = if r.unaccounted_uw < 0 {
                -(r.unaccounted_uw as int)
            } else {
                r.unaccounted_uw as int
            };
            let p = r.platform_uw->0;
            (r.error_ratio_atto - 1) * p < gap * 1_000_000_000_000_000_000 <= r.error_ratio_atto * p
        },
{
    let n = sources.len() as int;
    lemma_platform_natural(sources, n);
    if r.platform_uw is Some && r.platform_uw->0 > 0 {
        let u = r.unaccounted_uw as int;
        crate::arith::law_ratio_up(
            if u < 0 {
                -u
            } else {
                u
            },
            r.platform_uw->0 as int,
        );
    }
}

proof fn lemma_platform_natural<S>(sources: Seq<RegisteredSource<S>>, n: int)
    requires
        0 <= n <= sources.len(),
        forall|i: int| 0 <= i < sources.len() ==> (#[trigger] sources[i]).sane(),
    ensures
        platform_power(sources, n) is Some ==> platform_power(sources, n)->0 >= 0,
    decreases n,
{
    if n > 0 {
        lemma_platform_natural(sources, n - 1);
        assert(sources[n - 1].power() is Some ==> sources[n - 1].power()->0 >= 0);
    }
}

proof fn lemma_platform_power<S>(sources: Seq<RegisteredSource<S>>, n: int, i: int)
    requires
        0 <= n <= sources.len(),
        -1 <= i < n,
        i >= 0 ==> sources[i].power() is Some && sources[i].last_reading->0.component
            == Component::Platform,
        forall|j: int|
            i < j < n && (#[trigger] sources[j]).power() is Some
                ==> sources[j].last_reading->0.component != Component::Platform,
    ensures
        platform_power(sources, n) == if i >= 0 {
            sources[i].power()
        } else {
            None
        },
    decreases n,
{
    if n > 0 && i < n - 1 {
        assert(sources[n - 1].power() is Some ==> sources[n - 1].last_reading->0.component
            != Component::Platform);
        lemma_platform_power(sources, n - 1, i);
    }
}

/// The platform's power is what the last source of it tells.
pub proof fn law_reconciled_with_last<S>(
    r: Reconciliation,
    sources: Seq<RegisteredSource<S>>,
    now_ns: u64,
    i: int,
)
    requires
        reconcilable(sources),
        is_reconciliation(r, sources, now_ns),
        0 <= i < sources.len(),
        sources[i].power() is Some,
        sources[i].last_reading->0.component == Component::Platform,
        forall|j: int|
            i < j < sources.len() && (#[trigger] sources[j]).power() is Some
                ==> sources[j].last_reading->0.component != Component::Platform,
    ensures
        r.platform_uw is Some,
        r.platform_uw->0 == sources[i].power()->0,
{
    lemma_platform_power(sources, sources.len() as int, i);
    lemma_platform_natural(sources, sources.len() as int);
}

/// A source is read when its tier's interval has passed, and every source at a heartbeat. A
/// source that was read has the reading as its last one and what was its last one as the one
/// before; any other source is as it was.
pub proof fn law_readings_taken<S>(
    before: HardwareCollector<S>,
    readings: Seq<Option<PowerReading>>,
    now: u64,
    i: int,
)
    requires
        0 <= i < before.sources@.len() == readings.len(),
        now >= before.last_heartbeat,
        now >= before.last_fast,
        now >= before.last_medium,
        now >= before.last_slow,
    ensures
        ({
            let old_source = before.sources@[i];
            let new_source = before.sources_after(readings, now)[i];
            let beat = now - before.last_heartbeat >= before.config.heartbeat_interval;
            let due = beat || match old_source.tier {
                Tier::Fast => now - before.last_fast >= before.config.fast_interval,
                Tier::Medium => now - before.last_medium >= before.config.medium_interval,
                Tier::Slow => now - before.last_slow >= before.config.slow_interval,
            };
            if due && readings[i] is Some {
                &&& new_source.last_reading == readings[i]
                &&& new_source.prev_reading == old_source.last_reading
                &&& new_source.tier == old_source.tier
                &&& new_source.source == old_source.source
            } else {
                new_source == old_source
            }
        }),
{
}

/// A slower source is never in a faster tier, and no source is in a tier whose interval is
/// shorter than its own where a longer one is at hand.
pub proof fn law_tiers(interval: u64, config: CollectorConfig)
    requires
        config.fast_interval <= config.medium_interval,
    ensures
        tier_of(interval, config) == Tier::Fast <==> interval <= config.fast_interval,
        tier_of(interval, config) == Tier::Slow <==> interval > config.medium_interval,
{
}

/// A source's energy is counted from its reading before to its last one; there is none before it
/// was read twice.
pub proof fn law_source_energy<S>(s: RegisteredSource<S>)
    ensures
        s.last_reading is None || s.prev_reading is None ==> s.delta() == 0,
        s.last_reading is Some && s.prev_reading is Some && s.last_reading->0.energy_uj is Some
            && s.prev_reading->0.energy_uj is Some && s.last_reading->0.energy_uj->0
            >= s.prev_reading->0.energy_uj->0 ==> s.prev_reading->0.energy_uj->0 + s.delta()
            == s.last_reading->0.energy_uj->0,
        s.last_reading is Some && s.prev_reading is Some ==> s.delta() == energy_delta(
            s.last_reading->0,
            s.prev_reading->0,
        ),
{
}

/// Without a source of the platform's power there is none to reconcile with.
pub proof fn law_nothing_to_reconcile<S>(
    r: Reconciliation,
    sources: Seq<RegisteredSource<S>>,
    now_ns: u64,
)
    requires
        is_reconciliation(r, sources, now_ns),
        forall|j: int|
            0 <= j < sources.len() && (#[trigger] sources[j]).power() is Some
                ==> sources[j].last_reading->0.component != Component::Platform,
    ensures
        r.platform_uw is None,
        r.timestamp_ns == now_ns,
{
    lemma_no_platform(sources, sources.len() as int);
}

proof fn lemma_no_platform<S>(sources: Seq<RegisteredSource<S>>, n: int)
    requires
        0 <= n <= sources.len(),
        forall|j: int|
            0 <= j < sources.len() && (#[trigger] sources[j]).power() is Some
                ==> sources[j].last_reading->0.component != Component::Platform,
    ensures
        platform_power(sources, n) is None,
    decreases n,
{
    if n > 0 {
        lemma_no_platform(sources, n - 1);
        assert(sources[n - 1].power() is Some ==> sources[n - 1].last_reading->0.component
            != Component::Platform);
    }
}

/// A heartbeat restarts every tier's time and reconciles; without one a tier's time restarts once
/// its own interval has passed. A tick tells of news if there was a heartbeat or a source whose time
/// it was gave a reading.
pub proof fn law_tick<S>(
    before: HardwareCollector<S>,
    after: HardwareCollector<S>,
    readings: Seq<Option<PowerReading>>,
    now: u64,
    news: bool,
    i: int,
)
    requires
        before.ticks_to(after, readings, now, news),
        readings.len() == before.sources@.len(),
        now >= before.last_heartbeat,
        now >= before.last_fast,
        now >= before.last_medium,
        now >= before.last_slow,
        0 <= i < readings.len(),
    ensures
        ({
            let beat = now - before.last_heartbeat >= before.config.heartbeat_interval;
            let fast = beat || now - before.last_fast >= before.config.fast_interval;
            let medium = beat || now - before.last_medium >= before.config.medium_interval;
            let slow = beat || now - before.last_slow >= before.config.slow_interval;
            &&& beat ==> news && after.last_heartbeat == now && after.last_reconciliation is Some
            &&& !beat ==> after.last_heartbeat == before.last_heartbeat
                && after.last_reconciliation == before.last_reconciliation
            &&& after.last_fast == (if fast {
                now
            } else {
                before.last_fast
            })
            &&& after.last_medium == (if medium {
                now
            } else {
                before.last_medium
            })
            &&& after.last_slow == (if slow {
                now
            } else {
                before.last_slow
            })
            &&& readings[i] is Some && (match before.sources@[i].tier {
                Tier::Fast => fast,
                Tier::Medium => medium,
                Tier::Slow => slow,
            }) ==> news
            &&& news && !beat ==> exists|k: int|
                0 <= k < readings.len() && (#[trigger] readings[k]) is Some
        }),
{
    if news && !(now - before.last_heartbeat >= before.config.heartbeat_interval) {
        let k = choose|k: int|
            0 <= k < before.sources@.len() && before.tier_due(
                (#[trigger] before.sources@[k]).tier,
                now,
            ) && readings[k] is Some;
        assert(readings[k] is Some);
    }
    assert(before.tier_due(before.sources@[i].tier, now) && readings[i] is Some ==> before.any_read(
        readings,
        now,
    ));
}

} // verus!
