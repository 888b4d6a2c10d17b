//! Choosing the best source for each component, and the node's report.

use crate::arith::{
    divide_up, energy_to_power, law_power, law_ratio_up, low_word, power_of, ratio_up,
};
use crate::hardware::collector::{advance, counter_delta, keeps_to_max};
use crate::hardware::source::{Component, PowerReading, ReadingType};
use crate::report::{NodePowerReport, SourceStatus};
use crate::table::{enter, get, lookup, put};
use crate::text::same;
use vstd::prelude::*;

verus! {

/// The power that a reading tells: by what its counter advanced since it was last read, or as it
/// was read.
pub open spec fn reading_power(prev: Option<u64>, reading: PowerReading, interval_ns: u64) -> int {
    match reading.energy_uj {
        Some(curr) => low_word(
            power_of(
                counter_delta(
                    match prev {
                        Some(p) => p as int,
                        None => curr as int,
                    },
                    curr as int,
                    reading.max_energy_uj as int,
                ),
                interval_ns as int,
            ),
        ),
        None => match reading.power_uw {
            Some(p) => p as int,
            None => 0,
        },
    }
}

/// Whether a reading's counter keeps to its maximum.
pub open spec fn reading_sane(prev: Option<u64>, reading: PowerReading) -> bool {
    reading.energy_uj is Some && prev is Some ==> keeps_to_max(
        prev->0 as int,
        reading.energy_uj->0 as int,
        reading.max_energy_uj as int,
    )
}

/// Whether a reading's counter keeps to its maximum.
pub fn reading_in_range(
    prev_readings: &Vec<(String, u64)>,
    id: &String,
    reading: &PowerReading,
) -> (r: bool)
    ensures
        r == reading_sane(lookup(prev_readings@, id@), *reading),
{
    match (reading.energy_uj, get(prev_readings, id)) {
        (Some(curr), Some(prev)) => curr >= *prev || reading.max_energy_uj == 0 || *prev
            <= reading.max_energy_uj,
        _ => true,
    }
}

/// Tells the power of one source's reading, and remembers where its counter stands.
pub fn source_power(
    prev_readings: &mut Vec<(String, u64)>,
    id: &String,
    reading: &PowerReading,
    interval_ns: u64,
) -> (r: u64)
    requires
        reading_sane(lookup(old(prev_readings)@, id@), *reading),
    ensures
        r == reading_power(lookup(old(prev_readings)@, id@), *reading, interval_ns),
        final(prev_readings)@ == match reading.energy_uj {
            Some(curr) => put(old(prev_readings)@, *id, curr),
            None => old(prev_readings)@,
        },
{
    match reading.energy_uj {
        Some(curr) => {
            let prev: u64 = match get(prev_readings, id) {
                Some(p) => *p,
                None => curr,
            };
            let delta: u64 = advance(prev, curr, reading.max_energy_uj);
            enter(prev_readings, id.clone(), curr);
            energy_to_power(delta, interval_ns)
        },
        None => match reading.power_uw {
            Some(p) => p,
            None => 0,
        },
    }
}

/// What one source told in this interval.
#[derive(Debug)]
pub struct SourceReading {
    pub name: String,
    pub component: Component,
    pub reading_type: ReadingType,
    /// Nothing if the source could not be read
    pub power_uw: Option<u64>,
}

impl SourceReading {
    /// The power it told; none if it could not be read.
    pub open spec fn power(self) -> u64 {
        match self.power_uw {
            Some(p) => p,
            None => 0,
        }
    }

    /// Whether it can be chosen for a component: it told of some power.
    pub open spec fn eligible(self, component: Component) -> bool {
        self.component == component && self.power() > 0
    }

    /// Whether it is preferred to another for the same component. For the platform the highest
    /// value is: it is the one of the whole server. For the rest, a better type of reading.
    pub open spec fn beats(self, other: SourceReading) -> bool {
        if self.component == Component::Platform {
            self.power() > other.power()
        } else {
            self.reading_type.rank() > other.reading_type.rank()
        }
    }
}

/// The index of the source chosen for a component among the first `n`, or -1.
pub open spec fn best_index(readings: Seq<SourceReading>, component: Component, n: int) -> int
    decreases n,
{
    if n <= 0 {
        -1
    } else {
        let best = best_index(readings, component, n - 1);
        let r = readings[n - 1];
        if r.eligible(component) && (best < 0 || r.beats(readings[best])) {
            n - 1
        } else {
            best
        }
    }
}

/// The source chosen for a component.
pub open spec fn chosen(readings: Seq<SourceReading>, component: Component) -> int {
    best_index(readings, component, readings.len() as int)
}

/// The power chosen for a component.
pub open spec fn chosen_power(readings: Seq<SourceReading>, component: Component) -> u64 {
    let i = chosen(readings, component);
    if i >= 0 {
        readings[i].power()
    } else {
        0
    }
}

/// The name of the source chosen for a component.
pub open spec fn chosen_name(readings: Seq<SourceReading>, component: Component) -> Seq<char> {
    let i = chosen(readings, component);
    if i >= 0 {
        readings[i].name@
    } else {
        "none"@
    }
}

/// No source is preferred to the one chosen, and the one chosen is preferred to all that were
/// asked before it. Where none is chosen, none told of any power.
pub proof fn law_chosen_is_best(readings: Seq<SourceReading>, component: Component, n: int)
    requires
        0 <= n <= readings.len(),
    ensures
        ({
            let b = best_index(readings, component, n);
            &&& -1 <= b < n
            &&& b >= 0 ==> readings[b].eligible(component)
            &&& forall|j: int|
                0 <= j < n && #[trigger] readings[j].eligible(component) ==> b >= 0
                    && !readings[j].beats(readings[b]) && (j < b ==> readings[b].beats(readings[j]))
        }),
    decreases n,
{
    if n > 0 {
        law_chosen_is_best(readings, component, n - 1);
    }
}

fn rank(t: ReadingType) -> (r: u8)
    ensures
        r == t.rank(),
{
    match t {
        ReadingType::Measured => 3,
        ReadingType::Estimated => 2,
        ReadingType::Derived => 1,
    }
}

fn power_of_reading(r: &SourceReading) -> (p: u64)
    ensures
        p == r.power(),
{
    match r.power_uw {
        Some(p) => p,
        None => 0,
    }
}

/// Chooses the best source for a component.
pub fn best_source(readings: &Vec<SourceReading>, component: Component) -> (r: Option<usize>)
    ensures
        match r {
            Some(i) => i == chosen(readings@, component) && i < readings@.len(),
            None => chosen(readings@, component) == -1,
        },
{
    let mut best: Option<usize> = None;
    let mut i: usize = 0;
    while i < readings.len()
        invariant
            i <= readings@.len(),
            best_index(readings@, component, i as int) == match best {
                Some(b) => b as int,
                None => -1,
            },
            best is Some ==> best->0 < i && readings@[best->0 as int].eligible(component),
        decreases readings@.len() - i,
    {
        let r: &SourceReading = &readings[i];
        let p: u64 = power_of_reading(r);
        if r.component == component && p > 0 {
            let better: bool = match best {
                None => true,
                Some(b) => if component == Component::Platform {
                    p > power_of_reading(&readings[b])
                } else {
                    rank(r.reading_type) > rank(readings[b].reading_type)
                },
            };
            if better {
                best = Some(i);
            }
        }
        i = i + 1;
    }
    best
}

/// The power of the source chosen for a component; none if there is no source.
pub fn best_power(readings: &Vec<SourceReading>, component: Component) -> (r: u64)
    ensures
        r == chosen_power(readings@, component),
{
    match best_source(readings, component) {
        Some(i) => power_of_reading(&readings[i]),
        None => 0,
    }
}

fn best_name(readings: &Vec<SourceReading>, component: Component) -> (r: String)
    ensures
        r@ == chosen_name(readings@, component),
{
    match best_source(readings, component) {
        Some(i) => readings[i].name.clone(),
        None => "none".to_owned(),
    }
}

/// The power of all components together.
pub open spec fn attributed_power(readings: Seq<SourceReading>) -> int {
    chosen_power(readings, Component::Cpu) + chosen_power(readings, Component::Memory)
        + chosen_power(readings, Component::Gpu) + chosen_power(readings, Component::Nic)
        + chosen_power(readings, Component::Storage) + chosen_power(readings, Component::Fan)
}

/// The platform's power, if any source told it.
pub open spec fn platform_reading(readings: Seq<SourceReading>) -> Option<u64> {
    if chosen(readings, Component::Platform) >= 0 {
        Some(chosen_power(readings, Component::Platform))
    } else {
        None
    }
}

/// The platform's power that no component accounts for.
pub open spec fn idle_power(platform: Option<u64>, attributed: int) -> int {
    match platform {
        Some(p) => if p > attributed {
            p - attributed
        } else {
            0
        },
        None => 0,
    }
}

/// How far the components' sum is off the platform's power, in units of 10⁻¹⁸, rounded up.
pub open spec fn error_ratio(platform: Option<u64>, attributed: int) -> int {
    match platform {
        Some(p) => if p > 0 {
            ratio_up(
                if p > attributed {
                    p - attributed
                } else {
                    attributed - p
                },
                p as int,
            )
        } else {
            0
        },
        None => 0,
    }
}

/// Whether a source counts as selected.
pub open spec fn is_selected(readings: Seq<SourceReading>, i: int) -> bool {
    match readings[i].component {
        Component::Cpu => chosen_name(readings, Component::Cpu) == readings[i].name@,
        Component::Memory => chosen_name(readings, Component::Memory) == readings[i].name@,
        Component::Gpu => chosen_power(readings, Component::Gpu) > 0 && readings[i].power() > 0,
        Component::Platform => platform_reading(readings) is Some && readings[i].power() > 0,
        _ => false,
    }
}

/// The status of one source.
pub open spec fn is_status(
    s: SourceStatus,
    node_name: Seq<char>,
    readings: Seq<SourceReading>,
    i: int,
) -> bool {
    &&& s.name@ == readings[i].name@
    &&& s.node_name@ == node_name
    &&& s.component@ == readings[i].component.text()
    &&& s.reading_type@ == readings[i].reading_type.text()
    &&& s.available == (readings[i].power() > 0)
    &&& s.selected == is_selected(readings, i)
    &&& s.power_uw == readings[i].power()
}

/// The report of a node.
pub open spec fn is_node_report(
    r: NodePowerReport,
    node_name: Seq<char>,
    readings: Seq<SourceReading>,
    pod_count: u32,
    process_count: u32,
    now_ns: u64,
) -> bool {
    &&& r.node_name@ == node_name
    &&& r.cpu_uw == chosen_power(readings, Component::Cpu)
    &&& r.memory_uw == chosen_power(readings, Component::Memory)
    &&& r.gpu_uw == chosen_power(readings, Component::Gpu)
    &&& r.platform_uw == platform_reading(readings)
    &&& r.psu_output_uw is None
    &&& r.idle_uw == idle_power(platform_reading(readings), attributed_power(readings))
    &&& r.error_ratio_atto == error_ratio(platform_reading(readings), attributed_power(readings))
    &&& r.pod_count == pod_count
    &&& r.process_count == process_count
    &&& r.timestamp_ns == now_ns
    &&& r.cpu_source@ == chosen_name(readings, Component::Cpu)
    &&& r.memory_source@ == chosen_name(readings, Component::Memory)
    &&& r.cpu_reading_type@ == (if chosen(readings, Component::Cpu) >= 0 {
        readings[chosen(readings, Component::Cpu)].reading_type.text()
    } else {
        "none"@
    })
    &&& r.sources@.len() == readings.len()
    &&& forall|i: int|
        0 <= i < readings.len() ==> is_status(#[trigger] r.sources@[i], node_name, readings, i)
}

/// Lists the status of every source.
fn list_sources(node_name: &str, readings: &Vec<SourceReading>) -> (r: Vec<SourceStatus>)
    ensures
        r@.len() == readings@.len(),
        forall|i: int|
            0 <= i < readings@.len() ==> is_status(
                #[trigger] r@[i],
                node_name@,
                readings@,
                i,
            ),
{
    let cpu_source: String = best_name(readings, Component::Cpu);
    let memory_source: String = best_name(readings, Component::Memory);
    let gpu_uw: u64 = best_power(readings, Component::Gpu);
    let has_platform: bool = best_source(readings, Component::Platform).is_some();
    let mut r: Vec<SourceStatus> = Vec::new();
    let mut i: usize = 0;
    while i < readings.len()
        invariant
            i <= readings@.len(),
            cpu_source@ == chosen_name(readings@, Component::Cpu),
            memory_source@ == chosen_name(readings@, Component::Memory),
            gpu_uw == chosen_power(readings@, Component::Gpu),
            has_platform == (chosen(readings@, Component::Platform) >= 0),
            r@.len() == i,
            forall|j: int|
                0 <= j < i ==> is_status(#[trigger] r@[j], node_name@, readings@, j),
        decreases readings@.len() - i,
    {
        let reading: &SourceReading = &readings[i];
        let power_uw: u64 = power_of_reading(reading);
        let available: bool = power_uw > 0;
        let selected: bool = match reading.component {
            Component::Cpu => same(cpu_source.as_str(), reading.name.as_str()),
            Component::Memory => same(memory_source.as_str(), reading.name.as_str()),
            Component::Gpu => gpu_uw > 0 && available,
            Component::Platform => has_platform && available,
            _ => false,
        };
        r.push(
            SourceStatus {
                name: reading.name.clone(),
                node_name: node_name.to_owned(),
                component: reading.component.name().to_owned(),
                reading_type: reading.reading_type.name().to_owned(),
                available,
                selected,
                power_uw,
            },
        );
        i = i + 1;
    }
    r
}

/// Whether the power of all components together can be held.
pub fn attributed_in_range(readings: &Vec<SourceReading>) -> (r: bool)
    ensures
        r == (attributed_power(readings@) <= u64::MAX),
{
    let sum: u128 = best_power(readings, Component::Cpu) as u128 + best_power(
        readings,
        Component::Memory,
    ) as u128 + best_power(readings, Component::Gpu) as u128 + best_power(
        readings,
        Component::Nic,
    ) as u128 + best_power(readings, Component::Storage) as u128 + best_power(
        readings,
        Component::Fan,
    ) as u128;
    sum <= u64::MAX as u128
}

/// Makes a node's report of what its sources told.
pub fn report_node(
    node_name: &str,
    readings: &Vec<SourceReading>,
    pod_count: u32,
    process_count: u32,
    now_ns: u64,
) -> (r: NodePowerReport)
    requires
        attributed_power(readings@) <= u64::MAX,
    ensures
        is_node_report(r, node_name@, readings@, pod_count, process_count, now_ns),
{
    let cpu_uw: u64 = best_power(readings, Component::Cpu);
    let memory_uw: u64 = best_power(readings, Component::Memory);
    let gpu_uw: u64 = best_power(readings, Component::Gpu);
    let io_uw: u64 = best_power(readings, Component::Nic);
    let storage_uw: u64 = best_power(readings, Component::Storage);
    let fan_uw: u64 = best_power(readings, Component::Fan);
    let attributed: u64 = cpu_uw + memory_uw + gpu_uw + io_uw + storage_uw + fan_uw;
    let platform_uw: Option<u64> = match best_source(readings, Component::Platform) {
        Some(i) => Some(power_of_reading(&readings[i])),
        None => None,
    };
    let (idle_uw, error_ratio_atto): (u64, u128) = match platform_uw {
        Some(p) => {
            let off: u64 = if p > attributed {
                p - attributed
            } else {
                attributed - p
            };
            let ratio: u128 = if p > 0 {
                divide_up(off, p)
            } else {
                0
            };
            (p.saturating_sub(attributed), ratio)
        },
        None => (0, 0),
    };
    let cpu_reading_type: String = match best_source(readings, Component::Cpu) {
        Some(i) => readings[i].reading_type.name().to_owned(),
        None => "none".to_owned(),
    };
    NodePowerReport {
        node_name: node_name.to_owned(),
        cpu_uw,
        memory_uw,
        gpu_uw,
        platform_uw,
        psu_output_uw: None,
        idle_uw,
        error_ratio_atto,
        pod_count,
        process_count,
        timestamp_ns: now_ns,
        cpu_source: best_name(readings, Component::Cpu),
        memory_source: best_name(readings, Component::Memory),
        cpu_reading_type,
        sources: list_sources(node_name, readings),
    }
}

// ─── What a report says of the readings ─────────────────────────

/// Whether a source told a component's power, and none was better: for the platform none told
/// more; for the rest none told it by a better type of reading, measured before estimated before
/// derived, nor by as good a type earlier.
pub open spec fn is_best_source(readings: Seq<SourceReading>, component: Component, i: int) -> bool {
    &&& 0 <= i < readings.len()
    &&& tells(readings[i], component)
    &&& forall|j: int|
        0 <= j < readings.len() && tells(#[trigger] readings[j], component) ==> if component
            == Component::Platform {
            readings[j].power_uw->0 <= readings[i].power_uw->0 && (j < i ==> readings[j].power_uw->0
                < readings[i].power_uw->0)
        } else {
            match readings[i].reading_type {
                ReadingType::Measured => j < i ==> readings[j].reading_type
                    != ReadingType::Measured,
                ReadingType::Estimated => readings[j].reading_type != ReadingType::Measured && (j
                    < i ==> readings[j].reading_type == ReadingType::Derived),
                ReadingType::Derived => readings[j].reading_type == ReadingType::Derived && j >= i,
            }
        }
}

/// Whether a source told some power of a component.
pub open spec fn tells(r: SourceReading, component: Component) -> bool {
    r.component == component && r.power_uw is Some && r.power_uw->0 > 0
}

/// The source chosen for a component is the best that told its power; none is chosen only where
/// none told it.
pub proof fn law_choice(readings: Seq<SourceReading>, component: Component)
    ensures
        ({
            let i = chosen(readings, component);
            if exists|j: int| 0 <= j < readings.len() && tells(#[trigger] readings[j], component) {
                &&& is_best_source(readings, component, i)
                &&& chosen_power(readings, component) == readings[i].power_uw->0
                &&& chosen_name(readings, component) == readings[i].name@
            } else {
                i < 0 && chosen_power(readings, component) == 0 && chosen_name(readings, component)
                    == "none"@
            }
        }),
{
    let i = chosen(readings, component);
    law_chosen_is_best(readings, component, readings.len() as int);
    if exists|j: int| 0 <= j < readings.len() && tells(#[trigger] readings[j], component) {
        let k = choose|j: int| 0 <= j < readings.len() && tells(#[trigger] readings[j], component);
        assert(readings[k].eligible(component));
        assert forall|j: int|
            0 <= j < readings.len() && tells(#[trigger] readings[j], component) implies if component
            == Component::Platform {
            readings[j].power_uw->0 <= readings[i].power_uw->0 && (j < i ==> readings[j].power_uw->0
                < readings[i].power_uw->0)
        } else {
            match readings[i].reading_type {
                ReadingType::Measured => j < i ==> readings[j].reading_type
                    != ReadingType::Measured,
                ReadingType::Estimated => readings[j].reading_type != ReadingType::Measured && (j
                    < i ==> readings[j].reading_type == ReadingType::Derived),
                ReadingType::Derived => readings[j].reading_type == ReadingType::Derived && j >= i,
            }
        } by {
            assert(readings[j].eligible(component));
        }
    } else if i >= 0 {
        assert(tells(readings[i], component));
    }
}

/// A node reports the power of each component as the best source told it, and as idle what of the
/// platform's power the components do not make up: idle power and that of all six components are
/// the platform's power, unless the components make more. The error ratio is what the two are
/// apart by the platform's power, in units of 10⁻¹⁸ and rounded up.
pub proof fn law_node_report(
    r: NodePowerReport,
    node_name: Seq<char>,
    readings: Seq<SourceReading>,
    pod_count: u32,
    process_count: u32,
    now_ns: u64,
)
    requires
        attributed_power(readings) <= u64::MAX,
        is_node_report(r, node_name, readings, pod_count, process_count, now_ns),
    ensures
        forall|i: int|
            #![trigger is_best_source(readings, Component::Cpu, i)]
            is_best_source(readings, Component::Cpu, i) ==> r.cpu_uw == readings[i].power_uw->0
                && r.cpu_source@ == readings[i].name@,
        forall|i: int|
            #![trigger is_best_source(readings, Component::Memory, i)]
            is_best_source(readings, Component::Memory, i) ==> r.memory_uw
                == readings[i].power_uw->0 && r.memory_source@ == readings[i].name@,
        forall|i: int|
            #![trigger is_best_source(readings, Component::Gpu, i)]
            is_best_source(readings, Component::Gpu, i) ==> r.gpu_uw == readings[i].power_uw->0,
        forall|i: int|
            #![trigger is_best_source(readings, Component::Platform, i)]
            is_best_source(readings, Component::Platform, i) ==> r.platform_uw == Some(
                readings[i].power_uw->0,
            ),
        (forall|i: int|
            0 <= i < readings.len() ==> !tells(#[trigger] readings[i], Component::Platform))
            ==> r.platform_uw is None && r.idle_uw == 0 && r.error_ratio_atto == 0,
        r.platform_uw is Some ==> ({
            let sum = r.cpu_uw + r.memory_uw + r.gpu_uw + chosen_power(readings, Component::Nic)
                + chosen_power(readings, Component::Storage) + chosen_power(
                readings,
                Component::Fan,
            );
            let p = r.platform_uw->0;
            let gap = if sum <= p {
                p - sum
            } else {
                sum - p
            };
            &&& p > 0
            &&& sum <= p ==> r.idle_uw + sum == p
            &&& sum > p ==> r.idle_uw == 0
            &&& (r.error_ratio_atto - 1) * p < gap * 1_000_000_000_000_000_000
                <= r.error_ratio_atto * p
        }),
        r.pod_count == pod_count && r.process_count == process_count && r.timestamp_ns == now_ns,
        r.node_name@ == node_name,
{
    lemma_best_unique(readings, Component::Cpu);
    lemma_best_unique(readings, Component::Memory);
    lemma_best_unique(readings, Component::Gpu);
    lemma_best_unique(readings, Component::Platform);
    law_choice(readings, Component::Platform);
    if let Some(p) = r.platform_uw {
        let sum = attributed_power(readings);
        let gap = if p > sum {
            p - sum
        } else {
            sum - p
        };
        law_ratio_up(gap, p as int);
    }
}

proof fn lemma_best_unique(readings: Seq<SourceReading>, component: Component)
    ensures
        forall|i: int|
            #![trigger is_best_source(readings, component, i)]
            is_best_source(readings, component, i) ==> i == chosen(readings, component)
                && chosen_power(readings, component) == readings[i].power_uw->0 && chosen_name(
                readings,
                component,
            ) == readings[i].name@,
{
    assert forall|i: int|
        #![trigger is_best_source(readings, component, i)]
        is_best_source(readings, component, i) implies i == chosen(readings, component)
            && chosen_power(readings, component) == readings[i].power_uw->0 && chosen_name(
            readings,
            component,
        ) == readings[i].name@ by {
        law_choice(readings, component);
        let c = chosen(readings, component);
        assert(tells(readings[i], component));
        assert(tells(readings[c], component));
        assert(is_best_source(readings, component, c));
    }
}

/// A counter's power over the interval makes the energy that it advanced by since it was last
/// read, but for less than what a microwatt more would; read for the first time it tells none. A
/// reading without a counter tells its own power.
pub proof fn law_reading_power(prev: Option<u64>, reading: PowerReading, interval_ns: u64)
    requires
        reading_sane(prev, reading),
        interval_ns >= 1_000_000_000,
    ensures
        ({
            let p = reading_power(prev, reading, interval_ns);
            match reading.energy_uj {
                Some(curr) => match prev {
                    Some(last) => {
                        let advanced = if curr >= last {
                            curr - last
                        } else if reading.max_energy_uj > 0 {
                            reading.max_energy_uj - last + curr
                        } else {
                            curr as int
                        };
                        p * interval_ns <= advanced * 1_000_000_000 < (p + 1) * interval_ns
                    },
                    None => p == 0,
                },
                None => match reading.power_uw {
                    Some(w) => p == w,
                    None => p == 0,
                },
            }
        }),
{
    if let Some(curr) = reading.energy_uj {
        let last = match prev {
            Some(l) => l,
            None => curr,
        };
        let d = counter_delta(last as int, curr as int, reading.max_energy_uj as int);
        let t = interval_ns as int;
        law_power(d, t);
        let p = power_of(d, t);
        assert(p <= u64::MAX) by (nonlinear_arith)
            requires
                p * t <= d * 1_000_000_000,
                d <= u64::MAX,
                1_000_000_000 <= t,
        ;
        vstd::arithmetic::div_mod::lemma_small_mod(p as nat, 0x1_0000_0000_0000_0000);
        if prev is None {
            vstd::arithmetic::div_mod::lemma_div_basics(t);
        }
    }
}

/// A source's status tells its name, its component, its power, and that it is there where it told
/// some power.
pub proof fn law_source_status(
    s: SourceStatus,
    node_name: Seq<char>,
    readings: Seq<SourceReading>,
    i: int,
)
    requires
        0 <= i < readings.len(),
        is_status(s, node_name, readings, i),
    ensures
        s.name@ == readings[i].name@,
        s.node_name@ == node_name,
        s.component@ == readings[i].component.text(),
        s.available <==> tells(readings[i], readings[i].component),
        s.available ==> s.power_uw == readings[i].power_uw->0,
        !s.available ==> s.power_uw == 0,
        is_best_source(readings, Component::Cpu, i) || is_best_source(
            readings,
            Component::Memory,
            i,
        ) || is_best_source(readings, Component::Gpu, i) || is_best_source(
            readings,
            Component::Platform,
            i,
        ) ==> s.selected,
        s.selected && s.component@ == readings[i].component.text() && readings[i].component
            == Component::Gpu ==> s.available,
{
    lemma_best_unique(readings, Component::Cpu);
    lemma_best_unique(readings, Component::Memory);
    lemma_best_unique(readings, Component::Gpu);
    lemma_best_unique(readings, Component::Platform);
}

/// A source says how it reads. Of the processor's and the memory's sources those are marked that
/// bear the name of the best, of accelerators and the platform all that tell power, and no others.
pub proof fn law_marked_sources(
    s: SourceStatus,
    node_name: Seq<char>,
    readings: Seq<SourceReading>,
    i: int,
    j: int,
)
    requires
        0 <= i < readings.len(),
        is_status(s, node_name, readings, i),
    ensures
        s.reading_type@ == readings[i].reading_type.text(),
        readings[i].component == Component::Cpu && is_best_source(readings, Component::Cpu, j)
            ==> (s.selected <==> readings[i].name@ == readings[j].name@),
        readings[i].component == Component::Memory && is_best_source(readings, Component::Memory, j)
            ==> (s.selected <==> readings[i].name@ == readings[j].name@),
        readings[i].component == Component::Gpu ==> (s.selected <==> tells(
            readings[i],
            Component::Gpu,
        )),
        readings[i].component == Component::Platform ==> (s.selected <==> tells(
            readings[i],
            Component::Platform,
        )),
        readings[i].component == Component::Nic || readings[i].component == Component::Storage
            || readings[i].component == Component::Fan ==> !s.selected,
{
    law_choice(readings, Component::Cpu);
    law_choice(readings, Component::Memory);
    law_choice(readings, Component::Gpu);
    law_choice(readings, Component::Platform);
    let n = readings.len() as int;
    law_chosen_is_best(readings, Component::Gpu, n);
    law_chosen_is_best(readings, Component::Platform, n);
    lemma_one_best(readings, Component::Cpu, chosen(readings, Component::Cpu), j);
    lemma_one_best(readings, Component::Memory, chosen(readings, Component::Memory), j);
    if is_best_source(readings, Component::Cpu, j) {
        assert(tells(readings[j], Component::Cpu));
    }
    if is_best_source(readings, Component::Memory, j) {
        assert(tells(readings[j], Component::Memory));
    }
    if readings[i].component == Component::Gpu && tells(readings[i], Component::Gpu) {
        assert(readings[i].eligible(Component::Gpu));
    }
    if readings[i].component == Component::Platform && tells(readings[i], Component::Platform) {
        assert(readings[i].eligible(Component::Platform));
    }
}

proof fn lemma_one_best(readings: Seq<SourceReading>, component: Component, a: int, b: int)
    ensures
        is_best_source(readings, component, a) && is_best_source(readings, component, b) ==> a == b,
{
    if is_best_source(readings, component, a) && is_best_source(readings, component, b) {
        assert(tells(readings[a], component));
        assert(tells(readings[b], component));
    }
}

/// The processor's power is read as its best source reads.
pub proof fn law_processor_reading(
    r: NodePowerReport,
    node_name: Seq<char>,
    readings: Seq<SourceReading>,
    pod_count: u32,
    process_count: u32,
    now_ns: u64,
    j: int,
)
    requires
        is_node_report(r, node_name, readings, pod_count, process_count, now_ns),
    ensures
        is_best_source(readings, Component::Cpu, j) ==> r.cpu_reading_type@
            == readings[j].reading_type.text(),
        (forall|i: int| 0 <= i < readings.len() ==> !tells(#[trigger] readings[i], Component::Cpu))
            ==> r.cpu_reading_type@ == "none"@ && r.cpu_source@ == "none"@ && r.cpu_uw == 0,
        r.sources@.len() == readings.len(),
        r.psu_output_uw is None,
{
    law_choice(readings, Component::Cpu);
    lemma_one_best(readings, Component::Cpu, chosen(readings, Component::Cpu), j);
    if is_best_source(readings, Component::Cpu, j) {
        assert(tells(readings[j], Component::Cpu));
    }
}

} // verus!
