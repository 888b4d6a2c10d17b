//! Gathering the sources of all kinds.

use super::gpu::DcgmGpuSource;
use super::hwmon::HwmonSource;
use super::platform::RedfishSource;
use super::rapl::RaplSource;
use super::source::{
    Component, Fault, Granularity, PowerReading, PowerSource, Quantities, ReadingType, SourceError,
    SourceFacts, SourceId,
};
use vstd::prelude::*;

verus! {

/// A power source of any kind.
#[derive(Debug)]
pub enum AnySource {
    Rapl(RaplSource),
    Hwmon(HwmonSource),
    Gpu(DcgmGpuSource),
    Platform(RedfishSource),
}

impl PowerSource for AnySource {
    open spec fn facts(&self) -> SourceFacts {
        match self {
            AnySource::Rapl(s) => s.facts(),
            AnySource::Hwmon(s) => s.facts(),
            AnySource::Gpu(s) => s.facts(),
            AnySource::Platform(s) => s.facts(),
        }
    }

    open spec fn wanted(&self) -> Seq<Seq<char>> {
        match self {
            AnySource::Rapl(s) => s.wanted(),
            AnySource::Hwmon(s) => s.wanted(),
            AnySource::Gpu(s) => s.wanted(),
            AnySource::Platform(s) => s.wanted(),
        }
    }

    open spec fn outcome(&self, raw: Seq<Option<Seq<char>>>) -> Result<Quantities, Fault> {
        match self {
            AnySource::Rapl(s) => s.outcome(raw),
            AnySource::Hwmon(s) => s.outcome(raw),
            AnySource::Gpu(s) => s.outcome(raw),
            AnySource::Platform(s) => s.outcome(raw),
        }
    }

    fn id(&self) -> (r: &SourceId) {
        match self {
            AnySource::Rapl(s) => s.id(),
            AnySource::Hwmon(s) => s.id(),
            AnySource::Gpu(s) => s.id(),
            AnySource::Platform(s) => s.id(),
        }
    }

    fn name(&self) -> (r: &str) {
        match self {
            AnySource::Rapl(s) => s.name(),
            AnySource::Hwmon(s) => s.name(),
            AnySource::Gpu(s) => s.name(),
            AnySource::Platform(s) => s.name(),
        }
    }

    fn component(&self) -> (r: Component) {
        match self {
            AnySource::Rapl(s) => s.component(),
            AnySource::Hwmon(s) => s.component(),
            AnySource::Gpu(s) => s.component(),
            AnySource::Platform(s) => s.component(),
        }
    }

    fn granularity(&self) -> (r: Granularity) {
        match self {
            AnySource::Rapl(s) => s.granularity(),
            AnySource::Hwmon(s) => s.granularity(),
            AnySource::Gpu(s) => s.granularity(),
            AnySource::Platform(s) => s.granularity(),
        }
    }

    fn reading_type(&self) -> (r: ReadingType) {
        match self {
            AnySource::Rapl(s) => s.reading_type(),
            AnySource::Hwmon(s) => s.reading_type(),
            AnySource::Gpu(s) => s.reading_type(),
            AnySource::Platform(s) => s.reading_type(),
        }
    }

    fn default_poll_interval(&self) -> (r: u64) {
        match self {
            AnySource::Rapl(s) => s.default_poll_interval(),
            AnySource::Hwmon(s) => s.default_poll_interval(),
            AnySource::Gpu(s) => s.default_poll_interval(),
            AnySource::Platform(s) => s.default_poll_interval(),
        }
    }

    fn inputs(&self) -> (r: Vec<String>) {
        match self {
            AnySource::Rapl(s) => s.inputs(),
            AnySource::Hwmon(s) => s.inputs(),
            AnySource::Gpu(s) => s.inputs(),
            AnySource::Platform(s) => s.inputs(),
        }
    }

    fn read(&self, raw: &Vec<Option<String>>, now_ns: u64) -> (r: Result<
        PowerReading,
        SourceError,
    >) {
        match self {
            AnySource::Rapl(s) => s.read(raw, now_ns),
            AnySource::Hwmon(s) => s.read(raw, now_ns),
            AnySource::Gpu(s) => s.read(raw, now_ns),
            AnySource::Platform(s) => s.read(raw, now_ns),
        }
    }
}

/// The sources that a discovery found; none if it failed.
pub open spec fn found<S>(r: Result<Vec<S>, SourceError>) -> Seq<S> {
    match r {
        Ok(v) => v@,
        Err(_) => Seq::empty(),
    }
}

/// Adds the sources that a discovery found.
fn add_rapl(sources: &mut Vec<AnySource>, r: Result<Vec<RaplSource>, SourceError>)
    ensures
        final(sources)@ == old(sources)@ + found(r).map_values(|s: RaplSource| AnySource::Rapl(s)),
{
    let ghost before = sources@;
    let ghost all = found(r).map_values(|s: RaplSource| AnySource::Rapl(s));
    match r {
        Ok(v) => {
            let ghost given = v@;
            assert(before + all.take(0) =~= before);
            for s in it: v.into_iter()
                invariant
                    it.seq() == given,
                    all == given.map_values(|s: RaplSource| AnySource::Rapl(s)),
                    sources@ == before + all.take(it.index() as int),
            {
                let ghost i = it.index() as int;
                sources.push(AnySource::Rapl(s));
                assert(sources@ =~= before + all.take(i + 1));
            }
            assert(all.take(given.len() as int) =~= all);
        },
        Err(_) => {
            assert(before + all =~= before);
        },
    }
}

/// Adds the sources that a discovery found.
fn add_hwmon(sources: &mut Vec<AnySource>, r: Result<Vec<HwmonSource>, SourceError>)
    ensures
        final(sources)@ == old(sources)@ + found(r).map_values(|s: HwmonSource| AnySource::Hwmon(s)),
{
    let ghost before = sources@;
    let ghost all = found(r).map_values(|s: HwmonSource| AnySource::Hwmon(s));
    match r {
        Ok(v) => {
            let ghost given = v@;
            assert(before + all.take(0) =~= before);
            for s in it: v.into_iter()
                invariant
                    it.seq() == given,
                    all == given.map_values(|s: HwmonSource| AnySource::Hwmon(s)),
                    sources@ == before + all.take(it.index() as int),
            {
                let ghost i = it.index() as int;
                sources.push(AnySource::Hwmon(s));
                assert(sources@ =~= before + all.take(i + 1));
            }
            assert(all.take(given.len() as int) =~= all);
        },
        Err(_) => {
            assert(before + all =~= before);
        },
    }
}

/// Adds the sources that a discovery found.
fn add_gpu(sources: &mut Vec<AnySource>, r: Result<Vec<DcgmGpuSource>, SourceError>)
    ensures
        final(sources)@ == old(sources)@ + found(r).map_values(|s: DcgmGpuSource| AnySource::Gpu(s)),
{
    let ghost before = sources@;
    let ghost all = found(r).map_values(|s: DcgmGpuSource| AnySource::Gpu(s));
    match r {
        Ok(v) => {
            let ghost given = v@;
            assert(before + all.take(0) =~= before);
            for s in it: v.into_iter()
                invariant
                    it.seq() == given,
                    all == given.map_values(|s: DcgmGpuSource| AnySource::Gpu(s)),
                    sources@ == before + all.take(it.index() as int),
            {
                let ghost i = it.index() as int;
                sources.push(AnySource::Gpu(s));
                assert(sources@ =~= before + all.take(i + 1));
            }
            assert(all.take(given.len() as int) =~= all);
        },
        Err(_) => {
            assert(before + all =~= before);
        },
    }
}

/// Adds the sources that a discovery found.
fn add_platform(sources: &mut Vec<AnySource>, r: Result<Vec<RedfishSource>, SourceError>)
    ensures
        final(sources)@ == old(sources)@ + found(r).map_values(|s: RedfishSource| AnySource::Platform(s)),
{
    let ghost before = sources@;
    let ghost all = found(r).map_values(|s: RedfishSource| AnySource::Platform(s));
    match r {
        Ok(v) => {
            let ghost given = v@;
            assert(before + all.take(0) =~= before);
            for s in it: v.into_iter()
                invariant
                    it.seq() == given,
                    all == given.map_values(|s: RedfishSource| AnySource::Platform(s)),
                    sources@ == before + all.take(it.index() as int),
            {
                let ghost i = it.index() as int;
                sources.push(AnySource::Platform(s));
                assert(sources@ =~= before + all.take(i + 1));
            }
            assert(all.take(given.len() as int) =~= all);
        },
        Err(_) => {
            assert(before + all =~= before);
        },
    }
}

/// Gathers the sources of all kinds: CPU packages, memory, sensors, GPUs and the platform's, in
/// this order. A kind whose discovery failed has none.
pub fn discover_sources(
    rapl: Result<Vec<RaplSource>, SourceError>,
    dram: Result<Vec<RaplSource>, SourceError>,
    hwmon: Result<Vec<HwmonSource>, SourceError>,
    gpu: Result<Vec<DcgmGpuSource>, SourceError>,
    platform: Result<Vec<RedfishSource>, SourceError>,
) -> (r: Vec<AnySource>)
    ensures
        r@ == found(rapl).map_values(|s: RaplSource| AnySource::Rapl(s)) + found(dram).map_values(
            |s: RaplSource| AnySource::Rapl(s),
        ) + found(hwmon).map_values(|s: HwmonSource| AnySource::Hwmon(s)) + found(gpu).map_values(
            |s: DcgmGpuSource| AnySource::Gpu(s),
        ) + found(platform).map_values(|s: RedfishSource| AnySource::Platform(s)),
{
    let mut r: Vec<AnySource> = Vec::new();
    let ghost first = found(rapl).map_values(|s: RaplSource| AnySource::Rapl(s));
    add_rapl(&mut r, rapl);
    assert(r@ =~= first);
    add_rapl(&mut r, dram);
    add_hwmon(&mut r, hwmon);
    add_gpu(&mut r, gpu);
    add_platform(&mut r, platform);
    r
}

} // verus!
