//! What the controller answers to requests.

use super::access::{
    authorized, check_auth, data_quality, is_data_quality, report_fault, validate_report,
    DataQuality,
};
use super::aggregator::{AgentReport, ClusterAggregator, PodPowerReport, SourceStatus};
use super::queries::{
    first_cpu_source, first_memory_source, is_summary, sources_of, ClusterPower, NodeSummary,
};
use crate::table::lookup;
use vstd::prelude::*;

verus! {

/// The status of a request without a valid key.
pub const UNAUTHORIZED: u16 = 401;

/// The status of a request that is not valid.
pub const BAD_REQUEST: u16 = 400;

/// The status of a request for something that is not known.
pub const NOT_FOUND: u16 = 404;

/// Why a request is refused.
#[derive(Debug)]
pub struct Refusal {
    pub status: u16,
    pub reason: String,
}

/// What is refused of a report, by the header that it came with: its sender comes first, then what
/// it says.
pub open spec fn refusal_of(
    header: Option<Seq<char>>,
    api_key: Option<Seq<char>>,
    report: AgentReport,
) -> Option<(u16, Seq<char>)> {
    if !authorized(header, api_key) {
        Some((UNAUTHORIZED, "unauthorized"@))
    } else {
        match report_fault(report) {
            Some(reason) => Some((BAD_REQUEST, reason)),
            None => None,
        }
    }
}

/// Takes in an agent's report, if it may report and its report is valid. A refused report changes
/// nothing.
pub fn handle_report(
    agg: &mut ClusterAggregator,
    header: Option<&str>,
    api_key: &Option<String>,
    report: AgentReport,
    now: u64,
    wall: u64,
) -> (r: Result<(), Refusal>)
    requires
        old(agg).well_formed(),
    ensures
        final(agg).well_formed(),
        ({
            let refused = refusal_of(
                match header {
                    Some(h) => Some(h@),
                    None => None,
                },
                match api_key {
                    Some(k) => Some(k@),
                    None => None,
                },
                report,
            );
            match r {
                Err(e) => refused == Some((e.status, e.reason@)) && *final(agg) == *old(agg),
                Ok(()) => refused is None && old(agg).becomes(*final(agg), report, now, wall),
            }
        }),
{
    match check_auth(header, api_key) {
        Ok(()) => {},
        Err(e) => {
            return Err(Refusal { status: UNAUTHORIZED, reason: "unauthorized".to_owned() });
        },
    }
    match validate_report(&report) {
        Ok(()) => {},
        Err(reason) => {
            return Err(Refusal { status: BAD_REQUEST, reason });
        },
    }
    agg.ingest(report, now, wall);
    Ok(())
}

/// The cluster-wide power summary.
#[derive(Debug)]
pub struct ClusterResponse<'a> {
    pub power: ClusterPower,
    pub nodes: Vec<NodeSummary>,
    pub sources: Vec<&'a SourceStatus>,
    pub data_quality: DataQuality,
}

/// The cluster's power with its nodes, its sources and how good its data is.
pub fn handle_cluster(agg: &ClusterAggregator, now: u64) -> (r: ClusterResponse<'_>)
    requires
        agg.totals_fit(),
        agg.parts_fit(),
    ensures
        agg.is_cluster_power(r.power),
        r.nodes@.len() == agg.nodes@.len(),
        forall|i: int|
            0 <= i < r.nodes@.len() ==> is_summary(#[trigger] r.nodes@[i], agg.nodes@[i].1, now),
        r.sources@.len() == sources_of(agg.nodes@).len(),
        forall|i: int|
            0 <= i < r.sources@.len() ==> *(#[trigger] r.sources@[i]) == sources_of(
                agg.nodes@,
            )[i],
        is_data_quality(
            r.data_quality,
            r.power,
            first_cpu_source(agg.nodes@).0,
            first_cpu_source(agg.nodes@).1,
            first_memory_source(agg.nodes@),
        ),
{
    let power: ClusterPower = agg.cluster_power();
    let cpu: (String, String) = agg.cpu_source_info();
    let memory: String = agg.memory_source_info();
    let quality: DataQuality = data_quality(
        &power,
        cpu.0.as_str(),
        cpu.1.as_str(),
        memory.as_str(),
    );
    ClusterResponse {
        power,
        nodes: agg.node_summaries(now),
        sources: agg.all_sources(),
        data_quality: quality,
    }
}

/// The summary of one node, or that it is not known. A request without a name asks for the node
/// without a name.
pub fn handle_node(agg: &ClusterAggregator, name: Option<&str>, now: u64) -> (r: Result<
    NodeSummary,
    u16,
>)
    requires
        agg.parts_fit(),
    ensures
        ({
            let key = match name {
                Some(n) => n@,
                None => ""@,
            };
            match r {
                Ok(s) => lookup(agg.nodes@, key) is Some && is_summary(
                    s,
                    lookup(agg.nodes@, key)->0,
                    now,
                ),
                Err(status) => status == NOT_FOUND && lookup(agg.nodes@, key) is None,
            }
        }),
{
    let key: &str = match name {
        Some(n) => n,
        None => "",
    };
    match agg.node_summary(key, now) {
        Some(s) => Ok(s),
        None => Err(NOT_FOUND),
    }
}

/// The power of one pod, or that it is not known. A request without a UID asks for the pod without
/// one.
pub fn handle_pod<'a>(agg: &'a ClusterAggregator, uid: Option<&str>) -> (r: Result<
    &'a PodPowerReport,
    u16,
>)
    ensures
        ({
            let key = match uid {
                Some(n) => n@,
                None => ""@,
            };
            match r {
                Ok(p) => lookup(agg.pods@, key) is Some && *p == lookup(agg.pods@, key)->0.report,
                Err(status) => status == NOT_FOUND && lookup(agg.pods@, key) is None,
            }
        }),
{
    let key: &str = match uid {
        Some(n) => n,
        None => "",
    };
    match agg.pod_power(key) {
        Some(p) => Ok(p),
        None => Err(NOT_FOUND),
    }
}

/// A report is refused if and only if its sender does not bear the key or it breaks a limit. A
/// sender without the key is told 401, whatever the report says; one with it is told 400.
pub proof fn law_refusals(
    header: Option<Seq<char>>,
    api_key: Option<Seq<char>>,
    report: AgentReport,
)
    ensures
        api_key is Some && header != Some("Bearer "@ + api_key->0) ==> {
            match refusal_of(header, api_key, report) {
                Some(r) => r.0 == 401,
                None => false,
            }
        },
        api_key is None || header == Some("Bearer "@ + api_key->0) ==> {
            match refusal_of(header, api_key, report) {
                Some(r) => r.0 == 400 && report_fault(report) == Some(r.1),
                None => report_fault(report) is None,
            }
        },
{
}

} // verus!
