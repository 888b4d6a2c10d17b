//! Who may report, what a report may say, and how good the data is.

use super::aggregator::{AgentReport, NodePowerReport, PodPowerReport};
use super::queries::ClusterPower;
use crate::text::{contains_text, decimal, decimal_text, holds_text, joined, same};
use vstd::prelude::*;
use vstd::string::*;
use vstd::utf8::*;

verus! {

/// That a request bears no valid key.
#[derive(Clone, Copy, Debug, PartialEq, Eq, Structural)]
pub struct Unauthorized;

/// Whether a request with an authorization header may report: no key is configured, or the header
/// bears it.
pub open spec fn authorized(header: Option<Seq<char>>, api_key: Option<Seq<char>>) -> bool {
    match api_key {
        None => true,
        Some(key) => header == Some("Bearer "@ + key),
    }
}

/// Validates the bearer token against the configured API key.
pub fn check_auth(header: Option<&str>, api_key: &Option<String>) -> (r: Result<(), Unauthorized>)
    ensures
        r is Ok <==> authorized(
            match header {
                Some(h) => Some(h@),
                None => None,
            },
            match api_key {
                Some(k) => Some(k@),
                None => None,
            },
        ),
{
    let expected: &String = match api_key {
        Some(key) => key,
        None => {
            return Ok(());
        },
    };
    match header {
        Some(h) => if same(h, joined("Bearer ", expected.as_str()).as_str()) {
            Ok(())
        } else {
            Err(Unauthorized)
        },
        None => Err(Unauthorized),
    }
}

/// Max pods per report: no real node has more than this.
pub const MAX_PODS_PER_REPORT: usize = 2000;

/// Max length of names in bytes (DNS names are limited to 253).
pub const MAX_NAME_LEN: usize = 512;

/// Max power per component in microwatts (100 kW: no single server draws more).
pub const MAX_POWER_UW: u64 = 100_000_000_000;

/// How many bytes a text takes.
pub open spec fn byte_len(s: Seq<char>) -> usize {
    encode_utf8(s).len() as usize
}

fn bytes_in(s: &String) -> (r: usize)
    ensures
        r == byte_len(s@),
{
    s.as_str().len()
}

/// What is wrong with a pod in a report.
pub open spec fn pod_fault(p: PodPowerReport) -> Option<Seq<char>> {
    if p.pod_uid@.len() == 0 || byte_len(p.pod_uid@) > MAX_NAME_LEN {
        Some("invalid pod_uid length: "@ + decimal(byte_len(p.pod_uid@) as int))
    } else if byte_len(p.pod_name@) > MAX_NAME_LEN {
        Some("pod_name too long: "@ + decimal(byte_len(p.pod_name@) as int))
    } else if byte_len(p.namespace@) > MAX_NAME_LEN {
        Some("namespace too long: "@ + decimal(byte_len(p.namespace@) as int))
    } else if p.total_uw > MAX_POWER_UW {
        Some("pod "@ + p.pod_uid@ + " total_uw exceeds max: "@ + decimal(p.total_uw as int))
    } else {
        None
    }
}

/// What is wrong with the first pod from `from` on that has a fault.
pub open spec fn pods_fault(pods: Seq<PodPowerReport>, from: int) -> Option<Seq<char>>
    decreases pods.len() - from,
{
    if from < 0 || from >= pods.len() {
        None
    } else if pod_fault(pods[from]) is Some {
        pod_fault(pods[from])
    } else {
        pods_fault(pods, from + 1)
    }
}

/// What is wrong with a report: the first fault found.
pub open spec fn report_fault(report: AgentReport) -> Option<Seq<char>> {
    let node = report.node;
    if node.node_name@.len() == 0 || byte_len(node.node_name@) > MAX_NAME_LEN {
        Some("invalid node_name length: "@ + decimal(byte_len(node.node_name@) as int))
    } else if node.cpu_uw > MAX_POWER_UW {
        Some("cpu_uw exceeds max: "@ + decimal(node.cpu_uw as int))
    } else if node.memory_uw > MAX_POWER_UW {
        Some("memory_uw exceeds max: "@ + decimal(node.memory_uw as int))
    } else if node.gpu_uw > MAX_POWER_UW {
        Some("gpu_uw exceeds max: "@ + decimal(node.gpu_uw as int))
    } else if report.pods@.len() > MAX_PODS_PER_REPORT {
        Some("too many pods: "@ + decimal(report.pods@.len() as int) + " (max 2000)"@)
    } else {
        pods_fault(report.pods@, 0)
    }
}

fn numbered(text: &str, n: u64) -> (r: String)
    ensures
        r@ == text@ + decimal(n as int),
{
    joined(text, decimal_text(n).as_str())
}

fn check_pod(p: &PodPowerReport) -> (r: Result<(), String>)
    ensures
        pod_fault(*p) == match r {
            Ok(()) => None,
            Err(e) => Some(e@),
        },
{
    let uid_len: usize = bytes_in(&p.pod_uid);
    if p.pod_uid.as_str().is_empty() || uid_len > MAX_NAME_LEN {
        return Err(numbered("invalid pod_uid length: ", uid_len as u64));
    }
    let name_len: usize = bytes_in(&p.pod_name);
    if name_len > MAX_NAME_LEN {
        return Err(numbered("pod_name too long: ", name_len as u64));
    }
    let ns_len: usize = bytes_in(&p.namespace);
    if ns_len > MAX_NAME_LEN {
        return Err(numbered("namespace too long: ", ns_len as u64));
    }
    if p.total_uw > MAX_POWER_UW {
        return Err(
            joined("pod ", p.pod_uid.as_str()).concat(" total_uw exceeds max: ").concat(
                decimal_text(p.total_uw).as_str(),
            ),
        );
    }
    Ok(())
}

/// Validates an agent report before it is taken in.
pub fn validate_report(report: &AgentReport) -> (r: Result<(), String>)
    ensures
        report_fault(*report) == match r {
            Ok(()) => None,
            Err(e) => Some(e@),
        },
{
    let node: &NodePowerReport = &report.node;
    let name_len: usize = bytes_in(&node.node_name);
    if node.node_name.as_str().is_empty() || name_len > MAX_NAME_LEN {
        return Err(numbered("invalid node_name length: ", name_len as u64));
    }
    if node.cpu_uw > MAX_POWER_UW {
        return Err(numbered("cpu_uw exceeds max: ", node.cpu_uw));
    }
    if node.memory_uw > MAX_POWER_UW {
        return Err(numbered("memory_uw exceeds max: ", node.memory_uw));
    }
    if node.gpu_uw > MAX_POWER_UW {
        return Err(numbered("gpu_uw exceeds max: ", node.gpu_uw));
    }
    if report.pods.len() > MAX_PODS_PER_REPORT {
        return Err(numbered("too many pods: ", report.pods.len() as u64).concat(" (max 2000)"));
    }
    let mut i: usize = 0;
    while i < report.pods.len()
        invariant
            i <= report.pods@.len(),
            report_fault(*report) == pods_fault(report.pods@, i as int),
        decreases report.pods@.len() - i,
    {
        match check_pod(&report.pods[i]) {
            Ok(()) => {},
            Err(e) => {
                return Err(e);
            },
        }
        i = i + 1;
    }
    Ok(())
}

/// A report without a fault keeps to every limit.
pub proof fn law_valid_report_within_limits(report: AgentReport, i: int)
    requires
        report_fault(report) is None,
    ensures
        0 < report.node.node_name@.len() && byte_len(report.node.node_name@) <= MAX_NAME_LEN,
        report.node.cpu_uw <= MAX_POWER_UW,
        report.node.memory_uw <= MAX_POWER_UW,
        report.node.gpu_uw <= MAX_POWER_UW,
        report.pods@.len() <= MAX_PODS_PER_REPORT,
        0 <= i < report.pods@.len() ==> pod_fault(report.pods@[i]) is None
            && report.pods@[i].total_uw <= MAX_POWER_UW,
{
    if 0 <= i < report.pods@.len() {
        lemma_pods_fault(report.pods@, 0, i);
    }
}

proof fn lemma_pods_fault(pods: Seq<PodPowerReport>, from: int, i: int)
    requires
        0 <= from <= i < pods.len(),
        pods_fault(pods, from) is None,
    ensures
        pod_fault(pods[i]) is None,
    decreases i - from,
{
    if from < i {
        lemma_pods_fault(pods, from + 1, i);
    }
}

// ─── Data quality ───────────────────────────────────────────────

/// What is said of how good a component's data is.
#[derive(Debug)]
pub struct Quality {
    pub source: String,
    pub kind: String,
    pub available: bool,
}

/// What a [`Quality`] says.
pub open spec fn is_quality(q: Quality, source: Seq<char>, kind: Seq<char>, available: bool) -> bool {
    q.source@ == source && q.kind@ == kind && q.available == available
}

/// How good the cluster's data is.
#[derive(Debug)]
pub struct DataQuality {
    pub cpu: Quality,
    pub memory: Quality,
    pub gpu: Quality,
    pub platform: Quality,
    pub platform_note: String,
    pub missing_ground_truth: bool,
    pub missing_gpu: bool,
    pub message: String,
}

/// How good the cluster's data is, by its power and by what the sources are called.
pub open spec fn is_data_quality(
    q: DataQuality,
    power: ClusterPower,
    cpu_source: Seq<char>,
    cpu_type: Seq<char>,
    memory_source: Seq<char>,
) -> bool {
    &&& is_quality(q.cpu, cpu_source, cpu_type, power.cpu_uw > 0)
    &&& is_quality(
        q.memory,
        memory_source,
        if holds_text(memory_source, "Redfish"@) {
            "measured"@
        } else if power.memory_uw > 0 {
            "estimated"@
        } else {
            "unavailable"@
        },
        power.memory_uw > 0,
    )
    &&& if power.gpu_uw > 0 {
        is_quality(q.gpu, "NVML"@, "measured"@, true)
    } else {
        is_quality(q.gpu, "none"@, "unavailable"@, false)
    }
    &&& q.missing_ground_truth == (power.platform_uw == 0)
    &&& q.missing_gpu == (power.gpu_uw == 0)
    &&& if power.platform_uw > 0 {
        &&& is_quality(q.platform, "Redfish PSU"@, "measured"@, true)
        &&& q.platform_note@ == "PSU measured power (ground truth)"@
        &&& q.message@ == "All data sources available."@
    } else {
        &&& is_quality(q.platform, "none"@, "unavailable"@, false)
        &&& q.platform_note@
            == "No PSU power source — configure Redfish/IPMI for ground truth."@
        &&& q.message@ == "No platform power source. Configure iDRAC to get measured power."@
    }
}

/// Tells how good the cluster's data is.
pub fn data_quality(
    power: &ClusterPower,
    cpu_source: &str,
    cpu_type: &str,
    memory_source: &str,
) -> (r: DataQuality)
    ensures
        is_data_quality(r, *power, cpu_source@, cpu_type@, memory_source@),
{
    let has_platform: bool = power.platform_uw > 0;
    let has_gpu: bool = power.gpu_uw > 0;
    let memory_kind: &str = if contains_text(memory_source, "Redfish") {
        "measured"
    } else if power.memory_uw > 0 {
        "estimated"
    } else {
        "unavailable"
    };
    DataQuality {
        cpu: Quality {
            source: cpu_source.to_owned(),
            kind: cpu_type.to_owned(),
            available: power.cpu_uw > 0,
        },
        memory: Quality {
            source: memory_source.to_owned(),
            kind: memory_kind.to_owned(),
            available: power.memory_uw > 0,
        },
        gpu: Quality {
            source: if has_gpu {
                "NVML".to_owned()
            } else {
                "none".to_owned()
            },
            kind: if has_gpu {
                "measured".to_owned()
            } else {
                "unavailable".to_owned()
            },
            available: has_gpu,
        },
        platform: Quality {
            source: if has_platform {
                "Redfish PSU".to_owned()
            } else {
                "none".to_owned()
            },
            kind: if has_platform {
                "measured".to_owned()
            } else {
                "unavailable".to_owned()
            },
            available: has_platform,
        },
        platform_note: if has_platform {
            "PSU measured power (ground truth)".to_owned()
        } else {
            "No PSU power source — configure Redfish/IPMI for ground truth.".to_owned()
        },
        missing_ground_truth: !has_platform,
        missing_gpu: !has_gpu,
        message: if has_platform {
            "All data sources available.".to_owned()
        } else {
            "No platform power source. Configure iDRAC to get measured power.".to_owned()
        },
    }
}

// ─── What the answers mean ──────────────────────────────────────

/// Without a key everybody may report. With one, a header suffices if and only if it is the word
/// Bearer, a space and the key; so no other key opens it.
pub proof fn law_key_decides(header: Option<Seq<char>>, key: Seq<char>, other: Seq<char>)
    ensures
        authorized(header, None),
        authorized(header, Some(key)) <==> header is Some && header->0.len() == 7 + key.len()
            && header->0.take(7) == "Bearer "@ && header->0.skip(7) == key,
        authorized(header, Some(key)) && authorized(header, Some(other)) ==> key == other,
{
    reveal_strlit("Bearer ");
    let b = "Bearer "@;
    assert((b + key).skip(7) =~= key);
    assert((b + key).take(7) =~= b);
    assert((b + other).skip(7) =~= other);
    if header is Some {
        let h = header->0;
        if h.len() == 7 + key.len() && h.take(7) == b && h.skip(7) == key {
            assert(h =~= h.take(7) + h.skip(7));
        }
    }
}

/// Whether a text takes no more than 512 bytes.
pub open spec fn fits(s: Seq<char>) -> bool {
    encode_utf8(s).len() as usize <= 512
}

/// Whether a pod in a report keeps to the limits: it has a UID, its names take no more than 512
/// bytes each and it draws no more than 100 kW.
pub open spec fn pod_keeps_limits(p: PodPowerReport) -> bool {
    p.pod_uid@.len() > 0 && fits(p.pod_uid@) && fits(p.pod_name@) && fits(p.namespace@)
        && p.total_uw <= 100_000 * 1_000_000
}

/// A report is without a fault if and only if it keeps to the limits: the node has a name of no
/// more than 512 bytes, its processor, memory and accelerators draw no more than 100 kW each, it
/// has no more than 2000 pods and each of them keeps to its own.
pub proof fn law_limits_decide(report: AgentReport)
    ensures
        report_fault(report) is None <==> {
            &&& report.node.node_name@.len() > 0
            &&& fits(report.node.node_name@)
            &&& report.node.cpu_uw <= 100_000 * 1_000_000
            &&& report.node.memory_uw <= 100_000 * 1_000_000
            &&& report.node.gpu_uw <= 100_000 * 1_000_000
            &&& report.pods@.len() <= 2_000
            &&& forall|i: int|
                0 <= i < report.pods@.len() ==> pod_keeps_limits(#[trigger] report.pods@[i])
        },
{
    lemma_pods_keep_limits(report.pods@, 0);
}

proof fn lemma_pods_keep_limits(pods: Seq<PodPowerReport>, from: int)
    requires
        0 <= from <= pods.len(),
    ensures
        pods_fault(pods, from) is None <==> forall|i: int|
            from <= i < pods.len() ==> pod_keeps_limits(#[trigger] pods[i]),
    decreases pods.len() - from,
{
    if from < pods.len() {
        lemma_pods_keep_limits(pods, from + 1);
        assert(pod_fault(pods[from]) is None <==> pod_keeps_limits(pods[from]));
    }
}

/// What is wrong with a report's pods is what is wrong with the first pod that breaks a limit.
pub proof fn law_first_pod_is_named(pods: Seq<PodPowerReport>, from: int, k: int)
    requires
        0 <= from <= k < pods.len(),
        !pod_keeps_limits(pods[k]),
        forall|i: int| from <= i < k ==> pod_keeps_limits(#[trigger] pods[i]),
    ensures
        pods_fault(pods, from) == pod_fault(pods[k]),
    decreases k - from,
{
    if from < k {
        assert(pod_keeps_limits(pods[from]));
        law_first_pod_is_named(pods, from + 1, k);
    }
}

/// A component's data is available if and only if it has power; the sources are called what they
/// were called; ground truth is missing if and only if the platform has no power.
pub proof fn law_data_quality(
    q: DataQuality,
    power: ClusterPower,
    cpu_source: Seq<char>,
    cpu_type: Seq<char>,
    memory_source: Seq<char>,
)
    requires
        is_data_quality(q, power, cpu_source, cpu_type, memory_source),
    ensures
        q.cpu.available <==> power.cpu_uw > 0,
        q.memory.available <==> power.memory_uw > 0,
        q.gpu.available <==> power.gpu_uw > 0,
        q.platform.available <==> power.platform_uw > 0,
        q.missing_ground_truth <==> power.platform_uw == 0,
        q.missing_gpu <==> power.gpu_uw == 0,
        q.cpu.source@ == cpu_source,
        q.cpu.kind@ == cpu_type,
        q.memory.source@ == memory_source,
        q.gpu.kind@ == "measured"@ <==> power.gpu_uw > 0,
        q.platform.kind@ == "measured"@ <==> power.platform_uw > 0,
        q.memory.kind@ == "measured"@ <==> holds_text(memory_source, "Redfish"@),
        q.memory.kind@ == "estimated"@ <==> !holds_text(memory_source, "Redfish"@)
            && power.memory_uw > 0,
{
    reveal_strlit("measured");
    reveal_strlit("estimated");
    reveal_strlit("unavailable");
    assert("measured"@[0] != "unavailable"@[0]);
    assert("measured"@[0] != "estimated"@[0]);
    assert("estimated"@[0] != "unavailable"@[0]);
}

} // verus!
