//! Platform power by way of Redfish, whatever the vendor of the management controller.
//!
//! For each component the best metric that the controller offers is taken: a telemetry metric
//! that a sensor mirrors, or a sensor that tells the component's percentage of the board's power.
//! The power supplies' total is always there.

use super::source::{
    raw_text, text_views, Component, Fault, Granularity, PowerReading, PowerSource, Quantities,
    ReadingType, SourceError, SourceFacts, SourceId,
};
use crate::arith::lemma_floor;
use crate::decimal::{
    amount_of, lemma_ten_to, millionth, one, read_amount, ten_power, Amount, Number,
};
use crate::wide::{lemma_natural, word_quotient, Wide};
use crate::json::{json_at, json_leaf, leaf_view, Leaf, LeafView};
use crate::text::{
    blank, chars_of, decimal, decimal_text, find_char, is_space, joined, law_trimmed,
    lemma_until_is, same, slice_of, split, split_on, trim, trimmed, until, views, whole_text,
};
use vstd::prelude::*;

verus! {

/// How a source's power is read.
#[derive(Debug)]
pub enum ReadMethod {
    /// The reading of a sensor
    SensorReading { path: String },
    /// A percentage sensor and the board's total power
    SensorPercentage { pct_path: String, total_path: String },
    /// The power consumed, by the power resource
    PowerApi { path: String },
    /// A telemetry metric, or else the sensor of its name
    TelemetryMetric { metric_id: String },
}

/// What a [`ReadMethod`] stands for.
pub enum MethodView {
    SensorReading(Seq<char>),
    SensorPercentage(Seq<char>, Seq<char>),
    PowerApi(Seq<char>),
    TelemetryMetric(Seq<char>),
}

impl View for ReadMethod {
    type V = MethodView;

    open spec fn view(&self) -> MethodView {
        match self {
            ReadMethod::SensorReading { path } => MethodView::SensorReading(path@),
            ReadMethod::SensorPercentage { pct_path, total_path } => MethodView::SensorPercentage(
                pct_path@,
                total_path@,
            ),
            ReadMethod::PowerApi { path } => MethodView::PowerApi(path@),
            ReadMethod::TelemetryMetric { metric_id } => MethodView::TelemetryMetric(metric_id@),
        }
    }
}

/// A metric of the management controller.
#[derive(Debug)]
pub struct RedfishSource {
    pub id: SourceId,
    pub display_name: String,
    pub component: Component,
    pub endpoint: String,
    pub read_method: ReadMethod,
}

/// What a [`RedfishSource`] stands for.
pub struct RedfishView {
    pub id: Seq<char>,
    pub display_name: Seq<char>,
    pub component: Component,
    pub endpoint: Seq<char>,
    pub method: MethodView,
}

impl View for RedfishSource {
    type V = RedfishView;

    open spec fn view(&self) -> RedfishView {
        RedfishView {
            id: self.id.0@,
            display_name: self.display_name@,
            component: self.component,
            endpoint: self.endpoint@,
            method: self.read_method@,
        }
    }
}

/// Where the sensors are.
pub open spec fn sensors_path() -> Seq<char> {
    "/redfish/v1/Chassis/System.Embedded.1/Sensors/"@
}

/// Where the telemetry metrics are defined.
pub open spec fn metrics_path() -> Seq<char> {
    "/redfish/v1/TelemetryService/MetricDefinitions/"@
}

// ─── Readings ───────────────────────────────────────────────────

/// The watts at one place of an answer, in units; not what is no number.
pub open spec fn watts_at(leaf: Option<LeafView>) -> Option<int> {
    match leaf {
        Some(LeafView::Number(text)) => match amount_of(text) {
            Some(Amount::Units(u)) => Some(u),
            _ => None,
        },
        _ => None,
    }
}

/// A number of watts that was read.
#[derive(Debug)]
pub struct Reading {
    pub negative: bool,
    pub size: Wide,
}

impl View for Reading {
    type V = int;

    open spec fn view(&self) -> int {
        if self.negative {
            -self.size@
        } else {
            self.size@
        }
    }
}

/// Reads the watts at one place of an answer.
pub fn read_watts(leaf: &Option<Leaf>) -> (r: Option<Reading>)
    ensures
        watts_at(leaf_view(*leaf)) == match r {
            Some(m) => Some(m@),
            None => None,
        },
{
    match leaf {
        Some(Leaf::Number(text)) => match read_amount(&chars_of(text.as_str())) {
            Some(Number::Units { negative, size }) => Some(Reading { negative, size }),
            _ => None,
        },
        _ => None,
    }
}

/// The power of watts in units, in microwatts. Power cannot be negative.
pub open spec fn as_power(units: int) -> u64 {
    word_quotient(units, millionth()) as u64
}

/// The power that a percentage of the board's total makes, in microwatts: both are in units.
pub open spec fn percent_power_of(total: int, pct: int) -> u64 {
    word_quotient(total * pct, 100 * (one() * millionth())) as u64
}

/// The power of a reading.
pub fn power_of_reading(r: &Reading) -> (p: u64)
    ensures
        p == as_power(r@),
{
    proof {
        lemma_natural(r.size.limbs@);
        lemma_ten_to(324);
    }
    if r.negative {
        return 0;
    }
    r.size.quotient(&Wide::zero(), &ten_power(324))
}

/// The power that a percentage of the board's total makes.
pub fn percent_power(total: &Reading, pct: &Reading) -> (r: u64)
    ensures
        r == percent_power_of(total@, pct@),
{
    let unit: Wide = ten_power(330).times(&ten_power(324)).times_digit(100);
    let product: Wide = total.size.times(&pct.size);
    proof {
        let a = total.size@;
        let b = pct.size@;
        let x = one();
        let y = millionth();
        lemma_natural(total.size.limbs@);
        lemma_natural(pct.size.limbs@);
        lemma_ten_to(324);
        lemma_ten_to(330);
        assert((x * y) * 100 == 100 * (x * y));
        assert(x * y > 0) by (nonlinear_arith)
            requires
                x > 0,
                y > 0,
        ;
        assert(a * b >= 0) by (nonlinear_arith)
            requires
                a >= 0,
                b >= 0,
        ;
        assert((-a) * b == -(a * b) && a * (-b) == -(a * b) && (-a) * (-b) == a * b)
            by (nonlinear_arith);
    }
    if total.negative != pct.negative {
        return 0;
    }
    product.quotient(&Wide::zero(), &unit)
}

/// The reading in an answer.
pub open spec fn reading_in(body: Option<Seq<char>>) -> Result<int, Fault> {
    match body {
        None => Err(Fault::Unavailable),
        Some(text) => match watts_at(json_leaf(text, "/Reading"@)) {
            Some(m) => Ok(m),
            None => Err(Fault::Parse),
        },
    }
}

/// The power consumed, by the answer of the power resource.
pub open spec fn consumed(control: Option<LeafView>, watts: Option<LeafView>) -> Result<int, Fault> {
    match (control, watts_at(watts)) {
        (Some(LeafView::List(n)), Some(m)) => if n > 0 {
            Ok(m)
        } else {
            Err(Fault::Parse)
        },
        _ => Err(Fault::Parse),
    }
}

/// Makes the power consumed of what stands in the answer of the power resource.
pub fn read_consumed(control: &Option<Leaf>, watts: &Option<Leaf>) -> (r: Result<
    Reading,
    SourceError,
>)
    ensures
        consumed(leaf_view(*control), leaf_view(*watts)) == match r {
            Ok(m) => Ok::<int, Fault>(m@),
            Err(e) => Err::<int, Fault>(e.fault()),
        },
        r is Err ==> r->Err_0.message() == "PowerConsumedWatts not found"@,
{
    match (control, read_watts(watts)) {
        (Some(Leaf::List(n)), Some(m)) => if *n > 0 {
            Ok(m)
        } else {
            Err(SourceError::Parse("PowerConsumedWatts not found".to_owned()))
        },
        _ => Err(SourceError::Parse("PowerConsumedWatts not found".to_owned())),
    }
}

/// The text of an answer, if there is one.
pub open spec fn text_view(body: Option<&str>) -> Option<Seq<char>> {
    match body {
        Some(s) => Some(s@),
        None => None,
    }
}

/// Reads the reading in an answer.
pub fn read_json_field(body: Option<&str>) -> (r: Result<Reading, SourceError>)
    ensures
        reading_in(text_view(body)) == match r {
            Ok(m) => Ok::<int, Fault>(m@),
            Err(e) => Err::<int, Fault>(e.fault()),
        },
{
    match body {
        None => Err(SourceError::Unavailable("Redfish: no answer".to_owned())),
        Some(text) => {
            let leaf: Option<Leaf> = json_at(text, "/Reading");
            match read_watts(&leaf) {
                Some(m) => Ok(m),
                None => Err(SourceError::Parse("Field 'Reading' not found".to_owned())),
            }
        },
    }
}

/// Whether an answer holds a reading.
pub fn has_reading(body: Option<&str>) -> (r: bool)
    ensures
        r == reading_in(text_view(body)) is Ok,
{
    read_json_field(body).is_ok()
}

impl RedfishSource {
    /// Whether only an answer with success counts as one. The power resource is read whatever the
    /// status of its answer.
    pub fn needs_success(&self) -> (r: bool)
        ensures
            r == !(self.read_method@ is PowerApi),
    {
        match &self.read_method {
            ReadMethod::PowerApi { .. } => false,
            _ => true,
        }
    }
}

impl PowerSource for RedfishSource {
    open spec fn facts(&self) -> SourceFacts {
        SourceFacts {
            id: self.id.0@,
            name: self.display_name@,
            component: self.component,
            granularity: Granularity::Node,
            reading_type: ReadingType::Measured,
            poll_interval_ns: 3_000_000_000,
        }
    }

    open spec fn wanted(&self) -> Seq<Seq<char>> {
        let at = self.endpoint@;
        match self.read_method@ {
            MethodView::SensorReading(path) => seq![at + path],
            MethodView::SensorPercentage(pct, total) => seq![at + pct, at + total],
            MethodView::PowerApi(path) => seq![at + path],
            MethodView::TelemetryMetric(metric) => seq![
                at + metrics_path() + metric,
                at + sensors_path() + metric,
            ],
        }
    }

    open spec fn outcome(&self, raw: Seq<Option<Seq<char>>>) -> Result<Quantities, Fault> {
        let power: Result<u64, Fault> = match self.read_method@ {
            MethodView::SensorReading(path) => match reading_in(raw[0]) {
                Ok(m) => Ok(as_power(m)),
                Err(f) => Err(f),
            },
            MethodView::SensorPercentage(pct, total) => match (
                reading_in(raw[0]),
                reading_in(raw[1]),
            ) {
                (Ok(p), Ok(t)) => Ok(percent_power_of(t, p)),
                (Err(f), _) => Err(f),
                (Ok(_), Err(f)) => Err(f),
            },
            MethodView::PowerApi(path) => match raw[0] {
                None => Err(Fault::Unavailable),
                Some(text) => match consumed(
                    json_leaf(text, "/PowerControl"@),
                    json_leaf(text, "/PowerControl/0/PowerConsumedWatts"@),
                ) {
                    Ok(m) => Ok(as_power(m)),
                    Err(f) => Err(f),
                },
            },
            MethodView::TelemetryMetric(metric) => match reading_in(raw[0]) {
                Ok(m) => Ok(as_power(m)),
                Err(_) => match reading_in(raw[1]) {
                    Ok(m) => Ok(as_power(m)),
                    Err(f) => Err(f),
                },
            },
        };
        match power {
            Ok(p) => Ok(Quantities { energy_uj: None, power_uw: Some(p), max_energy_uj: 0 }),
            Err(f) => Err(f),
        }
    }

    fn id(&self) -> (r: &SourceId) {
        &self.id
    }

    fn name(&self) -> (r: &str) {
        self.display_name.as_str()
    }

    fn component(&self) -> (r: Component) {
        self.component
    }

    fn granularity(&self) -> (r: Granularity) {
        Granularity::Node
    }

    fn reading_type(&self) -> (r: ReadingType) {
        ReadingType::Measured
    }

    fn default_poll_interval(&self) -> (r: u64) {
        3_000_000_000
    }

    fn inputs(&self) -> (r: Vec<String>) {
        let at: &str = self.endpoint.as_str();
        let mut r: Vec<String> = Vec::new();
        match &self.read_method {
            ReadMethod::SensorReading { path } => {
                r.push(joined(at, path.as_str()));
            },
            ReadMethod::SensorPercentage { pct_path, total_path } => {
                r.push(joined(at, pct_path.as_str()));
                r.push(joined(at, total_path.as_str()));
            },
            ReadMethod::PowerApi { path } => {
                r.push(joined(at, path.as_str()));
            },
            ReadMethod::TelemetryMetric { metric_id } => {
                r.push(metric_url(at, metric_id.as_str()));
                r.push(sensor_url(at, metric_id.as_str()));
            },
        }
        assert(text_views(r@) =~= self.wanted());
        r
    }

    fn read(&self, raw: &Vec<Option<String>>, now_ns: u64) -> (r: Result<
        PowerReading,
        SourceError,
    >) {
        let power: Result<u64, SourceError> = match &self.read_method {
            ReadMethod::SensorReading { .. } => match read_json_field(raw_text(raw, 0)) {
                Ok(m) => Ok(power_of_reading(&m)),
                Err(e) => Err(e),
            },
            ReadMethod::SensorPercentage { .. } => match read_json_field(raw_text(raw, 0)) {
                Ok(pct) => match read_json_field(raw_text(raw, 1)) {
                    Ok(total) => Ok(percent_power(&total, &pct)),
                    Err(e) => Err(e),
                },
                Err(e) => Err(e),
            },
            ReadMethod::PowerApi { .. } => match raw_text(raw, 0) {
                None => Err(SourceError::Unavailable("Redfish: no answer".to_owned())),
                Some(text) => {
                    let control: Option<Leaf> = json_at(text, "/PowerControl");
                    let watts: Option<Leaf> = json_at(
                        text,
                        "/PowerControl/0/PowerConsumedWatts",
                    );
                    match read_consumed(&control, &watts) {
                        Ok(m) => Ok(power_of_reading(&m)),
                        Err(e) => Err(e),
                    }
                },
            },
            ReadMethod::TelemetryMetric { .. } => match read_json_field(raw_text(raw, 0)) {
                Ok(m) => Ok(power_of_reading(&m)),
                Err(_) => match read_json_field(raw_text(raw, 1)) {
                    Ok(m) => Ok(power_of_reading(&m)),
                    Err(e) => Err(e),
                },
            },
        };
        match power {
            Ok(p) => Ok(
                PowerReading {
                    source_id: self.id.clone(),
                    timestamp_ns: now_ns,
                    component: self.component,
                    granularity: Granularity::Node,
                    reading_type: ReadingType::Measured,
                    energy_uj: None,
                    power_uw: Some(p),
                    max_energy_uj: 0,
                },
            ),
            Err(e) => Err(e),
        }
    }
}

/// The address of a sensor.
pub fn sensor_url(endpoint: &str, sensor: &str) -> (r: String)
    ensures
        r@ == endpoint@ + sensors_path() + sensor@,
{
    joined(endpoint, "/redfish/v1/Chassis/System.Embedded.1/Sensors/").concat(sensor)
}

/// The address of a telemetry metric's definition.
pub fn metric_url(endpoint: &str, metric: &str) -> (r: String)
    ensures
        r@ == endpoint@ + metrics_path() + metric@,
{
    joined(endpoint, "/redfish/v1/TelemetryService/MetricDefinitions/").concat(metric)
}

/// The address of the power resource, which every controller answers.
pub fn power_url(endpoint: &str) -> (r: String)
    ensures
        r@ == endpoint@ + "/redfish/v1/Chassis/System.Embedded.1/Power"@,
{
    joined(endpoint, "/redfish/v1/Chassis/System.Embedded.1/Power")
}

// ─── The controller's address ───────────────────────────────────

/// The address that an entry `serial=address` gives to `serial`.
pub open spec fn entry_address(entry: Seq<char>, serial: Seq<char>) -> Option<Seq<char>> {
    let n = until(entry, '=');
    if n < entry.len() && trimmed(entry.take(n)) == serial {
        Some(trimmed(entry.skip(n + 1)))
    } else {
        None
    }
}

/// The address that the first entry from `from` on gives to `serial`.
pub open spec fn address_from(entries: Seq<Seq<char>>, serial: Seq<char>, from: int) -> Option<
    Seq<char>,
>
    decreases entries.len() - from,
{
    if from < 0 || from >= entries.len() {
        None
    } else if entry_address(entries[from], serial) is Some {
        entry_address(entries[from], serial)
    } else {
        address_from(entries, serial, from + 1)
    }
}

/// Finds the address of a serial number in entries `serial=address`, set off by commas.
pub fn address_for(map: &str, serial: &str) -> (r: Option<String>)
    ensures
        address_from(split_on(map@, ','), serial@, 0) == match r {
            Some(a) => Some(a@),
            None => None,
        },
{
    let entries: Vec<Vec<char>> = split(&chars_of(map), ',');
    let mut i: usize = 0;
    while i < entries.len()
        invariant
            i <= entries@.len(),
            views(entries@) == split_on(map@, ','),
            address_from(split_on(map@, ','), serial@, 0) == address_from(
                split_on(map@, ','),
                serial@,
                i as int,
            ),
        decreases entries@.len() - i,
    {
        let entry: &Vec<char> = &entries[i];
        assert(views(entries@)[i as int] == entry@);
        let total: usize = entry.len();
        let n: usize = find_char(entry, '=', 0);
        assert(entry@.skip(0) =~= entry@);
        if n < total {
            let key: String = whole_text(&trim(&slice_of(entry, 0, n)));
            assert(entry@.subrange(0, n as int) =~= entry@.take(n as int));
            if same(key.as_str(), serial) {
                let rest: Vec<char> = slice_of(entry, n + 1, total);
                assert(rest@ =~= entry@.skip(n + 1));
                return Some(whole_text(&trim(&rest)));
            }
        }
        i = i + 1;
    }
    None
}

/// The controller's address: the one that is set, or the one that a map gives to this machine's
/// serial number.
pub open spec fn endpoint_of(
    endpoint: Option<Seq<char>>,
    map: Option<Seq<char>>,
    serial_text: Option<Seq<char>>,
) -> Option<Seq<char>> {
    match endpoint {
        Some(e) => Some(e),
        None => match map {
            Some(m) => {
                let serial = match serial_text {
                    Some(s) => trimmed(s),
                    None => Seq::empty(),
                };
                if serial.len() == 0 {
                    None
                } else {
                    address_from(split_on(m, ','), serial, 0)
                }
            },
            None => None,
        },
    }
}

/// Resolves the controller's address.
pub fn resolve_endpoint(
    endpoint: Option<&str>,
    map: Option<&str>,
    serial_text: Option<&str>,
) -> (r: Result<String, SourceError>)
    ensures
        ({
            let resolved = endpoint_of(
                match endpoint {
                    Some(s) => Some(s@),
                    None => None,
                },
                match map {
                    Some(s) => Some(s@),
                    None => None,
                },
                match serial_text {
                    Some(s) => Some(s@),
                    None => None,
                },
            );
            match r {
                Ok(e) => resolved == Some(e@),
                Err(e) => resolved is None && e.fault() == Fault::Unavailable && e.message() == (
                if map is None {
                    "REDFISH_ENDPOINT or REDFISH_MAP not set"@
                } else if serial_text is None || trimmed(serial_text->0@).len() == 0 {
                    "Cannot read serial"@
                } else {
                    "Serial "@ + trimmed(serial_text->0@) + " not in REDFISH_MAP"@
                }),
            }
        }),
{
    if let Some(e) = endpoint {
        return Ok(e.to_owned());
    }
    let map: &str = match map {
        Some(m) => m,
        None => {
            return Err(
                SourceError::Unavailable("REDFISH_ENDPOINT or REDFISH_MAP not set".to_owned()),
            );
        },
    };
    let serial: String = match serial_text {
        Some(s) => whole_text(&trim(&chars_of(s))),
        None => String::new(),
    };
    if serial.as_str().is_empty() {
        return Err(SourceError::Unavailable("Cannot read serial".to_owned()));
    }
    match address_for(map, serial.as_str()) {
        Some(e) => Ok(e),
        None => Err(
            SourceError::Unavailable(
                joined("Serial ", serial.as_str()).concat(" not in REDFISH_MAP"),
            ),
        ),
    }
}

// ─── Discovery ──────────────────────────────────────────────────

/// One way of reading a component's power, which the controller may or may not offer.
#[derive(Debug)]
pub struct Attempt {
    pub metric: &'static str,
    pub component: Component,
    pub prefix: &'static str,
    /// Whether it is a telemetry metric, and not a percentage sensor
    pub telemetry: bool,
}

/// What an [`Attempt`] stands for.
pub struct AttemptView {
    pub metric: Seq<char>,
    pub component: Component,
    pub prefix: Seq<char>,
    pub telemetry: bool,
}

impl View for Attempt {
    type V = AttemptView;

    open spec fn view(&self) -> AttemptView {
        AttemptView {
            metric: self.metric@,
            component: self.component,
            prefix: self.prefix@,
            telemetry: self.telemetry,
        }
    }
}

pub open spec fn attempt(
    metric: Seq<char>,
    component: Component,
    prefix: Seq<char>,
    telemetry: bool,
) -> AttemptView {
    AttemptView { metric, component, prefix, telemetry }
}

/// All attempts. Of those for one component, better ones come first.
pub open spec fn all_attempts() -> Seq<AttemptView> {
    seq![
        attempt("TotalCPUPower"@, Component::Cpu, "Redfish Telemetry CPU"@, true),
        attempt("SystemBoardCPUUsage"@, Component::Cpu, "Redfish Sensor CPU"@, false),
        attempt("CPUPower"@, Component::Cpu, "Redfish Telemetry CPUPower"@, true),
        attempt("TotalMemoryPower"@, Component::Memory, "Redfish Telemetry Memory"@, true),
        attempt("DRAMPwr"@, Component::Memory, "Redfish Telemetry DRAM"@, true),
        attempt("SystemBoardMEMUsage"@, Component::Memory, "Redfish Sensor Memory"@, false),
        attempt("TotalFanPower"@, Component::Fan, "Redfish Telemetry Fans"@, true),
        attempt("TotalStoragePower"@, Component::Storage, "Redfish Telemetry Storage"@, true),
        attempt("SystemBoardIOUsage"@, Component::Nic, "Redfish Sensor I/O"@, false),
        attempt("TotalPciePower"@, Component::Nic, "Redfish Telemetry PCIe"@, true),
        attempt("SystemBoardSYSUsage"@, Component::Platform, "Redfish Sensor Platform"@, false),
    ]
}

/// The attempts that a vector stands for.
pub open spec fn attempt_views(v: Seq<Attempt>) -> Seq<AttemptView> {
    v.map_values(|a: Attempt| a@)
}

fn make(
    metric: &'static str,
    component: Component,
    prefix: &'static str,
    telemetry: bool,
) -> (r: Attempt)
    ensures
        r@ == attempt(metric@, component, prefix@, telemetry),
{
    Attempt { metric, component, prefix, telemetry }
}

/// Lists all attempts.
pub fn attempts() -> (r: Vec<Attempt>)
    ensures
        attempt_views(r@) == all_attempts(),
{
    let r: Vec<Attempt> = vec![
        make("TotalCPUPower", Component::Cpu, "Redfish Telemetry CPU", true),
        make("SystemBoardCPUUsage", Component::Cpu, "Redfish Sensor CPU", false),
        make("CPUPower", Component::Cpu, "Redfish Telemetry CPUPower", true),
        make("TotalMemoryPower", Component::Memory, "Redfish Telemetry Memory", true),
        make("DRAMPwr", Component::Memory, "Redfish Telemetry DRAM", true),
        make("SystemBoardMEMUsage", Component::Memory, "Redfish Sensor Memory", false),
        make("TotalFanPower", Component::Fan, "Redfish Telemetry Fans", true),
        make("TotalStoragePower", Component::Storage, "Redfish Telemetry Storage", true),
        make("SystemBoardIOUsage", Component::Nic, "Redfish Sensor I/O", false),
        make("TotalPciePower", Component::Nic, "Redfish Telemetry PCIe", true),
        make("SystemBoardSYSUsage", Component::Platform, "Redfish Sensor Platform", false),
    ];
    assert(attempt_views(r@) =~= all_attempts());
    r
}

/// The source that an attempt makes where the controller offers its metric.
pub open spec fn attempt_source(endpoint: Seq<char>, a: AttemptView) -> RedfishView {
    RedfishView {
        id: "redfish:"@ + a.metric + ":"@ + endpoint,
        display_name: a.prefix + " ("@ + endpoint + ")"@,
        component: a.component,
        endpoint,
        method: if a.telemetry {
            MethodView::SensorReading(sensors_path() + a.metric)
        } else {
            MethodView::SensorPercentage(
                sensors_path() + a.metric,
                sensors_path() + "SystemBoardPwrConsumption"@,
            )
        },
    }
}

/// Makes the source of an attempt.
pub fn make_source(endpoint: &str, a: &Attempt) -> (r: RedfishSource)
    ensures
        r@ == attempt_source(endpoint@, a@),
{
    let id: String = joined("redfish:", a.metric).concat(":").concat(endpoint);
    let display_name: String = joined(a.prefix, " (").concat(endpoint).concat(")");
    let path: String = joined("/redfish/v1/Chassis/System.Embedded.1/Sensors/", a.metric);
    let read_method: ReadMethod = if a.telemetry {
        ReadMethod::SensorReading { path }
    } else {
        ReadMethod::SensorPercentage {
            pct_path: path,
            total_path: joined(
                "/redfish/v1/Chassis/System.Embedded.1/Sensors/",
                "SystemBoardPwrConsumption",
            ),
        }
    };
    RedfishSource {
        id: SourceId(id),
        display_name,
        component: a.component,
        endpoint: endpoint.to_owned(),
        read_method,
    }
}

/// The two addresses that have to answer for an attempt to succeed. A telemetry metric has to be
/// defined and its sensor to have a reading; a percentage sensor and the board's total both have
/// to have a reading.
pub fn attempt_urls(endpoint: &str, a: &Attempt) -> (r: (String, String))
    ensures
        r.0@ == endpoint@ + (if a.telemetry {
            metrics_path()
        } else {
            sensors_path()
        }) + a@.metric,
        r.1@ == endpoint@ + sensors_path() + (if a.telemetry {
            a@.metric
        } else {
            "SystemBoardPwrConsumption"@
        }),
{
    if a.telemetry {
        (metric_url(endpoint, a.metric), sensor_url(endpoint, a.metric))
    } else {
        (sensor_url(endpoint, a.metric), sensor_url(endpoint, "SystemBoardPwrConsumption"))
    }
}

/// Whether an attempt succeeds on the answers of its two addresses. The definition of a telemetry
/// metric only has to be there; a sensor has to have a reading.
pub open spec fn succeeds(
    telemetry: bool,
    first: Option<Seq<char>>,
    second: Option<Seq<char>>,
) -> bool {
    &&& if telemetry {
        first is Some
    } else {
        reading_in(first) is Ok
    }
    &&& reading_in(second) is Ok
}

/// Decides whether an attempt succeeds, from the answers of its two addresses.
pub fn attempt_succeeds(a: &Attempt, first: Option<&str>, second: Option<&str>) -> (r: bool)
    ensures
        r == succeeds(a.telemetry, text_view(first), text_view(second)),
{
    let there: bool = if a.telemetry {
        first.is_some()
    } else {
        has_reading(first)
    };
    there && has_reading(second)
}

/// Whether an attempt is taken: it succeeded, and none before it for the same component did.
pub open spec fn taken(list: Seq<AttemptView>, succeeded: Seq<bool>, i: int) -> bool {
    succeeded[i] && forall|j: int|
        0 <= j < i && (#[trigger] list[j]).component == list[i].component ==> !succeeded[j]
}

/// The sources of the attempts that are taken, among the first `n`.
pub open spec fn taken_sources(
    endpoint: Seq<char>,
    list: Seq<AttemptView>,
    succeeded: Seq<bool>,
    n: int,
) -> Seq<RedfishView>
    decreases n,
{
    if n <= 0 {
        Seq::empty()
    } else if taken(list, succeeded, n - 1) {
        taken_sources(endpoint, list, succeeded, n - 1).push(attempt_source(endpoint, list[n - 1]))
    } else {
        taken_sources(endpoint, list, succeeded, n - 1)
    }
}

/// Whether an attempt is still worth making: none before it for the same component succeeded.
pub fn worth_trying(list: &Vec<Attempt>, succeeded: &Vec<bool>, i: usize) -> (r: bool)
    requires
        i < list@.len(),
        i <= succeeded@.len(),
    ensures
        r == forall|j: int|
            0 <= j < i && (#[trigger] attempt_views(list@)[j]).component == attempt_views(
                list@,
            )[i as int].component ==> !succeeded@[j],
{
    let mut j: usize = 0;
    while j < i
        invariant
            j <= i < list@.len(),
            i <= succeeded@.len(),
            forall|k: int|
                0 <= k < j && (#[trigger] attempt_views(list@)[k]).component == attempt_views(
                    list@,
                )[i as int].component ==> !succeeded@[k],
        decreases i - j,
    {
        assert(attempt_views(list@)[j as int].component == list@[j as int].component);
        if list[j].component == list[i].component && succeeded[j] {
            return false;
        }
        j = j + 1;
    }
    true
}

/// The source of the power supplies' total.
pub open spec fn total_source(endpoint: Seq<char>) -> RedfishView {
    RedfishView {
        id: "redfish:platform:"@ + endpoint,
        display_name: "Redfish PSU Total ("@ + endpoint + ")"@,
        component: Component::Platform,
        endpoint,
        method: MethodView::PowerApi("/redfish/v1/Chassis/System.Embedded.1/Power"@),
    }
}

/// The sources that a vector stands for.
pub open spec fn source_views(v: Seq<RedfishSource>) -> Seq<RedfishView> {
    v.map_values(|s: RedfishSource| s@)
}

/// Makes the controller's sources: the best for each component, then those of single power
/// supplies, then the power supplies' total.
pub fn discover(
    endpoint: &str,
    list: &Vec<Attempt>,
    succeeded: &Vec<bool>,
    supplies: Vec<RedfishSource>,
) -> (r: Vec<RedfishSource>)
    requires
        succeeded@.len() == list@.len(),
    ensures
        source_views(r@) == taken_sources(
            endpoint@,
            attempt_views(list@),
            succeeded@,
            list@.len() as int,
        ) + source_views(supplies@) + seq![total_source(endpoint@)],
{
    let ghost all = attempt_views(list@);
    let ghost psus = source_views(supplies@);
    let mut r: Vec<RedfishSource> = Vec::new();
    let mut i: usize = 0;
    assert(source_views(r@) =~= Seq::empty());
    while i < list.len()
        invariant
            i <= list@.len(),
            succeeded@.len() == list@.len(),
            all == attempt_views(list@),
            source_views(r@) == taken_sources(endpoint@, all, succeeded@, i as int),
        decreases list@.len() - i,
    {
        assert(all[i as int] == list@[i as int]@);
        if succeeded[i] && worth_trying(list, succeeded, i) {
            let ghost before = source_views(r@);
            let source: RedfishSource = make_source(endpoint, &list[i]);
            r.push(source);
            assert(source_views(r@) =~= before.push(source@));
        }
        i = i + 1;
    }
    let ghost best = source_views(r@);
    let mut rest: Vec<RedfishSource> = supplies;
    r.append(&mut rest);
    assert(source_views(r@) =~= best + psus);
    let display_name: String = joined("Redfish PSU Total (", endpoint).concat(")");
    let source: RedfishSource = RedfishSource {
        id: SourceId(joined("redfish:platform:", endpoint)),
        display_name,
        component: Component::Platform,
        endpoint: endpoint.to_owned(),
        read_method: ReadMethod::PowerApi {
            path: "/redfish/v1/Chassis/System.Embedded.1/Power".to_owned(),
        },
    };
    r.push(source);
    assert(source_views(r@) =~= best + psus + seq![total_source(endpoint@)]);
    r
}

// ─── Single power supplies ──────────────────────────────────────

/// One side of a power supply that the power resource tells the power of.
#[derive(Debug)]
pub struct SupplySide {
    /// The supply's number, counted from 1
    pub slot: u64,
    pub name: String,
    pub input: bool,
}

/// What a [`SupplySide`] stands for.
pub struct SideView {
    pub slot: int,
    pub name: Seq<char>,
    pub input: bool,
}

impl View for SupplySide {
    type V = SideView;

    open spec fn view(&self) -> SideView {
        SideView { slot: self.slot as int, name: self.name@, input: self.input }
    }
}

/// What the power resource says of one supply: its name, and the power on either side.
pub struct SupplyLeaves {
    pub name: Option<LeafView>,
    pub input: Option<LeafView>,
    pub output: Option<LeafView>,
}

/// Where the power resource tells of the supply at `i`.
pub open spec fn supply_pointer(i: int, field: Seq<char>) -> Seq<char> {
    "/PowerSupplies/"@ + decimal(i) + "/"@ + field
}

/// What the power resource says of the supply at `i`.
pub open spec fn supply_leaves(body: Seq<char>, i: int) -> SupplyLeaves {
    SupplyLeaves {
        name: json_leaf(body, supply_pointer(i, "Name"@)),
        input: json_leaf(body, supply_pointer(i, "PowerInputWatts"@)),
        output: json_leaf(body, supply_pointer(i, "PowerOutputWatts"@)),
    }
}

/// The sides of one supply whose power is told.
pub open spec fn sides_of(l: SupplyLeaves, i: int) -> Seq<SideView> {
    let name = match l.name {
        Some(LeafView::Text(s)) => s,
        _ => "PSU"@,
    };
    let input = if l.input matches Some(LeafView::Number(_)) {
        seq![SideView { slot: i + 1, name, input: true }]
    } else {
        Seq::empty()
    };
    let output = if l.output matches Some(LeafView::Number(_)) {
        seq![SideView { slot: i + 1, name, input: false }]
    } else {
        Seq::empty()
    };
    input + output
}

/// The sides of the first `n` supplies.
pub open spec fn sides_in(body: Seq<char>, n: int) -> Seq<SideView>
    decreases n,
{
    if n <= 0 {
        Seq::empty()
    } else {
        sides_in(body, n - 1) + sides_of(supply_leaves(body, n - 1), n - 1)
    }
}

/// How many supplies the power resource tells of.
pub open spec fn supply_count(list: Option<LeafView>) -> int {
    match list {
        Some(LeafView::List(n)) => n as int,
        _ => 0,
    }
}

/// The sides that a vector stands for.
pub open spec fn side_views(v: Seq<SupplySide>) -> Seq<SideView> {
    v.map_values(|s: SupplySide| s@)
}

/// Adds the sides of one supply, out of what the power resource says of it.
pub fn add_sides(
    v: &mut Vec<SupplySide>,
    i: u64,
    name: &Option<Leaf>,
    input: &Option<Leaf>,
    output: &Option<Leaf>,
)
    requires
        i < u64::MAX,
    ensures
        side_views(final(v)@) == side_views(old(v)@) + sides_of(
            SupplyLeaves {
                name: leaf_view(*name),
                input: leaf_view(*input),
                output: leaf_view(*output),
            },
            i as int,
        ),
{
    let ghost before = side_views(v@);
    let called: String = match name {
        Some(Leaf::Text(s)) => s.clone(),
        _ => "PSU".to_owned(),
    };
    if let Some(Leaf::Number(_)) = input {
        let side: SupplySide = SupplySide { slot: i + 1, name: called.clone(), input: true };
        v.push(side);
        assert(side_views(v@) =~= before.push(side@));
    }
    let ghost between = side_views(v@);
    if let Some(Leaf::Number(_)) = output {
        let side: SupplySide = SupplySide { slot: i + 1, name: called, input: false };
        v.push(side);
        assert(side_views(v@) =~= between.push(side@));
    }
    assert(side_views(v@) =~= before + sides_of(
        SupplyLeaves {
            name: leaf_view(*name),
            input: leaf_view(*input),
            output: leaf_view(*output),
        },
        i as int,
    ));
}

/// Lists the sides of the power supplies whose power the power resource's answer tells.
pub fn discover_psu_detail(body: &str) -> (r: Vec<SupplySide>)
    ensures
        side_views(r@) == sides_in(body@, supply_count(json_leaf(body@, "/PowerSupplies"@))),
{
    let mut r: Vec<SupplySide> = Vec::new();
    let n: usize = match json_at(body, "/PowerSupplies") {
        Some(Leaf::List(n)) => n,
        _ => 0,
    };
    let mut i: usize = 0;
    assert(side_views(r@) =~= Seq::empty());
    while i < n
        invariant
            i <= n,
            side_views(r@) == sides_in(body@, i as int),
        decreases n - i,
    {
        let at: String = joined("/PowerSupplies/", decimal_text(i as u64).as_str()).concat("/");
        let name: Option<Leaf> = json_at(body, joined(at.as_str(), "Name").as_str());
        let input: Option<Leaf> = json_at(body, joined(at.as_str(), "PowerInputWatts").as_str());
        let output: Option<Leaf> = json_at(
            body,
            joined(at.as_str(), "PowerOutputWatts").as_str(),
        );
        add_sides(&mut r, i as u64, &name, &input, &output);
        i = i + 1;
    }
    r
}

/// The sensor of one side of a supply.
pub open spec fn side_sensor(s: SideView) -> Seq<char> {
    "PSU.Slot."@ + decimal(s.slot) + (if s.input {
        "_InputPower"@
    } else {
        "_OutputPower"@
    })
}

/// Names the sensor of one side of a supply.
pub fn side_sensor_name(s: &SupplySide) -> (r: String)
    ensures
        r@ == side_sensor(s@),
{
    joined("PSU.Slot.", decimal_text(s.slot).as_str()).concat(
        if s.input {
            "_InputPower"
        } else {
            "_OutputPower"
        },
    )
}

/// The source of one side of a supply, whose sensor has a reading.
pub open spec fn side_source(endpoint: Seq<char>, s: SideView) -> RedfishView {
    RedfishView {
        id: "redfish:psu"@ + decimal(s.slot) + (if s.input {
            ":input:"@
        } else {
            ":output:"@
        }) + endpoint,
        display_name: s.name + (if s.input {
            " Input ("@
        } else {
            " Output ("@
        }) + endpoint + ")"@,
        component: Component::Platform,
        endpoint,
        method: MethodView::SensorReading(sensors_path() + side_sensor(s)),
    }
}

/// Makes the source of one side of a supply.
pub fn make_side_source(endpoint: &str, s: &SupplySide) -> (r: RedfishSource)
    ensures
        r@ == side_source(endpoint@, s@),
{
    let number: String = decimal_text(s.slot);
    let id: String = joined("redfish:psu", number.as_str()).concat(
        if s.input {
            ":input:"
        } else {
            ":output:"
        },
    ).concat(endpoint);
    let display_name: String = joined(
        s.name.as_str(),
        if s.input {
            " Input ("
        } else {
            " Output ("
        },
    ).concat(endpoint).concat(")");
    let path: String = joined(
        "/redfish/v1/Chassis/System.Embedded.1/Sensors/",
        side_sensor_name(s).as_str(),
    );
    RedfishSource {
        id: SourceId(id),
        display_name,
        component: Component::Platform,
        endpoint: endpoint.to_owned(),
        read_method: ReadMethod::SensorReading { path },
    }
}

// ─── What the controller tells ──────────────────────────────────

proof fn lemma_quotient(n: int, d: int)
    requires
        d > 0,
    ensures
        n <= 0 ==> word_quotient(n, d) == 0,
        n > 0 ==> 0 <= word_quotient(n, d) <= u64::MAX && word_quotient(n, d) * d <= n,
        n > 0 && word_quotient(n, d) < u64::MAX ==> n < (word_quotient(n, d) + 1) * d,
{
    lemma_floor(n, d);
    if n > 0 {
        let q = n / d;
        assert(q >= 0) by (nonlinear_arith)
            requires
                n > 0,
                d > 0,
                q == n / d,
        ;
        if q > u64::MAX {
            assert(u64::MAX * d <= q * d) by (nonlinear_arith)
                requires
                    u64::MAX <= q,
                    d > 0,
            ;
        }
    }
}

/// A reading's power is the most whole microwatts that it suffices for; one below zero is none.
pub proof fn law_reading_power(units: int)
    ensures
        units <= 0 ==> as_power(units) == 0,
        units > 0 ==> as_power(units) * millionth() <= units,
        units > 0 && as_power(units) < u64::MAX ==> units < (as_power(units) + 1) * millionth(),
{
    lemma_ten_to(324);
    lemma_quotient(units, millionth());
}

/// A percentage of a total is that many hundredths of it: all of it at a hundred, and the most
/// whole microwatts that the hundredths suffice for at any.
pub proof fn law_percentage(total: int, pct: int)
    ensures
        percent_power_of(total, 100 * one()) == as_power(total),
        total * pct <= 0 ==> percent_power_of(total, pct) == 0,
        total * pct > 0 ==> percent_power_of(total, pct) * (100 * (one() * millionth())) <= total
            * pct,
        total * pct > 0 && percent_power_of(total, pct) < u64::MAX ==> total * pct < (
        percent_power_of(total, pct) + 1) * (100 * (one() * millionth())),
{
    lemma_ten_to(324);
    lemma_ten_to(330);
    let o = one();
    let m = millionth();
    assert(100 * (o * m) > 0) by (nonlinear_arith)
        requires
            o >= 1,
            m >= 1,
    ;
    lemma_quotient(total * pct, 100 * (o * m));
    let k = 100 * o;
    assert(k > 0);
    assert(100 * (o * m) == k * m) by (nonlinear_arith)
        requires
            k == 100 * o,
    ;
    assert(total * k == k * total) by (nonlinear_arith);
    if total >= 0 {
        vstd::arithmetic::div_mod::lemma_div_multiples_vanish_quotient(k, total, m);
    }
    assert(total * k > 0 <==> total > 0) by (nonlinear_arith)
        requires
            k > 0,
    ;
}

/// The total is told by a body that lists a control and tells its watts as a number; else the body
/// is at fault.
pub proof fn law_consumed(n: nat, text: Seq<char>, units: int, control: Option<LeafView>)
    requires
        amount_of(text) == Some(Amount::Units(units)),
    ensures
        n > 0 ==> consumed(Some(LeafView::List(n)), Some(LeafView::Number(text))) == Ok::<
            int,
            Fault,
        >(units),
        consumed(Some(LeafView::List(0)), Some(LeafView::Number(text))) is Err,
        consumed(None, Some(LeafView::Number(text))) is Err,
        consumed(control, None) is Err,
{
}

/// An entry that maps a serial number to an address gives the address, without the white space
/// around either; it says nothing of another serial number.
pub proof fn law_map_entry(
    a: Seq<char>,
    serial: Seq<char>,
    b: Seq<char>,
    c: Seq<char>,
    address: Seq<char>,
    d: Seq<char>,
    other: Seq<char>,
)
    requires
        blank(a),
        blank(b),
        blank(c),
        blank(d),
        !serial.contains('='),
        serial.len() > 0 ==> !is_space(serial[0]) && !is_space(serial.last()),
        address.len() > 0 ==> !is_space(address[0]) && !is_space(address.last()),
    ensures
        ({
            let entry = (a + serial + b).push('=') + (c + address + d);
            &&& entry_address(entry, serial) == Some(address)
            &&& other != serial ==> entry_address(entry, other) is None
        }),
{
    let front = a + serial + b;
    let entry = front.push('=') + (c + address + d);
    assert forall|i: int| 0 <= i < front.len() implies entry[i] != '=' by {
        assert(entry[i] == front[i]);
        if i < a.len() {
            assert(is_space(a[i]));
        } else if i < a.len() + serial.len() {
            assert(serial.contains(serial[i - a.len()]));
        } else {
            assert(is_space(b[i - a.len() - serial.len()]));
        }
    }
    lemma_until_is(entry, '=', front.len() as int);
    assert(entry.take(front.len() as int) =~= front);
    assert(entry.skip(front.len() as int + 1) =~= c + address + d);
    law_trimmed(a, serial, b);
    law_trimmed(c, address, d);
}

/// The address for a serial number is that of the first entry that has one for it.
pub proof fn law_first_entry(entries: Seq<Seq<char>>, serial: Seq<char>, from: int)
    requires
        0 <= from <= entries.len(),
    ensures
        forall|k: int|
            from <= k < entries.len() && entry_address(#[trigger] entries[k], serial) is Some && (
            forall|i: int|
                from <= i < k ==> entry_address(#[trigger] entries[i], serial) is None)
                ==> address_from(entries, serial, from) == entry_address(entries[k], serial),
        (forall|k: int|
            from <= k < entries.len() ==> entry_address(#[trigger] entries[k], serial) is None)
            ==> address_from(entries, serial, from) is None,
    decreases entries.len() - from,
{
    if from < entries.len() {
        law_first_entry(entries, serial, from + 1);
        assert forall|k: int|
            from <= k < entries.len() && entry_address(#[trigger] entries[k], serial) is Some && (
            forall|i: int|
                from <= i < k ==> entry_address(#[trigger] entries[i], serial) is None)
            implies address_from(entries, serial, from) == entry_address(entries[k], serial) by {
            if k > from {
                assert(entry_address(entries[from], serial) is None);
            }
        }
        if forall|k: int|
            from <= k < entries.len() ==> entry_address(#[trigger] entries[k], serial) is None {
            assert(entry_address(entries[from], serial) is None);
        }
    }
}

/// A configured endpoint is used as it is. Without one the map is asked for this machine's serial
/// number; without a map, or without a serial number, there is none.
pub proof fn law_endpoint(
    endpoint: Seq<char>,
    map: Option<Seq<char>>,
    serial_text: Option<Seq<char>>,
    entries: Seq<char>,
    serial: Seq<char>,
)
    requires
        serial.len() > 0,
        !is_space(serial[0]),
        !is_space(serial.last()),
    ensures
        endpoint_of(Some(endpoint), map, serial_text) == Some(endpoint),
        endpoint_of(None, None, serial_text) is None,
        endpoint_of(None, map, None) is None,
        endpoint_of(None, Some(entries), Some(serial)) == address_from(
            split_on(entries, ','),
            serial,
            0,
        ),
{
    law_trimmed(Seq::empty(), serial, Seq::empty());
    assert(Seq::empty() + serial + Seq::empty() =~= serial);
}

/// Of the attempts for one component the first that succeeds is taken, and no other.
pub proof fn law_one_source_each(list: Seq<AttemptView>, succeeded: Seq<bool>, i: int, j: int)
    requires
        list.len() == succeeded.len(),
        0 <= i < list.len(),
        0 <= j < list.len(),
        list[i].component == list[j].component,
    ensures
        taken(list, succeeded, i) && taken(list, succeeded, j) ==> i == j,
        taken(list, succeeded, i) ==> succeeded[i],
        taken(list, succeeded, i) && succeeded[j] ==> i <= j,
        succeeded[i] ==> exists|k: int|
            0 <= k <= i && list[k].component == list[i].component && #[trigger] taken(
                list,
                succeeded,
                k,
            ),
    decreases i,
{
    if succeeded[i] && !taken(list, succeeded, i) {
        let k = choose|k: int|
            0 <= k < i && (#[trigger] list[k]).component == list[i].component && succeeded[k];
        assert(succeeded[k]);
        law_one_source_each(list, succeeded, k, k);
    }
}

/// The sources are those of the attempts that are taken.
pub proof fn law_taken_sources(
    endpoint: Seq<char>,
    list: Seq<AttemptView>,
    succeeded: Seq<bool>,
    n: int,
    i: int,
)
    requires
        0 <= i < n <= list.len(),
        taken(list, succeeded, i),
    ensures
        taken_sources(endpoint, list, succeeded, n).contains(attempt_source(endpoint, list[i])),
        attempt_source(endpoint, list[i]).component == list[i].component,
        attempt_source(endpoint, list[i]).endpoint == endpoint,
    decreases n,
{
    let after = taken_sources(endpoint, list, succeeded, n);
    let e = attempt_source(endpoint, list[i]);
    if i == n - 1 {
        assert(after[after.len() - 1] == e);
    } else {
        law_taken_sources(endpoint, list, succeeded, n - 1, i);
        let before = taken_sources(endpoint, list, succeeded, n - 1);
        let k = before.index_of(e);
        assert(after[k] == e);
    }
}

/// A sensor's source tells the power that its body tells. One of a share takes that percentage of
/// the total of the second body; a metric is asked for a second time where the first body fails.
pub proof fn law_redfish_reading(
    s: RedfishSource,
    first: Option<Seq<char>>,
    second: Option<Seq<char>>,
    a: int,
    b: int,
)
    ensures
        ({
            let r = s.outcome(seq![first, second]);
            &&& r matches Ok(q) ==> q.energy_uj is None && q.power_uw is Some
            &&& s.read_method is SensorReading && reading_in(first) == Ok::<int, Fault>(a)
                ==> r is Ok && r->Ok_0.power_uw == Some(as_power(a))
            &&& s.read_method is SensorPercentage && reading_in(first) == Ok::<int, Fault>(a)
                && reading_in(second) == Ok::<int, Fault>(b) ==> r is Ok && r->Ok_0.power_uw
                == Some(percent_power_of(b, a))
            &&& s.read_method is SensorPercentage && (reading_in(first) is Err || reading_in(
                second,
            ) is Err) ==> r is Err
            &&& s.read_method is TelemetryMetric && reading_in(first) == Ok::<int, Fault>(a)
                ==> r is Ok && r->Ok_0.power_uw == Some(as_power(a))
            &&& s.read_method is TelemetryMetric && reading_in(first) is Err && reading_in(second)
                == Ok::<int, Fault>(b) ==> r is Ok && r->Ok_0.power_uw == Some(as_power(b))
            &&& s.read_method is SensorReading && reading_in(first) is Err ==> r is Err
            &&& s.read_method is PowerApi && first is None ==> r is Err
        }),
{
}

/// A power supply has an input side if its input is told as a number, and an output side if its
/// output is; both are of the slot behind its place in the list and bear its name.
pub proof fn law_supply_sides(l: SupplyLeaves, i: int, k: int)
    ensures
        ({
            let sides = sides_of(l, i);
            &&& sides.len() <= 2
            &&& (exists|j: int| 0 <= j < sides.len() && (#[trigger] sides[j]).input) <==> (
            l.input matches Some(LeafView::Number(_)))
            &&& (exists|j: int| 0 <= j < sides.len() && !(#[trigger] sides[j]).input) <==> (
            l.output matches Some(LeafView::Number(_)))
            &&& 0 <= k < sides.len() ==> sides[k].slot == i + 1
            &&& 0 <= k < sides.len() ==> (l.name matches Some(LeafView::Text(s)) ==> sides[k].name
                == s)
        }),
{
    let sides = sides_of(l, i);
    if l.input matches Some(LeafView::Number(_)) {
        assert(sides[0].input);
    }
    if l.output matches Some(LeafView::Number(_)) {
        assert(!sides[sides.len() - 1].input);
    }
}

/// An attempt needs a reading from its second address. From its first, a sensor needs a reading
/// too; a telemetry metric only needs to be defined.
pub proof fn law_attempt(first: Seq<char>, second: Option<Seq<char>>)
    ensures
        succeeds(true, Some(first), second) <==> reading_in(second) is Ok,
        succeeds(false, Some(first), second) <==> reading_in(Some(first)) is Ok && reading_in(
            second,
        ) is Ok,
        !succeeds(true, None, second),
        succeeds(false, None, second) ==> reading_in(None) is Ok,
{
}

/// The sides of supplies are those of each supply, one after the other.
pub proof fn law_all_sides(body: Seq<char>, n: int, k: int, j: int)
    requires
        0 <= k < n,
        0 <= j < sides_of(supply_leaves(body, k), k).len(),
    ensures
        sides_in(body, n)[sides_in(body, k).len() + j] == sides_of(supply_leaves(body, k), k)[j],
        sides_in(body, n).len() == sides_in(body, n - 1).len() + sides_of(
            supply_leaves(body, n - 1),
            n - 1,
        ).len(),
        sides_in(body, k).len() + j < sides_in(body, n).len(),
    decreases n,
{
    if k < n - 1 {
        law_all_sides(body, n - 1, k, j);
    }
}

} // verus!
