//! hwmon power sensors.
//!
//! These are measurements by on-board shunt resistors, voltage regulators or power monitoring
//! ICs: files `power{N}_input` in microwatts, and counters `energy{N}_input` in microjoules.

use super::source::{
    file_number, law_number_in_file, raw_text, read_u64_file, text_views, Component, Fault,
    Granularity, PowerReading, PowerSource, Quantities, ReadingType, SourceError, SourceFacts,
    SourceId,
};
use crate::sums::{lemma_sum_concat, lemma_sum_push, lemma_sum_same, sum_of};
use crate::text::{
    blank, chars_of, contains_text, decimal, decimal_text, holds_text, joined, law_part_is_found,
    same, trim, trimmed, whole_text,
};
use vstd::prelude::*;

verus! {

/// How many sensors of each kind a chip is searched for: those numbered from 1 up to this.
pub const MAX_SENSORS: u64 = 16;

/// What kind of sensor a source reads.
#[derive(Debug)]
pub enum HwmonSensor {
    /// Microwatts
    Power { path: String },
    /// Microjoules, and the file that holds the counter's largest value
    Energy { path: String, max_path: Option<String> },
}

/// An hwmon power or energy sensor.
#[derive(Debug)]
pub struct HwmonSource {
    pub id: SourceId,
    pub display_name: String,
    pub chip_name: String,
    pub component: Component,
    pub sensor: HwmonSensor,
}

/// What a [`HwmonSource`] stands for.
pub struct HwmonView {
    pub id: Seq<char>,
    pub display_name: Seq<char>,
    pub chip_name: Seq<char>,
    pub component: Component,
    pub is_counter: bool,
    pub path: Seq<char>,
    pub max_path: Option<Seq<char>>,
}

impl View for HwmonSource {
    type V = HwmonView;

    open spec fn view(&self) -> HwmonView {
        HwmonView {
            id: self.id.0@,
            display_name: self.display_name@,
            chip_name: self.chip_name@,
            component: self.component,
            is_counter: self.sensor is Energy,
            path: match self.sensor {
                HwmonSensor::Power { path } => path@,
                HwmonSensor::Energy { path, max_path } => path@,
            },
            max_path: match self.sensor {
                HwmonSensor::Power { path } => None,
                HwmonSensor::Energy { path, max_path } => match max_path {
                    Some(p) => Some(p@),
                    None => None,
                },
            },
        }
    }
}

impl PowerSource for HwmonSource {
    open spec fn facts(&self) -> SourceFacts {
        SourceFacts {
            id: self.id.0@,
            name: self.display_name@,
            component: self.component,
            granularity: Granularity::Node,
            reading_type: ReadingType::Measured,
            poll_interval_ns: 500_000_000,
        }
    }

    open spec fn wanted(&self) -> Seq<Seq<char>> {
        match self@.max_path {
            Some(max) => seq![self@.path, max],
            None => seq![self@.path],
        }
    }

    open spec fn outcome(&self, raw: Seq<Option<Seq<char>>>) -> Result<Quantities, Fault> {
        match file_number(raw[0]) {
            Ok(n) => Ok(
                if self@.is_counter {
                    Quantities {
                        energy_uj: Some(n),
                        power_uw: None,
                        max_energy_uj: if self@.max_path is Some && file_number(raw[1]) is Ok {
                            file_number(raw[1])->Ok_0
                        } else {
                            0
                        },
                    }
                } else {
                    Quantities { energy_uj: None, power_uw: Some(n), max_energy_uj: 0 }
                },
            ),
            Err(f) => Err(f),
        }
    }

    fn id(&self) -> (r: &SourceId) {
        &self.id
    }

    fn name(&self) -> (r: &str) {
        self.display_name.as_str()
    }

    fn component(&self) -> (r: Component) {
        self.component
    }

    fn granularity(&self) -> (r: Granularity) {
        Granularity::Node
    }

    fn reading_type(&self) -> (r: ReadingType) {
        ReadingType::Measured
    }

    fn default_poll_interval(&self) -> (r: u64) {
        500_000_000
    }

    fn inputs(&self) -> (r: Vec<String>) {
        let mut r: Vec<String> = Vec::new();
        match &self.sensor {
            HwmonSensor::Power { path } => {
                r.push(path.clone());
            },
            HwmonSensor::Energy { path, max_path } => {
                r.push(path.clone());
                if let Some(max) = max_path {
                    r.push(max.clone());
                }
            },
        }
        assert(text_views(r@) =~= self.wanted());
        r
    }

    fn read(&self, raw: &Vec<Option<String>>, now_ns: u64) -> (r: Result<
        PowerReading,
        SourceError,
    >) {
        let (energy_uj, power_uw, max_energy_uj): (Option<u64>, Option<u64>, u64) =
            match &self.sensor {
            HwmonSensor::Power { path } => match read_u64_file(path.as_str(), raw_text(raw, 0)) {
                Ok(n) => (None, Some(n), 0),
                Err(e) => {
                    return Err(e);
                },
            },
            HwmonSensor::Energy { path, max_path } => {
                let n: u64 = match read_u64_file(path.as_str(), raw_text(raw, 0)) {
                    Ok(n) => n,
                    Err(e) => {
                        return Err(e);
                    },
                };
                let max: u64 = match max_path {
                    Some(p) => match read_u64_file(p.as_str(), raw_text(raw, 1)) {
                        Ok(m) => m,
                        Err(_) => 0,
                    },
                    None => 0,
                };
                (Some(n), None, max)
            },
        };
        Ok(
            PowerReading {
                source_id: self.id.clone(),
                timestamp_ns: now_ns,
                component: self.component,
                granularity: Granularity::Node,
                reading_type: ReadingType::Measured,
                energy_uj,
                power_uw,
                max_energy_uj,
            },
        )
    }
}

// ─── Components ─────────────────────────────────────────────────

/// A text in lower case.
pub uninterp spec fn lowercase(s: Seq<char>) -> Seq<char>;

/// An ASCII letter in lower case; any other character as it is.
pub open spec fn ascii_lowercase(c: char) -> char {
    if 'A' <= c <= 'Z' {
        ((c as u8) + 32u8) as char
    } else {
        c
    }
}

/// Whether a text is in ASCII.
pub open spec fn in_ascii(s: Seq<char>) -> bool {
    forall|i: int| 0 <= i < s.len() ==> (#[trigger] s[i] as u32) < 128
}

/// [`str::to_lowercase`] gives the text in lower case, by the rules of Unicode; of a text in ASCII
/// it changes just the letters from A to Z.
#[verifier::external_body]
fn to_lowercase(s: &str) -> (r: String)
    ensures
        r@ == lowercase(s@),
        in_ascii(s@) ==> r@ == s@.map_values(|c: char| ascii_lowercase(c)),
{
    s.to_lowercase()
}

/// The component that a chip's name and a sensor's label tell, both in lower case.
pub open spec fn component_of(chip: Seq<char>, label: Seq<char>) -> Component {
    if holds_text(chip, "nvidia"@) || holds_text(chip, "amdgpu"@) || holds_text(chip, "radeon"@)
        || holds_text(chip, "xe"@) {
        Component::Gpu
    } else if holds_text(chip, "mlx"@) || holds_text(chip, "ice"@) || holds_text(chip, "bnxt"@)
        || holds_text(chip, "i40e"@) || holds_text(label, "network"@) || holds_text(label, "nic"@) {
        Component::Nic
    } else if holds_text(chip, "nvme"@) || holds_text(chip, "drivetemp"@) || holds_text(
        label,
        "disk"@,
    ) || holds_text(label, "ssd"@) {
        Component::Storage
    } else if holds_text(label, "cpu"@) || holds_text(label, "vcore"@) || holds_text(
        label,
        "package"@,
    ) {
        Component::Cpu
    } else if holds_text(label, "dram"@) || holds_text(label, "dimm"@) || holds_text(
        label,
        "memory"@,
    ) {
        Component::Memory
    } else {
        Component::Cpu
    }
}

/// Tells the component from a chip's name and a label in lower case. Most sensors that do not
/// tell are the CPU's.
pub fn classify_lowercase(chip: &str, label: &str) -> (r: Component)
    ensures
        r == component_of(chip@, label@),
{
    if contains_text(chip, "nvidia") || contains_text(chip, "amdgpu") || contains_text(
        chip,
        "radeon",
    ) || contains_text(chip, "xe") {
        Component::Gpu
    } else if contains_text(chip, "mlx") || contains_text(chip, "ice") || contains_text(
        chip,
        "bnxt",
    ) || contains_text(chip, "i40e") || contains_text(label, "network") || contains_text(
        label,
        "nic",
    ) {
        Component::Nic
    } else if contains_text(chip, "nvme") || contains_text(chip, "drivetemp") || contains_text(
        label,
        "disk",
    ) || contains_text(label, "ssd") {
        Component::Storage
    } else if contains_text(label, "cpu") || contains_text(label, "vcore") || contains_text(
        label,
        "package",
    ) {
        Component::Cpu
    } else if contains_text(label, "dram") || contains_text(label, "dimm") || contains_text(
        label,
        "memory",
    ) {
        Component::Memory
    } else {
        Component::Cpu
    }
}

/// Classifies which component an hwmon sensor belongs to based on chip name and label, in any
/// case.
pub fn classify_component(chip_name: &str, label: &str) -> (r: Component)
    ensures
        r == component_of(lowercase(chip_name@), lowercase(label@)),
        in_ascii(chip_name@) && in_ascii(label@) ==> r == component_of(
            chip_name@.map_values(|c: char| ascii_lowercase(c)),
            label@.map_values(|c: char| ascii_lowercase(c)),
        ),
{
    classify_lowercase(to_lowercase(chip_name).as_str(), to_lowercase(label).as_str())
}

// ─── Discovery ──────────────────────────────────────────────────

/// The files of one sensor that has an input file.
#[derive(Debug)]
pub struct SensorFiles {
    pub number: u64,
    pub label_text: Option<String>,
    /// The text of the file that says whether a power sensor is enabled
    pub enable_text: Option<String>,
    /// Whether there is a file with a counter's largest value
    pub has_max: bool,
}

/// One chip's directory.
#[derive(Debug)]
pub struct HwmonChip {
    pub dir_name: String,
    pub path: String,
    pub name_text: Option<String>,
    pub power: Vec<SensorFiles>,
    pub energy: Vec<SensorFiles>,
}

/// A file's text without white space around it; nothing if there is no text.
pub open spec fn label_of(text: Option<String>) -> Seq<char> {
    match text {
        Some(s) => trimmed(s@),
        None => Seq::empty(),
    }
}

/// Whether a sensor is switched off.
pub open spec fn disabled(f: SensorFiles) -> bool {
    f.enable_text is Some && trimmed(f.enable_text->0@) == "0"@
}

/// A chip's power sensor.
pub open spec fn power_sensor(chip: HwmonChip, f: SensorFiles) -> HwmonView {
    let name = label_of(chip.name_text);
    let label = label_of(f.label_text);
    let n = decimal(f.number as int);
    HwmonView {
        id: "hwmon:"@ + chip.dir_name@ + ":power"@ + n + ":"@ + name,
        display_name: "hwmon "@ + name + " power"@ + n + " ("@ + (if label.len() == 0 {
            "unlabeled"@
        } else {
            label
        }) + ")"@,
        chip_name: name,
        component: component_of(lowercase(name), lowercase(label)),
        is_counter: false,
        path: chip.path@ + "/power"@ + n + "_input"@,
        max_path: None,
    }
}

/// A chip's energy counter.
pub open spec fn energy_sensor(chip: HwmonChip, f: SensorFiles) -> HwmonView {
    let name = label_of(chip.name_text);
    let label = label_of(f.label_text);
    let n = decimal(f.number as int);
    HwmonView {
        id: "hwmon:"@ + chip.dir_name@ + ":energy"@ + n + ":"@ + name,
        display_name: "hwmon "@ + name + " energy"@ + n + " ("@ + label + ")"@,
        chip_name: name,
        component: component_of(lowercase(name), lowercase(label)),
        is_counter: true,
        path: chip.path@ + "/energy"@ + n + "_input"@,
        max_path: if f.has_max {
            Some(chip.path@ + "/energy"@ + n + "_max"@)
        } else {
            None
        },
    }
}

/// A chip's power sensors that are switched on, among the first `n`.
pub open spec fn power_sensors(chip: HwmonChip, n: int) -> Seq<HwmonView>
    decreases n,
{
    if n <= 0 {
        Seq::empty()
    } else if disabled(chip.power@[n - 1]) {
        power_sensors(chip, n - 1)
    } else {
        power_sensors(chip, n - 1).push(power_sensor(chip, chip.power@[n - 1]))
    }
}

/// The sensors of one chip: first those of power, then the energy counters.
pub open spec fn chip_sensors(chip: HwmonChip) -> Seq<HwmonView> {
    power_sensors(chip, chip.power@.len() as int) + chip.energy@.map_values(
        |f: SensorFiles| energy_sensor(chip, f),
    )
}

/// The sensors of all chips.
pub open spec fn all_sensors(chips: Seq<HwmonChip>) -> Seq<HwmonView>
    decreases chips.len(),
{
    if chips.len() == 0 {
        Seq::empty()
    } else {
        all_sensors(chips.drop_last()) + chip_sensors(chips.last())
    }
}

/// The sensors that sources stand for.
pub open spec fn sensors(v: Seq<HwmonSource>) -> Seq<HwmonView> {
    v.map_values(|s: HwmonSource| s@)
}

fn label_text(text: &Option<String>) -> (r: String)
    ensures
        r@ == label_of(*text),
{
    match text {
        Some(s) => whole_text(&trim(&chars_of(s.as_str()))),
        None => String::new(),
    }
}

fn make_power_sensor(chip: &HwmonChip, f: &SensorFiles) -> (r: HwmonSource)
    ensures
        r@ == power_sensor(*chip, *f),
{
    let name: String = label_text(&chip.name_text);
    let label: String = label_text(&f.label_text);
    let n: String = decimal_text(f.number);
    let component: Component = classify_component(name.as_str(), label.as_str());
    let id: String = joined("hwmon:", chip.dir_name.as_str()).concat(":power").concat(
        n.as_str(),
    ).concat(":").concat(name.as_str());
    let shown: &str = if label.as_str().is_empty() {
        "unlabeled"
    } else {
        label.as_str()
    };
    let display_name: String = joined("hwmon ", name.as_str()).concat(" power").concat(
        n.as_str(),
    ).concat(" (").concat(shown).concat(")");
    let path: String = joined(chip.path.as_str(), "/power").concat(n.as_str()).concat("_input");
    HwmonSource {
        id: SourceId(id),
        display_name,
        chip_name: name,
        component,
        sensor: HwmonSensor::Power { path },
    }
}

fn make_energy_sensor(chip: &HwmonChip, f: &SensorFiles) -> (r: HwmonSource)
    ensures
        r@ == energy_sensor(*chip, *f),
{
    let name: String = label_text(&chip.name_text);
    let label: String = label_text(&f.label_text);
    let n: String = decimal_text(f.number);
    let component: Component = classify_component(name.as_str(), label.as_str());
    let id: String = joined("hwmon:", chip.dir_name.as_str()).concat(":energy").concat(
        n.as_str(),
    ).concat(":").concat(name.as_str());
    let display_name: String = joined("hwmon ", name.as_str()).concat(" energy").concat(
        n.as_str(),
    ).concat(" (").concat(label.as_str()).concat(")");
    let path: String = joined(chip.path.as_str(), "/energy").concat(n.as_str()).concat("_input");
    let max_path: Option<String> = if f.has_max {
        Some(joined(chip.path.as_str(), "/energy").concat(n.as_str()).concat("_max"))
    } else {
        None
    };
    HwmonSource {
        id: SourceId(id),
        display_name,
        chip_name: name,
        component,
        sensor: HwmonSensor::Energy { path, max_path },
    }
}

/// Adds the sensors of one chip.
fn add_chip(v: &mut Vec<HwmonSource>, chip: &HwmonChip)
    ensures
        sensors(final(v)@) == sensors(old(v)@) + chip_sensors(*chip),
{
    let ghost before = sensors(v@);
    let mut i: usize = 0;
    assert(before + power_sensors(*chip, 0) =~= before);
    while i < chip.power.len()
        invariant
            i <= chip.power@.len(),
            sensors(v@) == before + power_sensors(*chip, i as int),
        decreases chip.power@.len() - i,
    {
        let off: bool = match &chip.power[i].enable_text {
            Some(s) => same(whole_text(&trim(&chars_of(s.as_str()))).as_str(), "0"),
            None => false,
        };
        if !off {
            let ghost old_v = v@;
            let sensor: HwmonSource = make_power_sensor(chip, &chip.power[i]);
            v.push(sensor);
            assert(sensors(v@) =~= sensors(old_v).push(sensor@));
            assert(sensors(v@) =~= before + power_sensors(*chip, i + 1));
        }
        i = i + 1;
    }
    let ghost powered = sensors(v@);
    let ghost counters = chip.energy@.map_values(|f: SensorFiles| energy_sensor(*chip, f));
    let mut j: usize = 0;
    assert(powered + counters.take(0) =~= powered);
    while j < chip.energy.len()
        invariant
            j <= chip.energy@.len(),
            counters == chip.energy@.map_values(|f: SensorFiles| energy_sensor(*chip, f)),
            sensors(v@) == powered + counters.take(j as int),
        decreases chip.energy@.len() - j,
    {
        let ghost old_v = v@;
        let sensor: HwmonSource = make_energy_sensor(chip, &chip.energy[j]);
        v.push(sensor);
        assert(sensors(v@) =~= sensors(old_v).push(sensor@));
        assert(sensors(v@) =~= powered + counters.take(j + 1));
        j = j + 1;
    }
    assert(counters.take(j as int) =~= counters);
    assert(sensors(v@) =~= before + chip_sensors(*chip));
}

/// Makes a source of each sensor of the given chips, or of none where there are no chips.
pub fn discover(chips: &Option<Vec<HwmonChip>>) -> (r: Result<Vec<HwmonSource>, SourceError>)
    ensures
        match r {
            Ok(v) => chips is Some && sensors(v@) == all_sensors(chips->0@) && v@.len() > 0,
            Err(e) => e.fault() == Fault::Unavailable && (if chips is None {
                e.message() == "no /sys/class/hwmon"@
            } else {
                all_sensors(chips->0@).len() == 0 && e.message() == "No hwmon power sensors found"@
            }),
        },
{
    let chips: &Vec<HwmonChip> = match chips {
        Some(v) => v,
        None => {
            return Err(SourceError::Unavailable("no /sys/class/hwmon".to_owned()));
        },
    };
    let mut v: Vec<HwmonSource> = Vec::new();
    let mut i: usize = 0;
    assert(sensors(v@) =~= Seq::empty());
    while i < chips.len()
        invariant
            i <= chips@.len(),
            sensors(v@) == all_sensors(chips@.take(i as int)),
        decreases chips@.len() - i,
    {
        assert(chips@.take(i + 1).drop_last() =~= chips@.take(i as int));
        add_chip(&mut v, &chips[i]);
        i = i + 1;
    }
    assert(chips@.take(i as int) =~= chips@);
    assert(sensors(v@).len() == v@.len());
    if v.len() == 0 {
        return Err(SourceError::Unavailable("No hwmon power sensors found".to_owned()));
    }
    Ok(v)
}

// ─── What sensors tell ──────────────────────────────────────────

/// A sensor of power tells the power that its file holds, and a counter the energy; a counter's
/// range is what its own file holds, and none where it has no such file or that cannot be read.
pub proof fn law_sensor_reading(
    s: HwmonSource,
    n: u64,
    max: u64,
    a: Seq<char>,
    b: Seq<char>,
)
    requires
        blank(a),
        blank(b),
    ensures
        ({
            let input = Some(a + decimal(n as int) + b);
            let range = Some(a + decimal(max as int) + b);
            &&& s.sensor is Power ==> (match s.outcome(seq![input]) {
                Ok(q) => q.power_uw == Some(n) && q.energy_uj is None,
                Err(_) => false,
            })
            &&& s.sensor is Energy ==> (match s.outcome(seq![input, range]) {
                Ok(q) => q.energy_uj == Some(n) && q.power_uw is None && q.max_energy_uj == (
                if s.sensor->max_path is Some {
                    max
                } else {
                    0
                }),
                Err(_) => false,
            })
            &&& s.sensor is Energy ==> (match s.outcome(seq![input, None]) {
                Ok(q) => q.energy_uj == Some(n) && q.max_energy_uj == 0,
                Err(_) => false,
            })
            &&& s.outcome(seq![None, range]) is Err
        }),
{
    law_number_in_file(a, n as int, b);
    law_number_in_file(a, max as int, b);
}

/// A chip with a graphics driver's name is an accelerator, whatever the label says.
pub proof fn law_graphics_chips(a: Seq<char>, b: Seq<char>, label: Seq<char>)
    ensures
        component_of(a + "nvidia"@ + b, label) == Component::Gpu,
        component_of(a + "amdgpu"@ + b, label) == Component::Gpu,
        component_of(a + "radeon"@ + b, label) == Component::Gpu,
        component_of(a + "xe"@ + b, label) == Component::Gpu,
{
    law_part_is_found(a, "nvidia"@, b);
    law_part_is_found(a, "amdgpu"@, b);
    law_part_is_found(a, "radeon"@, b);
    law_part_is_found(a, "xe"@, b);
}

/// Whether a chip's name holds that of a graphics driver.
pub open spec fn is_graphics(chip: Seq<char>) -> bool {
    holds_text(chip, "nvidia"@) || holds_text(chip, "amdgpu"@) || holds_text(chip, "radeon"@)
        || holds_text(chip, "xe"@)
}

/// Of chips that are no accelerators, one with a network driver's name, or a label that says so, is
/// of the network.
pub proof fn law_network_chips(chip: Seq<char>, label: Seq<char>)
    ensures
        component_of(chip, label) == Component::Nic <==> !is_graphics(chip) && (holds_text(
            chip,
            "mlx"@,
        ) || holds_text(chip, "ice"@) || holds_text(chip, "bnxt"@) || holds_text(chip, "i40e"@)
            || holds_text(label, "network"@) || holds_text(label, "nic"@)),
        component_of(chip, label) == Component::Gpu <==> is_graphics(chip),
        component_of(chip, label) == Component::Storage ==> holds_text(chip, "nvme"@)
            || holds_text(chip, "drivetemp"@) || holds_text(label, "disk"@) || holds_text(
            label,
            "ssd"@,
        ),
        component_of(chip, label) == Component::Memory ==> (holds_text(label, "dram"@)
            || holds_text(label, "dimm"@) || holds_text(label, "memory"@)) && !holds_text(
            label,
            "cpu"@,
        ) && !holds_text(label, "vcore"@) && !holds_text(label, "package"@),
        component_of(chip, label) != Component::Fan,
        component_of(chip, label) != Component::Platform,
{
}

/// What is neither an accelerator nor of the network is of storage if its chip is a drive's or its
/// label says so; else the label decides between the processor and memory, and the processor has
/// what is left.
pub proof fn law_label_decides(chip: Seq<char>, label: Seq<char>)
    requires
        component_of(chip, label) != Component::Gpu,
        component_of(chip, label) != Component::Nic,
    ensures
        holds_text(chip, "nvme"@) || holds_text(chip, "drivetemp"@) || holds_text(label, "disk"@)
            || holds_text(label, "ssd"@) ==> component_of(chip, label) == Component::Storage,
        component_of(chip, label) != Component::Storage && (holds_text(label, "cpu"@)
            || holds_text(label, "vcore"@) || holds_text(label, "package"@)) ==> component_of(
            chip,
            label,
        ) == Component::Cpu,
        component_of(chip, label) != Component::Storage && (holds_text(label, "dram"@)
            || holds_text(label, "dimm"@) || holds_text(label, "memory"@)) && component_of(
            chip,
            label,
        ) != Component::Memory ==> holds_text(label, "cpu"@) || holds_text(label, "vcore"@)
            || holds_text(label, "package"@),
        component_of(chip, label) == Component::Storage || component_of(chip, label)
            == Component::Memory || component_of(chip, label) == Component::Cpu,
{
}

/// What a sensor of power counts for if it is enabled: one whose file says 0 is not.
pub open spec fn counted_sensor(chip: HwmonChip, count: spec_fn(HwmonView) -> int) -> spec_fn(
    SensorFiles,
) -> int {
    |f: SensorFiles|
        if f.enable_text is Some && trimmed(f.enable_text->0@) == "0"@ {
            0
        } else {
            count(power_sensor(chip, f))
        }
}

proof fn lemma_power_sensors(chip: HwmonChip, n: int, count: spec_fn(HwmonView) -> int)
    requires
        0 <= n <= chip.power@.len(),
    ensures
        sum_of(power_sensors(chip, n), count) == sum_of(
            chip.power@.take(n),
            counted_sensor(chip, count),
        ),
    decreases n,
{
    if n > 0 {
        lemma_power_sensors(chip, n - 1, count);
        let f = chip.power@[n - 1];
        assert(chip.power@.take(n).drop_last() =~= chip.power@.take(n - 1));
        assert(chip.power@.take(n).last() == f);
        lemma_sum_push(power_sensors(chip, n - 1), power_sensor(chip, f), count);
    } else {
        assert(chip.power@.take(0) =~= Seq::empty());
    }
}

/// A chip's sensors are those of power that are enabled, and all counters.
pub proof fn law_chip_sensors(chip: HwmonChip, count: spec_fn(HwmonView) -> int)
    ensures
        sum_of(chip_sensors(chip), count) == sum_of(chip.power@, counted_sensor(chip, count))
            + sum_of(chip.energy@, |f: SensorFiles| count(energy_sensor(chip, f))),
{
    let n = chip.power@.len() as int;
    assert(chip.power@.take(n) =~= chip.power@);
    lemma_power_sensors(chip, n, count);
    let e = chip.energy@.map_values(|f: SensorFiles| energy_sensor(chip, f));
    lemma_sum_concat(power_sensors(chip, n), e, count);
    let g = |f: SensorFiles| count(energy_sensor(chip, f));
    assert forall|i: int| 0 <= i < e.len() implies count(#[trigger] e[i]) == g(chip.energy@[i]) by {
    }
    lemma_sum_same(e, count, chip.energy@, g);
}

/// All sensors are those of each chip.
pub proof fn law_all_sensors(chips: Seq<HwmonChip>, count: spec_fn(HwmonView) -> int)
    ensures
        sum_of(all_sensors(chips), count) == sum_of(
            chips,
            |c: HwmonChip| sum_of(chip_sensors(c), count),
        ),
    decreases chips.len(),
{
    if chips.len() > 0 {
        law_all_sensors(chips.drop_last(), count);
        lemma_sum_concat(all_sensors(chips.drop_last()), chip_sensors(chips.last()), count);
        let f = |c: HwmonChip| sum_of(chip_sensors(c), count);
        lemma_sum_same(chips.drop_last(), f, chips.drop_last(), f);
    }
}

/// A sensor reads the file of its own number in its chip's directory: power from one, energy from
/// another, and the range of a counter that has one from a third. It is of the component that its
/// chip and its label tell.
pub proof fn law_sensor_files(chip: HwmonChip, f: SensorFiles)
    ensures
        ({
            let p = power_sensor(chip, f);
            let e = energy_sensor(chip, f);
            let n = decimal(f.number as int);
            &&& !p.is_counter
            &&& e.is_counter
            &&& p.path == chip.path@ + "/power"@ + n + "_input"@
            &&& p.max_path is None
            &&& e.path == chip.path@ + "/energy"@ + n + "_input"@
            &&& f.has_max ==> e.max_path == Some(chip.path@ + "/energy"@ + n + "_max"@)
            &&& !f.has_max ==> e.max_path is None
            &&& p.component == e.component
            &&& chip.name_text is Some && f.label_text is Some ==> p.component == component_of(
                lowercase(trimmed(chip.name_text->0@)),
                lowercase(trimmed(f.label_text->0@)),
            )
        }),
{
}

} // verus!
