//! CPU temperature sensor discovery.
//!
//! The detector first reads the processor's vendor out of the CPU
//! identification text, then scans the device-tree snapshot for the
//! vendor's temperature chip and, inside it, for the temperature input
//! whose paired label names the package, core or die temperature.

use vstd::prelude::*;
use crate::errors::FanCurveError;
use crate::hwmon::HwmonDevice;
use crate::hwmon::HwmonFile;
use crate::hwmon::spec_file_index;
use crate::hwmon::file_index;
use crate::hwmon::join_path;
use crate::text::find_ch;
use crate::text::find_ch_from;
use crate::text::spec_trim;
use crate::text::trim_str;
use crate::text::has_substring;
use crate::text::contains_sub;
use crate::text::eq_str;
use crate::text::str_starts_with;
use crate::text::str_ends_with;

verus! {

/// The processor vendors the discovery knows.
#[derive(Clone, Copy, PartialEq, Eq, Structural, Debug)]
pub enum CpuManufacturer {
    Intel,
    Amd,
    Unknown,
}

/// A discovered CPU temperature sensor: where its device lives and which
/// files to read.
pub struct CpuTempSensor {
    pub manufacturer: CpuManufacturer,
    pub hwmon_path: String,
    pub temp_input_path: String,
    pub temp_label_path: String,
    pub sensor_name: String,
}

/// The CPU temperature detector: holds the sensor once discovered.
pub struct CpuTempDetector {
    sensor: Option<CpuTempSensor>,
}

// ---------------------------------------------------------------------
// Vendor detection over the CPU identification text
// ---------------------------------------------------------------------
/// The value of a `key : value` line: the text between the first and
/// second colon, trimmed; `None` without a colon.
pub open spec fn spec_vendor_value(line: Seq<char>) -> Option<Seq<char>> {
    let c = find_ch(line, ':');
    if c >= line.len() {
        None
    } else {
        let after = line.skip(c + 1);
        Some(spec_trim(after.take(find_ch(after, ':'))))
    }
}

/// Scans the identification text line by line for the first one that
/// starts with the vendor key; `None` when there is none, `Some(None)`
/// when the line is malformed, and `Some(Some(v))` with the vendor text
/// otherwise.
pub open spec fn spec_find_vendor(s: Seq<char>) -> Option<Option<Seq<char>>>
    decreases s.len(),
    via spec_find_vendor_dec
{
    if s.len() == 0 {
        None
    } else {
        let k = find_ch(s, '\n');
        let line = s.take(k);
        if line.len() >= "vendor_id"@.len() && line.take("vendor_id"@.len() as int)
            == "vendor_id"@ {
            Some(spec_vendor_value(line))
        } else if k < s.len() {
            spec_find_vendor(s.skip(k + 1))
        } else {
            None
        }
    }
}

#[via_fn]
proof fn spec_find_vendor_dec(s: Seq<char>) {
    crate::text::lemma_find_ch_props(s, '\n');
}

/// The manufacturer a vendor text names.
pub open spec fn spec_manufacturer_of(v: Seq<char>) -> CpuManufacturer {
    if v == "GenuineIntel"@ {
        CpuManufacturer::Intel
    } else if v == "AuthenticAMD"@ {
        CpuManufacturer::Amd
    } else {
        CpuManufacturer::Unknown
    }
}

/// The `value` part of a `key : value` line.
fn vendor_value<'a>(line: &'a str) -> (r: Option<&'a str>)
    ensures
        match r {
            Some(v) => spec_vendor_value(line@) == Some(v@),
            None => spec_vendor_value(line@) is None,
        },
{
    let n = line.unicode_len();
    let c = find_ch_from(line, 0, ':');
    proof {
        assert(line@.skip(0) =~= line@);
    }
    if c >= n {
        return None;
    }
    let c2 = find_ch_from(line, c + 1, ':');
    let raw = line.substring_char(c + 1, c2);
    proof {
        let after = line@.skip(c + 1);
        assert(raw@ =~= after.take(find_ch(after, ':')));
    }
    Some(trim_str(raw))
}

/// Reads the processor's vendor out of the CPU identification text: the
/// first `vendor_id` line decides; a missing or malformed line is a
/// configuration error.
pub fn detect_cpu_manufacturer(cpuinfo: &str) -> (r: Result<CpuManufacturer, FanCurveError>)
    ensures
        match spec_find_vendor(cpuinfo@) {
            Some(Some(v)) => r == Ok::<CpuManufacturer, FanCurveError>(spec_manufacturer_of(v)),
            Some(None) => r matches Err(e) && e is Config,
            None => r matches Err(e) && e is Config,
        },
{
    let n = cpuinfo.unicode_len();
    let mut i: usize = 0;
    proof {
        assert(cpuinfo@.skip(0) =~= cpuinfo@);
    }
    while i < n
        invariant
            0 <= i <= n,
            n == cpuinfo@.len(),
            spec_find_vendor(cpuinfo@) == spec_find_vendor(cpuinfo@.skip(i as int)),
        decreases n - i,
    {
        let k = find_ch_from(cpuinfo, i, '\n');
        let line = cpuinfo.substring_char(i, k);
        proof {
            crate::text::lemma_find_from(cpuinfo@, i as int, k as int, '\n');
            assert(line@ =~= cpuinfo@.skip(i as int).take(k - i));
        }
        if str_starts_with(line, "vendor_id") {
            match vendor_value(line) {
                Some(v) => {
                    if eq_str(v, "GenuineIntel") {
                        return Ok(CpuManufacturer::Intel);
                    } else if eq_str(v, "AuthenticAMD") {
                        return Ok(CpuManufacturer::Amd);
                    } else {
                        return Ok(CpuManufacturer::Unknown);
                    }
                },
                None => {
                    return Err(FanCurveError::Config("invalid CPU identification text".to_owned()));
                },
            }
        }
        if k < n {
            proof {
                assert(cpuinfo@.skip(i as int).skip((k - i) + 1) =~= cpuinfo@.skip(k + 1));
            }
            i = k + 1;
        } else {
            proof {
                assert(spec_find_vendor(cpuinfo@.skip(i as int)) is None);
            }
            return Err(
                FanCurveError::Config("could not determine the CPU manufacturer".to_owned()),
            );
        }
    }
    proof {
        assert(cpuinfo@.skip(i as int).len() == 0);
    }
    Err(FanCurveError::Config("could not determine the CPU manufacturer".to_owned()))
}

// ---------------------------------------------------------------------
// Sensor discovery over the device snapshot
// ---------------------------------------------------------------------
/// Whether a device name is the vendor's temperature chip.
pub open spec fn spec_target_name(name: Seq<char>, manu: CpuManufacturer) -> bool {
    match manu {
        CpuManufacturer::Intel => name == "coretemp"@,
        CpuManufacturer::Amd => name == "k10temp"@,
        CpuManufacturer::Unknown => name == "coretemp"@ || name == "k10temp"@,
    }
}

/// Whether a temperature label names the package, core or die
/// temperature the vendor exposes.
pub open spec fn spec_label_matches(label: Seq<char>, manu: CpuManufacturer) -> bool {
    match manu {
        CpuManufacturer::Intel => has_substring(label, "Package id 0"@) || has_substring(
            label,
            "Core 0"@,
        ),
        CpuManufacturer::Amd => has_substring(label, "Tctl"@),
        CpuManufacturer::Unknown => has_substring(label, "Package id 0"@) || has_substring(
            label,
            "Core 0"@,
        ) || has_substring(label, "Tctl"@),
    }
}

/// Whether a file name has the shape of a temperature input.
pub open spec fn spec_is_temp_input(name: Seq<char>) -> bool {
    &&& name.len() >= "temp"@.len()
    &&& name.take("temp"@.len() as int) == "temp"@
    &&& name.len() >= "_input"@.len()
    &&& name.skip(name.len() - "_input"@.len()) == "_input"@
}

/// The label file paired with a temperature input: the `_input` suffix
/// replaced by `_label`.
pub open spec fn spec_label_file_of(input: Seq<char>) -> Seq<char>
    recommends
        input.len() >= "_input"@.len(),
{
    input.take(input.len() - "_input"@.len()) + "_label"@
}

/// Whether file `idx` of a device is a temperature input whose paired
/// label exists and matches the vendor's pattern.
pub open spec fn spec_input_matches(files: Seq<HwmonFile>, idx: int, manu: CpuManufacturer) -> bool
    recommends
        0 <= idx < files.len(),
{
    let name = files[idx].name@;
    &&& spec_is_temp_input(name)
    &&& match spec_file_index(files, spec_label_file_of(name)) {
        Some(li) => spec_label_matches(files[li].content@, manu),
        None => false,
    }
}

/// The first matching temperature input at or after `j`.
pub open spec fn spec_find_temp_input(
    files: Seq<HwmonFile>,
    manu: CpuManufacturer,
    j: int,
) -> Option<int>
    decreases files.len() - j,
{
    if j < 0 || j >= files.len() {
        None
    } else if spec_input_matches(files, j, manu) {
        Some(j)
    } else {
        spec_find_temp_input(files, manu, j + 1)
    }
}

/// The first device at or after `i` whose name is the vendor's chip and
/// which holds a matching temperature input, with that input's index.
pub open spec fn spec_find_sensor(
    devices: Seq<HwmonDevice>,
    manu: CpuManufacturer,
    i: int,
) -> Option<(int, int)>
    decreases devices.len() - i,
{
    if i < 0 || i >= devices.len() {
        None
    } else {
        let name_ok = match devices[i].name {
            Some(nm) => spec_target_name(nm@, manu),
            None => false,
        };
        if name_ok && spec_find_temp_input(devices[i].files@, manu, 0) is Some {
            Some((i, spec_find_temp_input(devices[i].files@, manu, 0).unwrap()))
        } else {
            spec_find_sensor(devices, manu, i + 1)
        }
    }
}

/// Checks one file for the temperature-input shape and a matching label.
fn input_matches(files: &Vec<HwmonFile>, idx: usize, manu: CpuManufacturer) -> (r: bool)
    requires
        idx < files@.len(),
    ensures
        r == spec_input_matches(files@, idx as int, manu),
{
    let name: &str = files[idx].name.as_str();
    if !str_starts_with(name, "temp") || !str_ends_with(name, "_input") {
        return false;
    }
    let n = name.unicode_len();
    proof {
        reveal_strlit("temp");
        reveal_strlit("_input");
        reveal_strlit("_label");
    }
    let stem = name.substring_char(0, n - 6);
    let mut label_name = stem.to_owned();
    label_name.append("_label");
    proof {
        assert("_input"@.len() == 6);
        assert(label_name@ =~= spec_label_file_of(name@));
    }
    let li = match file_index(files, label_name.as_str()) {
        Some(li) => li,
        None => {
            return false;
        },
    };
    let label: &str = files[li].content.as_str();
    match manu {
        CpuManufacturer::Intel => contains_sub(label, "Package id 0") || contains_sub(
            label,
            "Core 0",
        ),
        CpuManufacturer::Amd => contains_sub(label, "Tctl"),
        CpuManufacturer::Unknown => contains_sub(label, "Package id 0") || contains_sub(
            label,
            "Core 0",
        ) || contains_sub(label, "Tctl"),
    }
}

/// Finds the first matching temperature input of a device.
fn find_temp_input(files: &Vec<HwmonFile>, manu: CpuManufacturer) -> (r: Option<usize>)
    ensures
        match r {
            Some(fi) => spec_find_temp_input(files@, manu, 0) == Some(fi as int) && fi
                < files@.len() && spec_input_matches(files@, fi as int, manu),
            None => spec_find_temp_input(files@, manu, 0) is None,
        },
{
    let n = files.len();
    let mut j: usize = 0;
    while j < n
        invariant
            0 <= j <= n,
            n == files@.len(),
            spec_find_temp_input(files@, manu, 0) == spec_find_temp_input(files@, manu, j as int),
        decreases n - j,
    {
        if input_matches(files, j, manu) {
            return Some(j);
        }
        j = j + 1;
    }
    None
}

impl CpuTempDetector {
    /// The discovered sensor, if any.
    pub closed spec fn spec_sensor(&self) -> Option<CpuTempSensor> {
        self.sensor
    }

    /// A fresh detector with no sensor discovered yet.
    pub fn new() -> (d: CpuTempDetector)
        ensures
            d.spec_sensor() is None,
    {
        CpuTempDetector { sensor: None }
    }

    /// Scans the identification text and the device snapshot for the
    /// CPU temperature sensor.  On success the detector holds the first
    /// matching device's first matching input; on failure it is left
    /// unchanged.
    pub fn initialize(&mut self, cpuinfo: &str, devices: &Vec<HwmonDevice>) -> (r: Result<
        (),
        FanCurveError,
    >)
        ensures
            match spec_find_vendor(cpuinfo@) {
                Some(Some(v)) => {
                    let manu = spec_manufacturer_of(v);
                    match spec_find_sensor(devices@, manu, 0) {
                        Some((di, fi)) => r is Ok && (final (self).spec_sensor() matches Some(s)
                            && ({
                            let d = devices@[di];
                            &&& s.manufacturer == manu
                            &&& s.hwmon_path@ == d.path@
                            &&& s.temp_input_path@ == d.path@ + seq!['/'] + d.files@[fi].name@
                            &&& s.temp_label_path@ == d.path@ + seq!['/'] + spec_label_file_of(
                                d.files@[fi].name@,
                            )
                            &&& d.name matches Some(nm) && s.sensor_name@ == nm@
                        })),
                        None => (r matches Err(e) && e is Config) && final (self).spec_sensor()
                            == old(self).spec_sensor(),
                    }
                },
                _ => (r matches Err(e) && e is Config) && final (self).spec_sensor() == old(
                    self,
                ).spec_sensor(),
            },
    {
        let manu = match detect_cpu_manufacturer(cpuinfo) {
            Ok(m) => m,
            Err(e) => {
                return Err(e);
            },
        };
        let n = devices.len();
        let mut i: usize = 0;
        while i < n
            invariant
                0 <= i <= n,
                n == devices@.len(),
                *self == *old(self),
                spec_find_vendor(cpuinfo@) matches Some(Some(v)) && manu == spec_manufacturer_of(
                    v,
                ),
                spec_find_sensor(devices@, manu, 0) == spec_find_sensor(devices@, manu, i as int),
            decreases n - i,
        {
            let d = &devices[i];
            let name_ok = match &d.name {
                Some(nm) => {
                    match manu {
                        CpuManufacturer::Intel => eq_str(nm.as_str(), "coretemp"),
                        CpuManufacturer::Amd => eq_str(nm.as_str(), "k10temp"),
                        CpuManufacturer::Unknown => eq_str(nm.as_str(), "coretemp") || eq_str(
                            nm.as_str(),
                            "k10temp",
                        ),
                    }
                },
                None => false,
            };
            let found = if name_ok {
                find_temp_input(&d.files, manu)
            } else {
                None
            };
            proof {
                if found is None {
                    assert(spec_find_sensor(devices@, manu, i as int) == spec_find_sensor(
                        devices@,
                        manu,
                        i + 1,
                    ));
                }
            }
            {
                match found {
                    Some(fi) => {
                        proof {
                            assert(spec_find_sensor(devices@, manu, i as int) == Some(
                                (i as int, fi as int),
                            ));
                        }
                        let input_name: &str = d.files[fi].name.as_str();
                        let input_path = join_path(d.path.as_str(), input_name);
                        let nlen = input_name.unicode_len();
                        proof {
                            reveal_strlit("_input");
                            reveal_strlit("_label");
                            assert(spec_input_matches(d.files@, fi as int, manu));
                        }
                        let stem = input_name.substring_char(0, nlen - 6);
                        let mut label_name = stem.to_owned();
                        label_name.append("_label");
                        proof {
                            assert(label_name@ =~= spec_label_file_of(input_name@));
                        }
                        let label_path = join_path(d.path.as_str(), label_name.as_str());
                        let sensor_name = match &d.name {
                            Some(nm) => nm.as_str().to_owned(),
                            None => String::new(),
                        };
                        self.sensor = Some(
                            CpuTempSensor {
                                manufacturer: manu,
                                hwmon_path: d.path.as_str().to_owned(),
                                temp_input_path: input_path,
                                temp_label_path: label_path,
                                sensor_name,
                            },
                        );
                        return Ok(());
                    },
                    None => {},
                }
            }
            i = i + 1;
        }
        Err(FanCurveError::Config("could not find the CPU temperature sensor".to_owned()))
    }

    /// The paired label file of a temperature input within a device:
    /// the `_input` suffix replaced by `_label`, as a full path; a
    /// configuration error when the file is missing or the name has the
    /// wrong shape.
    pub fn find_temp_label_file(&self, device: &HwmonDevice, temp_input_name: &str) -> (r: Result<
        String,
        FanCurveError,
    >)
        ensures
            ({
                let name = temp_input_name@;
                if name.len() >= "_input"@.len() && name.skip(name.len() - "_input"@.len())
                    == "_input"@ {
                    if crate::hwmon::spec_has_file(device, spec_label_file_of(name)) {
                        r matches Ok(p) && p@ == device.path@ + seq!['/'] + spec_label_file_of(name)
                    } else {
                        r matches Err(e) && e is Config
                    }
                } else {
                    r matches Err(e) && e is Config
                }
            }),
    {
        proof {
            reveal_strlit("_input");
            reveal_strlit("_label");
        }
        if !str_ends_with(temp_input_name, "_input") {
            return Err(FanCurveError::Config("invalid temperature input file name".to_owned()));
        }
        let n = temp_input_name.unicode_len();
        let stem = temp_input_name.substring_char(0, n - 6);
        let mut label_name = stem.to_owned();
        label_name.append("_label");
        proof {
            assert(label_name@ =~= spec_label_file_of(temp_input_name@));
        }
        if crate::hwmon::has_file(device, label_name.as_str()) {
            Ok(join_path(device.path.as_str(), label_name.as_str()))
        } else {
            Err(FanCurveError::Config("temperature label file not found".to_owned()))
        }
    }

    /// The discovered sensor, if any.
    pub fn get_sensor_info(&self) -> (r: Option<&CpuTempSensor>)
        ensures
            match r {
                Some(s) => self.spec_sensor() == Some(*s),
                None => self.spec_sensor() is None,
            },
    {
        self.sensor.as_ref()
    }

    /// Whether a sensor was discovered.
    pub fn is_initialized(&self) -> (r: bool)
        ensures
            r == (self.spec_sensor() is Some),
    {
        self.sensor.is_some()
    }

    /// The discovered manufacturer, or `Unknown` before discovery.
    pub fn manufacturer(&self) -> (r: CpuManufacturer)
        ensures
            r == match self.spec_sensor() {
                Some(s) => s.manufacturer,
                None => CpuManufacturer::Unknown,
            },
    {
        match &self.sensor {
            Some(s) => s.manufacturer,
            None => CpuManufacturer::Unknown,
        }
    }
}

/// Decodes one temperature reading: a decimal count of thousandths of a
/// degree Celsius, with blanks around it allowed.  Readings outside the
/// plausible range of -50 to 200 degrees are rejected, as are texts that
/// are not a single number.
pub fn parse_temperature_millidegrees(content: &str) -> (r: Result<i32, FanCurveError>)
    ensures
        match r {
            Ok(t) => (crate::codec::parse_int(content@) matches Some((v, rest)) && v == t as int
                && crate::codec::skip_ws(rest).len() == 0) && -50000 <= t <= 200000,
            Err(e) => e is Config && (match crate::codec::parse_int(content@) {
                Some((v, rest)) => !(-50000 <= v <= 200000 && crate::codec::skip_ws(rest).len()
                    == 0),
                None => true,
            }),
        },
{
    proof {
        assert(content@.skip(0) =~= content@);
    }
    let n = content.unicode_len();
    match crate::codec::p_int(content, 0, -50000, 200000) {
        Some((v, j)) => {
            let jf = crate::codec::p_skip_ws(content, j);
            if jf == n {
                Ok(v as i32)
            } else {
                proof {
                    assert(content@.skip(jf as int).len() > 0);
                }
                Err(FanCurveError::Config("temperature reading out of range".to_owned()))
            }
        },
        None => Err(FanCurveError::Config("failed to parse temperature".to_owned())),
    }
}

} // verus!
