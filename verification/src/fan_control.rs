//! Actuator discovery and duty control for the fan-controller device.
//!
//! The controller looks for a fan-control device in the device-tree
//! snapshot — one whose name suggests a fan controller, or that carries
//! PWM files — and records the file paths to drive; duty writes are
//! computed here and performed outside.

use vstd::prelude::*;
use crate::errors::FanCurveError;
use crate::hwmon::HwmonDevice;
use crate::hwmon::spec_has_file;
use crate::hwmon::spec_pwm_file;
use crate::hwmon::spec_fan_input_file;
use crate::hwmon::spec_fan_label_file;
use crate::hwmon::has_file;
use crate::hwmon::pwm_file_name;
use crate::hwmon::fan_input_file_name;
use crate::hwmon::fan_label_file_name;
use crate::hwmon::join_path;
use crate::text::has_substring;
use crate::text::contains_sub;
use crate::fan::round_div;

verus! {

/// The discovered fan-control files.
pub struct FanControlInfo {
    pub hwmon_path: String,
    pub pwm_path: String,
    pub fan_input_path: String,
    pub fan_label_path: String,
    pub device_name: String,
}

/// The fan controller: holds the control files once discovered.
pub struct FanController {
    control_info: Option<FanControlInfo>,
}

/// The first of `pwm1` to `pwm4` present on the device.
pub open spec fn spec_first_pwm(d: &HwmonDevice) -> Option<nat> {
    if spec_has_file(d, spec_pwm_file(1)) {
        Some(1nat)
    } else if spec_has_file(d, spec_pwm_file(2)) {
        Some(2nat)
    } else if spec_has_file(d, spec_pwm_file(3)) {
        Some(3nat)
    } else if spec_has_file(d, spec_pwm_file(4)) {
        Some(4nat)
    } else {
        None
    }
}

/// The first of `fan1_input` to `fan4_input` present on the device.
pub open spec fn spec_first_fan_input(d: &HwmonDevice) -> Option<nat> {
    if spec_has_file(d, spec_fan_input_file(1)) {
        Some(1nat)
    } else if spec_has_file(d, spec_fan_input_file(2)) {
        Some(2nat)
    } else if spec_has_file(d, spec_fan_input_file(3)) {
        Some(3nat)
    } else if spec_has_file(d, spec_fan_input_file(4)) {
        Some(4nat)
    } else {
        None
    }
}

/// The first of `fan1_label` to `fan4_label` present on the device.
pub open spec fn spec_first_fan_label(d: &HwmonDevice) -> Option<nat> {
    if spec_has_file(d, spec_fan_label_file(1)) {
        Some(1nat)
    } else if spec_has_file(d, spec_fan_label_file(2)) {
        Some(2nat)
    } else if spec_has_file(d, spec_fan_label_file(3)) {
        Some(3nat)
    } else if spec_has_file(d, spec_fan_label_file(4)) {
        Some(4nat)
    } else {
        None
    }
}

/// Whether the device looks like a fan controller: its name mentions a
/// fan-control chip, or it carries PWM files at all.
pub open spec fn spec_is_fan_control_device(d: &HwmonDevice) -> bool {
    match d.name {
        Some(nm) => has_substring(nm@, "thelio"@) || has_substring(nm@, "io"@) || has_substring(
            nm@,
            "pwm"@,
        ) || spec_first_pwm(d) is Some,
        None => false,
    }
}

/// The first device at or after `i` that looks like a fan controller and
/// has a PWM file.
pub open spec fn spec_find_ctrl(devices: Seq<HwmonDevice>, i: int) -> Option<int>
    decreases devices.len() - i,
{
    if i < 0 || i >= devices.len() {
        None
    } else if spec_is_fan_control_device(&devices[i]) && spec_first_pwm(&devices[i]) is Some {
        Some(i)
    } else {
        spec_find_ctrl(devices, i + 1)
    }
}

/// The first of `pwm1` to `pwm4` present on the device.
fn first_pwm(d: &HwmonDevice) -> (r: Option<u8>)
    ensures
        match r {
            Some(n) => spec_first_pwm(d) == Some(n as nat) && 1 <= n <= 4,
            None => spec_first_pwm(d) is None,
        },
{
    if has_file(d, pwm_file_name(1)) {
        Some(1)
    } else if has_file(d, pwm_file_name(2)) {
        Some(2)
    } else if has_file(d, pwm_file_name(3)) {
        Some(3)
    } else if has_file(d, pwm_file_name(4)) {
        Some(4)
    } else {
        None
    }
}

/// The first of `fan1_input` to `fan4_input` present on the device.
fn first_fan_input(d: &HwmonDevice) -> (r: Option<u8>)
    ensures
        match r {
            Some(n) => spec_first_fan_input(d) == Some(n as nat) && 1 <= n <= 4,
            None => spec_first_fan_input(d) is None,
        },
{
    if has_file(d, fan_input_file_name(1).as_str()) {
        Some(1)
    } else if has_file(d, fan_input_file_name(2).as_str()) {
        Some(2)
    } else if has_file(d, fan_input_file_name(3).as_str()) {
        Some(3)
    } else if has_file(d, fan_input_file_name(4).as_str()) {
        Some(4)
    } else {
        None
    }
}

/// The first of `fan1_label` to `fan4_label` present on the device.
fn first_fan_label(d: &HwmonDevice) -> (r: Option<u8>)
    ensures
        match r {
            Some(n) => spec_first_fan_label(d) == Some(n as nat) && 1 <= n <= 4,
            None => spec_first_fan_label(d) is None,
        },
{
    if has_file(d, fan_label_file_name(1).as_str()) {
        Some(1)
    } else if has_file(d, fan_label_file_name(2).as_str()) {
        Some(2)
    } else if has_file(d, fan_label_file_name(3).as_str()) {
        Some(3)
    } else if has_file(d, fan_label_file_name(4).as_str()) {
        Some(4)
    } else {
        None
    }
}

/// Whether the device looks like a fan controller.
fn is_fan_control_device(d: &HwmonDevice) -> (r: bool)
    ensures
        r == spec_is_fan_control_device(d),
{
    let by_name = match &d.name {
        Some(nm) => contains_sub(nm.as_str(), "thelio") || contains_sub(nm.as_str(), "io")
            || contains_sub(nm.as_str(), "pwm"),
        None => {
            return false;
        },
    };
    by_name || first_pwm(d).is_some()
}

impl FanController {
    /// The discovered control files, if any.
    pub closed spec fn spec_info(&self) -> Option<FanControlInfo> {
        self.control_info
    }

    /// A fresh controller with nothing discovered yet.
    pub fn new() -> (c: FanController)
        ensures
            c.spec_info() is None,
    {
        FanController { control_info: None }
    }

    /// Scans the device snapshot for the fan-control device.  The first
    /// device that looks like a fan controller and has a PWM file wins;
    /// it must then also carry a fan input and a fan label file, or
    /// discovery fails.  On failure the controller is left unchanged.
    pub fn initialize(&mut self, devices: &Vec<HwmonDevice>) -> (r: Result<(), FanCurveError>)
        ensures
            match spec_find_ctrl(devices@, 0) {
                Some(di) => {
                    let d = devices@[di];
                    if spec_first_fan_input(&d) is Some && spec_first_fan_label(&d) is Some {
                        r is Ok && (final (self).spec_info() matches Some(info) && {
                            &&& info.hwmon_path@ == d.path@
                            &&& info.pwm_path@ == d.path@ + seq!['/'] + spec_pwm_file(
                                spec_first_pwm(&d).unwrap(),
                            )
                            &&& info.fan_input_path@ == d.path@ + seq!['/'] + spec_fan_input_file(
                                spec_first_fan_input(&d).unwrap(),
                            )
                            &&& info.fan_label_path@ == d.path@ + seq!['/'] + spec_fan_label_file(
                                spec_first_fan_label(&d).unwrap(),
                            )
                            &&& d.name matches Some(nm) && info.device_name@ == nm@
                        })
                    } else {
                        (r matches Err(e) && e is Config) && final (self).spec_info() == old(
                            self,
                        ).spec_info()
                    }
                },
                None => (r matches Err(e) && e is Config) && final (self).spec_info() == old(
                    self,
                ).spec_info(),
            },
    {
        let n = devices.len();
        let mut i: usize = 0;
        while i < n
            invariant
                0 <= i <= n,
                n == devices@.len(),
                *self == *old(self),
                spec_find_ctrl(devices@, 0) == spec_find_ctrl(devices@, i as int),
            decreases n - i,
        {
            let d = &devices[i];
            let pwm = if is_fan_control_device(d) {
                first_pwm(d)
            } else {
                None
            };
            match pwm {
                Some(pn) => {
                    proof {
                        assert(spec_find_ctrl(devices@, i as int) == Some(i as int));
                    }
                    let fi = match first_fan_input(d) {
                        Some(v) => v,
                        None => {
                            return Err(FanCurveError::Config("no fan input files found".to_owned()));
                        },
                    };
                    let fl = match first_fan_label(d) {
                        Some(v) => v,
                        None => {
                            return Err(FanCurveError::Config("no fan label files found".to_owned()));
                        },
                    };
                    let device_name = match &d.name {
                        Some(nm) => nm.as_str().to_owned(),
                        None => String::new(),
                    };
                    self.control_info = Some(
                        FanControlInfo {
                            hwmon_path: d.path.as_str().to_owned(),
                            pwm_path: join_path(d.path.as_str(), pwm_file_name(pn)),
                            fan_input_path: join_path(
                                d.path.as_str(),
                                fan_input_file_name(fi).as_str(),
                            ),
                            fan_label_path: join_path(
                                d.path.as_str(),
                                fan_label_file_name(fl).as_str(),
                            ),
                            device_name,
                        },
                    );
                    return Ok(());
                },
                None => {
                    proof {
                        assert(spec_find_ctrl(devices@, i as int) == spec_find_ctrl(
                            devices@,
                            i + 1,
                        ));
                    }
                },
            }
            i = i + 1;
        }
        Err(
            FanCurveError::Config(
                "could not find a fan control device in the hardware monitor tree".to_owned(),
            ),
        )
    }

    /// The duty write for a percentage (0-100): the PWM file to write and
    /// the rounded raw value `round(percent * 255 / 100)`.  A percentage
    /// above 100 or an uninitialized controller is rejected.
    pub fn set_fan_duty(&self, duty_percent: u8) -> (r: Result<(String, u8), FanCurveError>)
        ensures
            duty_percent > 100 ==> (r matches Err(e) && e is Config),
            duty_percent <= 100 ==> match self.spec_info() {
                Some(info) => r matches Ok(w) && w.0@ == info.pwm_path@ && w.1 as int == round_div(
                    duty_percent * 255,
                    100,
                ),
                None => r matches Err(e) && e is Config,
            },
    {
        if duty_percent > 100 {
            return Err(FanCurveError::Config("duty cycle must be between 0 and 100".to_owned()));
        }
        match &self.control_info {
            Some(info) => {
                let pwm: u32 = (2 * (duty_percent as u32) * 255 + 100) / 200;
                proof {
                    crate::fan::lemma_round_div_le((duty_percent as int) * 255, 100, 255);
                    assert((2 * (duty_percent as int)) * 255 == 2 * ((duty_percent as int) * 255))
                        by (nonlinear_arith);
                }
                Ok((info.pwm_path.clone(), pwm as u8))
            },
            None => Err(FanCurveError::Config("fan controller not initialized".to_owned())),
        }
    }

    /// The raw duty write: the PWM file to write and the value itself.
    /// Fails if and only if the controller is uninitialized; the value
    /// needs no check, its type already bounds it.
    pub fn set_fan_pwm(&self, pwm_value: u8) -> (r: Result<(String, u8), FanCurveError>)
        ensures
            match self.spec_info() {
                Some(info) => r matches Ok(w) && w.0@ == info.pwm_path@ && w.1 == pwm_value,
                None => r matches Err(e) && e is Config,
            },
    {
        match &self.control_info {
            Some(info) => Ok((info.pwm_path.clone(), pwm_value)),
            None => Err(FanCurveError::Config("fan controller not initialized".to_owned())),
        }
    }

    /// Decodes the fan-speed reading of the controller's fan input.
    /// Succeeds, with the decoded value, exactly when the controller is
    /// initialized and the text is a speed.
    pub fn read_fan_speed(&self, content: &str) -> (r: Result<u16, FanCurveError>)
        ensures
            match crate::fan_detector::spec_speed_of(content@) {
                Some(v) => if self.spec_info() is Some {
                    r matches Ok(w) && w == v
                } else {
                    r matches Err(e) && e is Config
                },
                None => r matches Err(e) && e is Config,
            },
    {
        if self.control_info.is_none() {
            return Err(FanCurveError::Config("fan controller not initialized".to_owned()));
        }
        crate::fan_detector::parse_fan_speed(content)
    }

    /// Decodes the PWM register reading of the controller's PWM file.
    /// Succeeds, with the decoded value, exactly when the controller is
    /// initialized and the text is a register value.
    pub fn read_fan_pwm(&self, content: &str) -> (r: Result<u8, FanCurveError>)
        ensures
            match spec_pwm_of(content@) {
                Some(v) => if self.spec_info() is Some {
                    r matches Ok(w) && w == v
                } else {
                    r matches Err(e) && e is Config
                },
                None => r matches Err(e) && e is Config,
            },
    {
        if self.control_info.is_none() {
            return Err(FanCurveError::Config("fan controller not initialized".to_owned()));
        }
        parse_pwm_value(content)
    }

    /// The discovered control files, if any.
    pub fn get_control_info(&self) -> (r: Option<&FanControlInfo>)
        ensures
            match r {
                Some(info) => self.spec_info() == Some(*info),
                None => self.spec_info() is None,
            },
    {
        self.control_info.as_ref()
    }

    /// Whether the controller was initialized.
    pub fn is_initialized(&self) -> (r: bool)
        ensures
            r == (self.spec_info() is Some),
    {
        self.control_info.is_some()
    }
}

/// The value of a PWM register reading: a decimal number 0-255 with
/// blanks around it allowed.
pub open spec fn spec_pwm_of(content: Seq<char>) -> Option<nat> {
    match crate::codec::parse_nat(content) {
        Some((n, rest)) => if n <= 255 && crate::codec::skip_ws(rest).len() == 0 {
            Some(n)
        } else {
            None
        },
        None => None,
    }
}

/// Decodes a raw PWM register reading.
pub fn parse_pwm_value(content: &str) -> (r: Result<u8, FanCurveError>)
    ensures
        match r {
            Ok(v) => spec_pwm_of(content@) == Some(v as nat),
            Err(e) => e is Config && spec_pwm_of(content@) is None,
        },
{
    proof {
        assert(content@.skip(0) =~= content@);
    }
    let n = content.unicode_len();
    match crate::codec::p_nat(content, 0, 255) {
        Some((v, j)) => {
            let jf = crate::codec::p_skip_ws(content, j);
            if jf == n {
                Ok(v as u8)
            } else {
                proof {
                    assert(content@.skip(jf as int).len() > 0);
                }
                Err(FanCurveError::Config("failed to parse PWM value".to_owned()))
            }
        },
        None => Err(FanCurveError::Config("failed to parse PWM value".to_owned())),
    }
}

} // verus!
