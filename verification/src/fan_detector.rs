//! Fan discovery on the chassis fan controller, and the write plans that
//! drive the fans.
//!
//! The detector looks for the chassis fan-controller device in the
//! device-tree snapshot and, within it, walks the fan labels in
//! ascending order until one names the CPU fan.  Duty changes are
//! returned as a plan of file writes — enable manual control, then the
//! raw value — which the process around the library performs.

use vstd::prelude::*;
use crate::errors::FanCurveError;
use crate::hwmon::HwmonDevice;
use crate::hwmon::spec_has_file;
use crate::hwmon::spec_file_content;
use crate::hwmon::spec_fan_input_file;
use crate::hwmon::spec_fan_label_file;
use crate::hwmon::spec_pwm_file;
use crate::hwmon::spec_pwm_enable_file;
use crate::hwmon::has_file;
use crate::hwmon::file_content;
use crate::hwmon::fan_input_file_name;
use crate::hwmon::fan_label_file_name;
use crate::hwmon::pwm_file_name;
use crate::hwmon::pwm_enable_file_name;
use crate::hwmon::join_path;
use crate::text::has_substring_ci;
use crate::text::contains_sub_ci;
use crate::text::eq_str;
use crate::codec::enc_nat;
use crate::codec::u64_to_string;

verus! {

/// One discovered fan: its number and the files that describe it.
pub struct FanSensor {
    pub fan_number: u8,
    pub hwmon_path: String,
    pub fan_input_path: String,
    pub fan_label_path: String,
    pub fan_label: String,
}

/// The fan detector: the discovered fans (CPU fan first) and the
/// controller directory they live in.
pub struct FanDetector {
    fans: Vec<FanSensor>,
    hwmon_path: Option<String>,
}

/// One write of the duty plan: the file to write and the text to write
/// into it.
pub struct FanWrite {
    pub path: String,
    pub value: String,
}

/// Whether a device name is the chassis fan controller's.
pub open spec fn spec_is_thelio_name(nm: Seq<char>) -> bool {
    nm == "system76_thelio_io"@ || nm == "system76"@
}

/// The first device at or after `i` named as the chassis fan controller.
pub open spec fn spec_find_thelio(devices: Seq<HwmonDevice>, i: int) -> Option<int>
    decreases devices.len() - i,
{
    if i < 0 || i >= devices.len() {
        None
    } else {
        let name_ok = match devices[i].name {
            Some(nm) => spec_is_thelio_name(nm@),
            None => false,
        };
        if name_ok {
            Some(i)
        } else {
            spec_find_thelio(devices, i + 1)
        }
    }
}

/// Whether a fan label names the CPU fan.
pub open spec fn spec_is_cpu_label(label: Seq<char>) -> bool {
    label == "CPU Fan"@ || label == "CPU fan"@ || has_substring_ci(label, "cpu"@)
}

/// The ascending scan over `fanN_label`/`fanN_input` pairs: the first
/// `n` at or after the given one whose label names the CPU fan.  The
/// scan stops at the first missing pair, and gives up beyond fan 10.
pub open spec fn spec_scan_fans(d: &HwmonDevice, n: int) -> Option<int>
    decreases 11 - n,
{
    if n < 1 || n > 10 {
        None
    } else if spec_has_file(d, spec_fan_label_file(n as nat)) && spec_has_file(
        d,
        spec_fan_input_file(n as nat),
    ) {
        if spec_is_cpu_label(spec_file_content(d, spec_fan_label_file(n as nat)).unwrap()) {
            Some(n)
        } else {
            spec_scan_fans(d, n + 1)
        }
    } else {
        None
    }
}

/// The index of the first discovered fan with the given number, if any.
pub open spec fn spec_fan_index(fans: Seq<FanSensor>, n: u8) -> Option<int>
    decreases fans.len(),
{
    if fans.len() == 0 {
        None
    } else if fans[0].fan_number == n {
        Some(0int)
    } else {
        match spec_fan_index(fans.drop_first(), n) {
            Some(i) => Some(i + 1),
            None => None,
        }
    }
}

/// The scan for a fan number stops at the first hit.
proof fn lemma_fan_index_unique(fans: Seq<FanSensor>, n: u8, i: int)
    requires
        0 <= i <= fans.len(),
        forall|k: int| 0 <= k < i ==> (#[trigger] fans[k]).fan_number != n,
        i < fans.len() ==> fans[i].fan_number == n,
    ensures
        spec_fan_index(fans, n) == if i < fans.len() {
            Some(i)
        } else {
            None::<int>
        },
    decreases fans.len(),
{
    if fans.len() == 0 {
    } else if fans[0].fan_number == n {
        assert(i == 0);
    } else {
        lemma_fan_index_unique(fans.drop_first(), n, i - 1);
    }
}

/// The index of the first discovered fan whose label names the CPU fan.
pub open spec fn spec_cpu_fan_index(fans: Seq<FanSensor>) -> Option<int>
    decreases fans.len(),
{
    if fans.len() == 0 {
        None
    } else if spec_is_cpu_label(fans[0].fan_label@) {
        Some(0int)
    } else {
        match spec_cpu_fan_index(fans.drop_first()) {
            Some(i) => Some(i + 1),
            None => None,
        }
    }
}

/// The scan for the CPU fan stops at the first hit.
proof fn lemma_cpu_fan_index_unique(fans: Seq<FanSensor>, i: int)
    requires
        0 <= i <= fans.len(),
        forall|k: int| 0 <= k < i ==> !spec_is_cpu_label((#[trigger] fans[k]).fan_label@),
        i < fans.len() ==> spec_is_cpu_label(fans[i].fan_label@),
    ensures
        spec_cpu_fan_index(fans) == if i < fans.len() {
            Some(i)
        } else {
            None::<int>
        },
    decreases fans.len(),
{
    if fans.len() == 0 {
    } else if spec_is_cpu_label(fans[0].fan_label@) {
        assert(i == 0);
    } else {
        lemma_cpu_fan_index_unique(fans.drop_first(), i - 1);
    }
}

/// The value of a fan speed reading: a decimal count within the speed
/// range, with blanks around it allowed.
pub open spec fn spec_speed_of(content: Seq<char>) -> Option<nat> {
    match crate::codec::parse_nat(content) {
        Some((n, rest)) => if n <= 65535 && crate::codec::skip_ws(rest).len() == 0 {
            Some(n)
        } else {
            None
        },
        None => None,
    }
}

impl FanDetector {
    /// The discovered fans.
    pub closed spec fn spec_fans(&self) -> Seq<FanSensor> {
        self.fans@
    }

    /// The controller directory, once found.
    pub closed spec fn spec_hwmon_path(&self) -> Option<String> {
        self.hwmon_path
    }

    /// Validity: every discovered fan number names a real fan file.
    pub open spec fn wf(&self) -> bool {
        forall|k: int|
            0 <= k < self.spec_fans().len() ==> 1 <= (#[trigger] self.spec_fans()[k]).fan_number
                <= 10
    }

    /// A fresh detector with no fans discovered yet.
    pub fn new() -> (d: FanDetector)
        ensures
            d.spec_fans().len() == 0,
            d.spec_hwmon_path() is None,
            d.wf(),
    {
        FanDetector { fans: Vec::new(), hwmon_path: None }
    }

    /// Scans the snapshot for the chassis fan controller and its CPU
    /// fan.  On success the detector holds that one fan; when the
    /// controller is found but no fan label names the CPU fan, the
    /// controller directory is kept and an error returned.
    pub fn initialize(&mut self, devices: &Vec<HwmonDevice>) -> (r: Result<(), FanCurveError>)
        requires
            old(self).wf(),
        ensures
            final (self).wf(),
            match spec_find_thelio(devices@, 0) {
                Some(di) => {
                    let d = devices@[di];
                    &&& (final (self).spec_hwmon_path() matches Some(p) && p@ == d.path@)
                    &&& match spec_scan_fans(&d, 1) {
                        Some(n) => r is Ok && final (self).spec_fans().len() == old(
                            self,
                        ).spec_fans().len() + 1 && (final (self).spec_fans().last() matches f && {
                            &&& f.fan_number == n
                            &&& f.hwmon_path@ == d.path@
                            &&& f.fan_input_path@ == d.path@ + seq!['/'] + spec_fan_input_file(
                                n as nat,
                            )
                            &&& f.fan_label_path@ == d.path@ + seq!['/'] + spec_fan_label_file(
                                n as nat,
                            )
                            &&& Some(f.fan_label@) == spec_file_content(
                                &d,
                                spec_fan_label_file(n as nat),
                            )
                        }) && final (self).spec_fans().take(old(self).spec_fans().len() as int)
                            == old(self).spec_fans(),
                        None => (r matches Err(e) && e is Config) && final (self).spec_fans()
                            == old(self).spec_fans(),
                    }
                },
                None => (r matches Err(e) && e is Config) && final (self).spec_fans() == old(
                    self,
                ).spec_fans() && final (self).spec_hwmon_path() == old(self).spec_hwmon_path(),
            },
    {
        let n = devices.len();
        let mut i: usize = 0;
        while i < n
            invariant
                0 <= i <= n,
                n == devices@.len(),
                *self == *old(self),
                old(self).wf(),
                spec_find_thelio(devices@, 0) == spec_find_thelio(devices@, i as int),
            decreases n - i,
        {
            let d = &devices[i];
            let name_ok = match &d.name {
                Some(nm) => eq_str(nm.as_str(), "system76_thelio_io") || eq_str(
                    nm.as_str(),
                    "system76",
                ),
                None => false,
            };
            if name_ok {
                proof {
                    assert(spec_find_thelio(devices@, i as int) == Some(i as int));
                }
                self.hwmon_path = Some(d.path.as_str().to_owned());
                proof {
                    assert(self.spec_fans() == old(self).spec_fans());
                    assert(self.wf());
                }
                return self.find_fan_sensors(d);
            }
            proof {
                assert(spec_find_thelio(devices@, i as int) == spec_find_thelio(devices@, i + 1));
            }
            i = i + 1;
        }
        Err(FanCurveError::Config("chassis fan controller not found".to_owned()))
    }

    /// Walks the controller's fan labels in ascending order until one
    /// names the CPU fan, and records that fan.
    fn find_fan_sensors(&mut self, d: &HwmonDevice) -> (r: Result<(), FanCurveError>)
        requires
            old(self).wf(),
        ensures
            final (self).wf(),
            final (self).spec_hwmon_path() == old(self).spec_hwmon_path(),
            match spec_scan_fans(d, 1) {
                Some(n) => r is Ok && final (self).spec_fans().len() == old(
                    self,
                ).spec_fans().len() + 1 && (final (self).spec_fans().last() matches f && {
                    &&& f.fan_number == n
                    &&& f.hwmon_path@ == d.path@
                    &&& f.fan_input_path@ == d.path@ + seq!['/'] + spec_fan_input_file(n as nat)
                    &&& f.fan_label_path@ == d.path@ + seq!['/'] + spec_fan_label_file(n as nat)
                    &&& Some(f.fan_label@) == spec_file_content(&d, spec_fan_label_file(n as nat))
                }) && final (self).spec_fans().take(old(self).spec_fans().len() as int) == old(
                    self,
                ).spec_fans(),
                None => (r matches Err(e) && e is Config) && final (self).spec_fans() == old(
                    self,
                ).spec_fans(),
            },
    {
        let mut fan_number: u8 = 1;
        while fan_number <= 10
            invariant
                1 <= fan_number <= 11,
                *self == *old(self),
                old(self).wf(),
                spec_scan_fans(d, 1) == spec_scan_fans(d, fan_number as int),
            decreases 11 - fan_number,
        {
            let label_name = fan_label_file_name(fan_number);
            let input_name = fan_input_file_name(fan_number);
            let label = match file_content(d, label_name.as_str()) {
                Some(c) => c,
                None => {
                    return Err(
                        FanCurveError::Config("CPU fan not found on the fan controller".to_owned()),
                    );
                },
            };
            if !has_file(d, input_name.as_str()) {
                return Err(
                    FanCurveError::Config("CPU fan not found on the fan controller".to_owned()),
                );
            }
            let is_cpu = eq_str(label.as_str(), "CPU Fan") || eq_str(label.as_str(), "CPU fan")
                || contains_sub_ci(label.as_str(), "cpu");
            if is_cpu {
                proof {
                    assert(spec_scan_fans(d, fan_number as int) == Some(fan_number as int));
                }
                let sensor = FanSensor {
                    fan_number,
                    hwmon_path: d.path.as_str().to_owned(),
                    fan_input_path: join_path(d.path.as_str(), input_name.as_str()),
                    fan_label_path: join_path(d.path.as_str(), label_name.as_str()),
                    fan_label: label.clone(),
                };
                self.fans.push(sensor);
                proof {
                    assert(final (self).spec_fans().take(old(self).spec_fans().len() as int)
                        =~= old(self).spec_fans());
                }
                return Ok(());
            }
            proof {
                assert(spec_scan_fans(d, fan_number as int) == spec_scan_fans(
                    d,
                    fan_number + 1,
                ));
            }
            fan_number = fan_number + 1;
        }
        Err(FanCurveError::Config("CPU fan not found on the fan controller".to_owned()))
    }

    /// The write plan that drives one fan, by number, at the given raw
    /// duty: `1` into its mode-control file (manual), then the duty into
    /// its PWM file.  Fails if and only if no discovered fan has the
    /// number.
    pub fn set_fan_pwm(&self, fan_number: u8, duty: u8) -> (r: Result<Vec<FanWrite>, FanCurveError>)
        requires
            self.wf(),
        ensures
            match spec_fan_index(self.spec_fans(), fan_number) {
                Some(k) => r matches Ok(plan) && ({
                    let f = self.spec_fans()[k];
                    &&& plan@.len() == 2
                    &&& plan@[0].path@ == f.hwmon_path@ + seq!['/'] + spec_pwm_enable_file(
                        f.fan_number as nat,
                    )
                    &&& plan@[0].value@ == seq!['1']
                    &&& plan@[1].path@ == f.hwmon_path@ + seq!['/'] + spec_pwm_file(
                        f.fan_number as nat,
                    )
                    &&& plan@[1].value@ == enc_nat(duty as nat)
                }),
                None => r matches Err(e) && e is Config,
            },
    {
        proof {
            reveal_strlit("1");
            assert("1"@ =~= seq!['1']);
        }
        let n = self.fans.len();
        let mut i: usize = 0;
        while i < n
            invariant
                0 <= i <= n,
                n == self.spec_fans().len(),
                self.wf(),
                forall|k: int|
                    0 <= k < i ==> (#[trigger] self.spec_fans()[k]).fan_number != fan_number,
            decreases n - i,
        {
            if self.fans[i].fan_number == fan_number {
                proof {
                    lemma_fan_index_unique(self.spec_fans(), fan_number, i as int);
                }
                let f = &self.fans[i];
                let mut plan: Vec<FanWrite> = Vec::new();
                plan.push(
                    FanWrite {
                        path: join_path(
                            f.hwmon_path.as_str(),
                            pwm_enable_file_name(f.fan_number).as_str(),
                        ),
                        value: "1".to_owned(),
                    },
                );
                plan.push(
                    FanWrite {
                        path: join_path(f.hwmon_path.as_str(), pwm_file_name(f.fan_number)),
                        value: u64_to_string(duty as u64),
                    },
                );
                proof {
                    reveal_strlit("1");
                    assert("1"@ =~= seq!['1']);
                }
                return Ok(plan);
            }
            i = i + 1;
        }
        proof {
            lemma_fan_index_unique(self.spec_fans(), fan_number, n as int);
        }
        Err(FanCurveError::Config("fan not found for PWM control".to_owned()))
    }

    /// The speeds of all discovered fans, from the readings of their
    /// input files, given in the fans' order: each fan's number, its
    /// speed in revolutions per minute, and its label.  One undecodable
    /// reading fails the whole read.
    pub fn read_all_fan_speeds(&self, readings: &Vec<String>) -> (r: Result<
        Vec<(u8, u16, String)>,
        FanCurveError,
    >)
        requires
            readings@.len() == self.spec_fans().len(),
        ensures
            match r {
                Ok(v) => v@.len() == self.spec_fans().len() && (forall|k: int|
                    0 <= k < v@.len() ==> {
                        let f = self.spec_fans()[k];
                        &&& (#[trigger] v@[k]).0 == f.fan_number
                        &&& spec_speed_of(readings@[k]@) == Some(v@[k].1 as nat)
                        &&& v@[k].2@ == f.fan_label@
                    }),
                Err(e) => e is Config && (exists|k: int|
                    0 <= k < readings@.len() && spec_speed_of(
                        (#[trigger] readings@[k])@,
                    ) is None),
            },
    {
        let n = self.fans.len();
        let mut out: Vec<(u8, u16, String)> = Vec::new();
        let mut i: usize = 0;
        while i < n
            invariant
                0 <= i <= n,
                n == self.spec_fans().len() == readings@.len(),
                out@.len() == i,
                forall|k: int|
                    0 <= k < i ==> {
                        let f = self.spec_fans()[k];
                        &&& (#[trigger] out@[k]).0 == f.fan_number
                        &&& spec_speed_of(readings@[k]@) == Some(out@[k].1 as nat)
                        &&& out@[k].2@ == f.fan_label@
                    },
            decreases n - i,
        {
            let speed = match parse_fan_speed(readings[i].as_str()) {
                Ok(v) => v,
                Err(e) => {
                    return Err(e);
                },
            };
            out.push((self.fans[i].fan_number, speed, self.fans[i].fan_label.clone()));
            i = i + 1;
        }
        Ok(out)
    }

    /// The CPU fan's speed, from the reading of its input file: its
    /// number, speed and label; `Ok(None)` when no CPU fan was
    /// discovered, so there was nothing to read.
    pub fn read_cpu_fan_speed(&self, content: &str) -> (r: Result<
        Option<(u8, u16, String)>,
        FanCurveError,
    >)
        ensures
            match spec_cpu_fan_index(self.spec_fans()) {
                None => r matches Ok(o) && o is None,
                Some(k) => {
                    let f = self.spec_fans()[k];
                    match spec_speed_of(content@) {
                        Some(v) => r matches Ok(o) && (o matches Some(t) && t.0 == f.fan_number
                            && t.1 == v && t.2@ == f.fan_label@),
                        None => r matches Err(e) && e is Config,
                    }
                },
            },
    {
        let fan = match self.get_cpu_fan() {
            Some(f) => f,
            None => {
                return Ok(None);
            },
        };
        let speed = match parse_fan_speed(content) {
            Ok(v) => v,
            Err(e) => {
                return Err(e);
            },
        };
        Ok(Some((fan.fan_number, speed, fan.fan_label.clone())))
    }

    /// All discovered fans.
    pub fn get_fans(&self) -> (r: &[FanSensor])
        ensures
            r@ == self.spec_fans(),
    {
        self.fans.as_slice()
    }

    /// The first discovered fan with the given number.
    pub fn get_fan(&self, fan_number: u8) -> (r: Option<&FanSensor>)
        ensures
            match r {
                Some(f) => exists|k: int|
                    0 <= k < self.spec_fans().len() && *f == self.spec_fans()[k]
                        && f.fan_number == fan_number,
                None => forall|k: int|
                    0 <= k < self.spec_fans().len() ==> (#[trigger] self.spec_fans()[k]).fan_number
                        != fan_number,
            },
    {
        let n = self.fans.len();
        let mut i: usize = 0;
        while i < n
            invariant
                0 <= i <= n,
                n == self.spec_fans().len(),
                forall|k: int|
                    0 <= k < i ==> (#[trigger] self.spec_fans()[k]).fan_number != fan_number,
            decreases n - i,
        {
            if self.fans[i].fan_number == fan_number {
                return Some(&self.fans[i]);
            }
            i = i + 1;
        }
        None
    }

    /// The first discovered fan whose label names the CPU fan.
    pub fn get_cpu_fan(&self) -> (r: Option<&FanSensor>)
        ensures
            match spec_cpu_fan_index(self.spec_fans()) {
                Some(k) => r matches Some(f) && *f == self.spec_fans()[k],
                None => r is None,
            },
    {
        let n = self.fans.len();
        let mut i: usize = 0;
        while i < n
            invariant
                0 <= i <= n,
                n == self.spec_fans().len(),
                forall|k: int|
                    0 <= k < i ==> !spec_is_cpu_label((#[trigger] self.spec_fans()[k]).fan_label@),
            decreases n - i,
        {
            let label: &str = self.fans[i].fan_label.as_str();
            if eq_str(label, "CPU Fan") || eq_str(label, "CPU fan") || contains_sub_ci(
                label,
                "cpu",
            ) {
                proof {
                    lemma_cpu_fan_index_unique(self.spec_fans(), i as int);
                }
                return Some(&self.fans[i]);
            }
            i = i + 1;
        }
        proof {
            lemma_cpu_fan_index_unique(self.spec_fans(), n as int);
        }
        None
    }

    /// Whether any fan was discovered.
    pub fn is_initialized(&self) -> (r: bool)
        ensures
            r == (self.spec_fans().len() > 0),
    {
        !self.fans.is_empty()
    }

    /// How many fans were discovered.
    pub fn fan_count(&self) -> (r: usize)
        ensures
            r == self.spec_fans().len(),
    {
        self.fans.len()
    }

    /// The write plan that drives every discovered fan at the given raw
    /// duty, or hands control back to the firmware.  For a duty, each
    /// fan gets two writes in order: `1` into its mode-control file
    /// (manual), then the duty into its PWM file.  For the automatic
    /// request, each fan gets one write of `2` into its mode-control
    /// file.
    #[verifier::rlimit(60)]
    #[verifier::spinoff_prover]
    pub fn set_duty(&self, duty_opt: Option<u8>) -> (plan: Vec<FanWrite>)
        requires
            self.wf(),
        ensures
            match duty_opt {
                Some(duty) => plan@.len() == 2 * self.spec_fans().len() && (forall|k: int|
                    0 <= k < self.spec_fans().len() ==> {
                        let f = #[trigger] self.spec_fans()[k];
                        &&& plan@[2 * k].path@ == f.hwmon_path@ + seq!['/'] + spec_pwm_enable_file(
                            f.fan_number as nat,
                        )
                        &&& plan@[2 * k].value@ == seq!['1']
                        &&& plan@[2 * k + 1].path@ == f.hwmon_path@ + seq!['/'] + spec_pwm_file(
                            f.fan_number as nat,
                        )
                        &&& plan@[2 * k + 1].value@ == enc_nat(duty as nat)
                    }),
                None => plan@.len() == self.spec_fans().len() && (forall|k: int|
                    0 <= k < self.spec_fans().len() ==> {
                        let f = #[trigger] self.spec_fans()[k];
                        &&& plan@[k].path@ == f.hwmon_path@ + seq!['/'] + spec_pwm_enable_file(
                            f.fan_number as nat,
                        )
                        &&& plan@[k].value@ == seq!['2']
                    }),
            },
    {
        proof {
            reveal_strlit("1");
            reveal_strlit("2");
            assert("1"@ =~= seq!['1']);
            assert("2"@ =~= seq!['2']);
        }
        let mut plan: Vec<FanWrite> = Vec::new();
        let n = self.fans.len();
        match duty_opt {
            Some(duty) => {
                let value = u64_to_string(duty as u64);
                let mut i: usize = 0;
                while i < n
                    invariant
                        0 <= i <= n,
                        n == self.spec_fans().len(),
                        self.wf(),
                        value@ == enc_nat(duty as nat),
                        plan@.len() == 2 * i,
                        forall|k: int|
                            0 <= k < i ==> {
                                let f = #[trigger] self.spec_fans()[k];
                                &&& plan@[2 * k].path@ == f.hwmon_path@ + seq!['/']
                                    + spec_pwm_enable_file(f.fan_number as nat)
                                &&& plan@[2 * k].value@ == seq!['1']
                                &&& plan@[2 * k + 1].path@ == f.hwmon_path@ + seq!['/']
                                    + spec_pwm_file(f.fan_number as nat)
                                &&& plan@[2 * k + 1].value@ == enc_nat(duty as nat)
                            },
                    decreases n - i,
                {
                    let f = &self.fans[i];
                    let enable_path = join_path(
                        f.hwmon_path.as_str(),
                        pwm_enable_file_name(f.fan_number).as_str(),
                    );
                    let pwm_path = join_path(f.hwmon_path.as_str(), pwm_file_name(f.fan_number));
                    plan.push(FanWrite { path: enable_path, value: "1".to_owned() });
                    plan.push(FanWrite { path: pwm_path, value: value.clone() });
                    proof {
                        reveal_strlit("1");
                        assert("1"@ =~= seq!['1']);
                    }
                    i = i + 1;
                }
            },
            None => {
                let mut i: usize = 0;
                while i < n
                    invariant
                        0 <= i <= n,
                        n == self.spec_fans().len(),
                        self.wf(),
                        plan@.len() == i,
                        forall|k: int|
                            0 <= k < i ==> {
                                let f = #[trigger] self.spec_fans()[k];
                                &&& plan@[k].path@ == f.hwmon_path@ + seq!['/']
                                    + spec_pwm_enable_file(f.fan_number as nat)
                                &&& plan@[k].value@ == seq!['2']
                            },
                    decreases n - i,
                {
                    let f = &self.fans[i];
                    let enable_path = join_path(
                        f.hwmon_path.as_str(),
                        pwm_enable_file_name(f.fan_number).as_str(),
                    );
                    plan.push(FanWrite { path: enable_path, value: "2".to_owned() });
                    proof {
                        reveal_strlit("2");
                        assert("2"@ =~= seq!['2']);
                    }
                    i = i + 1;
                }
            },
        }
        plan
    }
}

/// Decodes a fan speed reading: a decimal count of revolutions per
/// minute, with blanks around it allowed.
pub fn parse_fan_speed(content: &str) -> (r: Result<u16, FanCurveError>)
    ensures
        match r {
            Ok(v) => spec_speed_of(content@) == Some(v as nat),
            Err(e) => e is Config && spec_speed_of(content@) is None,
        },
{
    proof {
        assert(content@.skip(0) =~= content@);
    }
    let n = content.unicode_len();
    match crate::codec::p_nat(content, 0, 65535) {
        Some((v, j)) => {
            let jf = crate::codec::p_skip_ws(content, j);
            if jf == n {
                Ok(v as u16)
            } else {
                proof {
                    assert(content@.skip(jf as int).len() > 0);
                }
                Err(FanCurveError::Config("failed to parse fan speed".to_owned()))
            }
        },
        None => Err(FanCurveError::Config("failed to parse fan speed".to_owned())),
    }
}

} // verus!
