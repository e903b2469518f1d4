//! A snapshot of the hardware-monitoring device tree.
//!
//! The kernel exposes sensors and actuators as plain-text files under
//! per-device directories.  The process around the library lists those
//! directories once and hands the library a snapshot: for every device
//! its path, the trimmed content of its `name` file, and its file
//! entries (with the trimmed content of the small text files the
//! discovery reads, such as labels).  Discovery then runs on plain
//! values.

use vstd::prelude::*;
use crate::codec::enc_nat;

verus! {

/// One file of a device directory: its name and, for the small text
/// files discovery reads, its trimmed content (empty otherwise).
pub struct HwmonFile {
    pub name: String,
    pub content: String,
}

/// One device directory of the snapshot.
pub struct HwmonDevice {
    /// The directory's path.
    pub path: String,
    /// The trimmed content of the `name` file, when it was readable.
    pub name: Option<String>,
    /// The directory's file entries.
    pub files: Vec<HwmonFile>,
}

/// The first file entry with the given name, if any.
pub open spec fn spec_file_index(files: Seq<HwmonFile>, name: Seq<char>) -> Option<int>
    decreases files.len(),
{
    if files.len() == 0 {
        None
    } else if files[0].name@ == name {
        Some(0int)
    } else {
        match spec_file_index(files.drop_first(), name) {
            Some(i) => Some(i + 1),
            None => None,
        }
    }
}

/// Whether the device has a file entry with the given name.
pub open spec fn spec_has_file(d: &HwmonDevice, name: Seq<char>) -> bool {
    spec_file_index(d.files@, name) is Some
}

/// The content of the device's file with the given name, if present.
pub open spec fn spec_file_content(d: &HwmonDevice, name: Seq<char>) -> Option<Seq<char>> {
    match spec_file_index(d.files@, name) {
        Some(i) => Some(d.files@[i].content@),
        None => None,
    }
}

/// The file scan stops at the first entry with the name.
pub proof fn lemma_file_index_unique(files: Seq<HwmonFile>, name: Seq<char>, i: int)
    requires
        0 <= i <= files.len(),
        forall|k: int| 0 <= k < i ==> (#[trigger] files[k]).name@ != name,
        i < files.len() ==> files[i].name@ == name,
    ensures
        spec_file_index(files, name) == if i < files.len() {
            Some(i)
        } else {
            None::<int>
        },
    decreases files.len(),
{
    if files.len() == 0 {
    } else if files[0].name@ == name {
        assert(i == 0);
    } else {
        lemma_file_index_unique(files.drop_first(), name, i - 1);
    }
}

/// Finds the first file entry with the given name.
pub fn file_index(files: &Vec<HwmonFile>, name: &str) -> (r: Option<usize>)
    ensures
        match r {
            Some(i) => spec_file_index(files@, name@) == Some(i as int) && i < files@.len(),
            None => spec_file_index(files@, name@) is None,
        },
{
    let n = files.len();
    let mut i: usize = 0;
    while i < n
        invariant
            0 <= i <= n,
            n == files@.len(),
            forall|k: int| 0 <= k < i ==> (#[trigger] files@[k]).name@ != name@,
        decreases n - i,
    {
        if crate::text::eq_str(files[i].name.as_str(), name) {
            proof {
                lemma_file_index_unique(files@, name@, i as int);
            }
            return Some(i);
        }
        i = i + 1;
    }
    proof {
        lemma_file_index_unique(files@, name@, n as int);
    }
    None
}

/// Whether the device has a file with the given name.
pub fn has_file(d: &HwmonDevice, name: &str) -> (r: bool)
    ensures
        r == spec_has_file(d, name@),
{
    file_index(&d.files, name).is_some()
}

/// The content of the device's file with the given name, if present.
pub fn file_content<'a>(d: &'a HwmonDevice, name: &str) -> (r: Option<&'a String>)
    ensures
        match r {
            Some(c) => spec_file_content(d, name@) == Some(c@),
            None => spec_file_content(d, name@) is None,
        },
{
    match file_index(&d.files, name) {
        Some(i) => Some(&d.files[i].content),
        None => None,
    }
}

/// The name of the PWM duty file of fan `n`.
pub open spec fn spec_pwm_file(n: nat) -> Seq<char> {
    seq!['p', 'w', 'm'] + enc_nat(n)
}

/// The name of the PWM mode-control file of fan `n`.
pub open spec fn spec_pwm_enable_file(n: nat) -> Seq<char> {
    spec_pwm_file(n) + seq!['_', 'e', 'n', 'a', 'b', 'l', 'e']
}

/// The name of the speed-input file of fan `n`.
pub open spec fn spec_fan_input_file(n: nat) -> Seq<char> {
    seq!['f', 'a', 'n'] + enc_nat(n) + seq!['_', 'i', 'n', 'p', 'u', 't']
}

/// The name of the label file of fan `n`.
pub open spec fn spec_fan_label_file(n: nat) -> Seq<char> {
    seq!['f', 'a', 'n'] + enc_nat(n) + seq!['_', 'l', 'a', 'b', 'e', 'l']
}

/// The textual file names for fans 1 to 10.
pub fn pwm_file_name(n: u8) -> (r: &'static str)
    requires
        1 <= n <= 10,
    ensures
        r@ == spec_pwm_file(n as nat),
{
    proof {
        reveal_strlit("pwm1");
        reveal_strlit("pwm2");
        reveal_strlit("pwm3");
        reveal_strlit("pwm4");
        reveal_strlit("pwm5");
        reveal_strlit("pwm6");
        reveal_strlit("pwm7");
        reveal_strlit("pwm8");
        reveal_strlit("pwm9");
        reveal_strlit("pwm10");
        assert(enc_nat(10) =~= enc_nat(1).push(crate::codec::digit_char(0)));
        assert("pwm1"@ =~= spec_pwm_file(1));
        assert("pwm2"@ =~= spec_pwm_file(2));
        assert("pwm3"@ =~= spec_pwm_file(3));
        assert("pwm4"@ =~= spec_pwm_file(4));
        assert("pwm5"@ =~= spec_pwm_file(5));
        assert("pwm6"@ =~= spec_pwm_file(6));
        assert("pwm7"@ =~= spec_pwm_file(7));
        assert("pwm8"@ =~= spec_pwm_file(8));
        assert("pwm9"@ =~= spec_pwm_file(9));
        assert("pwm10"@ =~= spec_pwm_file(10));
    }
    match n {
        1 => "pwm1",
        2 => "pwm2",
        3 => "pwm3",
        4 => "pwm4",
        5 => "pwm5",
        6 => "pwm6",
        7 => "pwm7",
        8 => "pwm8",
        9 => "pwm9",
        _ => "pwm10",
    }
}

/// Appends a suffix to a fan file name.
fn with_suffix(base: &str, suffix: &str) -> (r: String)
    ensures
        r@ == base@ + suffix@,
{
    let mut s = base.to_owned();
    s.append(suffix);
    s
}

/// The `pwmN_enable` file name for fan `n`.
pub fn pwm_enable_file_name(n: u8) -> (r: String)
    requires
        1 <= n <= 10,
    ensures
        r@ == spec_pwm_enable_file(n as nat),
{
    let r = with_suffix(pwm_file_name(n), "_enable");
    proof {
        reveal_strlit("_enable");
        assert("_enable"@ =~= seq!['_', 'e', 'n', 'a', 'b', 'l', 'e']);
    }
    r
}

/// The `fanN_input` file name for fan `n`.
pub fn fan_input_file_name(n: u8) -> (r: String)
    requires
        1 <= n <= 10,
    ensures
        r@ == spec_fan_input_file(n as nat),
{
    let r = fan_file_name(n, "_input");
    proof {
        reveal_strlit("_input");
        assert("_input"@ =~= seq!['_', 'i', 'n', 'p', 'u', 't']);
        assert(r@ =~= spec_fan_input_file(n as nat));
    }
    r
}

/// The `fanN_label` file name for fan `n`.
pub fn fan_label_file_name(n: u8) -> (r: String)
    requires
        1 <= n <= 10,
    ensures
        r@ == spec_fan_label_file(n as nat),
{
    let r = fan_file_name(n, "_label");
    proof {
        reveal_strlit("_label");
        assert("_label"@ =~= seq!['_', 'l', 'a', 'b', 'e', 'l']);
        assert(r@ =~= spec_fan_label_file(n as nat));
    }
    r
}

/// `fanN` plus a suffix.
fn fan_file_name(n: u8, suffix: &str) -> (r: String)
    requires
        1 <= n <= 10,
    ensures
        r@ == seq!['f', 'a', 'n'] + enc_nat(n as nat) + suffix@,
{
    proof {
        reveal_strlit("fan1");
        reveal_strlit("fan2");
        reveal_strlit("fan3");
        reveal_strlit("fan4");
        reveal_strlit("fan5");
        reveal_strlit("fan6");
        reveal_strlit("fan7");
        reveal_strlit("fan8");
        reveal_strlit("fan9");
        reveal_strlit("fan10");
        assert(enc_nat(10) =~= enc_nat(1).push(crate::codec::digit_char(0)));
        assert("fan1"@ =~= seq!['f', 'a', 'n'] + enc_nat(1));
        assert("fan2"@ =~= seq!['f', 'a', 'n'] + enc_nat(2));
        assert("fan3"@ =~= seq!['f', 'a', 'n'] + enc_nat(3));
        assert("fan4"@ =~= seq!['f', 'a', 'n'] + enc_nat(4));
        assert("fan5"@ =~= seq!['f', 'a', 'n'] + enc_nat(5));
        assert("fan6"@ =~= seq!['f', 'a', 'n'] + enc_nat(6));
        assert("fan7"@ =~= seq!['f', 'a', 'n'] + enc_nat(7));
        assert("fan8"@ =~= seq!['f', 'a', 'n'] + enc_nat(8));
        assert("fan9"@ =~= seq!['f', 'a', 'n'] + enc_nat(9));
        assert("fan10"@ =~= seq!['f', 'a', 'n'] + enc_nat(10));
    }
    let base = match n {
        1 => "fan1",
        2 => "fan2",
        3 => "fan3",
        4 => "fan4",
        5 => "fan5",
        6 => "fan6",
        7 => "fan7",
        8 => "fan8",
        9 => "fan9",
        _ => "fan10",
    };
    with_suffix(base, suffix)
}

/// Joins a directory path and a file name.
pub fn join_path(dir: &str, file: &str) -> (r: String)
    ensures
        r@ == dir@ + seq!['/'] + file@,
{
    proof {
        reveal_strlit("/");
        assert("/"@ =~= seq!['/']);
    }
    let mut s = dir.to_owned();
    s.append("/");
    s.append(file);
    proof {
        assert(s@ =~= dir@ + seq!['/'] + file@);
    }
    s
}

} // verus!
