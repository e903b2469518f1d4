//! The daemon's curve state and its control-surface operations.
//!
//! One aggregate owns the curve configuration and the selection of the
//! active curve; every mutation happens through the methods here.  The
//! process around the library serializes calls (one coarse lock), does
//! the actual persistence I/O after each mutating call, and reports the
//! outcome back to the caller.

use vstd::prelude::*;
use crate::errors::FanCurveError;
use crate::fan::FanCurve;
use crate::fan::FanCurveConfig;
use crate::fan::FanPoint;
use crate::fan::insert_pos;
use crate::codec::config_model;
use crate::text::eq_str;
use crate::thelio_io::ThelioIoClient;

verus! {

/// The index of the first curve whose name is `name`, if any.
pub open spec fn first_curve_named(cs: Seq<FanCurve>, name: Seq<char>) -> Option<int>
    decreases cs.len(),
{
    if cs.len() == 0 {
        None
    } else if cs[0].spec_name() == name {
        Some(0int)
    } else {
        match first_curve_named(cs.drop_first(), name) {
            Some(i) => Some(i + 1),
            None => None,
        }
    }
}

/// The scan for a name stops at the first hit.
proof fn lemma_first_named_unique(cs: Seq<FanCurve>, name: Seq<char>, i: int)
    requires
        0 <= i <= cs.len(),
        forall|k: int| 0 <= k < i ==> (#[trigger] cs[k]).spec_name() != name,
        i < cs.len() ==> cs[i].spec_name() == name,
    ensures
        first_curve_named(cs, name) == if i < cs.len() {
            Some(i)
        } else {
            None::<int>
        },
    decreases cs.len(),
{
    if cs.len() == 0 {
    } else if cs[0].spec_name() == name {
        assert(i == 0);
    } else {
        lemma_first_named_unique(cs.drop_first(), name, i - 1);
    }
}

/// The main daemon state: the owned configuration and the index of the
/// curve the monitoring loop drives with.
pub struct FanCurveDaemon {
    config: FanCurveConfig,
    current_curve_index: usize,
    thelio: Option<ThelioIoClient>,
}

impl FanCurveDaemon {
    /// The owned configuration.
    pub closed spec fn spec_config(&self) -> FanCurveConfig {
        self.config
    }

    /// The index of the active curve.
    pub closed spec fn spec_current_index(&self) -> usize {
        self.current_curve_index
    }

    /// The curves of the owned configuration.
    pub open spec fn spec_curves(&self) -> Seq<FanCurve> {
        self.spec_config().curves@
    }

    /// Validity: every curve is well-formed.
    pub open spec fn wf(&self) -> bool {
        self.spec_config().wf()
    }

    /// Whether the active-curve index points at a curve.
    pub open spec fn current_valid(&self) -> bool {
        self.spec_current_index() < self.spec_curves().len()
    }

    /// Builds the daemon around an already-loaded configuration and the
    /// outcome of the optional Thelio IO probe; the first curve starts
    /// active.
    pub fn new(config: FanCurveConfig, thelio: Option<ThelioIoClient>) -> (d: FanCurveDaemon)
        ensures
            d.spec_config() == config,
            d.spec_current_index() == 0,
            d.spec_thelio() == thelio,
    {
        FanCurveDaemon { config, current_curve_index: 0, thelio }
    }

    /// The optional Thelio IO client handed in at construction.
    pub closed spec fn spec_thelio(&self) -> Option<ThelioIoClient> {
        self.thelio
    }

    /// Whether the optional Thelio IO service is there to drive.
    pub fn thelio_available(&self) -> (r: bool)
        ensures
            r == match self.spec_thelio() {
                Some(t) => t.spec_enabled() && t.spec_probed_available(),
                None => false,
            },
    {
        match &self.thelio {
            Some(t) => t.available(),
            None => false,
        }
    }

    /// Decodes a persisted configuration, or synthesizes the built-in
    /// one when no persisted text exists yet.
    pub fn load_config(content: Option<&str>) -> (r: Result<FanCurveConfig, FanCurveError>)
        ensures
            match content {
                Some(s) => match r {
                    Ok(c) => crate::codec::parse_config(s@) == Some(config_model(&c)),
                    Err(e) => crate::codec::parse_config(s@) is None && e is Config,
                },
                None => r matches Ok(c) && crate::fan::is_default_config(&c),
            },
    {
        match content {
            Some(s) => match crate::codec::config_from_json(s) {
                Ok(c) => Ok(c),
                Err(_) => Err(
                    FanCurveError::Config("failed to load the fan curve configuration".to_owned()),
                ),
            },
            None => Ok(FanCurveConfig::new()),
        }
    }

    /// The owned configuration, for persistence and display.
    pub fn config(&self) -> (r: &FanCurveConfig)
        ensures
            *r == self.spec_config(),
    {
        &self.config
    }

    /// Copies of all curves, as the control surface hands them out.
    pub fn get_fan_curves(&self) -> (r: Vec<FanCurve>)
        ensures
            r@.len() == self.spec_curves().len(),
            forall|i: int|
                0 <= i < r@.len() ==> (#[trigger] r@[i]).spec_name()
                    == self.spec_curves()[i].spec_name() && r@[i].spec_points()
                    == self.spec_curves()[i].spec_points(),
    {
        let mut out: Vec<FanCurve> = Vec::new();
        let mut i: usize = 0;
        while i < self.config.curves.len()
            invariant
                0 <= i <= self.config.curves@.len(),
                out@.len() == i,
                forall|k: int|
                    0 <= k < i ==> (#[trigger] out@[k]).spec_name()
                        == self.config.curves@[k].spec_name() && out@[k].spec_points()
                        == self.config.curves@[k].spec_points(),
            decreases self.config.curves@.len() - i,
        {
            out.push(self.config.curves[i].clone());
            i = i + 1;
        }
        out
    }

    /// A copy of the active curve; fails when no curve is selected (an
    /// empty store).
    pub fn get_current_fan_curve(&self) -> (r: Result<FanCurve, FanCurveError>)
        ensures
            self.current_valid() ==> (r matches Ok(c) && ({
                let cur = self.spec_curves()[self.spec_current_index() as int];
                c.spec_name() == cur.spec_name() && c.spec_points() == cur.spec_points()
            })),
            !self.current_valid() ==> (r matches Err(e) && e is Config),
    {
        if self.current_curve_index < self.config.curves.len() {
            Ok(self.config.curves[self.current_curve_index].clone())
        } else {
            Err(FanCurveError::Config("invalid current fan curve index".to_owned()))
        }
    }

    /// Selects the active curve by index.  Fails if and only if the
    /// index is out of range; nothing changes then.
    pub fn set_fan_curve(&mut self, index: u32) -> (r: Result<(), FanCurveError>)
        ensures
            final (self).spec_config() == old(self).spec_config(),
            index < old(self).spec_curves().len() ==> r is Ok && final (self).spec_current_index()
                == index,
            index >= old(self).spec_curves().len() ==> (r matches Err(e) && e is Config) && final (
            self).spec_current_index() == old(self).spec_current_index(),
    {
        if (index as usize) < self.config.curves.len() {
            self.current_curve_index = index as usize;
            Ok(())
        } else {
            Err(FanCurveError::Config("invalid fan curve index".to_owned()))
        }
    }

    /// Selects the active curve by name: the first curve with that name
    /// becomes active.  Fails if and only if no curve has the name.
    pub fn set_fan_curve_by_name(&mut self, name: &str) -> (r: Result<(), FanCurveError>)
        ensures
            final (self).spec_config() == old(self).spec_config(),
            match first_curve_named(old(self).spec_curves(), name@) {
                Some(i) => r is Ok && final (self).spec_current_index() == i,
                None => (r matches Err(e) && e matches FanCurveError::FanCurveNotFound {
                    name: n,
                } && n@ == name@) && final (self).spec_current_index() == old(
                    self,
                ).spec_current_index(),
            },
    {
        let n = self.config.curves.len();
        let mut i: usize = 0;
        while i < n
            invariant
                0 <= i <= n,
                n == self.config.curves@.len(),
                *self == *old(self),
                forall|k: int|
                    0 <= k < i ==> (#[trigger] self.config.curves@[k]).spec_name() != name@,
            decreases n - i,
        {
            if eq_str(self.config.curves[i].name(), name) {
                proof {
                    lemma_first_named_unique(self.config.curves@, name@, i as int);
                }
                self.current_curve_index = i;
                return Ok(());
            }
            i = i + 1;
        }
        proof {
            lemma_first_named_unique(self.config.curves@, name@, n as int);
        }
        Err(FanCurveError::FanCurveNotFound { name: name.to_owned() })
    }

    /// Marks the first curve with the given name as the default
    /// selection.  Fails if and only if no curve has the name; the
    /// caller persists the configuration afterwards.
    pub fn set_default_fan_curve(&mut self, name: &str) -> (r: Result<(), FanCurveError>)
        ensures
            final (self).spec_curves() == old(self).spec_curves(),
            final (self).spec_current_index() == old(self).spec_current_index(),
            match first_curve_named(old(self).spec_curves(), name@) {
                Some(i) => r is Ok && final (self).spec_config().default_curve_index == Some(
                    i as usize,
                ),
                None => (r matches Err(e) && e matches FanCurveError::FanCurveNotFound {
                    name: n,
                } && n@ == name@) && final (self).spec_config() == old(self).spec_config(),
            },
    {
        let n = self.config.curves.len();
        let mut i: usize = 0;
        while i < n
            invariant
                0 <= i <= n,
                n == self.config.curves@.len(),
                *self == *old(self),
                forall|k: int|
                    0 <= k < i ==> (#[trigger] self.config.curves@[k]).spec_name() != name@,
            decreases n - i,
        {
            if eq_str(self.config.curves[i].name(), name) {
                proof {
                    lemma_first_named_unique(self.config.curves@, name@, i as int);
                }
                self.config.default_curve_index = Some(i);
                return Ok(());
            }
            i = i + 1;
        }
        proof {
            lemma_first_named_unique(self.config.curves@, name@, n as int);
        }
        Err(FanCurveError::FanCurveNotFound { name: name.to_owned() })
    }

    /// Adds a point to the active curve.  A temperature outside 0-100
    /// degrees or a duty above 100 percent is rejected; so is a missing
    /// active curve.  The caller persists the configuration afterwards.
    pub fn add_fan_curve_point(&mut self, temp: i16, duty: u16) -> (r: Result<(), FanCurveError>)
        ensures
            final (self).spec_current_index() == old(self).spec_current_index(),
            final (self).spec_config().default_curve_index == old(
                self,
            ).spec_config().default_curve_index,
            (!(0 <= temp <= 100) || duty > 100) ==> (r matches Err(e)
                && e is InvalidFanPoint) && final (self).spec_config() == old(self).spec_config(),
            (0 <= temp <= 100 && duty <= 100 && !old(self).current_valid()) ==> (r matches Err(e)
                && e is Config) && final (self).spec_config() == old(self).spec_config(),
            (0 <= temp <= 100 && duty <= 100 && old(self).current_valid()) ==> r is Ok && final (
            self).spec_curves().len() == old(self).spec_curves().len() && (forall|k: int|
                0 <= k < old(self).spec_curves().len() && k != old(self).spec_current_index()
                    ==> final (self).spec_curves()[k] == old(self).spec_curves()[k]) && ({
                let oldc = old(self).spec_curves()[old(self).spec_current_index() as int];
                let newc = final (self).spec_curves()[old(self).spec_current_index() as int];
                newc.spec_name() == oldc.spec_name() && newc.spec_points()
                    == oldc.spec_points().insert(
                    insert_pos(oldc.spec_points(), temp),
                    FanPoint { temp, duty },
                )
            }),
            old(self).wf() ==> final (self).wf(),
    {
        if !(0 <= temp && temp <= 100) || duty > 100 {
            return Err(FanCurveError::InvalidFanPoint { temp, duty });
        }
        if self.current_curve_index < self.config.curves.len() {
            let idx = self.current_curve_index;
            self.config.curves[idx].add_point(temp, duty);
            proof {
                assert(forall|k: int|
                    0 <= k < old(self).spec_curves().len() && k != idx ==> final (
                    self).spec_curves()[k] == old(self).spec_curves()[k]);
            }
            Ok(())
        } else {
            Err(FanCurveError::Config("invalid current fan curve index".to_owned()))
        }
    }

    /// Removes the last point of the active curve.  Fails when the curve
    /// has no points left or no curve is selected.  The caller persists
    /// the configuration afterwards.
    pub fn remove_fan_curve_point(&mut self) -> (r: Result<(), FanCurveError>)
        ensures
            final (self).spec_current_index() == old(self).spec_current_index(),
            final (self).spec_config().default_curve_index == old(
                self,
            ).spec_config().default_curve_index,
            !old(self).current_valid() ==> (r matches Err(e) && e is Config) && final (
            self).spec_config() == old(self).spec_config(),
            (old(self).current_valid() && old(self).spec_curves()[old(
                self,
            ).spec_current_index() as int].spec_points().len() == 0) ==> (r matches Err(e)
                && e is Config) && final (self).spec_config() == old(self).spec_config(),
            (old(self).current_valid() && old(self).spec_curves()[old(
                self,
            ).spec_current_index() as int].spec_points().len() > 0) ==> r is Ok && final (
            self).spec_curves().len() == old(self).spec_curves().len() && (forall|k: int|
                0 <= k < old(self).spec_curves().len() && k != old(self).spec_current_index()
                    ==> final (self).spec_curves()[k] == old(self).spec_curves()[k]) && ({
                let oldc = old(self).spec_curves()[old(self).spec_current_index() as int];
                let newc = final (self).spec_curves()[old(self).spec_current_index() as int];
                newc.spec_name() == oldc.spec_name() && newc.spec_points()
                    == oldc.spec_points().drop_last()
            }),
            old(self).wf() ==> final (self).wf(),
    {
        if self.current_curve_index >= self.config.curves.len() {
            return Err(FanCurveError::Config("invalid current fan curve index".to_owned()));
        }
        let idx = self.current_curve_index;
        if self.config.curves[idx].points().len() == 0 {
            return Err(FanCurveError::Config("no points to remove".to_owned()));
        }
        let removed = self.config.curves[idx].remove_last_point();
        proof {
            assert(removed is Some);
            assert(forall|k: int|
                0 <= k < old(self).spec_curves().len() && k != idx ==> final (
                self).spec_curves()[k] == old(self).spec_curves()[k]);
        }
        Ok(())
    }

    /// Compares the in-memory configuration with a reloaded one, as the
    /// post-write validation does: curve count, names, point values and
    /// the default selection, element for element.
    pub fn validate_persistence(&self, reloaded: &FanCurveConfig) -> (r: Result<
        (),
        FanCurveError,
    >)
        ensures
            r is Ok <==> config_model(&self.spec_config()) == config_model(reloaded),
            r matches Err(e) ==> e is Validation,
    {
        if config_matches(&self.config, reloaded) {
            Ok(())
        } else {
            Err(FanCurveError::Validation("persisted configuration does not match".to_owned()))
        }
    }
}

/// Structural equality of two configurations: same curve count, names,
/// point sequences and default selection.
pub fn config_matches(a: &FanCurveConfig, b: &FanCurveConfig) -> (r: bool)
    ensures
        r <==> config_model(a) == config_model(b),
{
    let ghost ma = config_model(a);
    let ghost mb = config_model(b);
    let n = a.curves.len();
    if n != b.curves.len() {
        proof {
            assert(ma.curves.len() != mb.curves.len());
        }
        return false;
    }
    match (a.default_curve_index, b.default_curve_index) {
        (Some(x), Some(y)) => {
            if x != y {
                return false;
            }
        },
        (None, None) => {},
        _ => {
            return false;
        },
    }
    let mut i: usize = 0;
    while i < n
        invariant
            0 <= i <= n,
            n == a.curves@.len() == b.curves@.len(),
            ma == config_model(a),
            mb == config_model(b),
            forall|k: int| 0 <= k < i ==> ma.curves[k] == mb.curves[k],
        decreases n - i,
    {
        if !eq_str(a.curves[i].name(), b.curves[i].name()) {
            proof {
                assert(ma.curves[i as int].name != mb.curves[i as int].name);
            }
            return false;
        }
        let pa = a.curves[i].points();
        let pb = b.curves[i].points();
        if pa.len() != pb.len() {
            proof {
                assert(ma.curves[i as int].points.len() != mb.curves[i as int].points.len());
            }
            return false;
        }
        let m = pa.len();
        let mut j: usize = 0;
        while j < m
            invariant
                0 <= j <= m,
                m == pa@.len() == pb@.len(),
                pa@ == a.curves@[i as int].spec_points(),
                pb@ == b.curves@[i as int].spec_points(),
                i < a.curves@.len(),
                i < b.curves@.len(),
                ma == config_model(a),
                mb == config_model(b),
                forall|t: int| 0 <= t < j ==> pa@[t] == pb@[t],
            decreases m - j,
        {
            let x = pa[j];
            let y = pb[j];
            if x.temp != y.temp || x.duty != y.duty {
                proof {
                    let jj = j as int;
                    assert(ma.curves[i as int].points[jj] != mb.curves[i as int].points[jj]);
                }
                return false;
            }
            j = j + 1;
        }
        proof {
            assert(ma.curves[i as int].points =~= mb.curves[i as int].points);
        }
        i = i + 1;
    }
    proof {
        assert(ma.curves =~= mb.curves);
    }
    true
}

/// What the saver does next after one write attempt, per the
/// crash-safety protocol: a successful write is validated by reloading;
/// a failed one is retried after a fixed backoff while attempts remain.
pub enum SaveAction {
    Validate,
    RetryAfterBackoff,
    GiveUp,
}

/// The bounded-retry state of one `ensure saved` operation.
pub struct SaveAttempt {
    retries_left: u8,
}

impl SaveAttempt {
    /// How many attempts one operation gets.
    pub closed spec fn spec_retries_left(&self) -> u8 {
        self.retries_left
    }

    /// A fresh operation has three attempts.
    pub fn new() -> (s: SaveAttempt)
        ensures
            s.spec_retries_left() == 3,
    {
        SaveAttempt { retries_left: 3 }
    }

    /// Decides what follows one write attempt.
    pub fn on_result(&mut self, write_ok: bool) -> (a: SaveAction)
        ensures
            write_ok ==> a is Validate && final (self).spec_retries_left() == old(
                self,
            ).spec_retries_left(),
            (!write_ok && old(self).spec_retries_left() > 1) ==> a is RetryAfterBackoff && final (
            self).spec_retries_left() == old(self).spec_retries_left() - 1,
            (!write_ok && old(self).spec_retries_left() <= 1) ==> a is GiveUp && final (
            self).spec_retries_left() == 0,
    {
        if write_ok {
            SaveAction::Validate
        } else if self.retries_left > 1 {
            self.retries_left = self.retries_left - 1;
            SaveAction::RetryAfterBackoff
        } else {
            self.retries_left = 0;
            SaveAction::GiveUp
        }
    }
}

} // verus!
