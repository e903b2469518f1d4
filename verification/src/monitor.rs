//! The monitoring loop's decision logic.
//!
//! The loop around the library alternates between sleeping and one tick:
//! it reads the temperature (or fails to), hands the outcome to `tick`,
//! and performs the returned action on the hardware.  Curve changes
//! arriving over the control surface land between ticks through
//! `set_fan_curve` and `update_fan_curve`; an explicit auto request
//! moves the monitor to the idle state.

use vstd::prelude::*;
use crate::fan::FanCurve;
use crate::fan::FanPoint;
use crate::fan::insert_pos;
use crate::fan::spec_interp;
use crate::fan::degrees_of_thousandths;
use crate::convert::spec_duty_to_pwm;
use crate::convert::duty_to_pwm;

verus! {

/// The mathematical content of the monitor's state.
pub ghost struct MonitorModel {
    pub monitoring: bool,
    pub active_points: Option<Seq<FanPoint>>,
    pub last_temp_thousandths: Option<u32>,
    pub last_duty: u16,
    pub failed_reads: u64,
}

/// What one tick asks the actuator driver to do.
pub enum TickAction {
    /// Drive every fan at this raw PWM value (manual mode).
    SetDuty(u8),
    /// Hand control back to the firmware (automatic mode).
    SetAutomatic,
    /// Do nothing: the reading failed and the failure was counted.
    Skip,
}

/// The points that a list of `(temperature, duty percent)` pairs builds,
/// inserted one after another in the order given, each at its sorted
/// position; duties are scaled from percent to ten-thousandths.
pub open spec fn points_of_pairs(pairs: Seq<(u8, u8)>) -> Seq<FanPoint>
    decreases pairs.len(),
{
    if pairs.len() == 0 {
        Seq::empty()
    } else {
        let prev = points_of_pairs(pairs.drop_last());
        let last = pairs.last();
        prev.insert(
            insert_pos(prev, last.0 as i16),
            FanPoint { temp: last.0 as i16, duty: (last.1 * 100) as u16 },
        )
    }
}

/// The monitor state after the control surface replaces the active curve
/// with the given pairs; nothing else moves.
pub open spec fn spec_set_fan_curve(m: MonitorModel, pairs: Seq<(u8, u8)>) -> MonitorModel {
    MonitorModel { active_points: Some(points_of_pairs(pairs)), ..m }
}

/// Law: applying the same pairs twice leaves exactly the state that
/// applying them once leaves.
pub proof fn lemma_set_fan_curve_idempotent(m: MonitorModel, pairs: Seq<(u8, u8)>)
    ensures
        spec_set_fan_curve(spec_set_fan_curve(m, pairs), pairs) == spec_set_fan_curve(m, pairs),
{
}

/// The monitoring loop's state: whether the loop runs, the active curve,
/// the last observed sample and the count of skipped ticks.
pub struct FanMonitor {
    is_monitoring: bool,
    current_fan_curve: Option<FanCurve>,
    last_temp_thousandths: Option<u32>,
    last_duty: u16,
    failed_reads: u64,
}

impl FanMonitor {
    /// The state's mathematical content.
    pub closed spec fn model(&self) -> MonitorModel {
        MonitorModel {
            monitoring: self.is_monitoring,
            active_points: match self.current_fan_curve {
                Some(c) => Some(c.spec_points()),
                None => None,
            },
            last_temp_thousandths: self.last_temp_thousandths,
            last_duty: self.last_duty,
            failed_reads: self.failed_reads,
        }
    }

    /// Validity: the active curve, when there is one, is well-formed.
    pub closed spec fn wf(&self) -> bool {
        match self.current_fan_curve {
            Some(c) => c.wf(),
            None => true,
        }
    }

    /// A fresh monitor: idle, with no curve and no sample yet.
    pub fn new() -> (m: FanMonitor)
        ensures
            m.model() == (MonitorModel {
                monitoring: false,
                active_points: None,
                last_temp_thousandths: None,
                last_duty: 0,
                failed_reads: 0,
            }),
            m.wf(),
    {
        FanMonitor {
            is_monitoring: false,
            current_fan_curve: None,
            last_temp_thousandths: None,
            last_duty: 0,
            failed_reads: 0,
        }
    }

    pub fn start_monitoring(&mut self)
        ensures
            final (self).model() == (MonitorModel { monitoring: true, ..old(self).model() }),
            final (self).wf() == old(self).wf(),
    {
        self.is_monitoring = true;
    }

    pub fn stop_monitoring(&mut self)
        ensures
            final (self).model() == (MonitorModel { monitoring: false, ..old(self).model() }),
            final (self).wf() == old(self).wf(),
    {
        self.is_monitoring = false;
    }

    pub fn is_monitoring(&self) -> (r: bool)
        ensures
            r == self.model().monitoring,
    {
        self.is_monitoring
    }

    /// The last observed sample: temperature in thousandths of a degree
    /// and the duty last driven, in ten-thousandths.
    pub fn last_sample(&self) -> (r: (Option<u32>, u16))
        ensures
            r.0 == self.model().last_temp_thousandths,
            r.1 == self.model().last_duty,
    {
        (self.last_temp_thousandths, self.last_duty)
    }

    /// How many ticks were skipped over failed readings.
    pub fn failed_reads(&self) -> (r: u64)
        ensures
            r == self.model().failed_reads,
    {
        self.failed_reads
    }

    /// Replaces the active curve with one built from `(temperature,
    /// duty percent)` pairs, as the control surface's immediate
    /// (non-persisted) curve application does.
    pub fn set_fan_curve(&mut self, pairs: &Vec<(u8, u8)>)
        ensures
            final (self).model() == spec_set_fan_curve(old(self).model(), pairs@),
            final (self).wf(),
    {
        let mut curve = FanCurve::new(String::new());
        let n = pairs.len();
        let mut i: usize = 0;
        while i < n
            invariant
                0 <= i <= n,
                n == pairs@.len(),
                curve.spec_points() == points_of_pairs(pairs@.take(i as int)),
                curve.wf(),
            decreases n - i,
        {
            let (temp, duty) = pairs[i];
            curve.add_point(temp as i16, duty as u16 * 100);
            proof {
                assert(pairs@.take(i + 1).drop_last() =~= pairs@.take(i as int));
                assert(pairs@.take(i + 1).last() == pairs@[i as int]);
            }
            i = i + 1;
        }
        proof {
            assert(pairs@.take(n as int) =~= pairs@);
        }
        self.current_fan_curve = Some(curve);
    }

    /// Replaces the active curve with an already-built one (the reaction
    /// to a curve-change notification).
    pub fn update_fan_curve(&mut self, curve: FanCurve)
        requires
            curve.wf(),
        ensures
            final (self).model() == (MonitorModel {
                active_points: Some(curve.spec_points()),
                ..old(self).model()
            }),
            final (self).wf(),
    {
        self.current_fan_curve = Some(curve);
    }

    /// Drops the active curve: the explicit request to hand control back
    /// to the firmware.
    pub fn set_automatic(&mut self)
        ensures
            final (self).model() == (MonitorModel { active_points: None, ..old(self).model() }),
            final (self).wf(),
    {
        self.current_fan_curve = None;
    }

    /// One tick of the monitoring loop.  A failed reading is counted and
    /// the tick skipped; with no active curve the firmware keeps (or
    /// regains) control; with a curve, the interpolated duty for the
    /// reading is driven and recorded as the observable sample.
    pub fn tick(&mut self, reading: Option<u32>) -> (a: TickAction)
        requires
            old(self).wf(),
        ensures
            final (self).wf(),
            final (self).model().monitoring == old(self).model().monitoring,
            final (self).model().active_points == old(self).model().active_points,
            match reading {
                None => a is Skip && final (self).model() == (MonitorModel {
                    failed_reads: if old(self).model().failed_reads < u64::MAX {
                        (old(self).model().failed_reads + 1) as u64
                    } else {
                        old(self).model().failed_reads
                    },
                    ..old(self).model()
                }),
                Some(t) => match old(self).model().active_points {
                    None => a is SetAutomatic && final (self).model() == (MonitorModel {
                        last_temp_thousandths: Some(t),
                        ..old(self).model()
                    }),
                    Some(pts) => {
                        let duty = spec_interp(pts, degrees_of_thousandths(t));
                        let capped = if duty > 10000 {
                            10000int
                        } else {
                            duty
                        };
                        &&& a == TickAction::SetDuty(spec_duty_to_pwm(capped) as u8)
                        &&& final (self).model() == (MonitorModel {
                            last_temp_thousandths: Some(t),
                            last_duty: duty as u16,
                            ..old(self).model()
                        })
                    },
                },
            },
    {
        match reading {
            None => {
                if self.failed_reads < u64::MAX {
                    self.failed_reads = self.failed_reads + 1;
                }
                TickAction::Skip
            },
            Some(t) => {
                match &self.current_fan_curve {
                    None => {
                        self.last_temp_thousandths = Some(t);
                        TickAction::SetAutomatic
                    },
                    Some(curve) => {
                        let duty = curve.calculate_duty_for_temperature(t);
                        // A curve may hold duties above the 10000 scale
                        // top; the drive saturates there.
                        let capped = if duty > 10000 {
                            10000
                        } else {
                            duty
                        };
                        let pwm = duty_to_pwm(capped);
                        self.last_temp_thousandths = Some(t);
                        self.last_duty = duty;
                        TickAction::SetDuty(pwm)
                    },
                }
            },
        }
    }
}

} // verus!
