//! Fan-curve control library.
//!
//! The library models a thermal-control daemon's core: a fan-curve data
//! model with linear interpolation, duty/PWM conversions, crash-safe curve
//! persistence in a JSON format, sensor and actuator discovery over a
//! snapshot of the hardware-monitoring device tree, and the decision logic
//! of the monitoring loop and its control surface.  All I/O (sysfs reads
//! and writes, the IPC transport, timers) lives outside the library; the
//! functions here take plain values in and hand plain values back.

pub mod codec;
pub mod convert;
pub mod cpu_temp;
pub mod daemon;
pub mod errors;
pub mod fan;
pub mod fan_control;
pub mod fan_detector;
pub mod hwmon;
pub mod monitor;
pub mod store;
pub mod text;
pub mod thelio_io;
