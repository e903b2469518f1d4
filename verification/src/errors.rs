//! Error taxonomy of the fan-curve subsystem.

use vstd::prelude::*;

verus! {

/// Main error type for the fan curve subsystem.
///
/// Errors raised by the hardware or the IPC transport reach the library as
/// plain messages; the library itself raises `Config`, `Serialization`,
/// `FanCurveNotFound` and `InvalidFanPoint`.
#[derive(Debug)]
pub enum FanCurveError {
    /// A read or write on a hardware or configuration file failed.
    Io(String),
    /// Persisted text could not be decoded as a curve configuration.
    Serialization(String),
    /// The IPC transport failed.
    DBus(String),
    /// A configuration-level failure (missing device, bad state).
    Config(String),
    /// No curve with the given name exists in the store.
    FanCurveNotFound { name: String },
    /// A curve point was rejected by the control surface's bounds check.
    InvalidFanPoint { temp: i16, duty: u16 },
    /// A persisted configuration did not read back equal to the one in
    /// memory.
    Validation(String),
    /// The operation was refused for lack of permission.
    PermissionDenied(String),
    /// The daemon is not running.
    DaemonNotRunning,
    /// Any other failure.
    Unknown(String),
}

} // verus!
