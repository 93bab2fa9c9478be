//! Fan-curve control for an NVIDIA GPU: parsing a curve of `(temperature, duty)`
//! keypoints into its canonical form, interpolating a duty from it, the control
//! loop's decisions, and the driver session's return-code policy, unit conversions
//! and shutdown bookkeeping.

pub mod canonical;
pub mod controller;
pub mod curve;
pub mod grammar;
pub mod session;

pub use canonical::{canonicalize, parse_fan_curve, CurveError};
pub use controller::{Action, Controller, Event, Phase};
pub use curve::Curve;
pub use grammar::parse_keypoints;
pub use session::{
    driver_status, mem_clock_offset_half_mhz, power_limit_milliwatts, DriverCall, DriverOp,
    SessionLifecycle, TuneError,
};
