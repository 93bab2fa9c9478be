use vstd::prelude::*;

use crate::canonical::CurveError;

verus! {

/// A driver operation whose failure the tool reports and then goes on.
#[derive(Debug, Clone, Copy, PartialEq, Eq, Structural)]
pub enum DriverOp {
    SetPowerLimit,
    SetMemClockOffset,
    SetGraphicsClockOffset,
    ReadTemperature,
    SetFanDuty,
}

/// A call into the management library whose return code the tool checks.
#[derive(Debug, Clone, Copy, PartialEq, Eq, Structural)]
pub enum DriverCall {
    Init,
    DeviceHandle,
    Op(DriverOp),
}

/// What can go wrong while tuning the GPU.
#[derive(Debug, Clone, Copy, PartialEq, Eq, Structural)]
pub enum TuneError {
    /// The process could not obtain the privilege the driver asks for.
    PrivilegeError,
    /// The management library could not be loaded.
    LibraryLoadError,
    /// The library's initialisation returned this non-zero code.
    InitError { code: u32 },
    /// No device handle for the index: the library returned this non-zero code.
    DeviceError { code: u32 },
    /// The fan curve's text is malformed or holds a value above 100.
    ParseError,
    /// The fan curve's text holds no keypoint.
    EmptyCurve,
    /// A setter or a sensor read returned this non-zero code.
    DriverOpFailure { op: DriverOp, code: u32 },
}

impl TuneError {
    pub open spec fn spec_is_fatal(&self) -> bool {
        !(self is DriverOpFailure)
    }

    /// Whether the error ends the program; only a failed driver operation does not.
    pub fn is_fatal(&self) -> (r: bool)
        ensures
            r == self.spec_is_fatal(),
    {
        match self {
            TuneError::DriverOpFailure { .. } => false,
            _ => true,
        }
    }
}

impl From<CurveError> for TuneError {
    fn from(e: CurveError) -> (r: TuneError)
        ensures
            r == curve_error_spec(e),
    {
        match e {
            CurveError::ParseError => TuneError::ParseError,
            CurveError::EmptyCurve => TuneError::EmptyCurve,
        }
    }
}

/// The error of the tool that a refused fan curve stands for.
pub open spec fn curve_error_spec(e: CurveError) -> TuneError {
    match e {
        CurveError::ParseError => TuneError::ParseError,
        CurveError::EmptyCurve => TuneError::EmptyCurve,
    }
}

impl vstd::std_specs::convert::FromSpecImpl<CurveError> for TuneError {
    open spec fn obeys_from_spec() -> bool {
        true
    }

    open spec fn from_spec(e: CurveError) -> TuneError {
        curve_error_spec(e)
    }
}

/// The error that a non-zero return code of `call` stands for.
pub open spec fn call_error(call: DriverCall, code: u32) -> TuneError {
    match call {
        DriverCall::Init => TuneError::InitError { code },
        DriverCall::DeviceHandle => TuneError::DeviceError { code },
        DriverCall::Op(op) => TuneError::DriverOpFailure { op, code },
    }
}

/// Reads the return code of a library call: zero is success, any other code is the
/// call's error with the code kept.
pub fn driver_status(call: DriverCall, code: u32) -> (r: Result<(), TuneError>)
    ensures
        code == 0 ==> r is Ok,
        code != 0 ==> r == Err::<(), TuneError>(call_error(call, code)),
{
    if code == 0 {
        Ok(())
    } else {
        match call {
            DriverCall::Init => Err(TuneError::InitError { code }),
            DriverCall::DeviceHandle => Err(TuneError::DeviceError { code }),
            DriverCall::Op(op) => Err(TuneError::DriverOpFailure { op, code }),
        }
    }
}

/// The power limit in milliwatts, the driver's unit, for a limit in watts; `None`
/// where it does not fit the driver's 32 bits.
pub fn power_limit_milliwatts(watts: u32) -> (r: Option<u32>)
    ensures
        watts * 1000 <= u32::MAX ==> r == Some((watts * 1000) as u32),
        watts * 1000 > u32::MAX ==> r is None,
{
    watts.checked_mul(1000)
}

/// The memory-clock offset in the driver's unit of half a megahertz, for an offset
/// in megahertz; `None` where it does not fit the driver's 32 bits.
pub fn mem_clock_offset_half_mhz(mhz: i32) -> (r: Option<i32>)
    ensures
        i32::MIN <= mhz * 2 <= i32::MAX ==> r == Some((mhz * 2) as i32),
        !(i32::MIN <= mhz * 2 <= i32::MAX) ==> r is None,
{
    mhz.checked_mul(2)
}

/// Whether the library's shutdown is owed and whether it has run: owed once its
/// initialisation has succeeded, and run at most once.
pub struct SessionLifecycle {
    initialized: bool,
    shut_down: bool,
}

impl SessionLifecycle {
    pub closed spec fn spec_initialized(&self) -> bool {
        self.initialized
    }

    pub closed spec fn spec_shut_down(&self) -> bool {
        self.shut_down
    }

    /// A session whose library is not initialised yet.
    pub fn new() -> (r: SessionLifecycle)
        ensures
            !r.spec_initialized(),
            !r.spec_shut_down(),
    {
        SessionLifecycle { initialized: false, shut_down: false }
    }

    /// Records the return code of the library's initialisation.
    pub fn record_init(&mut self, code: u32) -> (r: Result<(), TuneError>)
        ensures
            code == 0 ==> r is Ok,
            code != 0 ==> r == Err::<(), TuneError>(TuneError::InitError { code }),
            final(self).spec_initialized() == (old(self).spec_initialized() || code == 0),
            final(self).spec_shut_down() == old(self).spec_shut_down(),
    {
        let r = driver_status(DriverCall::Init, code);
        if code == 0 {
            self.initialized = true;
        }
        r
    }

    /// Whether the library's shutdown is to be called now: true once, on the first
    /// call after a successful initialisation, and false ever after.
    pub fn take_shutdown(&mut self) -> (r: bool)
        ensures
            r == (old(self).spec_initialized() && !old(self).spec_shut_down()),
            final(self).spec_initialized() == old(self).spec_initialized(),
            final(self).spec_shut_down() == (old(self).spec_shut_down() || r),
    {
        if self.initialized && !self.shut_down {
            self.shut_down = true;
            true
        } else {
            false
        }
    }
}

} // verus!
