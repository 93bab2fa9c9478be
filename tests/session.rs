use nvml_tune::{
    driver_status, mem_clock_offset_half_mhz, power_limit_milliwatts, CurveError, DriverCall,
    DriverOp, SessionLifecycle, TuneError,
};

#[test]
fn zero_code_is_success() {
    assert_eq!(driver_status(DriverCall::Init, 0), Ok(()));
    assert_eq!(driver_status(DriverCall::DeviceHandle, 0), Ok(()));
    assert_eq!(driver_status(DriverCall::Op(DriverOp::SetFanDuty), 0), Ok(()));
}

#[test]
fn non_zero_codes_keep_the_code() {
    assert_eq!(
        driver_status(DriverCall::Init, 9),
        Err(TuneError::InitError { code: 9 })
    );
    assert_eq!(
        driver_status(DriverCall::DeviceHandle, 2),
        Err(TuneError::DeviceError { code: 2 })
    );
    assert_eq!(
        driver_status(DriverCall::Op(DriverOp::ReadTemperature), 15),
        Err(TuneError::DriverOpFailure { op: DriverOp::ReadTemperature, code: 15 })
    );
}

#[test]
fn only_driver_op_failures_are_not_fatal() {
    assert!(TuneError::PrivilegeError.is_fatal());
    assert!(TuneError::LibraryLoadError.is_fatal());
    assert!(TuneError::InitError { code: 1 }.is_fatal());
    assert!(TuneError::DeviceError { code: 1 }.is_fatal());
    assert!(TuneError::ParseError.is_fatal());
    assert!(TuneError::EmptyCurve.is_fatal());
    assert!(!TuneError::DriverOpFailure { op: DriverOp::SetPowerLimit, code: 3 }.is_fatal());
}

#[test]
fn curve_errors_convert() {
    assert_eq!(TuneError::from(CurveError::ParseError), TuneError::ParseError);
    assert_eq!(TuneError::from(CurveError::EmptyCurve), TuneError::EmptyCurve);
}

#[test]
fn watts_to_milliwatts() {
    assert_eq!(power_limit_milliwatts(250), Some(250_000));
    assert_eq!(power_limit_milliwatts(0), Some(0));
    assert_eq!(power_limit_milliwatts(4_294_967), Some(4_294_967_000));
    assert_eq!(power_limit_milliwatts(4_294_968), None);
}

#[test]
fn mhz_to_half_mhz() {
    assert_eq!(mem_clock_offset_half_mhz(500), Some(1000));
    assert_eq!(mem_clock_offset_half_mhz(-250), Some(-500));
    assert_eq!(mem_clock_offset_half_mhz(i32::MAX), None);
    assert_eq!(mem_clock_offset_half_mhz(i32::MIN), None);
}

#[test]
fn shutdown_owed_only_after_init() {
    let mut s = SessionLifecycle::new();
    assert!(!s.take_shutdown());
    assert_eq!(s.record_init(4), Err(TuneError::InitError { code: 4 }));
    assert!(!s.take_shutdown());
    assert_eq!(s.record_init(0), Ok(()));
    assert!(s.take_shutdown());
    assert!(!s.take_shutdown());
}
