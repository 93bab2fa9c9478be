use nvml_tune::{parse_fan_curve, Action, Controller, Event, Phase, SessionLifecycle};

fn controller() -> Controller {
    Controller::new(parse_fan_curve("(0:0),(100:100)").unwrap(), 2)
}

#[test]
fn one_iteration_in_order() {
    let mut ctl = controller();
    assert_eq!(ctl.phase(), Phase::Idle);
    assert_eq!(ctl.step(Event::Start), Action::PollInterrupt);
    assert_eq!(ctl.phase(), Phase::Running);
    assert_eq!(ctl.step(Event::InterruptPolled(false)), Action::ReadTemperature);
    assert_eq!(ctl.step(Event::Temperature(42)), Action::SetFanDuty(42));
    assert_eq!(ctl.step(Event::FanWritten), Action::Sleep(2));
    assert_eq!(ctl.step(Event::Slept), Action::PollInterrupt);
}

#[test]
fn sensor_failure_skips_write() {
    let mut ctl = controller();
    ctl.step(Event::Start);
    ctl.step(Event::InterruptPolled(false));
    assert_eq!(ctl.step(Event::SensorFailed(15)), Action::Sleep(2));
    assert_eq!(ctl.phase(), Phase::Running);
}

#[test]
fn fan_write_failure_goes_on() {
    let mut ctl = controller();
    ctl.step(Event::Start);
    ctl.step(Event::InterruptPolled(false));
    ctl.step(Event::Temperature(70));
    assert_eq!(ctl.step(Event::FanWriteFailed(3)), Action::Sleep(2));
    assert_eq!(ctl.step(Event::Slept), Action::PollInterrupt);
    assert_eq!(ctl.phase(), Phase::Running);
}

#[test]
fn interrupt_shortens_loop() {
    let mut session = SessionLifecycle::new();
    assert!(session.record_init(0).is_ok());
    let mut ctl = Controller::new(parse_fan_curve("(40:30),(80:70)").unwrap(), 2);
    assert_eq!(ctl.step(Event::Start), Action::PollInterrupt);
    assert_eq!(ctl.step(Event::InterruptPolled(false)), Action::ReadTemperature);
    assert_eq!(ctl.step(Event::Temperature(60)), Action::SetFanDuty(50));
    assert_eq!(ctl.step(Event::FanWritten), Action::Sleep(2));
    // the interrupt arrives during the sleep, which ends early
    assert_eq!(ctl.step(Event::Slept), Action::PollInterrupt);
    assert_eq!(ctl.step(Event::InterruptPolled(true)), Action::Stop);
    assert_eq!(ctl.phase(), Phase::Interrupted);
    let mut shutdowns = 0;
    for _ in 0..3 {
        if session.take_shutdown() {
            shutdowns += 1;
        }
    }
    assert_eq!(shutdowns, 1);
}

#[test]
fn nothing_but_stop_after_interrupt() {
    let mut ctl = controller();
    ctl.step(Event::Start);
    assert_eq!(ctl.step(Event::InterruptPolled(true)), Action::Stop);
    for event in [
        Event::Temperature(50),
        Event::Slept,
        Event::InterruptPolled(false),
        Event::Start,
        Event::FanWritten,
    ] {
        assert_eq!(ctl.step(event), Action::Stop);
        assert_eq!(ctl.phase(), Phase::Done);
    }
}

#[test]
fn controller_keeps_curve_and_period() {
    let mut ctl = Controller::new(parse_fan_curve("(50:60)").unwrap(), 7);
    ctl.step(Event::Start);
    assert_eq!(ctl.period(), 7);
    assert_eq!(ctl.curve().points().clone(), vec![(0, 0), (50, 60), (100, 100)]);
    ctl.step(Event::InterruptPolled(false));
    assert_eq!(ctl.step(Event::Temperature(-5)), Action::SetFanDuty(0));
    ctl.step(Event::FanWritten);
    ctl.step(Event::Slept);
    ctl.step(Event::InterruptPolled(false));
    assert_eq!(ctl.step(Event::Temperature(120)), Action::SetFanDuty(100));
}
