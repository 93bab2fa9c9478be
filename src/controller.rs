use vstd::prelude::*;

use crate::curve::{interp, Curve};

verus! {

/// Where the control loop stands.
#[derive(Debug, Clone, Copy, PartialEq, Eq, Structural)]
pub enum Phase {
    /// Not started.
    Idle,
    /// Polling, reading, writing and sleeping in turn.
    Running,
    /// The interrupt was observed; the loop is to end.
    Interrupted,
    /// The loop has ended.
    Done,
}

/// What the outside world reports to the controller: the outcome of the last
/// action, or the start of the loop.
#[derive(Debug, Clone, Copy, PartialEq, Eq, Structural)]
pub enum Event {
    /// The loop begins.
    Start,
    /// The interrupt flag was polled: whether it was set.
    InterruptPolled(bool),
    /// The sensor read this temperature, in degrees Celsius.
    Temperature(i64),
    /// The sensor read failed with this driver code.
    SensorFailed(u32),
    /// The fan duty was written.
    FanWritten,
    /// The fan write failed with this driver code.
    FanWriteFailed(u32),
    /// The sleep between two iterations is over.
    Slept,
}

/// What the controller asks the outside world to do next.
#[derive(Debug, Clone, Copy, PartialEq, Eq, Structural)]
pub enum Action {
    /// Poll the interrupt flag, without blocking.
    PollInterrupt,
    /// Read the GPU temperature from sensor 0.
    ReadTemperature,
    /// Write this duty, in percent, to fan 0.
    SetFanDuty(u32),
    /// Wait this many seconds, or until interrupted.
    Sleep(u64),
    /// Leave the loop.
    Stop,
}

/// The phase after `event` in phase `phase`. Once the interrupt is observed the
/// loop goes to `Done` and stays there.
pub open spec fn next_phase(phase: Phase, event: Event) -> Phase {
    match phase {
        Phase::Interrupted | Phase::Done => Phase::Done,
        _ => match event {
            Event::InterruptPolled(true) => Phase::Interrupted,
            _ => Phase::Running,
        },
    }
}

/// The action after `event` in phase `phase`, for the curve `c` and a period of
/// `period` seconds. Each iteration polls the interrupt, reads the temperature,
/// writes the duty that the curve gives it, and sleeps; a failed read skips the
/// write, a failed write changes nothing, and an observed interrupt stops the loop.
pub open spec fn next_action(c: Seq<(u32, u32)>, period: u64, phase: Phase, event: Event) -> Action {
    match phase {
        Phase::Interrupted | Phase::Done => Action::Stop,
        _ => match event {
            Event::Start => Action::PollInterrupt,
            Event::InterruptPolled(true) => Action::Stop,
            Event::InterruptPolled(false) => Action::ReadTemperature,
            Event::Temperature(t) => Action::SetFanDuty(interp(c, t as int) as u32),
            Event::SensorFailed(_) => Action::Sleep(period),
            Event::FanWritten => Action::Sleep(period),
            Event::FanWriteFailed(_) => Action::Sleep(period),
            Event::Slept => Action::PollInterrupt,
        },
    }
}

/// The fan-curve controller: a curve, the period of its loop in seconds, and the
/// loop's phase.
pub struct Controller {
    curve: Curve,
    period: u64,
    phase: Phase,
}

impl Controller {
    pub closed spec fn spec_curve(&self) -> Seq<(u32, u32)> {
        self.curve@
    }

    pub closed spec fn spec_period(&self) -> u64 {
        self.period
    }

    pub closed spec fn spec_phase(&self) -> Phase {
        self.phase
    }

    pub closed spec fn wf(&self) -> bool {
        self.curve.wf()
    }

    /// A controller, not started, for `curve` with a loop of `period` seconds.
    pub fn new(curve: Curve, period: u64) -> (r: Controller)
        requires
            curve.wf(),
        ensures
            r.wf(),
            r.spec_curve() == curve@,
            r.spec_period() == period,
            r.spec_phase() == Phase::Idle,
    {
        Controller { curve, period, phase: Phase::Idle }
    }

    pub fn phase(&self) -> (r: Phase)
        ensures
            r == self.spec_phase(),
    {
        self.phase
    }

    pub fn period(&self) -> (r: u64)
        ensures
            r == self.spec_period(),
    {
        self.period
    }

    pub fn curve(&self) -> (r: &Curve)
        ensures
            r@ == self.spec_curve(),
    {
        &self.curve
    }

    /// Takes in what happened and says what to do next.
    pub fn step(&mut self, event: Event) -> (action: Action)
        requires
            old(self).wf(),
        ensures
            final(self).wf(),
            final(self).spec_curve() == old(self).spec_curve(),
            final(self).spec_period() == old(self).spec_period(),
            final(self).spec_phase() == next_phase(old(self).spec_phase(), event),
            action == next_action(
                old(self).spec_curve(),
                old(self).spec_period(),
                old(self).spec_phase(),
                event,
            ),
    {
        match self.phase {
            Phase::Interrupted | Phase::Done => {
                self.phase = Phase::Done;
                return Action::Stop;
            },
            _ => {},
        }
        match event {
            Event::InterruptPolled(true) => {
                self.phase = Phase::Interrupted;
                Action::Stop
            },
            _ => {
                self.phase = Phase::Running;
                match event {
                    Event::Start => Action::PollInterrupt,
                    Event::InterruptPolled(_) => Action::ReadTemperature,
                    Event::Temperature(t) => Action::SetFanDuty(self.curve.interpolate(t)),
                    Event::SensorFailed(_) => Action::Sleep(self.period),
                    Event::FanWritten => Action::Sleep(self.period),
                    Event::FanWriteFailed(_) => Action::Sleep(self.period),
                    Event::Slept => Action::PollInterrupt,
                }
            },
        }
    }
}

/// Once the interrupt has been observed, the controller asks for nothing but to
/// stop, whatever it is told: no fan write follows it.
pub proof fn lemma_stops_after_interrupt(c: Seq<(u32, u32)>, period: u64, phase: Phase, event: Event)
    requires
        phase == Phase::Interrupted || phase == Phase::Done,
    ensures
        next_action(c, period, phase, event) == Action::Stop,
        next_phase(phase, event) == Phase::Done,
{
}

} // verus!
