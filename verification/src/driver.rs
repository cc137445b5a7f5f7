use vstd::prelude::*;
use rand::rngs::StdRng;
use crate::point::Point;
use crate::simulation::Simulation;

verus! {

/// What the view reports of one input event.
#[derive(Clone, Copy, Debug, PartialEq, Eq, Structural)]
pub enum Input {
    /// The window was asked to close.
    Quit,
    /// The escape key went down.
    Escape,
    /// The space key went down.
    Space,
    /// Anything else.
    Other,
}

/// The run flags that the view hands to the loop that drives the simulation.
#[derive(Clone, Copy, Debug, PartialEq, Eq, Structural)]
pub struct Control {
    /// Shutdown was requested. Once set, it stays set.
    pub quit: bool,
    /// The simulation stands still.
    pub paused: bool,
}

impl Control {
    /// The flags after the input event `input`: a close request or the escape
    /// key asks for shutdown, the space key toggles the pause, and anything
    /// else changes nothing.
    pub open spec fn after(self, input: Input) -> Control {
        match input {
            Input::Quit | Input::Escape => Control { quit: true, paused: self.paused },
            Input::Space => Control { quit: self.quit, paused: !self.paused },
            Input::Other => self,
        }
    }

    /// The flags at startup: running, no shutdown requested.
    pub fn new() -> (control: Control)
        ensures
            control == (Control { quit: false, paused: false }),
    {
        Control { quit: false, paused: false }
    }

    /// Returns the flags after the input event `input`.
    pub fn on_input(self, input: Input) -> (control: Control)
        ensures
            control == self.after(input),
    {
        match input {
            Input::Quit | Input::Escape => Control { quit: true, paused: self.paused },
            Input::Space => Control { quit: self.quit, paused: !self.paused },
            Input::Other => self,
        }
    }
}

/// What the loop that drives a simulation does after a step.
#[derive(Clone, Copy, Debug, PartialEq, Eq, Structural)]
pub enum Action {
    /// Leave the loop: shutdown was requested.
    Stop,
    /// Sleep for this many nanoseconds, then step again.
    Sleep(u32),
}

/// The time between the starts of two ticks, in nanoseconds, at a rate of
/// `ticks_per_second`.
pub open spec fn tick_period_spec(ticks_per_second: u32) -> u32 {
    (1_000_000_000int / (ticks_per_second as int)) as u32
}

/// Returns the time to sleep after a tick, in nanoseconds, so that the
/// simulation runs at `ticks_per_second` at most.
#[verifier::when_used_as_spec(tick_period_spec)]
pub fn tick_period(ticks_per_second: u32) -> (nanos: u32)
    requires
        ticks_per_second > 0,
    ensures
        nanos == tick_period_spec(ticks_per_second),
        nanos == 1_000_000_000int / (ticks_per_second as int),
{
    1_000_000_000u32 / ticks_per_second
}

/// Makes one step of the driving loop. If shutdown is requested, the
/// simulation is left as it is and the loop is told to stop. If the
/// simulation is paused, it is left as it is and the loop is told to sleep
/// for one tick period. Otherwise the simulation advances by one tick and the
/// loop is told to sleep for one tick period.
pub fn step(sim: &mut Simulation, control: Control, ticks_per_second: u32, rng: &mut StdRng) -> (action:
    Action)
    requires
        old(sim).wf(),
        ticks_per_second > 0,
    ensures
        final(sim).wf(),
        final(sim)@.grid.width == old(sim)@.grid.width,
        final(sim)@.grid.height == old(sim)@.grid.height,
        action == if control.quit {
            Action::Stop
        } else {
            Action::Sleep(tick_period_spec(ticks_per_second))
        },
        control.quit || control.paused ==> final(sim)@ == old(sim)@,
        !control.quit && !control.paused ==> exists|picks: Seq<Point>, target: Option<Point>|
            old(sim)@.draws(picks, target) && final(sim)@ == #[trigger] old(sim)@.ticked(picks, target),
{
    if control.quit {
        Action::Stop
    } else {
        if !control.paused {
            sim.tick(rng);
        }
        Action::Sleep(tick_period(ticks_per_second))
    }
}

} // verus!
