//! The run-loop's decisions: when to keep polling, when to fire a periodic
//! report, and when to drain and stop. The loop itself — polling the
//! channel, sleeping, reading the clock — lives outside; this module turns
//! each iteration's observations into the next state and action.

use vstd::prelude::*;

use crate::errors::StatsError;

verus! {

/// Where the controller stands: consuming events, detaching and emitting
/// final reports, or done.
#[derive(Clone, Copy, Debug, PartialEq, Eq, Structural)]
pub enum LoopState {
    Running,
    Draining,
    Stopped,
}

/// What the loop must do next: keep going, emit the periodic reports, or
/// leave the loop and drain. A drain carries its trigger: `None` for an
/// operator-requested shutdown, `ExternalExit` when the observed program
/// terminated, `ChannelError` when the event channel broke.
#[derive(Clone, Copy, Debug, PartialEq, Eq, Structural)]
pub enum StepAction {
    Continue,
    Report,
    Drain(Option<StatsError>),
}

/// The top-level driver's state: the telemetry toggle, the fixed report
/// interval, the time of the previous report, and the loop state.
pub struct RunLoopController {
    stats_on: bool,
    interval_ms: u64,
    prev_report_ms: u64,
    state: LoopState,
}

impl RunLoopController {
    /// Whether telemetry capture was requested at startup.
    pub closed spec fn spec_stats_on(&self) -> bool {
        self.stats_on
    }

    /// The fixed report interval, in milliseconds.
    pub closed spec fn spec_interval_ms(&self) -> nat {
        self.interval_ms as nat
    }

    /// The time the previous periodic report fired, in milliseconds.
    pub closed spec fn spec_prev_report_ms(&self) -> nat {
        self.prev_report_ms as nat
    }

    /// The current loop state.
    pub closed spec fn spec_state(&self) -> LoopState {
        self.state
    }

    /// A fresh controller: running, with the previous-report clock set to
    /// the start time.
    pub fn new(stats_on: bool, interval_ms: u64, start_ms: u64) -> (r: RunLoopController)
        ensures
            r.spec_stats_on() == stats_on,
            r.spec_interval_ms() == interval_ms as nat,
            r.spec_prev_report_ms() == start_ms as nat,
            r.spec_state() == LoopState::Running,
    {
        RunLoopController { stats_on, interval_ms, prev_report_ms: start_ms, state: LoopState::Running }
    }

    /// One loop iteration's decision, from what the iteration observed: the
    /// shutdown flag, the external program's "exited" condition, whether the
    /// event channel's poll failed, and the clock. Shutdown or an external
    /// exit drains; with telemetry on, a broken channel drains; otherwise,
    /// once the report interval has passed since the previous report, the
    /// periodic report fires (only telemetry-enabled runs print one) and the
    /// report clock resets.
    pub fn step(&mut self, shutdown: bool, exited: bool, poll_failed: bool, now_ms: u64) -> (r:
        StepAction)
        requires
            old(self).spec_state() == LoopState::Running,
        ensures
            final(self).spec_stats_on() == old(self).spec_stats_on(),
            final(self).spec_interval_ms() == old(self).spec_interval_ms(),
            ({
                let due = old(self).spec_prev_report_ms() + old(self).spec_interval_ms() < now_ms as nat;
                if shutdown {
                    &&& r == StepAction::Drain(Option::<StatsError>::None)
                    &&& final(self).spec_state() == LoopState::Draining
                    &&& final(self).spec_prev_report_ms() == old(self).spec_prev_report_ms()
                } else if exited {
                    &&& r == StepAction::Drain(Some(StatsError::ExternalExit))
                    &&& final(self).spec_state() == LoopState::Draining
                    &&& final(self).spec_prev_report_ms() == old(self).spec_prev_report_ms()
                } else if old(self).spec_stats_on() && poll_failed {
                    &&& r == StepAction::Drain(Some(StatsError::ChannelError))
                    &&& final(self).spec_state() == LoopState::Draining
                    &&& final(self).spec_prev_report_ms() == old(self).spec_prev_report_ms()
                } else if due {
                    &&& r == (if old(self).spec_stats_on() {
                        StepAction::Report
                    } else {
                        StepAction::Continue
                    })
                    &&& final(self).spec_state() == LoopState::Running
                    &&& final(self).spec_prev_report_ms() == now_ms as nat
                } else {
                    &&& r == StepAction::Continue
                    &&& final(self).spec_state() == LoopState::Running
                    &&& final(self).spec_prev_report_ms() == old(self).spec_prev_report_ms()
                }
            }),
    {
        if shutdown {
            self.state = LoopState::Draining;
            return StepAction::Drain(None);
        }
        if exited {
            self.state = LoopState::Draining;
            return StepAction::Drain(Some(StatsError::ExternalExit));
        }
        if self.stats_on && poll_failed {
            self.state = LoopState::Draining;
            return StepAction::Drain(Some(StatsError::ChannelError));
        }
        if (self.prev_report_ms as u128) + (self.interval_ms as u128) < now_ms as u128 {
            self.prev_report_ms = now_ms;
            if self.stats_on {
                return StepAction::Report;
            }
            return StepAction::Continue;
        }
        StepAction::Continue
    }

    /// The drain's last word: the controller stops, and says whether a
    /// final combined report is owed — exactly when telemetry was enabled.
    pub fn finish(&mut self) -> (r: bool)
        ensures
            final(self).spec_state() == LoopState::Stopped,
            final(self).spec_stats_on() == old(self).spec_stats_on(),
            final(self).spec_interval_ms() == old(self).spec_interval_ms(),
            final(self).spec_prev_report_ms() == old(self).spec_prev_report_ms(),
            r == old(self).spec_stats_on(),
    {
        self.state = LoopState::Stopped;
        self.stats_on
    }
}

} // verus!
