use cbstats::errors::StatsError;
use cbstats::runloop::{RunLoopController, StepAction};

#[test]
fn shutdown_drains() {
    let mut ctl = RunLoopController::new(true, 1000, 0);
    assert_eq!(ctl.step(true, false, false, 5), StepAction::Drain(None));
}

#[test]
fn external_exit_drains() {
    let mut ctl = RunLoopController::new(true, 1000, 0);
    assert_eq!(
        ctl.step(false, true, false, 5),
        StepAction::Drain(Some(StatsError::ExternalExit))
    );
}

#[test]
fn broken_channel_drains_when_polling() {
    let mut ctl = RunLoopController::new(true, 1000, 0);
    assert_eq!(
        ctl.step(false, false, true, 5),
        StepAction::Drain(Some(StatsError::ChannelError))
    );
}

#[test]
fn poll_failure_is_ignored_without_telemetry() {
    let mut ctl = RunLoopController::new(false, 1000, 0);
    assert_eq!(ctl.step(false, false, true, 5), StepAction::Continue);
}

#[test]
fn periodic_report_fires_after_interval() {
    let mut ctl = RunLoopController::new(true, 1000, 0);
    assert_eq!(ctl.step(false, false, false, 1000), StepAction::Continue);
    assert_eq!(ctl.step(false, false, false, 1001), StepAction::Report);
    // The report clock was reset: the very next instant is not due again.
    assert_eq!(ctl.step(false, false, false, 1002), StepAction::Continue);
    assert_eq!(ctl.step(false, false, false, 2002), StepAction::Report);
}

#[test]
fn interval_elapses_silently_without_telemetry() {
    let mut ctl = RunLoopController::new(false, 1000, 0);
    assert_eq!(ctl.step(false, false, false, 5000), StepAction::Continue);
}

#[test]
fn finish_owes_final_report_iff_telemetry_on() {
    let mut with_stats = RunLoopController::new(true, 1000, 0);
    assert!(with_stats.finish());
    let mut without_stats = RunLoopController::new(false, 1000, 0);
    assert!(!without_stats.finish());
}
