use vigil::config::{
    ReadinessConfig, ReadinessType, RestartConfig, RestartPolicy, ShutdownConfig,
};
use vigil::readiness::ProbeResult;
use vigil::signals::{NamedSignal, Signal};
use vigil::supervisor::{
    child_waited, reap_logger, sleep_interruptible, ChildOutcome, PauseStep, ProbeVerdict,
    RestartDecision, RestartState, Teardown, TeardownStep, WaitEvent, Watch, WatchStep,
    KILL_CHECKS, POLL_MS,
};

fn watch(kind: ReadinessType) -> Watch {
    let readiness = ReadinessConfig {
        kind,
        timeout_ms: Some(1000),
        ..ReadinessConfig::default()
    };
    Watch::new(&readiness, 500)
}

#[test]
fn ends_of_the_service_are_outcomes() {
    assert_eq!(
        child_waited(WaitEvent::Exited(3)),
        Some(ChildOutcome::StoppedCleanly(Some(3), None))
    );
    assert_eq!(
        child_waited(WaitEvent::Signaled(Signal::SIGSEGV)),
        Some(ChildOutcome::StoppedCleanly(None, Some(Signal::SIGSEGV)))
    );
    assert_eq!(
        child_waited(WaitEvent::Lost),
        Some(ChildOutcome::StoppedCleanly(None, None))
    );
    assert_eq!(child_waited(WaitEvent::Alive), None);
}

#[test]
fn unchecked_services_are_recorded_once() {
    let mut w = watch(ReadinessType::NoCheck);
    assert_eq!(w.signal_taken(None, 500), WatchStep::Rest { record: true });
    assert_eq!(w.signal_taken(None, 550), WatchStep::Rest { record: false });
    // No deadline once ready.
    assert_eq!(w.signal_taken(None, 99999), WatchStep::Rest { record: false });
}

#[test]
fn the_readiness_signal_makes_ready() {
    let mut w = watch(ReadinessType::Signal);
    assert_eq!(w.ready_signal, Some(NamedSignal::Usr1));
    assert_eq!(w.signal_taken(None, 500), WatchStep::Probe);
    assert_eq!(w.probed(&ProbeResult::Pending), ProbeVerdict::Pending);
    assert_eq!(w.signal_taken(Some(NamedSignal::Chld), 600), WatchStep::Probe);
    assert_eq!(w.signal_taken(Some(NamedSignal::Usr2), 650), WatchStep::Probe);
    assert_eq!(w.signal_taken(Some(NamedSignal::Usr1), 700), WatchStep::Rest { record: true });
    assert_eq!(w.signal_taken(Some(NamedSignal::Usr1), 750), WatchStep::Rest { record: false });
}

#[test]
fn a_successful_probe_is_recorded_on_the_next_turn() {
    let mut w = watch(ReadinessType::Exec);
    assert_eq!(w.ready_signal, None);
    assert_eq!(w.signal_taken(None, 500), WatchStep::Probe);
    assert_eq!(w.probed(&ProbeResult::Ready), ProbeVerdict::Ready);
    assert_eq!(w.signal_taken(None, 550), WatchStep::Rest { record: true });
}

#[test]
fn stop_signals_end_the_watch() {
    for s in [NamedSignal::Term, NamedSignal::Int, NamedSignal::Hup] {
        let mut w = watch(ReadinessType::NoCheck);
        assert_eq!(w.signal_taken(Some(s), 500), WatchStep::Stop);
        assert!(!w.recorded);
    }
}

#[test]
fn readiness_has_a_deadline() {
    let mut w = watch(ReadinessType::Pid);
    assert_eq!(w.deadline, 1500);
    assert_eq!(w.signal_taken(None, 1499), WatchStep::Probe);
    assert_eq!(w.signal_taken(None, 1500), WatchStep::TimedOut);
    assert_eq!(w.probed(&ProbeResult::Failed("x".to_string())), ProbeVerdict::Failed);
    let default = Watch::new(&ReadinessConfig::default(), 10);
    assert_eq!(default.deadline, 30_010);
}

fn restart(policy: RestartPolicy, max_restarts: u32) -> RestartConfig {
    RestartConfig { policy, max_restarts, backoff_initial_ms: 1000, backoff_max_ms: 3000 }
}

#[test]
fn policies_decide_on_restarts() {
    let exits = [
        ChildOutcome::StoppedCleanly(Some(0), None),
        ChildOutcome::StoppedCleanly(Some(1), None),
        ChildOutcome::StoppedCleanly(None, Some(Signal::SIGKILL)),
        ChildOutcome::StoppedCleanly(None, None),
        ChildOutcome::ReadinessFailed,
    ];
    let table = [
        (RestartPolicy::Always, [true, true, true, true, true]),
        (RestartPolicy::OnFailure, [false, true, true, true, true]),
        (RestartPolicy::OnAbnormal, [false, false, true, false, true]),
        (RestartPolicy::Never, [false, false, false, false, false]),
    ];
    for (policy, wanted) in table {
        for (exit, want) in exits.iter().zip(wanted) {
            let config = restart(policy, 5);
            let mut state = RestartState::new(&config, 0);
            let decision = state.ended(&config, *exit, 10);
            if want {
                assert_eq!(decision, RestartDecision::Restart { attempt: 1, delay: 1000 });
            } else {
                assert_eq!(decision, RestartDecision::Terminated, "{:?} {:?}", policy, exit);
            }
        }
    }
    let config = restart(RestartPolicy::Always, 5);
    let mut state = RestartState::new(&config, 0);
    assert_eq!(state.ended(&config, ChildOutcome::StopRequested, 10), RestartDecision::Stopped);
}

#[test]
fn restarts_back_off_up_to_the_ceiling() {
    let config = restart(RestartPolicy::Always, 3);
    let end = ChildOutcome::StoppedCleanly(Some(1), None);
    let mut state = RestartState::new(&config, 0);
    assert_eq!(state.ended(&config, end, 10), RestartDecision::Restart { attempt: 1, delay: 1000 });
    state.grow_backoff(2000, &config);
    assert_eq!(state.ended(&config, end, 20), RestartDecision::Restart { attempt: 2, delay: 2000 });
    state.grow_backoff(4000, &config);
    assert_eq!(state.ended(&config, end, 30), RestartDecision::Restart { attempt: 3, delay: 3000 });
    assert_eq!(state.ended(&config, end, 40), RestartDecision::GaveUp);
    // At the ceiling a long run does not help.
    assert_eq!(state.ended(&config, end, 700_000), RestartDecision::GaveUp);
}

#[test]
fn a_long_run_resets_count_and_backoff() {
    let config = restart(RestartPolicy::Always, 3);
    let end = ChildOutcome::StoppedCleanly(Some(1), None);
    let mut state = RestartState::new(&config, 0);
    state.ended(&config, end, 10);
    state.grow_backoff(2000, &config);
    assert_eq!(
        state.ended(&config, end, 600_010),
        RestartDecision::Restart { attempt: 1, delay: 1000 }
    );
    state.grow_backoff(2000, &config);
    assert_eq!(
        state.ended(&config, end, 1_200_009),
        RestartDecision::Restart { attempt: 2, delay: 2000 }
    );
}

#[test]
fn no_restart_budget_means_no_restart() {
    let config = restart(RestartPolicy::Always, 0);
    let mut state = RestartState::new(&config, 0);
    assert_eq!(state.ended(&config, ChildOutcome::ReadinessFailed, 1), RestartDecision::GaveUp);
}

#[test]
fn pauses_end_by_time_or_signal() {
    let mut slept = 0;
    while sleep_interruptible(slept, 120, None) == PauseStep::Sleep {
        slept += POLL_MS;
    }
    assert_eq!(slept, 150);
    assert_eq!(sleep_interruptible(slept, 120, None), PauseStep::Over);
    assert_eq!(sleep_interruptible(0, 0, None), PauseStep::Over);
    assert_eq!(sleep_interruptible(0, 0, Some(NamedSignal::Term)), PauseStep::Stop);
    assert_eq!(sleep_interruptible(0, 100, Some(NamedSignal::Hup)), PauseStep::Stop);
    assert_eq!(sleep_interruptible(0, 100, Some(NamedSignal::Chld)), PauseStep::Sleep);
}

#[test]
fn teardown_grants_grace_then_kills() {
    let mut t = Teardown::Grace;
    assert_eq!(t.turn(true, 0, 100), TeardownStep::Sleep);
    assert_eq!(t.turn(true, 99, 100), TeardownStep::Sleep);
    assert_eq!(t.turn(true, 100, 100), TeardownStep::Kill);
    let mut looks = 0;
    while t.turn(true, 200, 100) == TeardownStep::Sleep {
        looks += 1;
    }
    assert_eq!(looks, KILL_CHECKS);

    let mut t = Teardown::Grace;
    assert_eq!(t.turn(false, 500, 100), TeardownStep::Done);
    let mut t = Teardown::Killed(1);
    assert_eq!(t.turn(false, 500, 100), TeardownStep::Done);
}

#[test]
fn log_writers_have_two_seconds() {
    assert_eq!(reap_logger(false, 0), TeardownStep::Done);
    assert_eq!(reap_logger(true, 1999), TeardownStep::Sleep);
    assert_eq!(reap_logger(true, 2000), TeardownStep::Kill);
}

#[test]
fn late_services_fail_and_restart_by_policy() {
    let readiness = ReadinessConfig {
        kind: ReadinessType::Signal,
        timeout_ms: Some(100),
        ..ReadinessConfig::default()
    };
    let mut watch = Watch::new(&readiness, 0);
    assert_eq!(watch.signal_taken(None, 99).outcome(), None);
    let step = watch.signal_taken(None, 100);
    assert_eq!(step, WatchStep::TimedOut);
    let outcome = step.outcome().unwrap();
    assert_eq!(outcome, ChildOutcome::ReadinessFailed);
    for (policy, want) in [
        (RestartPolicy::Never, RestartDecision::Terminated),
        (RestartPolicy::OnAbnormal, RestartDecision::Restart { attempt: 1, delay: 1000 }),
        (RestartPolicy::OnFailure, RestartDecision::Restart { attempt: 1, delay: 1000 }),
        (RestartPolicy::Always, RestartDecision::Restart { attempt: 1, delay: 1000 }),
    ] {
        let config = restart(policy, 5);
        assert_eq!(RestartState::new(&config, 0).ended(&config, outcome, 200), want);
    }
    assert_eq!(WatchStep::Stop.outcome(), Some(ChildOutcome::StopRequested));
    assert_eq!(WatchStep::Probe.outcome(), None);
    assert_eq!(WatchStep::Rest { record: true }.outcome(), None);
    assert_eq!(ProbeVerdict::Failed.outcome(), Some(ChildOutcome::ReadinessFailed));
    assert_eq!(ProbeVerdict::Ready.outcome(), None);
    assert_eq!(ProbeVerdict::Pending.outcome(), None);
}

#[test]
fn teardown_sends_the_configured_signals() {
    let shutdown = ShutdownConfig {
        signal: "INT".to_string(),
        timeout_ms: 100,
        kill_signal: "QUIT".to_string(),
    };
    let (mut teardown, first) = Teardown::begin(&shutdown);
    assert_eq!((teardown, first), (Teardown::Grace, NamedSignal::Int));
    assert_eq!(teardown.turn(true, 50, 100).signal(&shutdown), None);
    assert_eq!(teardown.turn(true, 100, 100).signal(&shutdown), Some(NamedSignal::Quit));
    assert_eq!(teardown.turn(true, 150, 100).signal(&shutdown), None);
    assert_eq!(TeardownStep::Done.signal(&shutdown), None);
}
