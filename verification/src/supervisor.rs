//! The supervisor of one service: watching it, deciding on restarts, and
//! tearing it down.
//!
//! The functions here decide; whoever calls them waits for processes, sends
//! signals and writes status files. Times are milliseconds on one clock that
//! never runs backwards.

use crate::config::{
    ReadinessConfig, ReadinessType, RestartConfig, RestartPolicy, ShutdownConfig,
};
use crate::readiness::{readiness_timeout, Finding, ProbeResult};
use crate::signals::{
    configured_signal, readiness_signal, readiness_signal_named, signal_from_name, NamedSignal, Signal,
};
use crate::text::Text;
use vstd::prelude::*;

verus! {

/// How long the loops of the supervisor sleep between two looks.
pub const POLL_MS: u64 = 50;

/// A restart that comes this long after the last one counts as the first.
pub const RESTART_COOLDOWN_MS: u64 = 600000;

/// How long a log writer may take to end by itself.
pub const LOGGER_GRACE_MS: u64 = 2000;

/// How often a killed process group is looked at before it is left alone.
pub const KILL_CHECKS: u32 = 40;

// ---------------------------------------------------------------------------
// Watching the service
// ---------------------------------------------------------------------------

/// How the supervision of one run of a service ended.
#[derive(Debug, Clone, Copy, PartialEq, Eq, Structural)]
pub enum ChildOutcome {
    /// It ended: with an exit code, by a signal, or unobserved.
    StoppedCleanly(Option<i32>, Option<Signal>),
    StopRequested,
    ReadinessFailed,
}

/// What a look at the service process found.
#[derive(Debug, Clone, Copy, PartialEq, Eq, Structural)]
pub enum WaitEvent {
    Exited(i32),
    Signaled(Signal),
    /// It runs, or is merely stopped.
    Alive,
    /// It cannot be waited for.
    Lost,
}

/// What a look at the service process means for the run.
pub open spec fn end_of_run(event: WaitEvent) -> Option<ChildOutcome> {
    match event {
        WaitEvent::Exited(code) => Some(ChildOutcome::StoppedCleanly(Some(code), None)),
        WaitEvent::Signaled(sig) => Some(ChildOutcome::StoppedCleanly(None, Some(sig))),
        WaitEvent::Alive => None,
        WaitEvent::Lost => Some(ChildOutcome::StoppedCleanly(None, None)),
    }
}

/// The outcome of the run, if the look at the service process shows that it is
/// over.
pub fn child_waited(event: WaitEvent) -> (r: Option<ChildOutcome>)
    ensures
        r == end_of_run(event),
{
    match event {
        WaitEvent::Exited(code) => Some(ChildOutcome::StoppedCleanly(Some(code), None)),
        WaitEvent::Signaled(sig) => Some(ChildOutcome::StoppedCleanly(None, Some(sig))),
        WaitEvent::Alive => None,
        WaitEvent::Lost => Some(ChildOutcome::StoppedCleanly(None, None)),
    }
}

/// The state of the watch over a running service.
#[derive(Debug, Clone, Copy, PartialEq, Eq)]
pub struct Watch {
    /// The signal by which the service says that it is ready.
    pub ready_signal: Option<NamedSignal>,
    /// When a service that is not ready counts as failed.
    pub deadline: u64,
    pub ready: bool,
    /// Whether the service has been recorded as running.
    pub recorded: bool,
}

/// What the watch does next.
#[derive(Debug, Clone, Copy, PartialEq, Eq, Structural)]
pub enum WatchStep {
    /// Terminate the service: a stop was requested.
    Stop,
    /// Terminate the service: it did not become ready in time.
    TimedOut,
    /// Probe the service for readiness.
    Probe,
    /// Look again later; first record the service as running if `record`.
    Rest { record: bool },
}

/// What a probe result does to the watch.
#[derive(Debug, Clone, Copy, PartialEq, Eq, Structural)]
pub enum ProbeVerdict {
    /// The service is ready: end the probe.
    Ready,
    /// The check failed: end the probe and terminate the service.
    Failed,
    Pending,
}

impl WatchStep {
    /// How the run ends with this step, if it does.
    pub open spec fn end(self) -> Option<ChildOutcome> {
        match self {
            WatchStep::Stop => Some(ChildOutcome::StopRequested),
            WatchStep::TimedOut => Some(ChildOutcome::ReadinessFailed),
            WatchStep::Probe | WatchStep::Rest { .. } => None,
        }
    }

    /// The outcome of the run, if this step ends it.
    pub fn outcome(self) -> (r: Option<ChildOutcome>)
        ensures
            r == self.end(),
    {
        match self {
            WatchStep::Stop => Some(ChildOutcome::StopRequested),
            WatchStep::TimedOut => Some(ChildOutcome::ReadinessFailed),
            WatchStep::Probe | WatchStep::Rest { .. } => None,
        }
    }
}

impl ProbeVerdict {
    /// How the run ends with this verdict, if it does.
    pub open spec fn end(self) -> Option<ChildOutcome> {
        match self {
            ProbeVerdict::Failed => Some(ChildOutcome::ReadinessFailed),
            ProbeVerdict::Ready | ProbeVerdict::Pending => None,
        }
    }

    /// The outcome of the run, if this verdict ends it.
    pub fn outcome(self) -> (r: Option<ChildOutcome>)
        ensures
            r == self.end(),
    {
        match self {
            ProbeVerdict::Failed => Some(ChildOutcome::ReadinessFailed),
            ProbeVerdict::Ready | ProbeVerdict::Pending => None,
        }
    }
}

/// What a probe result means for the watch.
pub open spec fn verdict_on(finding: Finding) -> ProbeVerdict {
    match finding {
        Finding::Ready => ProbeVerdict::Ready,
        Finding::Failed(_) => ProbeVerdict::Failed,
        Finding::Pending => ProbeVerdict::Pending,
    }
}

/// Whether the signal asks the supervisor to stop its service.
pub open spec fn is_stop_signal(s: NamedSignal) -> bool {
    s is Term || s is Int || s is Hup
}

fn stops(s: NamedSignal) -> (r: bool)
    ensures
        r == is_stop_signal(s),
{
    match s {
        NamedSignal::Term | NamedSignal::Int | NamedSignal::Hup => true,
        _ => false,
    }
}

impl Watch {
    /// The watch over a service that was just started.
    pub fn new(readiness: &ReadinessConfig, now: u64) -> (r: Self)
        ensures
            r.ready_signal == if readiness.kind == ReadinessType::Signal {
                readiness_signal(readiness.ready_signal_name())
            } else {
                None
            },
            r.deadline == {
                let t = now + match readiness.timeout_ms {
                    Some(ms) => ms,
                    None => crate::readiness::DEFAULT_READINESS_TIMEOUT,
                };
                if t <= u64::MAX {
                    t as u64
                } else {
                    u64::MAX
                }
            },
            readiness.timeout_ms is None && now <= u64::MAX - 30000 ==> r.deadline == now + 30000,
            r.ready == (readiness.kind == ReadinessType::NoCheck),
            !r.recorded,
    {
        let ready_signal = match readiness.kind {
            ReadinessType::Signal => readiness_signal_named(readiness.ready_signal()),
            _ => None,
        };
        Watch {
            ready_signal,
            deadline: now.saturating_add(readiness_timeout(readiness)),
            ready: match readiness.kind {
                ReadinessType::NoCheck => true,
                _ => false,
            },
            recorded: false,
        }
    }

    /// Whether the service is ready once the signal has been taken.
    pub open spec fn ready_after(self, signal: Option<NamedSignal>) -> bool {
        self.ready || (signal is Some && signal == self.ready_signal)
    }

    /// What the watch does after it has taken a pending signal, if there was
    /// one.
    pub open spec fn step(self, signal: Option<NamedSignal>, now: u64) -> WatchStep {
        if signal matches Some(s) && is_stop_signal(s) {
            WatchStep::Stop
        } else if self.ready_after(signal) {
            WatchStep::Rest { record: !self.recorded }
        } else if now >= self.deadline {
            WatchStep::TimedOut
        } else {
            WatchStep::Probe
        }
    }

    /// The watch after that step.
    pub open spec fn stepped(self, signal: Option<NamedSignal>) -> Watch {
        if signal matches Some(s) && is_stop_signal(s) {
            self
        } else {
            Watch {
                ready: self.ready_after(signal),
                recorded: self.recorded || self.ready_after(signal),
                ..self
            }
        }
    }

    /// The watch after a probe.
    pub open spec fn after_probe(self, finding: Finding) -> Watch {
        Watch { ready: self.ready || finding is Ready, ..self }
    }

    /// One turn of the watch over a service that is alive: takes a pending
    /// signal, if there is one, and says what to do.
    pub fn signal_taken(&mut self, signal: Option<NamedSignal>, now: u64) -> (r: WatchStep)
        ensures
            r == old(self).step(signal, now),
            *final(self) == old(self).stepped(signal),
    {
        match signal {
            Some(s) => {
                if stops(s) {
                    return WatchStep::Stop;
                }
                match self.ready_signal {
                    Some(t) => {
                        if s == t {
                            self.ready = true;
                        }
                    },
                    None => {},
                }
            },
            None => {},
        }
        if self.ready {
            let record = !self.recorded;
            self.recorded = true;
            WatchStep::Rest { record }
        } else if now >= self.deadline {
            WatchStep::TimedOut
        } else {
            WatchStep::Probe
        }
    }

    /// Takes in what a probe found.
    pub fn probed(&mut self, result: &ProbeResult) -> (r: ProbeVerdict)
        ensures
            r == verdict_on(result@),
            *final(self) == old(self).after_probe(result@),
    {
        match result {
            ProbeResult::Ready => {
                self.ready = true;
                ProbeVerdict::Ready
            },
            ProbeResult::Failed(_) => ProbeVerdict::Failed,
            ProbeResult::Pending => ProbeVerdict::Pending,
        }
    }
}

// ---------------------------------------------------------------------------
// Restarts
// ---------------------------------------------------------------------------

/// What a supervisor records of its service in the `state` file.
#[derive(Debug, Clone, Copy, PartialEq, Eq, Structural)]
pub enum RecordedState {
    Starting,
    Running,
    /// The service is down and will be started again.
    Restarting,
    Stopped,
    /// The service ended and its policy wants no restart.
    Terminated,
    /// The service could not be started, or ended too often.
    Failed,
}

impl RecordedState {
    pub open spec fn text(self) -> Text {
        match self {
            RecordedState::Starting => "starting"@,
            RecordedState::Running => "running"@,
            RecordedState::Restarting => "restarting"@,
            RecordedState::Stopped => "stopped"@,
            RecordedState::Terminated => "terminated"@,
            RecordedState::Failed => "failed"@,
        }
    }

    pub fn as_str(self) -> (r: &'static str)
        ensures
            r@ == self.text(),
    {
        match self {
            RecordedState::Starting => "starting",
            RecordedState::Running => "running",
            RecordedState::Restarting => "restarting",
            RecordedState::Stopped => "stopped",
            RecordedState::Terminated => "terminated",
            RecordedState::Failed => "failed",
        }
    }

    /// Whether the supervisor still has something to do for the service.
    pub open spec fn is_live(self) -> bool {
        self is Starting || self is Running || self is Restarting
    }
}

/// Whether the policy wants a service restarted after such an end.
pub open spec fn wants_restart(policy: RestartPolicy, outcome: ChildOutcome) -> bool {
    match policy {
        RestartPolicy::Never => false,
        RestartPolicy::Always => true,
        RestartPolicy::OnFailure => outcome != ChildOutcome::StoppedCleanly(Some(0i32), None),
        RestartPolicy::OnAbnormal => outcome is ReadinessFailed || (
        outcome matches ChildOutcome::StoppedCleanly(_, Some(_))),
    }
}

fn policy_restarts(policy: RestartPolicy, outcome: ChildOutcome) -> (r: bool)
    ensures
        r == wants_restart(policy, outcome),
{
    match policy {
        RestartPolicy::Never => false,
        RestartPolicy::Always => true,
        RestartPolicy::OnFailure => match outcome {
            ChildOutcome::StoppedCleanly(Some(code), None) => code != 0,
            _ => true,
        },
        RestartPolicy::OnAbnormal => match outcome {
            ChildOutcome::ReadinessFailed => true,
            ChildOutcome::StoppedCleanly(_, Some(_)) => true,
            _ => false,
        },
    }
}

/// The restarts that a supervisor has made.
#[derive(Debug, Clone, Copy, PartialEq, Eq, Structural)]
pub struct RestartState {
    pub count: u32,
    /// The pause before the next restart.
    pub backoff: u64,
    pub last_restart: u64,
}

/// What the supervisor does after its service has ended.
#[derive(Debug, Clone, Copy, PartialEq, Eq, Structural)]
pub enum RestartDecision {
    /// A stop was requested: end with state `stopped`.
    Stopped,
    /// The policy wants no restart: end with state `terminated`.
    Terminated,
    /// Too many restarts: end with state `failed`.
    GaveUp,
    /// Pause, then start the service again: this is restart number `attempt`.
    Restart { attempt: u32, delay: u64 },
}

impl RestartDecision {
    /// The state that is recorded with the decision.
    pub open spec fn record(self) -> RecordedState {
        match self {
            RestartDecision::Stopped => RecordedState::Stopped,
            RestartDecision::Terminated => RecordedState::Terminated,
            RestartDecision::GaveUp => RecordedState::Failed,
            RestartDecision::Restart { .. } => RecordedState::Restarting,
        }
    }

    /// The state to record.
    pub fn recorded_state(self) -> (r: RecordedState)
        ensures
            r == self.record(),
    {
        match self {
            RestartDecision::Stopped => RecordedState::Stopped,
            RestartDecision::Terminated => RecordedState::Terminated,
            RestartDecision::GaveUp => RecordedState::Failed,
            RestartDecision::Restart { .. } => RecordedState::Restarting,
        }
    }
}

impl RestartState {
    pub fn new(config: &RestartConfig, now: u64) -> (r: Self)
        ensures
            r == (RestartState { count: 0, backoff: config.backoff_initial_ms, last_restart: now }),
    {
        RestartState { count: 0, backoff: config.backoff_initial_ms, last_restart: now }
    }

    /// Whether the last restart lies so far back that the next one counts as
    /// the first.
    pub open spec fn cooled_down(self, now: u64) -> bool {
        self.count > 0 && now - self.last_restart >= RESTART_COOLDOWN_MS
    }

    /// What the supervisor does after such an end. The ceiling is looked at
    /// before the cooldown: a service that has used up its restarts is given
    /// up, however long its last run was.
    pub open spec fn decision(
        self,
        config: RestartConfig,
        outcome: ChildOutcome,
        now: u64,
    ) -> RestartDecision {
        if outcome is StopRequested {
            RestartDecision::Stopped
        } else if !wants_restart(config.policy, outcome) {
            RestartDecision::Terminated
        } else if self.count >= config.max_restarts {
            RestartDecision::GaveUp
        } else {
            self.restart(config, now)
        }
    }

    /// The restart after such an end, below the ceiling.
    pub open spec fn restart(self, config: RestartConfig, now: u64) -> RestartDecision {
        if self.cooled_down(now) {
            RestartDecision::Restart { attempt: 1, delay: config.backoff_initial_ms }
        } else {
            RestartDecision::Restart { attempt: (self.count + 1) as u32, delay: self.backoff }
        }
    }

    /// Decides on a restart, and counts it.
    pub fn ended(&mut self, config: &RestartConfig, outcome: ChildOutcome, now: u64) -> (r:
        RestartDecision)
        ensures
            r == old(self).decision(*config, outcome, now),
            (config.policy is OnFailure && old(self).count < config.max_restarts) ==> match outcome {
                ChildOutcome::StopRequested => r is Stopped,
                ChildOutcome::StoppedCleanly(Some(code), None) => r is Restart <==> code != 0,
                _ => r is Restart,
            },
            *final(self) == match r {
                RestartDecision::Restart { attempt, delay } => RestartState {
                    count: attempt,
                    backoff: delay,
                    last_restart: now,
                },
                _ => *old(self),
            },
    {
        match outcome {
            ChildOutcome::StopRequested => {
                return RestartDecision::Stopped;
            },
            _ => {},
        }
        if !policy_restarts(config.policy, outcome) {
            return RestartDecision::Terminated;
        }
        if self.count >= config.max_restarts {
            return RestartDecision::GaveUp;
        }
        let cooled = self.count > 0 && now.saturating_sub(self.last_restart)
            >= RESTART_COOLDOWN_MS;
        if cooled {
            self.count = 1;
            self.backoff = config.backoff_initial_ms;
        } else {
            self.count = self.count + 1;
        }
        self.last_restart = now;
        RestartDecision::Restart { attempt: self.count, delay: self.backoff }
    }

    /// Lengthens the pause before the restart after this one. `scaled` is the
    /// present pause times the configured factor; the configured maximum
    /// bounds it.
    pub fn grow_backoff(&mut self, scaled: u64, config: &RestartConfig)
        ensures
            *final(self) == (RestartState {
                backoff: if scaled > config.backoff_max_ms {
                    config.backoff_max_ms
                } else {
                    scaled
                },
                ..*old(self)
            }),
    {
        self.backoff = if scaled > config.backoff_max_ms {
            config.backoff_max_ms
        } else {
            scaled
        };
    }
}

/// One turn of the pause before a restart.
#[derive(Debug, Clone, Copy, PartialEq, Eq, Structural)]
pub enum PauseStep {
    /// A stop was requested: record `stopped` and end.
    Stop,
    /// The pause is over.
    Over,
    /// Sleep for `POLL_MS`.
    Sleep,
}

/// What comes next in a pause of `length`, of which `slept` is over.
pub open spec fn pause_step(slept: u64, length: u64, signal: Option<NamedSignal>) -> PauseStep {
    if signal matches Some(s) && is_stop_signal(s) {
        PauseStep::Stop
    } else if slept >= length {
        PauseStep::Over
    } else {
        PauseStep::Sleep
    }
}

/// Says what comes next in a pause that a stop signal cuts short.
pub fn sleep_interruptible(slept: u64, length: u64, signal: Option<NamedSignal>) -> (r: PauseStep)
    ensures
        r == pause_step(slept, length, signal),
{
    match signal {
        Some(s) => {
            if stops(s) {
                return PauseStep::Stop;
            }
        },
        None => {},
    }
    if slept >= length {
        PauseStep::Over
    } else {
        PauseStep::Sleep
    }
}

// ---------------------------------------------------------------------------
// Teardown
// ---------------------------------------------------------------------------

/// How far the teardown of a process group has come. Its shutdown signal has
/// been sent.
#[derive(Debug, Clone, Copy, PartialEq, Eq, Structural)]
pub enum Teardown {
    /// It has its grace period.
    Grace,
    /// It has been killed and looked at so many times since.
    Killed(u32),
}

/// What the teardown of a process group does next.
#[derive(Debug, Clone, Copy, PartialEq, Eq, Structural)]
pub enum TeardownStep {
    Done,
    /// Send the kill signal.
    Kill,
    /// Sleep for `POLL_MS`, then look again.
    Sleep,
}

impl TeardownStep {
    /// The signal that the step sends to the process group of a service.
    pub open spec fn sends(self, shutdown: ShutdownConfig) -> Option<NamedSignal> {
        match self {
            TeardownStep::Kill => Some(configured_signal(shutdown.kill_signal@)),
            TeardownStep::Done | TeardownStep::Sleep => None,
        }
    }

    pub fn signal(self, shutdown: &ShutdownConfig) -> (r: Option<NamedSignal>)
        ensures
            r == self.sends(*shutdown),
    {
        match self {
            TeardownStep::Kill => Some(signal_from_name(shutdown.kill_signal.as_str())),
            TeardownStep::Done | TeardownStep::Sleep => None,
        }
    }
}

impl Teardown {
    /// Begins a teardown: with it goes the signal that asks the process group
    /// to end.
    pub fn begin(shutdown: &ShutdownConfig) -> (r: (Teardown, NamedSignal))
        ensures
            r.0 == Teardown::Grace,
            r.1 == configured_signal(shutdown.signal@),
    {
        (Teardown::Grace, signal_from_name(shutdown.signal.as_str()))
    }

    /// What comes next, `elapsed` after the shutdown signal.
    pub open spec fn step(self, alive: bool, elapsed: u64, grace: u64) -> TeardownStep {
        match self {
            Teardown::Grace => if !alive {
                TeardownStep::Done
            } else if elapsed >= grace {
                TeardownStep::Kill
            } else {
                TeardownStep::Sleep
            },
            Teardown::Killed(checks) => if checks >= KILL_CHECKS || !alive {
                TeardownStep::Done
            } else {
                TeardownStep::Sleep
            },
        }
    }

    /// How far the teardown has come after that step.
    pub open spec fn after(self, step: TeardownStep) -> Teardown {
        match (self, step) {
            (_, TeardownStep::Kill) => Teardown::Killed(0),
            (Teardown::Killed(checks), TeardownStep::Sleep) => Teardown::Killed(
                (checks + 1) as u32,
            ),
            _ => self,
        }
    }

    /// One turn of a teardown: ends once the group is gone, kills it after
    /// the grace period, and leaves it alone when even that does not help.
    pub fn turn(&mut self, alive: bool, elapsed: u64, grace: u64) -> (r: TeardownStep)
        ensures
            r == old(self).step(alive, elapsed, grace),
            *final(self) == old(self).after(r),
    {
        match *self {
            Teardown::Grace => {
                if !alive {
                    TeardownStep::Done
                } else if elapsed >= grace {
                    *self = Teardown::Killed(0);
                    TeardownStep::Kill
                } else {
                    TeardownStep::Sleep
                }
            },
            Teardown::Killed(checks) => {
                if checks >= KILL_CHECKS || !alive {
                    TeardownStep::Done
                } else {
                    *self = Teardown::Killed(checks + 1);
                    TeardownStep::Sleep
                }
            },
        }
    }
}

/// What the end of the log writer asks for, `elapsed` after the end of its
/// service. After the kill, it is only waited for.
pub fn reap_logger(alive: bool, elapsed: u64) -> (r: TeardownStep)
    ensures
        r == if !alive {
            TeardownStep::Done
        } else if elapsed >= LOGGER_GRACE_MS {
            TeardownStep::Kill
        } else {
            TeardownStep::Sleep
        },
        r is Kill <==> alive && elapsed >= 2000,
        r is Done <==> !alive,
{
    if !alive {
        TeardownStep::Done
    } else if elapsed >= LOGGER_GRACE_MS {
        TeardownStep::Kill
    } else {
        TeardownStep::Sleep
    }
}

// ---------------------------------------------------------------------------
// Laws
// ---------------------------------------------------------------------------

/// One event in the life of a watch.
pub enum WatchEvent {
    /// A turn of the loop: a signal, if one was pending, at some time.
    Turn(Option<NamedSignal>, u64),
    /// A probe result.
    Probed(Finding),
}

/// The watch after a series of events.
pub open spec fn watched(w: Watch, events: Seq<WatchEvent>) -> Watch
    decreases events.len(),
{
    if events.len() == 0 {
        w
    } else {
        let before = watched(w, events.drop_last());
        match events.last() {
            WatchEvent::Turn(signal, now) => before.stepped(signal),
            WatchEvent::Probed(finding) => before.after_probe(finding),
        }
    }
}

/// How often the service is recorded as running in a series of events.
pub open spec fn records(w: Watch, events: Seq<WatchEvent>) -> nat
    decreases events.len(),
{
    if events.len() == 0 {
        0
    } else {
        records(w, events.drop_last()) + match events.last() {
            WatchEvent::Turn(signal, now) => if watched(w, events.drop_last()).step(signal, now)
                == (WatchStep::Rest { record: true }) {
                1nat
            } else {
                0nat
            },
            WatchEvent::Probed(_) => 0nat,
        }
    }
}

/// The service is recorded as running at most once, and exactly once as soon
/// as the watch takes it for recorded.
pub proof fn running_is_recorded_once(w: Watch, events: Seq<WatchEvent>)
    requires
        !w.recorded,
    ensures
        records(w, events) == if watched(w, events).recorded {
            1nat
        } else {
            0nat
        },
    decreases events.len(),
{
    if events.len() > 0 {
        running_is_recorded_once(w, events.drop_last());
    }
}

/// The first turn after the service has become ready records it, unless that
/// turn takes a stop request.
pub proof fn a_ready_service_is_recorded(w: Watch, signal: Option<NamedSignal>, now: u64)
    requires
        w.ready_after(signal),
        !w.recorded,
        !(signal matches Some(s) && is_stop_signal(s)),
    ensures
        w.step(signal, now) == (WatchStep::Rest { record: true }),
        w.stepped(signal).recorded,
{
}

/// Only its signal or a successful probe makes a service ready, and a service
/// is recorded as running only once it is ready.
pub proof fn nothing_is_recorded_before_it_is_ready(w: Watch, events: Seq<WatchEvent>)
    requires
        !w.ready,
        !w.recorded,
        forall|i: int|
            0 <= i < events.len() ==> match #[trigger] events[i] {
                WatchEvent::Turn(signal, now) => signal is None || signal != w.ready_signal,
                WatchEvent::Probed(finding) => !(finding is Ready),
            },
    ensures
        !watched(w, events).ready,
        records(w, events) == 0,
    decreases events.len(),
{
    lemma_watch_keeps(w, events);
    running_is_recorded_once(w, events);
    if events.len() > 0 {
        let init = events.drop_last();
        assert forall|i: int| 0 <= i < init.len() implies match #[trigger] init[i] {
            WatchEvent::Turn(signal, now) => signal is None || signal != w.ready_signal,
            WatchEvent::Probed(finding) => !(finding is Ready),
        } by {
            assert(init[i] == events[i]);
        }
        nothing_is_recorded_before_it_is_ready(w, init);
        lemma_watch_keeps(w, init);
        running_is_recorded_once(w, init);
        assert(events.last() == events[events.len() - 1]);
    }
}

proof fn lemma_watch_keeps(w: Watch, events: Seq<WatchEvent>)
    ensures
        watched(w, events).ready_signal == w.ready_signal,
        watched(w, events).deadline == w.deadline,
    decreases events.len(),
{
    if events.len() > 0 {
        lemma_watch_keeps(w, events.drop_last());
    }
}

/// A readiness failure restarts the service under every policy but `never`.
pub proof fn readiness_failure_is_abnormal(policy: RestartPolicy)
    requires
        !(policy is Never),
    ensures
        wants_restart(policy, ChildOutcome::ReadinessFailed),
{
}

/// A service that does not become ready in time, or whose check fails, counts
/// as failed and is restarted by its policy: not at all under `never`, and
/// otherwise as long as its budget lasts.
pub proof fn unready_services_are_restarted(
    w: Watch,
    signal: Option<NamedSignal>,
    finding: Finding,
    state: RestartState,
    config: RestartConfig,
    now: u64,
    then: u64,
)
    requires
        !w.ready_after(signal),
        !(signal matches Some(s) && is_stop_signal(s)),
        now >= w.deadline || (finding is Failed),
    ensures
        ({
            let end = if now >= w.deadline {
                w.step(signal, now).end()
            } else {
                verdict_on(finding).end()
            };
            &&& now < w.deadline ==> w.step(signal, now) is Probe
            &&& end == Some(ChildOutcome::ReadinessFailed)
            &&& state.decision(config, end->0, then) == if config.policy is Never {
                RestartDecision::Terminated
            } else if state.count >= config.max_restarts {
                RestartDecision::GaveUp
            } else {
                state.restart(config, then)
            }
        }),
{
}

/// The restarts without a long run between them never exceed the ceiling.
pub proof fn restarts_stay_below_the_ceiling(
    state: RestartState,
    config: RestartConfig,
    outcome: ChildOutcome,
    now: u64,
)
    ensures
        state.decision(config, outcome, now) matches RestartDecision::Restart { attempt, delay }
            ==> 1 <= attempt <= config.max_restarts && (attempt == state.count + 1
            || state.cooled_down(now)),
{
}

/// Below its ceiling, a service that ran long since its last restart starts
/// over: with its first restart and the first pause.
pub proof fn a_long_run_starts_over(
    state: RestartState,
    config: RestartConfig,
    outcome: ChildOutcome,
    now: u64,
)
    requires
        !(outcome is StopRequested),
        wants_restart(config.policy, outcome),
        0 < state.count < config.max_restarts,
        now - state.last_restart >= RESTART_COOLDOWN_MS,
    ensures
        state.decision(config, outcome, now) == (RestartDecision::Restart {
            attempt: 1,
            delay: config.backoff_initial_ms,
        }),
{
}

/// The pause before a restart is the configured first pause or no longer than
/// the configured maximum.
pub proof fn pauses_are_bounded(
    state: RestartState,
    config: RestartConfig,
    outcome: ChildOutcome,
    now: u64,
)
    requires
        state.backoff == config.backoff_initial_ms || state.backoff <= config.backoff_max_ms,
    ensures
        state.decision(config, outcome, now) matches RestartDecision::Restart { attempt, delay }
            ==> delay == config.backoff_initial_ms || delay <= config.backoff_max_ms,
{
}

/// How long a pause that no signal cuts short has lasted when it is over, if
/// `slept` of it is behind it.
pub open spec fn pause_length(slept: u64, length: u64) -> u64
    decreases
            if slept < length {
                length - slept
            } else {
                0
            },
{
    if pause_step(slept, length, None) is Over || slept + POLL_MS > u64::MAX {
        slept
    } else {
        pause_length((slept + POLL_MS) as u64, length)
    }
}

/// A pause that no signal cuts short lasts at least as long as it should, and
/// less than one polling interval longer.
pub proof fn pauses_last(slept: u64, length: u64)
    requires
        slept <= length,
        length + POLL_MS <= u64::MAX,
    ensures
        length <= pause_length(slept, length) < length + POLL_MS,
    decreases length - slept,
{
    if slept < length {
        let next = (slept + POLL_MS) as u64;
        if next <= length {
            pauses_last(next, length);
        } else {
            assert(pause_length(next, length) == next);
        }
    }
}

/// What a teardown has done after a series of looks at its process group:
/// each says whether a member was alive and how much time had passed.
pub open spec fn torn_down(t: Teardown, looks: Seq<(bool, u64)>, grace: u64) -> Teardown
    decreases looks.len(),
{
    if looks.len() == 0 {
        t
    } else {
        let before = torn_down(t, looks.drop_last(), grace);
        before.after(before.step(looks.last().0, looks.last().1, grace))
    }
}

/// The group is killed only after the grace period, and never where it was
/// gone before.
pub proof fn no_kill_within_grace(looks: Seq<(bool, u64)>, grace: u64)
    requires
        forall|i: int| 0 <= i < looks.len() ==> !(#[trigger] looks[i]).0 || looks[i].1 < grace,
    ensures
        torn_down(Teardown::Grace, looks, grace) == Teardown::Grace,
    decreases looks.len(),
{
    if looks.len() > 0 {
        let init = looks.drop_last();
        assert forall|i: int| 0 <= i < init.len() implies !(#[trigger] init[i]).0 || init[i].1
            < grace by {
            assert(init[i] == looks[i]);
        }
        no_kill_within_grace(init, grace);
        assert(looks.last() == looks[looks.len() - 1]);
    }
}

/// After the kill the teardown ends within `KILL_CHECKS` further looks,
/// whatever they show.
pub proof fn teardown_ends_after_kill(looks: Seq<(bool, u64)>, grace: u64)
    requires
        looks.len() >= KILL_CHECKS,
    ensures
        exists|i: int|
            0 <= i <= KILL_CHECKS && (torn_down(
                Teardown::Killed(0),
                #[trigger] looks.take(i),
                grace,
            ).step(
                if i < looks.len() {
                    looks[i].0
                } else {
                    true
                },
                0,
                grace,
            ) is Done),
{
    let k = KILL_CHECKS as int;
    if forall|i: int| 0 <= i < k ==> (#[trigger] looks[i]).0 {
        lemma_killed_count(looks, grace, k);
        assert(torn_down(Teardown::Killed(0), looks.take(k), grace) == Teardown::Killed(
            KILL_CHECKS,
        ));
    } else {
        let i = lemma_first_gone(looks, k);
        lemma_killed_count(looks, grace, i);
        assert(torn_down(Teardown::Killed(0), looks.take(i), grace) == Teardown::Killed(i as u32));
    }
}

proof fn lemma_first_gone(looks: Seq<(bool, u64)>, k: int) -> (r: int)
    requires
        0 <= k <= looks.len(),
        exists|i: int| 0 <= i < k && !(#[trigger] looks[i]).0,
    ensures
        0 <= r < k,
        !looks[r].0,
        forall|i: int| 0 <= i < r ==> (#[trigger] looks[i]).0,
    decreases k,
{
    if forall|i: int| 0 <= i < k - 1 ==> (#[trigger] looks[i]).0 {
        k - 1
    } else {
        lemma_first_gone(looks, k - 1)
    }
}

proof fn lemma_killed_count(looks: Seq<(bool, u64)>, grace: u64, n: int)
    requires
        0 <= n <= KILL_CHECKS,
        n <= looks.len(),
        forall|i: int| 0 <= i < n ==> (#[trigger] looks[i]).0,
    ensures
        torn_down(Teardown::Killed(0), looks.take(n), grace) == Teardown::Killed(n as u32),
    decreases n,
{
    if n > 0 {
        lemma_killed_count(looks, grace, n - 1);
        assert(looks.take(n).drop_last() =~= looks.take(n - 1));
        assert(looks.take(n).last() == looks[n - 1]);
    }
}

/// What the policies make of an end, below the ceiling: `always` restarts after
/// every one, `never` after none; `on-failure` after all but an exit with code 0,
/// thus after every other code, every signal and an end that nobody saw;
/// `on-abnormal` after a signal or a readiness failure, but after no exit code.
pub proof fn policies_decide_on_restarts(
    state: RestartState,
    config: RestartConfig,
    code: i32,
    codes: Option<i32>,
    sig: Signal,
    now: u64,
)
    requires
        state.count < config.max_restarts,
    ensures
        ({
            let exit = state.decision(config, ChildOutcome::StoppedCleanly(Some(code), None), now);
            let signal = state.decision(config, ChildOutcome::StoppedCleanly(codes, Some(sig)), now);
            let unseen = state.decision(config, ChildOutcome::StoppedCleanly(None, None), now);
            let unready = state.decision(config, ChildOutcome::ReadinessFailed, now);
            match config.policy {
                RestartPolicy::Always => exit is Restart && signal is Restart && unseen is Restart
                    && unready is Restart,
                RestartPolicy::OnFailure => {
                    &&& exit is Restart <==> code != 0
                    &&& exit is Terminated <==> code == 0
                    &&& signal is Restart
                    &&& unseen is Restart
                    &&& unready is Restart
                },
                RestartPolicy::OnAbnormal => {
                    &&& exit is Terminated
                    &&& signal is Restart
                    &&& unseen is Terminated
                    &&& unready is Restart
                },
                RestartPolicy::Never => exit is Terminated && signal is Terminated
                    && unseen is Terminated && unready is Terminated,
            }
        }),
{
}

/// A stop that was requested ends the service for good, whatever its policy and
/// however many restarts it has left; and only that is recorded as a stop.
pub proof fn requested_stops_are_final(
    state: RestartState,
    config: RestartConfig,
    outcome: ChildOutcome,
    now: u64,
)
    ensures
        outcome is StopRequested <==> state.decision(config, outcome, now) is Stopped,
        state.decision(config, outcome, now).record() is Stopped <==> outcome is StopRequested,
{
}

/// A service that its policy would restart is given up exactly where it has
/// used up its restarts; no other is.
pub proof fn the_ceiling_ends_restarts(
    state: RestartState,
    config: RestartConfig,
    other: RestartConfig,
    outcome: ChildOutcome,
    now: u64,
)
    requires
        state.count >= config.max_restarts,
        other == (RestartConfig { max_restarts: other.max_restarts, ..config }),
        other.max_restarts > state.count,
    ensures
        state.decision(config, outcome, now) is GaveUp <==> state.decision(
            other,
            outcome,
            now,
        ) is Restart,
        !(state.decision(other, outcome, now) is GaveUp),
        !(state.decision(config, outcome, now) is Restart),
{
}

/// Restarts are counted one by one, each with the pause that is due, as long as
/// less than ten minutes lie between them; the first one never waits for that.
pub proof fn restarts_are_counted(
    state: RestartState,
    config: RestartConfig,
    outcome: ChildOutcome,
    now: u64,
)
    ensures
        state.decision(config, outcome, now) matches RestartDecision::Restart { attempt, delay }
            ==> if state.count > 0 && now - state.last_restart >= 10 * 60 * 1000 {
            attempt == 1 && delay == config.backoff_initial_ms
        } else {
            attempt == state.count + 1 && delay == state.backoff
        },
{
}

/// Exit codes and signals are reported as they are, and a service that is alive
/// has not ended.
pub proof fn ends_are_reported_as_they_are(code: i32, sig: Signal)
    ensures
        end_of_run(WaitEvent::Exited(code)) == Some(
            ChildOutcome::StoppedCleanly(Some(code), None::<Signal>),
        ),
        end_of_run(WaitEvent::Signaled(sig)) == Some(
            ChildOutcome::StoppedCleanly(None::<i32>, Some(sig)),
        ),
        end_of_run(WaitEvent::Lost) == Some(
            ChildOutcome::StoppedCleanly(None::<i32>, None::<Signal>),
        ),
        end_of_run(WaitEvent::Alive) is None,
{
}

/// `TERM`, `INT` and `HUP` end the watch and cut a pause short at any time, and
/// no other signal does.
pub proof fn stop_signals_are_heeded_at_once(
    w: Watch,
    signal: NamedSignal,
    now: u64,
    slept: u64,
    length: u64,
)
    ensures
        ({
            let stops = signal == NamedSignal::Term || signal == NamedSignal::Int || signal
                == NamedSignal::Hup;
            &&& w.step(Some(signal), now) is Stop <==> stops
            &&& w.step(Some(signal), now).end() == Some(ChildOutcome::StopRequested) <==> stops
            &&& pause_step(slept, length, Some(signal)) is Stop <==> stops
            &&& stops ==> w.stepped(Some(signal)) == w
        }),
        !(w.step(None, now) is Stop),
        !(pause_step(slept, length, None) is Stop),
{
}

/// A watch over a service that is not ready probes until the deadline and gives
/// the service up from then on; over one that is ready it rests, whatever the
/// time.
pub proof fn deadlines_bind_unready_services_alone(w: Watch, now: u64)
    ensures
        !w.ready ==> (w.step(None, now) is Probe <==> now < w.deadline),
        !w.ready ==> (w.step(None, now) is TimedOut <==> now >= w.deadline),
        w.ready ==> w.step(None, now) is Rest,
        w.step(None, now) is TimedOut <==> w.step(None, now).end() == Some(
            ChildOutcome::ReadinessFailed,
        ),
{
}

/// A service is ready by its own signal or a probe that says so and by nothing
/// else; once ready, it stays so, and its deadline never moves.
pub proof fn readiness_is_not_lost(w: Watch, signal: Option<NamedSignal>, finding: Finding)
    ensures
        w.after_probe(finding).ready <==> w.ready || finding is Ready,
        w.after_probe(finding).recorded == w.recorded,
        w.stepped(signal).ready ==> w.ready || (signal is Some && signal == w.ready_signal),
        w.ready ==> w.stepped(signal).ready,
        (signal is Some && signal == w.ready_signal && !(signal == Some(NamedSignal::Term) || signal
            == Some(NamedSignal::Int) || signal == Some(NamedSignal::Hup)))
            ==> w.stepped(signal).ready,
        w.recorded ==> w.stepped(signal).recorded,
        w.stepped(signal).deadline == w.deadline,
        w.stepped(signal).ready_signal == w.ready_signal,
        w.after_probe(finding).deadline == w.deadline,
        w.after_probe(finding).ready_signal == w.ready_signal,
        verdict_on(finding) is Ready <==> finding is Ready,
        verdict_on(finding) is Failed <==> finding is Failed,
{
}

/// A process group that is gone is left alone; one that is alive is killed as
/// soon as its grace is over, and not before. A killed group is looked at for
/// two seconds at most.
pub proof fn groups_are_killed_after_their_grace(elapsed: u64, grace: u64, checks: u32)
    ensures
        Teardown::Grace.step(false, elapsed, grace) is Done,
        Teardown::Grace.step(true, elapsed, grace) is Kill <==> elapsed >= grace,
        Teardown::Grace.step(true, elapsed, grace) is Sleep <==> elapsed < grace,
        Teardown::Killed(checks).step(false, elapsed, grace) is Done,
        Teardown::Killed(checks).step(true, elapsed, grace) is Done <==> checks * 50 >= 2000,
        !(Teardown::Killed(checks).step(true, elapsed, grace) is Kill),
        Teardown::Grace.after(TeardownStep::Kill) == Teardown::Killed(0),
        Teardown::Grace.after(TeardownStep::Sleep) == Teardown::Grace,
        checks < u32::MAX ==> Teardown::Killed(checks).after(TeardownStep::Sleep)
            == Teardown::Killed((checks + 1) as u32),
        POLL_MS == 50,
{
}

/// Only the kill sends a signal, and it is the configured one.
pub proof fn only_the_kill_is_sent(shutdown: ShutdownConfig, step: TeardownStep)
    ensures
        step.sends(shutdown) is Some <==> step is Kill,
        step is Kill ==> step.sends(shutdown) == Some(configured_signal(shutdown.kill_signal@)),
{
}

/// Every decision leaves its own state behind: only a restart one that is still
/// live.
pub proof fn decisions_are_recorded_apart(d: RestartDecision)
    ensures
        d.record() is Stopped <==> d is Stopped,
        d.record() is Terminated <==> d is Terminated,
        d.record() is Failed <==> d is GaveUp,
        d.record() is Restarting <==> d is Restart,
        d.record().is_live() <==> d is Restart,
{
}

} // verus!
