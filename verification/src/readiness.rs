//! Readiness checks: how a supervisor finds out that its service is ready.
//!
//! A probe decides what to look at next and what the answer means; whoever
//! drives it reads the file, connects or runs the command.

use crate::config::{ReadinessConfig, ReadinessType, ServiceConfig};
use crate::sockspec::{default_type, endpoint_of, parse_listen_spec, Endpoint, ListenSpec};
use crate::text::{
    decimal, decimal_reads_back, decimals_begin_with_no_zero, digits_value, in_range, is_digit,
    lemma_decimal_digits, lemma_trimmed_line, numbers_are_digits_after_a_sign, parse_i32,
    signed_decimal, signed_value, texts, trim, trimmed, unsigned_value, Text,
};
use vstd::prelude::*;

verus! {

/// Default readiness timeout, in milliseconds, where `timeout_ms` is unset.
pub const DEFAULT_READINESS_TIMEOUT: u64 = 30000;

/// How long a connect probe may take, in milliseconds.
pub const CONNECT_TIMEOUT_MS: u64 = 700;

/// The pause before a check command is run again, in milliseconds.
pub const EXEC_RETRY_MS: u64 = 500;

/// The longest time, in milliseconds, that one run of a check command may
/// take.
pub const EXEC_CAP_MS: u64 = 5000;

/// The time, in milliseconds, that a service has to become ready.
pub fn readiness_timeout(readiness: &ReadinessConfig) -> (r: u64)
    ensures
        r == match readiness.timeout_ms {
            Some(ms) => ms,
            None => DEFAULT_READINESS_TIMEOUT,
        },
        readiness.timeout_ms is None ==> r == 30000,
{
    match readiness.timeout_ms {
        Some(ms) => ms,
        None => DEFAULT_READINESS_TIMEOUT,
    }
}

/// The first listen endpoint of a service, if it has one that makes sense.
pub open spec fn first_endpoint(config: ServiceConfig) -> Option<Endpoint> {
    match config.socket {
        Some(sock) => if sock.listen@.len() > 0 {
            match endpoint_of(sock.listen@[0]@, sock.socket_type@) {
                Ok(e) => Some(e),
                Err(_) => None,
            }
        } else {
            None
        },
        None => None,
    }
}

/// What an optional endpoint denotes.
pub open spec fn endpoint_view(spec: Option<ListenSpec>) -> Option<Endpoint> {
    match spec {
        Some(s) => Some(s@),
        None => None,
    }
}

/// The parsed first `[socket]` listen endpoint, used as the connect target
/// for `readiness.type = "socket"` when no explicit `check` spec is given.
pub fn socket_readiness_target(config: &ServiceConfig) -> (r: Option<ListenSpec>)
    ensures
        endpoint_view(r) == first_endpoint(*config),
{
    match &config.socket {
        Some(sock) => if sock.listen.len() > 0 {
            match parse_listen_spec(sock.listen[0].as_str(), sock.proto()) {
                Ok(s) => Some(s),
                Err(_) => None,
            }
        } else {
            None
        },
        None => None,
    }
}

/// What a probe found.
#[derive(Debug, Clone, PartialEq, Eq)]
pub enum ProbeResult {
    Ready,
    Pending,
    Failed(String),
}

/// What a probe result says.
pub enum Finding {
    Ready,
    Pending,
    Failed(Text),
}

impl View for ProbeResult {
    type V = Finding;

    open spec fn view(&self) -> Finding {
        match self {
            ProbeResult::Ready => Finding::Ready,
            ProbeResult::Pending => Finding::Pending,
            ProbeResult::Failed(m) => Finding::Failed(m@),
        }
    }
}

/// What a probe asks for next.
#[derive(Debug, Clone, PartialEq, Eq)]
pub enum ProbeStep {
    /// Nothing: this is the result.
    Done(ProbeResult),
    /// Read the file, then call `pidfile_read`.
    ReadPidfile(String),
    /// Try to connect, then call `answered`.
    Connect(ListenSpec),
    /// Start the command, then call `spawned`.
    Spawn(Vec<String>),
    /// Look after the command that was started, then call `child_polled`.
    Poll,
}

/// What a probe step says.
pub enum Inquiry {
    Done(Finding),
    ReadPidfile(Text),
    Connect(Endpoint),
    Spawn(Seq<Text>),
    Poll,
}

impl View for ProbeStep {
    type V = Inquiry;

    open spec fn view(&self) -> Inquiry {
        match self {
            ProbeStep::Done(r) => Inquiry::Done(r@),
            ProbeStep::ReadPidfile(p) => Inquiry::ReadPidfile(p@),
            ProbeStep::Connect(s) => Inquiry::Connect(s@),
            ProbeStep::Spawn(c) => Inquiry::Spawn(texts(c@)),
            ProbeStep::Poll => Inquiry::Poll,
        }
    }
}

/// Drives a configured readiness check. Times are milliseconds on one clock
/// that never runs backwards.
#[derive(Debug, Clone)]
pub struct ReadinessProbe {
    pub kind: ReadinessType,
    pub spec: Option<ListenSpec>,
    pub pidfile: Option<String>,
    pub exec_cmd: Option<Vec<String>>,
    /// Since when a check command is running.
    pub exec_start: Option<u64>,
    pub next_exec_at: Option<u64>,
    pub invalid: Option<String>,
}

/// What is wrong with the configuration of a check, if anything is.
pub open spec fn check_problem(readiness: ReadinessConfig, target: Option<Endpoint>) -> Option<Text> {
    match (readiness.kind, readiness.check) {
        (ReadinessType::Pid, None) => Some("readiness type 'pid' requires check=<pidfile path>"@),
        (ReadinessType::Socket, Some(spec)) => match endpoint_of(spec@, "tcp"@) {
            Ok(_) => None,
            Err(m) => Some("invalid readiness socket spec '"@ + spec@ + "': "@ + m),
        },
        (ReadinessType::Socket, None) => if target is None {
            Some(
                "readiness type 'socket' requires check=<connect spec> or a [socket] listen entry"@,
            )
        } else {
            None
        },
        (ReadinessType::Exec, None) => Some("readiness type 'exec' requires check=<command>"@),
        _ => None,
    }
}

/// Where a socket check connects: to its own spec, else to the first listen
/// endpoint.
pub open spec fn check_endpoint(readiness: ReadinessConfig, target: Option<Endpoint>) -> Option<
    Endpoint,
> {
    match (readiness.kind, readiness.check) {
        (ReadinessType::Socket, Some(spec)) => match endpoint_of(spec@, "tcp"@) {
            Ok(e) => Some(e),
            Err(_) => target,
        },
        _ => target,
    }
}

/// What an optional text holds.
pub open spec fn text_view(s: Option<String>) -> Option<Text> {
    match s {
        Some(s) => Some(s@),
        None => None,
    }
}

/// What an optional command holds.
pub open spec fn command_view(c: Option<Vec<String>>) -> Option<Seq<Text>> {
    match c {
        Some(c) => Some(texts(c@)),
        None => None,
    }
}

impl ReadinessProbe {
    /// `socket_target` is the parsed first `[socket]` listen endpoint, used
    /// when `readiness.type = "socket"` and no explicit `check` connect spec
    /// is given. `now` is the present time.
    pub fn new(
        readiness: &ReadinessConfig,
        socket_target: Option<ListenSpec>,
        now: u64,
    ) -> (r: Self)
        ensures
            r.kind == readiness.kind,
            text_view(r.invalid) == check_problem(*readiness, endpoint_view(socket_target)),
            endpoint_view(r.spec) == check_endpoint(*readiness, endpoint_view(socket_target)),
            text_view(r.pidfile) == if readiness.kind == ReadinessType::Pid {
                text_view(readiness.check)
            } else {
                None
            },
            command_view(r.exec_cmd) == if readiness.kind == ReadinessType::Exec {
                match readiness.check {
                    Some(c) => Some(seq!["/bin/sh"@, "-c"@, c@]),
                    None => None,
                }
            } else {
                None
            },
            r.exec_start is None,
            r.next_exec_at == if readiness.kind == ReadinessType::Exec && readiness.check is Some {
                Some(now)
            } else {
                None
            },
    {
        let mut probe = ReadinessProbe {
            kind: readiness.kind,
            spec: socket_target,
            pidfile: None,
            exec_cmd: None,
            exec_start: None,
            next_exec_at: None,
            invalid: None,
        };
        match readiness.kind {
            ReadinessType::NoCheck | ReadinessType::Signal => {},
            ReadinessType::Pid => match &readiness.check {
                Some(path) => {
                    probe.pidfile = Some(path.clone());
                },
                None => {
                    probe.invalid = Some(
                        "readiness type 'pid' requires check=<pidfile path>".to_string(),
                    );
                },
            },
            ReadinessType::Socket => match &readiness.check {
                Some(spec) => match parse_listen_spec(spec.as_str(), default_type()) {
                    Ok(s) => {
                        probe.spec = Some(s);
                    },
                    Err(m) => {
                        probe.invalid = Some(
                            "invalid readiness socket spec '".to_string().concat(
                                spec.as_str(),
                            ).concat("': ").concat(m.as_str()),
                        );
                    },
                },
                None => {
                    if probe.spec.is_none() {
                        probe.invalid = Some(
                            "readiness type 'socket' requires check=<connect spec> or a [socket] listen entry".to_string(),
                        );
                    }
                },
            },
            ReadinessType::Exec => match &readiness.check {
                Some(cmd) => {
                    let mut command: Vec<String> = Vec::new();
                    command.push("/bin/sh".to_string());
                    command.push("-c".to_string());
                    command.push(cmd.clone());
                    assert(texts(command@) =~= seq!["/bin/sh"@, "-c"@, cmd@]);
                    probe.exec_cmd = Some(command);
                    probe.next_exec_at = Some(now);
                },
                None => {
                    probe.invalid = Some(
                        "readiness type 'exec' requires check=<command>".to_string(),
                    );
                },
            },
        }
        probe
    }

    /// What the probe looks at next, at time `now`.
    pub open spec fn inquiry(self, now: u64) -> Inquiry {
        match self.invalid {
            Some(m) => Inquiry::Done(Finding::Failed(m@)),
            None => match self.kind {
                ReadinessType::NoCheck => Inquiry::Done(Finding::Ready),
                ReadinessType::Signal => Inquiry::Done(Finding::Pending),
                ReadinessType::Pid => match self.pidfile {
                    Some(p) => Inquiry::ReadPidfile(p@),
                    None => Inquiry::Done(
                        Finding::Failed("pid check configured without a path"@),
                    ),
                },
                ReadinessType::Socket => match self.spec {
                    Some(s) => Inquiry::Connect(s@),
                    None => Inquiry::Done(
                        Finding::Failed("socket check configured without a spec"@),
                    ),
                },
                ReadinessType::Exec => if self.exec_start is Some {
                    Inquiry::Poll
                } else if self.next_exec_at matches Some(t) && now < t {
                    Inquiry::Done(Finding::Pending)
                } else {
                    match self.exec_cmd {
                        Some(c) => Inquiry::Spawn(texts(c@)),
                        None => Inquiry::Done(
                            Finding::Failed("exec check configured without a command"@),
                        ),
                    }
                },
            },
        }
    }

    /// One turn of the check. `signal` readiness is met only when the service
    /// raises the signal, never by the probe itself.
    pub fn tick(&self, now: u64) -> (r: ProbeStep)
        ensures
            r@ == self.inquiry(now),
    {
        match &self.invalid {
            Some(m) => {
                return ProbeStep::Done(ProbeResult::Failed(m.clone()));
            },
            None => {},
        }
        match self.kind {
            ReadinessType::NoCheck => ProbeStep::Done(ProbeResult::Ready),
            ReadinessType::Signal => ProbeStep::Done(ProbeResult::Pending),
            ReadinessType::Pid => match &self.pidfile {
                Some(p) => ProbeStep::ReadPidfile(p.clone()),
                None => ProbeStep::Done(
                    ProbeResult::Failed("pid check configured without a path".to_string()),
                ),
            },
            ReadinessType::Socket => match &self.spec {
                Some(s) => ProbeStep::Connect(copy_spec(s)),
                None => ProbeStep::Done(
                    ProbeResult::Failed("socket check configured without a spec".to_string()),
                ),
            },
            ReadinessType::Exec => self.tick_exec(now),
        }
    }

    fn tick_exec(&self, now: u64) -> (r: ProbeStep)
        requires
            self.invalid is None,
            self.kind == ReadinessType::Exec,
        ensures
            r@ == self.inquiry(now),
    {
        if self.exec_start.is_some() {
            return ProbeStep::Poll;
        }
        match self.next_exec_at {
            Some(t) => {
                if now < t {
                    return ProbeStep::Done(ProbeResult::Pending);
                }
            },
            None => {},
        }
        match &self.exec_cmd {
            Some(c) => ProbeStep::Spawn(c.clone()),
            None => ProbeStep::Done(
                ProbeResult::Failed("exec check configured without a command".to_string()),
            ),
        }
    }

    /// What the start of the check command led to. A command that could not
    /// be started is tried again later.
    pub fn spawned(&mut self, started: bool, now: u64) -> (r: ProbeStep)
        ensures
            started ==> r@ == Inquiry::Poll && *final(self) == (ReadinessProbe {
                exec_start: Some(now),
                ..*old(self)
            }),
            !started ==> r@ == Inquiry::Done(Finding::Pending) && *final(self) == (ReadinessProbe {
                next_exec_at: Some(retry_time(now)),
                ..*old(self)
            }),
    {
        if started {
            self.exec_start = Some(now);
            ProbeStep::Poll
        } else {
            self.next_exec_at = Some(now.saturating_add(EXEC_RETRY_MS));
            ProbeStep::Done(ProbeResult::Pending)
        }
    }

    /// What a look at the running check command means.
    pub fn child_polled(&mut self, status: ChildStatus, now: u64) -> (r: PollVerdict)
        ensures
            poll_effect(*old(self), status, now, r, *final(self)),
    {
        match status {
            ChildStatus::Exited { success } => {
                self.exec_start = None;
                if success {
                    PollVerdict { kill: false, result: ProbeResult::Ready }
                } else {
                    self.next_exec_at = Some(now.saturating_add(EXEC_RETRY_MS));
                    PollVerdict { kill: false, result: ProbeResult::Pending }
                }
            },
            ChildStatus::Running => {
                match self.exec_start {
                    Some(start) => {
                        if now.saturating_sub(start) >= EXEC_CAP_MS {
                            self.exec_start = None;
                            self.next_exec_at = Some(now.saturating_add(EXEC_RETRY_MS));
                            return PollVerdict { kill: true, result: ProbeResult::Pending };
                        }
                    },
                    None => {},
                }
                PollVerdict { kill: false, result: ProbeResult::Pending }
            },
            ChildStatus::Unknown(error) => {
                self.exec_start = None;
                PollVerdict {
                    kill: false,
                    result: ProbeResult::Failed(
                        "failed to run readiness check: ".to_string().concat(error.as_str()),
                    ),
                }
            },
        }
    }

    /// Ends the probe. Says whether a check command is still running, which
    /// then is to be killed.
    pub fn cleanup(&mut self) -> (r: bool)
        ensures
            r == old(self).exec_start is Some,
            *final(self) == (ReadinessProbe { exec_start: None, ..*old(self) }),
    {
        let running = self.exec_start.is_some();
        self.exec_start = None;
        running
    }
}

/// When a check command is tried again.
pub open spec fn retry_time(now: u64) -> u64 {
    if now + EXEC_RETRY_MS <= u64::MAX {
        (now + EXEC_RETRY_MS) as u64
    } else {
        u64::MAX
    }
}

/// What became of a check command.
#[derive(Debug, Clone, PartialEq, Eq)]
pub enum ChildStatus {
    Exited { success: bool },
    Running,
    /// Its state could not be had, for this reason.
    Unknown(String),
}

/// What follows from the state of a check command.
#[derive(Debug, Clone, PartialEq, Eq)]
pub struct PollVerdict {
    /// Whether the command is to be killed.
    pub kill: bool,
    pub result: ProbeResult,
}

/// Whether one run of a check command has lasted too long.
pub open spec fn overdue(start: Option<u64>, now: u64) -> bool {
    start matches Some(s) && now - s >= EXEC_CAP_MS
}

/// What a look at the check command means: success makes the service ready;
/// failure and an overlong run, which is killed, lead to another try later.
pub open spec fn poll_effect(
    before: ReadinessProbe,
    status: ChildStatus,
    now: u64,
    verdict: PollVerdict,
    after: ReadinessProbe,
) -> bool {
    match status {
        ChildStatus::Exited { success } => {
            &&& !verdict.kill
            &&& verdict.result@ == if success {
                Finding::Ready
            } else {
                Finding::Pending
            }
            &&& after == (ReadinessProbe {
                exec_start: None,
                next_exec_at: if success {
                    before.next_exec_at
                } else {
                    Some(retry_time(now))
                },
                ..before
            })
        },
        ChildStatus::Running => {
            &&& verdict.kill == overdue(before.exec_start, now)
            &&& verdict.result@ == Finding::Pending
            &&& after == if overdue(before.exec_start, now) {
                ReadinessProbe {
                    exec_start: None,
                    next_exec_at: Some(retry_time(now)),
                    ..before
                }
            } else {
                before
            }
        },
        ChildStatus::Unknown(error) => {
            &&& !verdict.kill
            &&& verdict.result@ == Finding::Failed("failed to run readiness check: "@ + error@)
            &&& after == (ReadinessProbe { exec_start: None, ..before })
        },
    }
}

fn copy_spec(s: &ListenSpec) -> (r: ListenSpec)
    ensures
        r@ == s@,
{
    match s {
        ListenSpec::Tcp { addr } => ListenSpec::Tcp { addr: *addr },
        ListenSpec::Udp { addr } => ListenSpec::Udp { addr: *addr },
        ListenSpec::Unix { path } => ListenSpec::Unix { path: path.clone() },
    }
}

/// The process that a pidfile names, if what it holds is the number of one.
pub open spec fn pidfile_pid(raw: Option<Text>) -> Option<int> {
    match raw {
        Some(t) => match in_range(signed_value(trimmed(t)), 1, i32::MAX as int) {
            Some(p) => Some(p),
            None => None,
        },
        None => None,
    }
}

/// What the pidfile says: the process to look for, if the file could be read
/// and holds a positive number. Without one the check is pending.
pub fn pidfile_read(raw: Option<&str>) -> (r: Option<i32>)
    ensures
        match r {
            Some(p) => pidfile_pid(
                match raw {
                    Some(t) => Some(t@),
                    None => None,
                },
            ) == Some(p as int),
            None => pidfile_pid(
                match raw {
                    Some(t) => Some(t@),
                    None => None,
                },
            ) is None,
        },
{
    match raw {
        Some(t) => {
            let s = trim(t);
            match parse_i32(s.as_str()) {
                Some(p) => if p > 0 {
                    Some(p)
                } else {
                    None
                },
                None => None,
            }
        },
        None => None,
    }
}

/// What it means that a process or endpoint answers, or does not.
pub fn answered(alive: bool) -> (r: ProbeResult)
    ensures
        r@ == if alive {
            Finding::Ready
        } else {
            Finding::Pending
        },
{
    if alive {
        ProbeResult::Ready
    } else {
        ProbeResult::Pending
    }
}

/// How a process answered the null signal.
#[derive(Debug, Clone, Copy, PartialEq, Eq, Structural)]
pub enum SignalReply {
    /// The signal could be sent.
    Sent,
    /// The process is there, but it is another user's.
    NotPermitted,
    /// There is no such process.
    NoProcess,
    /// Anything else.
    Failed,
}

/// Whether the process, or a member of the process group, exists.
pub fn is_alive(reply: SignalReply) -> (r: bool)
    ensures
        r == (reply is Sent || reply is NotPermitted),
{
    match reply {
        SignalReply::Sent | SignalReply::NotPermitted => true,
        SignalReply::NoProcess | SignalReply::Failed => false,
    }
}

// ---------------------------------------------------------------------------
// Laws
// ---------------------------------------------------------------------------

/// The probe of a `signal` readiness never finds the service ready.
pub proof fn signal_readiness_waits_for_the_signal(probe: ReadinessProbe, now: u64)
    requires
        probe.kind == ReadinessType::Signal,
    ensures
        probe.inquiry(now) is Done,
        probe.inquiry(now) != Inquiry::Done(Finding::Ready),
{
}

/// A check command that failed, could not be started or was killed is not run
/// again before the pause is over.
pub proof fn failed_commands_wait(probe: ReadinessProbe, then: u64, now: u64)
    requires
        probe.kind == ReadinessType::Exec,
        probe.invalid is None,
        probe.exec_start is None,
        probe.next_exec_at == Some(retry_time(then)),
        now - then < EXEC_RETRY_MS,
        now < u64::MAX,
    ensures
        probe.inquiry(now) == Inquiry::Done(Finding::Pending),
{
}

/// A run of a check command is looked after until it ends or is overdue, so
/// no second one is started beside it.
pub proof fn one_command_at_a_time(probe: ReadinessProbe, now: u64)
    requires
        probe.exec_start is Some,
    ensures
        !(probe.inquiry(now) is Spawn),
{
}

/// A pidfile names the process whose number it holds in decimal, with or
/// without a newline behind it; a number that is not positive names none.
pub proof fn pidfiles_read_back(n: i32, file: Text)
    ensures
        n >= 1 && signed_value(trimmed(file)) == Some(n as int) ==> pidfile_pid(Some(file)) == Some(
            n as int,
        ),
        pidfile_pid(Some(file)) matches Some(p) ==> 1 <= p <= i32::MAX && signed_value(
            trimmed(file),
        ) == Some(p),
        n >= 1 ==> pidfile_pid(Some(decimal(n as nat))) == Some(n as int),
        n >= 1 ==> pidfile_pid(Some(decimal(n as nat) + "\n"@)) == Some(n as int),
        n < 1 ==> pidfile_pid(Some(signed_decimal(n as int))) is None,
        pidfile_pid(None) is None,
        pidfile_pid(Some(Seq::empty())) is None,
{
    let a: nat = if n < 0 {
        (-n) as nat
    } else {
        n as nat
    };
    lemma_decimal_digits(a);
    decimal_reads_back(a);
    decimals_begin_with_no_zero(a);
    numbers_are_digits_after_a_sign(decimal(a));
    let d = decimal(a);
    assert forall|i: int| 0 <= i < d.len() implies '0' <= #[trigger] d[i] <= '9' by {
        assert(is_digit(d[i]));
    }
    assert(is_digit(d[0]) && is_digit(d.last()));
    lemma_trimmed_line(d);
    assert(d[0] != '-');
    if n < 0 {
        let m = seq!['-'] + d;
        assert(m[0] == '-' && m.last() == d.last());
        lemma_trimmed_line(m);
        assert(m.skip(1) =~= d);
        assert(signed_value(m) == Some(-digits_value(d)));
        assert(unsigned_value(d) == Some(a as int));
    }
}

/// A probe that is set up rightly looks where its configuration points: it
/// reads its pidfile, connects to its endpoint, or runs its command as soon as
/// that is due; without a check the service is ready at once. One that is set
/// up wrongly fails with what is wrong.
pub proof fn probes_look_where_they_should(probe: ReadinessProbe, now: u64)
    ensures
        probe.invalid matches Some(m) ==> probe.inquiry(now) == Inquiry::Done(Finding::Failed(m@)),
        probe.invalid is None ==> {
            &&& probe.kind is NoCheck ==> probe.inquiry(now) == Inquiry::Done(Finding::Ready)
            &&& probe.kind is Pid && probe.pidfile is Some ==> probe.inquiry(now)
                == Inquiry::ReadPidfile(probe.pidfile->0@)
            &&& probe.kind is Socket && probe.spec is Some ==> probe.inquiry(now)
                == Inquiry::Connect(probe.spec->0@)
            &&& probe.kind is Exec && probe.exec_cmd is Some && probe.exec_start is None && (
            probe.next_exec_at is None || probe.next_exec_at->0 <= now) ==> probe.inquiry(now)
                == Inquiry::Spawn(texts(probe.exec_cmd->0@))
            &&& probe.kind is Exec && probe.exec_start is Some ==> probe.inquiry(now)
                == Inquiry::Poll
        },
{
}

/// A socket check connects to its own spec, read as TCP where it names no
/// protocol, and only without one to the first listen endpoint of the service,
/// whatever the other endpoints are.
pub proof fn socket_checks_prefer_their_own_spec(
    readiness: ReadinessConfig,
    target: Option<Endpoint>,
)
    requires
        readiness.kind is Socket,
    ensures
        readiness.check matches Some(c) ==> match endpoint_of(c@, "tcp"@) {
            Ok(e) => check_endpoint(readiness, target) == Some(e) && check_problem(
                readiness,
                target,
            ) is None,
            Err(m) => check_problem(readiness, target) == Some(
                "invalid readiness socket spec '"@ + c@ + "': "@ + m,
            ),
        },
        readiness.check is None ==> check_endpoint(readiness, target) == target && (check_problem(
            readiness,
            target,
        ) is None <==> target is Some),
{
}

/// Only the first listen entry of a service is a connect target, and only
/// where it makes sense.
pub proof fn the_first_listen_entry_counts(a: ServiceConfig, b: ServiceConfig)
    requires
        a.socket is Some,
        b.socket is Some,
        a.socket->0.listen@.len() > 0,
        b.socket->0.listen@.len() > 0,
        a.socket->0.listen@[0]@ == b.socket->0.listen@[0]@,
        a.socket->0.socket_type@ == b.socket->0.socket_type@,
    ensures
        first_endpoint(a) == first_endpoint(b),
        match endpoint_of(a.socket->0.listen@[0]@, a.socket->0.socket_type@) {
            Ok(e) => first_endpoint(a) == Some(e),
            Err(_) => first_endpoint(a) is None,
        },
{
}

/// A pidfile and a command check need their setting, and no other check does.
pub proof fn checks_need_their_setting(readiness: ReadinessConfig, target: Option<Endpoint>)
    requires
        !(readiness.kind is Socket),
    ensures
        check_problem(readiness, target) is Some <==> (readiness.kind is Pid || readiness.kind is Exec)
            && readiness.check is None,
        readiness.kind is Pid && readiness.check is None ==> check_problem(readiness, target)
            == Some("readiness type 'pid' requires check=<pidfile path>"@),
        readiness.kind is Exec && readiness.check is None ==> check_problem(readiness, target)
            == Some("readiness type 'exec' requires check=<command>"@),
        check_endpoint(readiness, target) == target,
{
}

/// A check command that succeeds makes the service ready, and one that fails is
/// tried again half a second later. A run of five seconds is killed, and tried
/// again half a second later too; a shorter one goes on untouched.
pub proof fn commands_are_judged_by_their_end(
    before: ReadinessProbe,
    status: ChildStatus,
    now: u64,
    verdict: PollVerdict,
    after: ReadinessProbe,
)
    requires
        poll_effect(before, status, now, verdict, after),
        now <= u64::MAX - 500,
    ensures
        verdict.result@ == Finding::Ready <==> status == (ChildStatus::Exited { success: true }),
        verdict.result@ is Failed <==> status is Unknown,
        verdict.kill <==> status is Running && before.exec_start is Some && now
            - before.exec_start->0 >= 5000,
        !(status is Running) || verdict.kill ==> after.exec_start is None,
        status is Running && !verdict.kill ==> after == before,
        status == (ChildStatus::Exited { success: false }) || verdict.kill ==> after.next_exec_at
            == Some((now + 500) as u64),
        status == (ChildStatus::Exited { success: true }) || status is Unknown
            ==> after.next_exec_at == before.next_exec_at,
        status matches ChildStatus::Unknown(e) ==> verdict.result@ == Finding::Failed(
            "failed to run readiness check: "@ + e@,
        ),
        after.kind == before.kind && after.spec == before.spec && after.pidfile == before.pidfile
            && after.exec_cmd == before.exec_cmd && after.invalid == before.invalid,
{
}

/// Nothing of a probe's step or result is lost in what is said of it.
pub proof fn probe_steps_are_said_in_full(step: ProbeStep, result: ProbeResult)
    ensures
        match step {
            ProbeStep::Done(r) => step@ == Inquiry::Done(r@),
            ProbeStep::ReadPidfile(p) => step@ == Inquiry::ReadPidfile(p@),
            ProbeStep::Connect(s) => step@ == Inquiry::Connect(s@),
            ProbeStep::Spawn(c) => step@ is Spawn && step@->Spawn_0.len() == c@.len() && forall|i: int|
                0 <= i < c@.len() ==> step@->Spawn_0[i] == #[trigger] c@[i]@,
            ProbeStep::Poll => step@ is Poll,
        },
        result is Ready <==> result@ is Ready,
        result is Pending <==> result@ is Pending,
        result matches ProbeResult::Failed(m) ==> result@ == Finding::Failed(m@),
{
}

/// An optional text, command or endpoint is said as it is.
pub proof fn options_are_said_as_they_are(
    text: Option<String>,
    command: Option<Vec<String>>,
    spec: Option<ListenSpec>,
)
    ensures
        text is None <==> text_view(text) is None,
        text matches Some(t) ==> text_view(text) == Some(t@),
        command is None <==> command_view(command) is None,
        command matches Some(c) ==> command_view(command) == Some(texts(c@)),
        spec is None <==> endpoint_view(spec) is None,
        spec matches Some(s) ==> endpoint_view(spec) == Some(s@),
{
}

} // verus!
