//! What a supervisor prepares around a service: its log pipeline, its
//! sockets, and the environment, limits and identity that it runs with.

use crate::config::{
    LogType, LoggingConfig, OutputTarget, ReadinessType, ResourceLimits, ServiceConfig,
};
use crate::path::{
    body_start, join, joined, parent, parent_of, parent_undoes_join, without_idle,
};
use crate::readiness::text_view;
use crate::sockspec::{endpoint_of, parse_listen_spec, Endpoint, ListenSpec};
use crate::supervisor::RecordedState;
use crate::text::{
    decimal, has_char, pairs, same, show, show_signed, signed_decimal, texts, Text,
};
use crate::{
    LISTEN_FDS_ENV, LISTEN_FDS_START, LISTEN_PID_ENV, READY_SIGNAL_ENV, SUPERVISOR_PID_ENV,
    SUPERVISOR_SOCKET_ENV, VIGIL_LOG_DIR, VIGIL_SUPERVISE_DIR,
};
use vstd::prelude::*;

verus! {

// ---------------------------------------------------------------------------
// Command line
// ---------------------------------------------------------------------------

/// The command line of a supervisor.
#[derive(Debug, Clone, PartialEq, Eq)]
pub struct SuperviseArgs {
    pub service_name: String,
    pub config_path: String,
    pub log_dir: String,
    pub supervise_dir: String,
}

/// What the words of a command line, at least three, say to a supervisor.
pub open spec fn says_to_supervisor(words: Seq<Text>, a: SuperviseArgs) -> bool {
    &&& a.service_name@ == words[1]
    &&& a.config_path@ == words[2]
    &&& a.log_dir@ == if words.len() > 3 {
        words[3]
    } else {
        VIGIL_LOG_DIR@
    }
    &&& a.supervise_dir@ == if words.len() > 4 {
        words[4]
    } else {
        VIGIL_SUPERVISE_DIR@
    }
}

/// Reads the command line of a supervisor, program name first. Without a
/// service name and a configuration path there is none.
pub fn supervise_args(args: &Vec<String>) -> (r: Option<SuperviseArgs>)
    ensures
        match r {
            Some(a) => args@.len() >= 3 && says_to_supervisor(texts(args@), a),
            None => args@.len() < 3,
        },
{
    if args.len() < 3 {
        return None;
    }
    let log_dir = if args.len() > 3 {
        args[3].clone()
    } else {
        VIGIL_LOG_DIR.to_string()
    };
    let supervise_dir = if args.len() > 4 {
        args[4].clone()
    } else {
        VIGIL_SUPERVISE_DIR.to_string()
    };
    Some(
        SuperviseArgs {
            service_name: args[1].clone(),
            config_path: args[2].clone(),
            log_dir,
            supervise_dir,
        },
    )
}

// ---------------------------------------------------------------------------
// Logging
// ---------------------------------------------------------------------------

/// The directory in which a service logs by default.
pub open spec fn default_log_base(log_dir: Text, name: Text) -> Text {
    joined(log_dir, name)
}

/// The directory that the logging of a service needs.
pub open spec fn log_base(logging: LoggingConfig, log_dir: Text, name: Text) -> Text {
    match logging.path {
        Some(p) => if logging.kind == LogType::File {
            match parent_of(p@) {
                Some(dir) => dir,
                None => default_log_base(log_dir, name),
            }
        } else {
            p@
        },
        None => default_log_base(log_dir, name),
    }
}

pub fn resolve_log_base(config: &ServiceConfig, default_log_dir: &str, name: &str) -> (r: String)
    ensures
        r@ == log_base(config.logging, default_log_dir@, name@),
{
    match &config.logging.path {
        Some(p) => match config.logging.kind {
            LogType::File => match parent(p.as_str()) {
                Some(dir) => dir,
                None => join(default_log_dir, name),
            },
            _ => p.clone(),
        },
        None => join(default_log_dir, name),
    }
}

/// The file that a service with `file` logging writes.
pub open spec fn log_file(logging: LoggingConfig, log_dir: Text, name: Text) -> Text {
    match logging.path {
        Some(p) => p@,
        None => joined(joined(log_dir, name), "current"@),
    }
}

pub fn resolve_log_file(config: &ServiceConfig, default_log_dir: &str, name: &str) -> (r: String)
    ensures
        r@ == log_file(config.logging, default_log_dir@, name@),
{
    match &config.logging.path {
        Some(p) => p.clone(),
        None => join(join(default_log_dir, name).as_str(), "current"),
    }
}

/// The socket of the syslog daemon.
pub open spec fn syslog_socket(logging: LoggingConfig) -> Text {
    match logging.path {
        Some(p) => p@,
        None => "/dev/log"@,
    }
}

pub fn resolve_syslog_socket(config: &ServiceConfig) -> (r: String)
    ensures
        r@ == syslog_socket(config.logging),
{
    match &config.logging.path {
        Some(p) => p.clone(),
        None => "/dev/log".to_string(),
    }
}

/// Whether a stream goes to the log pipeline.
pub open spec fn is_logged(target: OutputTarget) -> bool {
    target is Log || target is Syslog
}

/// Whether the output of a service needs a log pipe: it logs at all, and some
/// stream goes to the log.
pub fn needs_log_pipe(config: &ServiceConfig) -> (r: bool)
    ensures
        r == (!(config.logging.kind is NoLog) && (is_logged(config.service.stdout) || is_logged(
            config.service.stderr,
        ))),
{
    let out = match config.service.stdout {
        OutputTarget::Log | OutputTarget::Syslog => true,
        _ => false,
    };
    let err = match config.service.stderr {
        OutputTarget::Log | OutputTarget::Syslog => true,
        _ => false,
    };
    match config.logging.kind {
        LogType::NoLog => false,
        _ => out || err,
    }
}

/// A flag as a command-line argument.
pub open spec fn flag_text(on: bool) -> Text {
    if on {
        "1"@
    } else {
        "0"@
    }
}

fn show_flag(on: bool) -> (r: String)
    ensures
        r@ == flag_text(on),
{
    if on {
        "1".to_string()
    } else {
        "0".to_string()
    }
}

/// The arguments of the log writer of a service, after the program name. A
/// service that does not log has no log writer.
pub open spec fn logger_arguments(config: ServiceConfig, log_dir: Text, name: Text) -> Option<
    Seq<Text>,
> {
    let l = config.logging;
    match l.kind {
        LogType::Pipe => Some(
            seq![
                "pipe"@,
                name,
                log_base(l, log_dir, name),
                decimal(l.max_size_mb as nat),
                decimal(l.max_files as nat),
                flag_text(l.timestamp),
            ],
        ),
        LogType::File => Some(
            seq![
                "file"@,
                name,
                log_file(l, log_dir, name),
                decimal(l.max_size_mb as nat),
                decimal(l.max_files as nat),
                flag_text(l.timestamp),
            ],
        ),
        LogType::Syslog => Some(
            seq!["syslog"@, name, log_base(l, log_dir, name), syslog_socket(l)],
        ),
        LogType::NoLog => None,
    }
}

pub fn logger_args(config: &ServiceConfig, default_log_dir: &str, service_name: &str) -> (r: Option<
    Vec<String>,
>)
    ensures
        match r {
            Some(v) => logger_arguments(*config, default_log_dir@, service_name@) == Some(
                texts(v@),
            ),
            None => logger_arguments(*config, default_log_dir@, service_name@) is None,
        },
{
    let mut out: Vec<String> = Vec::new();
    let l = &config.logging;
    match l.kind {
        LogType::Pipe => {
            out.push("pipe".to_string());
            out.push(service_name.to_string());
            out.push(resolve_log_base(config, default_log_dir, service_name));
            out.push(show(l.max_size_mb));
            out.push(show(l.max_files as u64));
            out.push(show_flag(l.timestamp));
        },
        LogType::File => {
            out.push("file".to_string());
            out.push(service_name.to_string());
            out.push(resolve_log_file(config, default_log_dir, service_name));
            out.push(show(l.max_size_mb));
            out.push(show(l.max_files as u64));
            out.push(show_flag(l.timestamp));
        },
        LogType::Syslog => {
            out.push("syslog".to_string());
            out.push(service_name.to_string());
            out.push(resolve_log_base(config, default_log_dir, service_name));
            out.push(resolve_syslog_socket(config));
        },
        LogType::NoLog => {
            return None;
        },
    }
    proof {
        let want = logger_arguments(*config, default_log_dir@, service_name@)->0;
        assert(texts(out@) =~= want);
    }
    Some(out)
}

/// Where one standard stream of a service goes.
#[derive(Debug, Clone, Copy, PartialEq, Eq, Structural)]
pub enum Redirect {
    /// It stays what the supervisor has.
    Keep,
    LogPipe,
    DevNull,
    /// It goes where standard output goes.
    CopyStdout,
}

/// Where an output stream goes: one that is logged falls back to nowhere
/// without a log pipe.
pub open spec fn redirect_of(target: OutputTarget, is_stderr: bool, has_pipe: bool) -> Redirect {
    match target {
        OutputTarget::Log | OutputTarget::Syslog => if has_pipe {
            Redirect::LogPipe
        } else {
            Redirect::DevNull
        },
        OutputTarget::Null => Redirect::DevNull,
        OutputTarget::Stdout => if is_stderr {
            Redirect::CopyStdout
        } else {
            Redirect::Keep
        },
    }
}

fn redirect(target: OutputTarget, is_stderr: bool, has_pipe: bool) -> (r: Redirect)
    ensures
        r == redirect_of(target, is_stderr, has_pipe),
{
    match target {
        OutputTarget::Log | OutputTarget::Syslog => if has_pipe {
            Redirect::LogPipe
        } else {
            Redirect::DevNull
        },
        OutputTarget::Null => Redirect::DevNull,
        OutputTarget::Stdout => if is_stderr {
            Redirect::CopyStdout
        } else {
            Redirect::Keep
        },
    }
}

/// Where standard input, output and error of a service go. They are set up in
/// the order output, error, input.
pub fn dup_stdio(config: &ServiceConfig, has_pipe: bool) -> (r: (Redirect, Redirect, Redirect))
    ensures
        r.0 == Redirect::DevNull,
        r.1 == redirect_of(config.service.stdout, false, has_pipe),
        r.2 == redirect_of(config.service.stderr, true, has_pipe),
{
    (
        Redirect::DevNull,
        redirect(config.service.stdout, false, has_pipe),
        redirect(config.service.stderr, true, has_pipe),
    )
}

// ---------------------------------------------------------------------------
// Socket activation
// ---------------------------------------------------------------------------

/// The listen specs of a service.
pub open spec fn listen_specs(config: ServiceConfig) -> Seq<Text> {
    match config.socket {
        Some(sock) => texts(sock.listen@),
        None => Seq::empty(),
    }
}

/// The endpoint that is bound after `bound` others: `None` when all are. A
/// spec that makes no sense ends the binding.
pub fn next_listen(config: &ServiceConfig, bound: usize) -> (r: Result<Option<ListenSpec>, String>)
    ensures
        match r {
            Ok(None) => bound >= listen_specs(*config).len(),
            Ok(Some(spec)) => bound < listen_specs(*config).len() && endpoint_of(
                listen_specs(*config)[bound as int],
                config.socket->0.socket_type@,
            ) == Ok::<Endpoint, Text>(spec@),
            Err(message) => bound < listen_specs(*config).len() && (endpoint_of(
                listen_specs(*config)[bound as int],
                config.socket->0.socket_type@,
            ) is Err) && message@ == "invalid listen spec '"@ + listen_specs(*config)[bound as int]
                + "'"@,
        },
{
    match &config.socket {
        Some(sock) => {
            if bound >= sock.listen.len() {
                return Ok(None);
            }
            assert(listen_specs(*config)[bound as int] == sock.listen@[bound as int]@);
            match parse_listen_spec(sock.listen[bound].as_str(), sock.proto()) {
                Ok(spec) => Ok(Some(spec)),
                Err(_) => Err(
                    "invalid listen spec '".to_string().concat(sock.listen[bound].as_str()).concat(
                        "'",
                    ),
                ),
            }
        },
        None => Ok(None),
    }
}

/// One step in handing a listening descriptor to the service.
#[derive(Debug, Clone, Copy, PartialEq, Eq, Structural)]
pub enum FdStep {
    /// Duplicate `from` as `to`, then close `from`.
    Move { from: i32, to: i32 },
    /// The descriptor is in its place: let it survive the exec.
    Keep(i32),
}

/// The step for the descriptor that is to become number `i` of the service's.
pub open spec fn fd_step(fd: i32, i: int) -> FdStep {
    let to = (LISTEN_FDS_START + i) as i32;
    if fd == to {
        FdStep::Keep(fd)
    } else {
        FdStep::Move { from: fd, to }
    }
}

/// The steps that relocate the listening descriptors to `LISTEN_FDS_START`
/// and the numbers after it, in order.
pub fn relocate_fds(fds: &Vec<i32>) -> (r: Vec<FdStep>)
    requires
        fds@.len() <= i32::MAX - LISTEN_FDS_START,
    ensures
        r@.len() == fds@.len(),
        forall|i: int| 0 <= i < fds@.len() ==> #[trigger] r@[i] == fd_step(fds@[i], i),
{
    let mut out: Vec<FdStep> = Vec::new();
    let mut i: usize = 0;
    while i < fds.len()
        invariant
            i <= fds@.len() <= i32::MAX - LISTEN_FDS_START,
            out@.len() == i,
            forall|j: int| 0 <= j < i ==> #[trigger] out@[j] == fd_step(fds@[j], j),
        decreases fds@.len() - i,
    {
        let to: i32 = LISTEN_FDS_START + i as i32;
        if fds[i] == to {
            out.push(FdStep::Keep(fds[i]));
        } else {
            out.push(FdStep::Move { from: fds[i], to });
        }
        i += 1;
    }
    out
}

// ---------------------------------------------------------------------------
// Environment and command
// ---------------------------------------------------------------------------

/// The environment variables that a service gets on top of what it inherits,
/// in the order in which they are set: the configured ones, then Vigil's own.
pub open spec fn environment_of(
    config: ServiceConfig,
    supervisor_pid: i32,
    own_pid: u32,
    sockets: nat,
) -> Seq<(Text, Text)> {
    let base = pairs(config.service.environment@).push(
        (SUPERVISOR_PID_ENV@, signed_decimal(supervisor_pid as int)),
    );
    let signalled = if config.service.readiness.kind is Signal {
        base.push((READY_SIGNAL_ENV@, config.service.readiness.ready_signal_name()))
    } else {
        base
    };
    if sockets > 0 {
        signalled.push((LISTEN_FDS_ENV@, decimal(sockets))).push(
            (LISTEN_PID_ENV@, decimal(own_pid as nat)),
        ).push(
            (SUPERVISOR_SOCKET_ENV@, "supervisor="@ + signed_decimal(supervisor_pid as int)),
        )
    } else {
        signalled
    }
}

/// The environment of a service with `sockets` listening descriptors;
/// `own_pid` is the process that becomes the service.
pub fn service_environment(
    config: &ServiceConfig,
    supervisor_pid: i32,
    own_pid: u32,
    sockets: usize,
) -> (r: Vec<(String, String)>)
    ensures
        pairs(r@) == environment_of(*config, supervisor_pid, own_pid, sockets as nat),
{
    let mut out: Vec<(String, String)> = Vec::new();
    let env = &config.service.environment;
    let mut i: usize = 0;
    while i < env.len()
        invariant
            i <= env@.len(),
            env@ == config.service.environment@,
            pairs(out@) == pairs(env@).take(i as int),
        decreases env@.len() - i,
    {
        let ghost before = pairs(out@);
        out.push((env[i].0.clone(), env[i].1.clone()));
        assert(pairs(out@) =~= before.push(pairs(env@)[i as int]));
        assert(pairs(env@).take(i + 1) =~= before.push(pairs(env@)[i as int]));
        i += 1;
    }
    assert(pairs(out@) =~= pairs(config.service.environment@));
    let ghost p0 = pairs(out@);
    out.push((SUPERVISOR_PID_ENV.to_string(), show_signed(supervisor_pid)));
    let ghost p1 = p0.push((SUPERVISOR_PID_ENV@, signed_decimal(supervisor_pid as int)));
    assert(pairs(out@) =~= p1);
    match config.service.readiness.kind {
        ReadinessType::Signal => {
            out.push(
                (
                    READY_SIGNAL_ENV.to_string(),
                    config.service.readiness.ready_signal().to_string(),
                ),
            );
            assert(pairs(out@) =~= p1.push(
                (READY_SIGNAL_ENV@, config.service.readiness.ready_signal_name()),
            ));
        },
        _ => {},
    }
    if sockets > 0 {
        let ghost p2 = pairs(out@);
        out.push((LISTEN_FDS_ENV.to_string(), show(sockets as u64)));
        out.push((LISTEN_PID_ENV.to_string(), show(own_pid as u64)));
        out.push(
            (
                SUPERVISOR_SOCKET_ENV.to_string(),
                "supervisor=".to_string().concat(show_signed(supervisor_pid).as_str()),
            ),
        );
        assert(pairs(out@) =~= p2.push((LISTEN_FDS_ENV@, decimal(sockets as nat))).push(
            (LISTEN_PID_ENV@, decimal(own_pid as nat)),
        ).push(
            (SUPERVISOR_SOCKET_ENV@, "supervisor="@ + signed_decimal(supervisor_pid as int)),
        ));
    }
    out
}

/// The command line of a service.
pub open spec fn command_line(config: ServiceConfig) -> Seq<Text> {
    seq![config.service.command@] + texts(config.service.args@)
}

/// Whether some word of a command line holds a NUL, which no argument can.
pub open spec fn has_nul(words: Seq<Text>) -> bool {
    exists|i: int| 0 <= i < words.len() && (#[trigger] words[i]).contains('\0')
}

/// The arguments with which a service is executed, its command first; none
/// where one of them holds a NUL.
pub fn service_argv(config: &ServiceConfig) -> (r: Option<Vec<String>>)
    ensures
        match r {
            Some(v) => texts(v@) == command_line(*config) && !has_nul(command_line(*config)),
            None => has_nul(command_line(*config)),
        },
        r matches Some(v) ==> {
            &&& v@.len() == config.service.args@.len() + 1
            &&& v@[0]@ == config.service.command@
            &&& forall|i: int|
                0 <= i < config.service.args@.len() ==> v@[i + 1]@ == (
                #[trigger] config.service.args@[i])@
        },
{
    let ghost line = command_line(*config);
    let args = &config.service.args;
    assert(line[0] == config.service.command@);
    if has_char(config.service.command.as_str(), '\0') {
        return None;
    }
    let mut out: Vec<String> = Vec::new();
    out.push(config.service.command.clone());
    assert(texts(out@) =~= line.take(1));
    let mut i: usize = 0;
    while i < args.len()
        invariant
            i <= args@.len(),
            line == command_line(*config),
            args@ == config.service.args@,
            texts(out@) == line.take(i + 1),
            forall|j: int| 0 <= j < i + 1 ==> !(#[trigger] line[j]).contains('\0'),
        decreases args@.len() - i,
    {
        assert(line[i + 1] == args@[i as int]@);
        if has_char(args[i].as_str(), '\0') {
            return None;
        }
        let ghost before = texts(out@);
        out.push(args[i].clone());
        assert(texts(out@) =~= before.push(line[i + 1]));
        assert(line.take(i + 2) =~= line.take(i + 1).push(line[i + 1]));
        i += 1;
    }
    assert(line.take(i + 1) =~= line);
    proof {
        assert(texts(out@)[0] == line[0]);
        assert forall|k: int| 0 <= k < args@.len() implies out@[k + 1]@ == (#[trigger] args@[k])@ by {
            assert(texts(out@)[k + 1] == line[k + 1]);
            assert(line[k + 1] == texts(args@)[k]);
        }
    }
    Some(out)
}

/// What is said of a text that cannot be an argument.
pub open spec fn nul_message(what: Text) -> Text {
    what + " contains a NUL byte"@
}

/// Accepts a text that can be an argument of a program: one without a NUL.
pub fn to_cstring(value: &str, what: &str) -> (r: Result<String, String>)
    ensures
        match r {
            Ok(s) => s@ == value@ && !value@.contains('\0'),
            Err(message) => value@.contains('\0') && message@ == nul_message(what@),
        },
{
    if has_char(value, '\0') {
        Err(what.to_string().concat(" contains a NUL byte"))
    } else {
        Ok(value.to_string())
    }
}

// ---------------------------------------------------------------------------
// Limits and identity
// ---------------------------------------------------------------------------

/// A resource of a process that can be limited.
#[derive(Debug, Clone, Copy, PartialEq, Eq, Structural)]
pub enum Limit {
    OpenFiles,
    Processes,
    AddressSpace,
}

/// A size in mebibytes as a number of bytes, as far as one can be written.
pub open spec fn mebibytes(mb: u64) -> u64 {
    if mb * 1048576 <= u64::MAX {
        (mb * 1048576) as u64
    } else {
        u64::MAX
    }
}

/// A size in mebibytes in bytes.
pub fn mebibytes_saturating(mb: u64) -> (r: u64)
    ensures
        r == mebibytes(mb),
{
    match mb.checked_mul(1048576) {
        Some(b) => b,
        None => u64::MAX,
    }
}

/// The limits to set, in order; each is both the soft and the hard limit.
pub open spec fn limits_of(limits: ResourceLimits) -> Seq<(Limit, u64)> {
    let files = match limits.max_files {
        Some(n) => seq![(Limit::OpenFiles, n)],
        None => Seq::empty(),
    };
    let procs = match limits.max_procs {
        Some(n) => seq![(Limit::Processes, n)],
        None => Seq::empty(),
    };
    let memory = match limits.max_memory_mb {
        Some(mb) => seq![(Limit::AddressSpace, mebibytes(mb))],
        None => Seq::empty(),
    };
    files + procs + memory
}

pub fn apply_resource_limits(limits: &ResourceLimits) -> (r: Vec<(Limit, u64)>)
    ensures
        r@ == limits_of(*limits),
{
    let mut out: Vec<(Limit, u64)> = Vec::new();
    match limits.max_files {
        Some(n) => out.push((Limit::OpenFiles, n)),
        None => {},
    }
    match limits.max_procs {
        Some(n) => out.push((Limit::Processes, n)),
        None => {},
    }
    match limits.max_memory_mb {
        Some(mb) => out.push((Limit::AddressSpace, mebibytes_saturating(mb))),
        None => {},
    }
    assert(out@ =~= limits_of(*limits));
    out
}

/// What the user database says of a user.
#[derive(Debug, Clone, Copy, PartialEq, Eq, Structural)]
pub struct UserEntry {
    pub uid: u32,
    pub primary_gid: u32,
}

/// One step in giving up privileges.
#[derive(Debug, Clone, Copy, PartialEq, Eq, Structural)]
pub enum PrivilegeStep {
    /// Take on the supplementary groups of the service's user, with this
    /// group; without a group database, this group alone.
    InitGroups(u32),
    SetGid(u32),
    SetUid(u32),
}

/// The steps that give up privileges for a user and group, or why that cannot
/// be done. `user` and `group` are what the databases hold under these names;
/// `root` is not looked up. A user without a group of its own choice gets the
/// user's primary group.
pub open spec fn privilege_steps(
    user_name: Text,
    group_name: Text,
    user: Option<UserEntry>,
    group: Option<u32>,
) -> Result<Seq<PrivilegeStep>, Text> {
    if user_name == "root"@ && group_name == "root"@ {
        Ok(Seq::empty())
    } else if user_name != "root"@ && user is None {
        Err("user '"@ + user_name + "' not found"@)
    } else if group_name != "root"@ && group is None {
        Err("group '"@ + group_name + "' not found"@)
    } else if user_name.contains('\0') {
        Err("user name contains NUL"@)
    } else if user_name == "root"@ {
        Ok(seq![PrivilegeStep::SetGid(group->0)])
    } else {
        let gid = if group_name == "root"@ {
            user->0.primary_gid
        } else {
            group->0
        };
        Ok(
            seq![
                PrivilegeStep::InitGroups(gid),
                PrivilegeStep::SetGid(gid),
                PrivilegeStep::SetUid(user->0.uid),
            ],
        )
    }
}

/// Drop the service to its configured user and group, *after* resource limits
/// have been applied while still privileged.
pub fn drop_privileges(
    user_name: &str,
    group_name: &str,
    user: Option<UserEntry>,
    group: Option<u32>,
) -> (r: Result<Vec<PrivilegeStep>, String>)
    ensures
        match r {
            Ok(v) => privilege_steps(user_name@, group_name@, user, group) == Ok::<
                Seq<PrivilegeStep>,
                Text,
            >(v@),
            Err(m) => privilege_steps(user_name@, group_name@, user, group) == Err::<
                Seq<PrivilegeStep>,
                Text,
            >(m@),
        },
{
    let root_user = same(user_name, "root");
    let root_group = same(group_name, "root");
    let mut out: Vec<PrivilegeStep> = Vec::new();
    if root_user && root_group {
        assert(out@ =~= Seq::<PrivilegeStep>::empty());
        return Ok(out);
    }
    if !root_user && user.is_none() {
        return Err("user '".to_string().concat(user_name).concat("' not found"));
    }
    if !root_group && group.is_none() {
        return Err("group '".to_string().concat(group_name).concat("' not found"));
    }
    if has_char(user_name, '\0') {
        return Err("user name contains NUL".to_string());
    }
    match (user, group) {
        (_, Some(g)) => {
            if root_user {
                out.push(PrivilegeStep::SetGid(g));
                assert(out@ =~= seq![PrivilegeStep::SetGid(g)]);
                return Ok(out);
            }
        },
        _ => {},
    }
    match user {
        Some(u) => {
            let gid = match group {
                Some(g) => if root_group {
                    u.primary_gid
                } else {
                    g
                },
                None => u.primary_gid,
            };
            out.push(PrivilegeStep::InitGroups(gid));
            out.push(PrivilegeStep::SetGid(gid));
            out.push(PrivilegeStep::SetUid(u.uid));
            assert(out@ =~= seq![
                PrivilegeStep::InitGroups(gid),
                PrivilegeStep::SetGid(gid),
                PrivilegeStep::SetUid(u.uid),
            ]);
        },
        None => {},
    }
    Ok(out)
}

// ---------------------------------------------------------------------------
// The process that becomes the service
// ---------------------------------------------------------------------------

/// What the process that becomes the service knows of its surroundings.
#[derive(Debug, Clone, PartialEq, Eq)]
pub struct ChildContext {
    pub supervisor_pid: i32,
    pub own_pid: u32,
    /// Whether there is a log pipe.
    pub has_pipe: bool,
    /// The listening descriptors, in the order of the listen specs.
    pub listen_fds: Vec<i32>,
    /// What the user and group databases hold of the configured names.
    pub user: Option<UserEntry>,
    pub group: Option<u32>,
}

/// One step of the process that becomes the service.
#[derive(Debug, Clone, PartialEq, Eq)]
pub enum ChildStep {
    /// Lead a process group of its own.
    NewProcessGroup,
    /// Block no signals.
    UnblockSignals,
    /// Redirect a standard stream.
    Redirect(i32, Redirect),
    /// Close the log pipe, where it is no standard stream.
    ClosePipe,
    Relocate(FdStep),
    SetVariable(String, String),
    SetLimit(Limit, u64),
    GiveUp(PrivilegeStep),
    /// Be killed when the supervisor dies. A change of user would undo this.
    DieWithSupervisor,
    ChangeDir(String),
    /// Become the service.
    Exec(Vec<String>),
}

/// What a step of the process that becomes the service says.
pub enum Step {
    NewProcessGroup,
    UnblockSignals,
    Redirect(i32, Redirect),
    ClosePipe,
    Relocate(FdStep),
    SetVariable(Text, Text),
    SetLimit(Limit, u64),
    GiveUp(PrivilegeStep),
    DieWithSupervisor,
    ChangeDir(Text),
    Exec(Seq<Text>),
}

impl View for ChildStep {
    type V = Step;

    open spec fn view(&self) -> Step {
        match self {
            ChildStep::NewProcessGroup => Step::NewProcessGroup,
            ChildStep::UnblockSignals => Step::UnblockSignals,
            ChildStep::Redirect(fd, r) => Step::Redirect(*fd, *r),
            ChildStep::ClosePipe => Step::ClosePipe,
            ChildStep::Relocate(s) => Step::Relocate(*s),
            ChildStep::SetVariable(k, v) => Step::SetVariable(k@, v@),
            ChildStep::SetLimit(l, n) => Step::SetLimit(*l, *n),
            ChildStep::GiveUp(p) => Step::GiveUp(*p),
            ChildStep::DieWithSupervisor => Step::DieWithSupervisor,
            ChildStep::ChangeDir(d) => Step::ChangeDir(d@),
            ChildStep::Exec(v) => Step::Exec(texts(v@)),
        }
    }
}

pub open spec fn child_steps(v: Seq<ChildStep>) -> Seq<Step> {
    v.map_values(|s: ChildStep| s@)
}

/// The standard streams, the log pipe and the listening descriptors.
pub open spec fn descriptor_steps(config: ServiceConfig, context: ChildContext) -> Seq<Step> {
    let pipe = if context.has_pipe {
        seq![Step::ClosePipe]
    } else {
        Seq::empty()
    };
    seq![
        Step::Redirect(1, redirect_of(config.service.stdout, false, context.has_pipe)),
        Step::Redirect(2, redirect_of(config.service.stderr, true, context.has_pipe)),
        Step::Redirect(0, Redirect::DevNull),
    ] + pipe + Seq::new(
        context.listen_fds@.len(),
        |i: int| Step::Relocate(fd_step(context.listen_fds@[i], i)),
    )
}

pub open spec fn variable_steps(env: Seq<(Text, Text)>) -> Seq<Step> {
    env.map_values(|p: (Text, Text)| Step::SetVariable(p.0, p.1))
}

pub open spec fn limit_steps(limits: Seq<(Limit, u64)>) -> Seq<Step> {
    limits.map_values(|l: (Limit, u64)| Step::SetLimit(l.0, l.1))
}

pub open spec fn give_up_steps(steps: Seq<PrivilegeStep>) -> Seq<Step> {
    steps.map_values(|p: PrivilegeStep| Step::GiveUp(p))
}

/// All that the process does before it becomes the service: its descriptors
/// and environment are set up, then limits are set while it still has
/// privileges, then it gives those up, changes directory and executes the
/// command. Any failure ends it with status 127, and with what is said of it;
/// of a command that holds a NUL nothing is said.
pub open spec fn child_plan(config: ServiceConfig, context: ChildContext) -> Result<
    Seq<Step>,
    Option<Text>,
> {
    match privilege_steps(
        config.service.user@,
        config.service.group@,
        context.user,
        context.group,
    ) {
        Err(m) => Err(Some("failed to prepare environment: "@ + m)),
        Ok(privileges) => if config.service.command@.contains('\0') {
            Err(None)
        } else if has_nul(command_line(config)) {
            Err(Some("invalid argument"@))
        } else {
            let dir = match config.service.working_dir {
                Some(d) => seq![Step::ChangeDir(d@)],
                None => Seq::empty(),
            };
            Ok(
                seq![Step::NewProcessGroup, Step::UnblockSignals] + descriptor_steps(
                    config,
                    context,
                ) + variable_steps(
                    environment_of(
                        config,
                        context.supervisor_pid,
                        context.own_pid,
                        context.listen_fds@.len(),
                    ),
                ) + limit_steps(limits_of(config.service.resource_limits)) + give_up_steps(
                    privileges,
                ) + seq![Step::DieWithSupervisor] + dir + seq![Step::Exec(command_line(config))],
            )
        },
    }
}

fn push_step(out: &mut Vec<ChildStep>, step: ChildStep)
    ensures
        child_steps(final(out)@) == child_steps(old(out)@).push(step@),
{
    let ghost before = child_steps(out@);
    out.push(step);
    assert(child_steps(out@) =~= before.push(step@));
}

/// The steps of the process that becomes the service, or what is said where it
/// cannot, if anything is.
pub fn run_service_child(config: &ServiceConfig, context: &ChildContext) -> (r: Result<
    Vec<ChildStep>,
    Option<String>,
>)
    requires
        context.listen_fds@.len() <= i32::MAX - LISTEN_FDS_START,
    ensures
        match r {
            Ok(v) => child_plan(*config, *context) == Ok::<Seq<Step>, Option<Text>>(
                child_steps(v@),
            ),
            Err(m) => child_plan(*config, *context) == Err::<Seq<Step>, Option<Text>>(text_view(m)),
        },
{
    let privileges = match drop_privileges(
        config.service.user.as_str(),
        config.service.group.as_str(),
        context.user,
        context.group,
    ) {
        Ok(v) => v,
        Err(m) => {
            return Err(
                Some("failed to prepare environment: ".to_string().concat(m.as_str())),
            );
        },
    };
    if has_char(config.service.command.as_str(), '\0') {
        return Err(None);
    }
    let argv = match service_argv(config) {
        Some(v) => v,
        None => {
            return Err(Some("invalid argument".to_string()));
        },
    };
    let mut out: Vec<ChildStep> = Vec::new();
    assert(child_steps(out@) =~= Seq::<Step>::empty());
    push_step(&mut out, ChildStep::NewProcessGroup);
    push_step(&mut out, ChildStep::UnblockSignals);
    let ghost s0 = seq![Step::NewProcessGroup, Step::UnblockSignals];
    assert(child_steps(out@) =~= s0);
    push_descriptors(&mut out, config, context);
    let ghost s1 = s0 + descriptor_steps(*config, *context);
    push_variables(&mut out, config, context);
    let ghost s2 = s1 + variable_steps(
        environment_of(
            *config,
            context.supervisor_pid,
            context.own_pid,
            context.listen_fds@.len(),
        ),
    );
    push_limits(&mut out, config);
    let ghost s3 = s2 + limit_steps(limits_of(config.service.resource_limits));
    push_privileges(&mut out, &privileges);
    let ghost s4 = s3 + give_up_steps(privileges@);
    assert(child_steps(out@) == s4);
    push_step(&mut out, ChildStep::DieWithSupervisor);
    let ghost s5 = s4 + seq![Step::DieWithSupervisor];
    assert(child_steps(out@) =~= s5);
    match &config.service.working_dir {
        Some(d) => {
            push_step(&mut out, ChildStep::ChangeDir(d.clone()));
            assert(child_steps(out@) =~= s5 + seq![Step::ChangeDir(d@)]);
        },
        None => {
            assert(child_steps(out@) =~= s5 + Seq::<Step>::empty());
        },
    }
    let ghost s6 = child_steps(out@);
    push_step(&mut out, ChildStep::Exec(argv));
    assert(child_steps(out@) =~= s6 + seq![Step::Exec(command_line(*config))]);
    Ok(out)
}

fn push_descriptors(out: &mut Vec<ChildStep>, config: &ServiceConfig, context: &ChildContext)
    requires
        context.listen_fds@.len() <= i32::MAX - LISTEN_FDS_START,
    ensures
        child_steps(final(out)@) == child_steps(old(out)@) + descriptor_steps(*config, *context),
{
    let ghost before = child_steps(out@);
    let (input, output, error) = dup_stdio(config, context.has_pipe);
    push_step(out, ChildStep::Redirect(1, output));
    push_step(out, ChildStep::Redirect(2, error));
    push_step(out, ChildStep::Redirect(0, input));
    let ghost streams = seq![
        Step::Redirect(1, redirect_of(config.service.stdout, false, context.has_pipe)),
        Step::Redirect(2, redirect_of(config.service.stderr, true, context.has_pipe)),
        Step::Redirect(0, Redirect::DevNull),
    ];
    assert(child_steps(out@) =~= before + streams);
    if context.has_pipe {
        push_step(out, ChildStep::ClosePipe);
    }
    let ghost pipe = if context.has_pipe {
        seq![Step::ClosePipe]
    } else {
        Seq::empty()
    };
    assert(child_steps(out@) =~= before + (streams + pipe));
    let ghost base = child_steps(out@);
    let steps = relocate_fds(&context.listen_fds);
    let ghost moves = Seq::new(
        context.listen_fds@.len(),
        |i: int| Step::Relocate(fd_step(context.listen_fds@[i], i)),
    );
    let mut i: usize = 0;
    assert(child_steps(out@) =~= base + moves.take(0));
    while i < steps.len()
        invariant
            i <= steps@.len(),
            steps@.len() == context.listen_fds@.len(),
            moves == Seq::new(
                context.listen_fds@.len(),
                |i: int| Step::Relocate(fd_step(context.listen_fds@[i], i)),
            ),
            forall|j: int|
                0 <= j < steps@.len() ==> #[trigger] steps@[j] == fd_step(
                    context.listen_fds@[j],
                    j,
                ),
            child_steps(out@) == base + moves.take(i as int),
        decreases steps@.len() - i,
    {
        push_step(out, ChildStep::Relocate(steps[i]));
        assert(moves[i as int] == Step::Relocate(steps@[i as int]));
        assert(base + moves.take(i + 1) =~= (base + moves.take(i as int)).push(moves[i as int]));
        i += 1;
    }
    assert(moves.take(i as int) =~= moves);
    assert(child_steps(out@) =~= before + (streams + pipe + moves));
}

fn push_variables(out: &mut Vec<ChildStep>, config: &ServiceConfig, context: &ChildContext)
    ensures
        child_steps(final(out)@) == child_steps(old(out)@) + variable_steps(
            environment_of(
                *config,
                context.supervisor_pid,
                context.own_pid,
                context.listen_fds@.len(),
            ),
        ),
{
    let ghost base = child_steps(out@);
    let env = service_environment(
        config,
        context.supervisor_pid,
        context.own_pid,
        context.listen_fds.len(),
    );
    let ghost want = variable_steps(pairs(env@));
    let mut i: usize = 0;
    assert(child_steps(out@) =~= base + want.take(0));
    while i < env.len()
        invariant
            i <= env@.len(),
            want == variable_steps(pairs(env@)),
            child_steps(out@) == base + want.take(i as int),
        decreases env@.len() - i,
    {
        push_step(out, ChildStep::SetVariable(env[i].0.clone(), env[i].1.clone()));
        assert(want[i as int] == Step::SetVariable(env@[i as int].0@, env@[i as int].1@));
        assert(base + want.take(i + 1) =~= (base + want.take(i as int)).push(want[i as int]));
        i += 1;
    }
    assert(want.take(i as int) =~= want);
}

fn push_limits(out: &mut Vec<ChildStep>, config: &ServiceConfig)
    ensures
        child_steps(final(out)@) == child_steps(old(out)@) + limit_steps(
            limits_of(config.service.resource_limits),
        ),
{
    let ghost base = child_steps(out@);
    let limits = apply_resource_limits(&config.service.resource_limits);
    let ghost want = limit_steps(limits@);
    let mut i: usize = 0;
    assert(child_steps(out@) =~= base + want.take(0));
    while i < limits.len()
        invariant
            i <= limits@.len(),
            want == limit_steps(limits@),
            child_steps(out@) == base + want.take(i as int),
        decreases limits@.len() - i,
    {
        push_step(out, ChildStep::SetLimit(limits[i].0, limits[i].1));
        assert(base + want.take(i + 1) =~= (base + want.take(i as int)).push(want[i as int]));
        i += 1;
    }
    assert(want.take(i as int) =~= want);
}

fn push_privileges(out: &mut Vec<ChildStep>, privileges: &Vec<PrivilegeStep>)
    ensures
        child_steps(final(out)@) == child_steps(old(out)@) + give_up_steps(privileges@),
{
    let ghost base = child_steps(out@);
    let ghost want = give_up_steps(privileges@);
    let mut i: usize = 0;
    assert(child_steps(out@) =~= base + want.take(0));
    while i < privileges.len()
        invariant
            i <= privileges@.len(),
            want == give_up_steps(privileges@),
            child_steps(out@) == base + want.take(i as int),
        decreases privileges@.len() - i,
    {
        push_step(out, ChildStep::GiveUp(privileges[i]));
        assert(base + want.take(i + 1) =~= (base + want.take(i as int)).push(want[i as int]));
        i += 1;
    }
    assert(want.take(i as int) =~= want);
}

// ---------------------------------------------------------------------------
// CPU shares
// ---------------------------------------------------------------------------

/// The cgroup v2 weight for cgroup v1 shares: `1 + shares * 9999 / 2^18`, at
/// most 10000.
pub open spec fn weight_of(shares: int) -> int {
    let w = 1 + shares * 9999 / 262144;
    if w < 10000 {
        w
    } else {
        10000
    }
}

/// Convert cgroup v1 `cpu.shares` (2..262144) to cgroup v2 `cpu.weight`
/// (1..10000), the conversion used by systemd and containerd.
pub fn shares_to_weight(shares: u64) -> (r: u64)
    ensures
        r == weight_of(shares as int),
        1 <= r <= 10000,
{
    if shares >= 262144 {
        assert(shares * 9999 / 262144 >= 9999) by (nonlinear_arith)
            requires
                shares >= 262144,
        ;
        return 10000;
    }
    let w = 1 + shares * 9999 / 262144;
    if w < 10000 {
        w
    } else {
        10000
    }
}

/// The cgroup of a service.
pub open spec fn cgroup_of(name: Text) -> Text {
    "/sys/fs/cgroup/vigil-"@ + name + ".scope"@
}

/// What to write where in order to give a process its CPU weight: the cgroup's
/// directory, and the contents of its `cpu.weight` and `cgroup.procs`.
#[derive(Debug, Clone, PartialEq, Eq)]
pub struct CpuPlan {
    pub dir: String,
    pub weight: String,
    pub procs: String,
}

/// The CPU weight of a service, if it has CPU shares.
pub fn cpu_plan(limits: &ResourceLimits, service_name: &str, pid: u32) -> (r: Option<CpuPlan>)
    ensures
        match r {
            Some(p) => limits.cpu_shares matches Some(shares) && p.dir@ == cgroup_of(service_name@)
                && p.weight@ == decimal(weight_of(shares as int) as nat) + "\n"@ && p.procs@
                == decimal(pid as nat) + "\n"@,
            None => limits.cpu_shares is None,
        },
{
    match limits.cpu_shares {
        Some(shares) => Some(
            CpuPlan {
                dir: "/sys/fs/cgroup/vigil-".to_string().concat(service_name).concat(".scope"),
                weight: show(shares_to_weight(shares)).concat("\n"),
                procs: show(pid as u64).concat("\n"),
            },
        ),
        None => None,
    }
}

// ---------------------------------------------------------------------------
// Status and finish script
// ---------------------------------------------------------------------------

/// What the status directory holds of a service: the contents of `state`, and
/// of `pid`, which is absent where there is none.
#[derive(Debug, Clone, PartialEq, Eq)]
pub struct StatusFiles {
    pub state: String,
    pub pid: Option<String>,
}

pub fn status_files(state: RecordedState, pid: Option<u32>) -> (r: StatusFiles)
    ensures
        r.state@ == state.text() + "\n"@,
        match pid {
            Some(p) => r.pid matches Some(t) && t@ == decimal(p as nat),
            None => r.pid is None,
        },
{
    StatusFiles {
        state: state.as_str().to_string().concat("\n"),
        pid: match pid {
            Some(p) => Some(show(p as u64)),
            None => None,
        },
    }
}

/// The finish script of a service: `finish` in a directory of the service's
/// name beside its configuration file.
pub open spec fn finish_script(service: Text, config_path: Text) -> Text {
    let dir = match parent_of(config_path) {
        Some(d) => d,
        None => "/etc/vigil/services"@,
    };
    joined(joined(dir, service), "finish"@)
}

pub fn finish_path(service_name: &str, config_path: &str) -> (r: String)
    ensures
        r@ == finish_script(service_name@, config_path@),
{
    let dir = match parent(config_path) {
        Some(d) => d,
        None => "/etc/vigil/services".to_string(),
    };
    join(join(dir.as_str(), service_name).as_str(), "finish")
}

/// The environment of the finish script.
pub fn finish_environment(
    service_name: &str,
    config_path: &str,
    log_dir: &str,
    restart_count: u32,
) -> (r: Vec<(String, String)>)
    ensures
        pairs(r@) == seq![
            ("SERVICE_NAME"@, service_name@),
            ("CONFIG_PATH"@, config_path@),
            ("LOG_DIR"@, log_dir@),
            ("RESTART_COUNT"@, decimal(restart_count as nat)),
        ],
{
    let mut out: Vec<(String, String)> = Vec::new();
    out.push(("SERVICE_NAME".to_string(), service_name.to_string()));
    out.push(("CONFIG_PATH".to_string(), config_path.to_string()));
    out.push(("LOG_DIR".to_string(), log_dir.to_string()));
    out.push(("RESTART_COUNT".to_string(), show(restart_count as u64)));
    assert(pairs(out@) =~= seq![
        ("SERVICE_NAME"@, service_name@),
        ("CONFIG_PATH"@, config_path@),
        ("LOG_DIR"@, log_dir@),
        ("RESTART_COUNT"@, decimal(restart_count as nat)),
    ]);
    out
}

// ---------------------------------------------------------------------------
// Laws
// ---------------------------------------------------------------------------

/// What each descriptor of a process refers to.
pub type Descriptors = Map<int, int>;

/// The descriptors after one step.
pub open spec fn after_fd_step(d: Descriptors, step: FdStep) -> Descriptors {
    match step {
        FdStep::Move { from, to } => d.insert(to as int, d[from as int]).remove(from as int),
        FdStep::Keep(_) => d,
    }
}

/// The descriptors after the first `n` steps of the relocation.
pub open spec fn relocated(d: Descriptors, fds: Seq<i32>, n: int) -> Descriptors
    decreases n,
{
    if n <= 0 {
        d
    } else {
        after_fd_step(relocated(d, fds, n - 1), fd_step(fds[n - 1], n - 1))
    }
}

/// Whether descriptors stand in the order in which the kernel hands them out:
/// ascending, and none below the first that a service receives.
pub open spec fn in_kernel_order(fds: Seq<i32>) -> bool {
    &&& forall|i: int| 0 <= i < fds.len() ==> LISTEN_FDS_START <= #[trigger] fds[i]
    &&& forall|i: int, j: int| 0 <= i < j < fds.len() ==> #[trigger] fds[i] < #[trigger] fds[j]
}

/// The service receives every listening socket, in the order of its listen
/// specs, as descriptors `3..n`: no step of the relocation overwrites a
/// descriptor that is still to be moved or already in place.
pub proof fn sockets_arrive_in_order(d: Descriptors, fds: Seq<i32>, i: int)
    requires
        in_kernel_order(fds),
        fds.len() <= i32::MAX - LISTEN_FDS_START,
        forall|k: int| 0 <= k < fds.len() ==> d.contains_key(#[trigger] fds[k] as int),
        0 <= i < fds.len(),
    ensures
        relocated(d, fds, fds.len() as int).contains_key(LISTEN_FDS_START + i),
        relocated(d, fds, fds.len() as int)[LISTEN_FDS_START + i] == d[fds[i] as int],
{
    lemma_relocated(d, fds, fds.len() as int);
    assert(arrived(d, relocated(d, fds, fds.len() as int), fds, i));
}

proof fn lemma_fds_grow(fds: Seq<i32>, i: int)
    requires
        in_kernel_order(fds),
        0 <= i < fds.len(),
    ensures
        fds[i] >= LISTEN_FDS_START + i,
    decreases i,
{
    if i > 0 {
        lemma_fds_grow(fds, i - 1);
        assert(fds[i - 1] < fds[i]);
    }
}

/// Whether the service's descriptor number `k` is the `k`th socket.
spec fn arrived(d: Descriptors, now: Descriptors, fds: Seq<i32>, k: int) -> bool {
    &&& now.contains_key(LISTEN_FDS_START + k)
    &&& now[LISTEN_FDS_START + k] == d[fds[k] as int]
}

/// Whether the `k`th socket is where it was bound.
spec fn untouched(d: Descriptors, now: Descriptors, fds: Seq<i32>, k: int) -> bool {
    &&& now.contains_key(fds[k] as int)
    &&& now[fds[k] as int] == d[fds[k] as int]
}

proof fn lemma_relocated(d: Descriptors, fds: Seq<i32>, n: int)
    requires
        in_kernel_order(fds),
        fds.len() <= i32::MAX - LISTEN_FDS_START,
        forall|k: int| 0 <= k < fds.len() ==> d.contains_key(#[trigger] fds[k] as int),
        0 <= n <= fds.len(),
    ensures
        forall|k: int| 0 <= k < n ==> #[trigger] arrived(d, relocated(d, fds, n), fds, k),
        forall|k: int|
            n <= k < fds.len() ==> #[trigger] untouched(d, relocated(d, fds, n), fds, k),
    decreases n,
{
    if n > 0 {
        lemma_relocated(d, fds, n - 1);
        let prev = relocated(d, fds, n - 1);
        let now = relocated(d, fds, n);
        let to = LISTEN_FDS_START + (n - 1);
        lemma_fds_grow(fds, n - 1);
        assert(untouched(d, prev, fds, n - 1));
        assert forall|k: int| 0 <= k < n implies #[trigger] arrived(d, now, fds, k) by {
            if k < n - 1 {
                assert(arrived(d, prev, fds, k));
                assert(LISTEN_FDS_START + k < to <= fds[n - 1]);
            }
        }
        assert forall|k: int| n <= k < fds.len() implies #[trigger] untouched(d, now, fds, k) by {
            lemma_fds_grow(fds, k);
            assert(fds[n - 1] < fds[k]);
            assert(untouched(d, prev, fds, k));
        }
    }
}

/// Privileges are given up in the order groups, group, user: once the user
/// has changed, nothing is left to do that needs privileges. A service
/// of another user than root never keeps root's user.
pub proof fn the_user_changes_last(
    user_name: Text,
    group_name: Text,
    user: Option<UserEntry>,
    group: Option<u32>,
)
    ensures
        privilege_steps(user_name, group_name, user, group) matches Ok(steps) ==> {
            &&& forall|i: int|
                0 <= i < steps.len() && (#[trigger] steps[i] is SetUid) ==> i == steps.len() - 1
            &&& user_name != "root"@ ==> steps.len() > 0 && steps.last() == PrivilegeStep::SetUid(
                user->0.uid,
            )
        },
{
}

/// More shares never mean less weight.
pub proof fn weights_are_monotone(a: u64, b: u64)
    requires
        a <= b,
    ensures
        weight_of(a as int) <= weight_of(b as int),
{
    let x = a as int;
    let y = b as int;
    assert(x * 9999 / 262144 <= y * 9999 / 262144) by (nonlinear_arith)
        requires
            0 <= x <= y,
    ;
}

/// Limits are set before privileges are given up, the command is executed last
/// and exactly once, and the service dies with its supervisor: nothing
/// afterwards changes its user.
pub proof fn the_command_comes_last(config: ServiceConfig, context: ChildContext)
    ensures
        child_plan(config, context) matches Ok(steps) ==> {
            &&& steps.len() > 0
            &&& steps.last() == Step::Exec(command_line(config))
            &&& forall|i: int| 0 <= i < steps.len() - 1 ==> !(#[trigger] steps[i] is Exec)
            &&& forall|i: int, j: int|
                0 <= i < steps.len() && 0 <= j < steps.len() && (#[trigger] steps[i] is SetLimit)
                    && (#[trigger] steps[j] is GiveUp) ==> i < j
            &&& forall|i: int, j: int|
                0 <= i < steps.len() && 0 <= j < steps.len() && (#[trigger] steps[i] is GiveUp) && (
                #[trigger] steps[j] is DieWithSupervisor) ==> i < j
        },
{
    if child_plan(config, context) is Ok {
        let steps = child_plan(config, context)->Ok_0;
        let privileges = privilege_steps(
            config.service.user@,
            config.service.group@,
            context.user,
            context.group,
        )->Ok_0;
        let a = seq![Step::NewProcessGroup, Step::UnblockSignals] + descriptor_steps(
            config,
            context,
        ) + variable_steps(
            environment_of(
                config,
                context.supervisor_pid,
                context.own_pid,
                context.listen_fds@.len(),
            ),
        );
        let b = limit_steps(limits_of(config.service.resource_limits));
        let c = give_up_steps(privileges);
        let d = seq![Step::DieWithSupervisor];
        let e = match config.service.working_dir {
            Some(d) => seq![Step::ChangeDir(d@)],
            None => Seq::empty(),
        };
        let f = seq![Step::Exec(command_line(config))];
        assert(steps =~= a + b + c + d + e + f);
        lemma_first_part(config, context);
        assert forall|i: int| 0 <= i < steps.len() implies place_fits(
            a.len() as int,
            b.len() as int,
            c.len() as int,
            i,
            #[trigger] steps[i],
            steps.len() - 1,
        ) by {
            if i < a.len() {
                assert(steps[i] == a[i]);
            } else if i < a.len() + b.len() {
                assert(steps[i] == b[i - a.len()]);
            } else if i < a.len() + b.len() + c.len() {
                assert(steps[i] == c[i - a.len() - b.len()]);
            }
        }
    }
}

/// Where each kind of step stands in the plan.
spec fn place_fits(a: int, b: int, c: int, i: int, s: Step, last: int) -> bool {
    &&& s is SetLimit ==> a <= i < a + b
    &&& s is GiveUp ==> a + b <= i < a + b + c
    &&& s is DieWithSupervisor ==> i == a + b + c
    &&& s is Exec ==> i == last
}

/// Whether a step sets up descriptors or environment.
spec fn is_early(s: Step) -> bool {
    s is NewProcessGroup || s is UnblockSignals || s is Redirect || s is ClosePipe || s is Relocate
        || s is SetVariable
}

proof fn lemma_first_part(config: ServiceConfig, context: ChildContext)
    ensures
        ({
            let a = seq![Step::NewProcessGroup, Step::UnblockSignals] + descriptor_steps(
                config,
                context,
            ) + variable_steps(
                environment_of(
                    config,
                    context.supervisor_pid,
                    context.own_pid,
                    context.listen_fds@.len(),
                ),
            );
            forall|i: int| 0 <= i < a.len() ==> is_early(#[trigger] a[i])
        }),
{
}

/// A service is executed as configured: the words of its command line are the
/// command and then its arguments, each in its place. Where none of them holds
/// a NUL and its identity is known, that command line is executed.
pub proof fn services_are_executed_as_configured(config: ServiceConfig, context: ChildContext)
    ensures
        command_line(config).len() == config.service.args@.len() + 1,
        command_line(config)[0] == config.service.command@,
        forall|i: int|
            0 <= i < config.service.args@.len() ==> command_line(config)[i + 1]
                == #[trigger] config.service.args@[i]@,
        has_nul(command_line(config)) <==> config.service.command@.contains('\0') || exists|i: int|
            0 <= i < config.service.args@.len() && (#[trigger] config.service.args@[i])@.contains(
                '\0',
            ),
        child_plan(config, context) matches Ok(steps) ==> {
            &&& steps.last() matches Step::Exec(words) && {
                &&& words.len() == config.service.args@.len() + 1
                &&& words[0] == config.service.command@
                &&& forall|i: int|
                    0 <= i < config.service.args@.len() ==> words[i + 1]
                        == #[trigger] config.service.args@[i]@
            }
        },
{
    let words = command_line(config);
    let args = config.service.args@;
    assert forall|i: int| 0 <= i < args.len() implies words[i + 1] == #[trigger] args[i]@ by {
        assert(words[i + 1] == texts(args)[i]);
    }
    if config.service.command@.contains('\0') {
        assert(words[0].contains('\0'));
    }
    if exists|i: int| 0 <= i < args.len() && (#[trigger] args[i])@.contains('\0') {
        let i = choose|i: int| 0 <= i < args.len() && (#[trigger] args[i])@.contains('\0');
        assert(words[i + 1].contains('\0'));
    }
    if has_nul(words) {
        let k = choose|k: int| 0 <= k < words.len() && (#[trigger] words[k]).contains('\0');
        if k > 0 {
            assert(args[k - 1]@ == words[k - 1 + 1]);
        }
    }
    the_command_comes_last(config, context);
}

/// A service cannot be started exactly where its user or group is unknown or
/// some word of its command line holds a NUL; of the command alone, nothing is
/// said.
pub proof fn plans_fail_for_a_reason(config: ServiceConfig, context: ChildContext)
    ensures
        ({
            let identity = privilege_steps(
                config.service.user@,
                config.service.group@,
                context.user,
                context.group,
            );
            &&& child_plan(config, context) is Err <==> identity is Err || has_nul(
                command_line(config),
            )
            &&& child_plan(config, context) == Err::<Seq<Step>, Option<Text>>(None) <==> identity is Ok
                && config.service.command@.contains('\0')
            &&& identity matches Err(m) ==> child_plan(config, context) == Err::<
                Seq<Step>,
                Option<Text>,
            >(Some("failed to prepare environment: "@ + m))
            &&& identity is Ok && has_nul(command_line(config)) && !config.service.command@.contains(
                '\0',
            ) ==> child_plan(config, context) == Err::<Seq<Step>, Option<Text>>(
                Some("invalid argument"@),
            )
        }),
{
    if config.service.command@.contains('\0') {
        assert(command_line(config)[0].contains('\0'));
    }
}

/// A service finds its configured environment unchanged and in order, before
/// what Vigil adds: the supervisor's process; the name of the readiness signal
/// exactly where readiness is signalled; and exactly where it has sockets, their
/// number, its own process and the supervisor.
pub proof fn services_get_their_environment(
    config: ServiceConfig,
    supervisor_pid: i32,
    own_pid: u32,
    sockets: nat,
)
    ensures
        ({
            let env = environment_of(config, supervisor_pid, own_pid, sockets);
            let n = config.service.environment@.len() as int;
            let signals: int = if config.service.readiness.kind is Signal {
                1
            } else {
                0
            };
            &&& env.len() == n + 1 + signals + if sockets > 0 {
                3int
            } else {
                0int
            }
            &&& forall|i: int|
                0 <= i < n ==> env[i] == ((#[trigger] config.service.environment@[i]).0@, config.service.environment@[i].1@)
            &&& env[n] == ("VIGIL_SUPERVISOR_PID"@, signed_decimal(supervisor_pid as int))
            &&& signals == 1 ==> env[n + 1] == (
                "VIGIL_READY_SIGNAL"@,
                match config.service.readiness.signal {
                    Some(s) => s@,
                    None => "USR1"@,
                },
            )
            &&& sockets > 0 ==> {
                &&& env[n + 1 + signals] == ("LISTEN_FDS"@, decimal(sockets))
                &&& env[n + 2 + signals] == ("LISTEN_PID"@, decimal(own_pid as nat))
                &&& env[n + 3 + signals] == (
                    "VIGIL_SOCK"@,
                    "supervisor="@ + signed_decimal(supervisor_pid as int),
                )
            }
        }),
{
}

/// Whether every step of a part of a plan is in the plan.
spec fn holds_part(steps: Seq<Step>, part: Seq<Step>) -> bool {
    forall|k: int| 0 <= k < part.len() ==> steps.contains(#[trigger] part[k])
}

/// The parts of the plan.
proof fn lemma_plan_parts(config: ServiceConfig, context: ChildContext)
    requires
        child_plan(config, context) is Ok,
    ensures
        ({
            let steps = child_plan(config, context)->Ok_0;
            &&& holds_part(steps, descriptor_steps(config, context))
            &&& holds_part(
                steps,
                variable_steps(
                    environment_of(
                        config,
                        context.supervisor_pid,
                        context.own_pid,
                        context.listen_fds@.len(),
                    ),
                ),
            )
            &&& holds_part(steps, limit_steps(limits_of(config.service.resource_limits)))
            &&& holds_part(
                steps,
                give_up_steps(
                    privilege_steps(
                        config.service.user@,
                        config.service.group@,
                        context.user,
                        context.group,
                    )->Ok_0,
                ),
            )
            &&& config.service.working_dir matches Some(d) ==> steps.contains(Step::ChangeDir(d@))
            &&& steps.contains(Step::NewProcessGroup)
            &&& steps.contains(Step::UnblockSignals)
            &&& steps.contains(Step::DieWithSupervisor)
        }),
{
    let steps = child_plan(config, context)->Ok_0;
    let a = seq![Step::NewProcessGroup, Step::UnblockSignals];
    let b = descriptor_steps(config, context);
    let c = variable_steps(
        environment_of(
            config,
            context.supervisor_pid,
            context.own_pid,
            context.listen_fds@.len(),
        ),
    );
    let d = limit_steps(limits_of(config.service.resource_limits));
    let e = give_up_steps(
        privilege_steps(
            config.service.user@,
            config.service.group@,
            context.user,
            context.group,
        )->Ok_0,
    );
    let f = seq![Step::DieWithSupervisor];
    let g = match config.service.working_dir {
        Some(d) => seq![Step::ChangeDir(d@)],
        None => Seq::empty(),
    };
    let h = seq![Step::Exec(command_line(config))];
    lemma_parts(a, b, c, d, e, f, g, h);
    assert(steps == a + b + c + d + e + f + g + h);
    assert(steps.contains(a[0]));
    assert(steps.contains(a[1]));
    assert(steps.contains(f[0]));
    if config.service.working_dir is Some {
        assert(steps.contains(g[0]));
    }
}

proof fn lemma_parts(
    a: Seq<Step>,
    b: Seq<Step>,
    c: Seq<Step>,
    d: Seq<Step>,
    e: Seq<Step>,
    f: Seq<Step>,
    g: Seq<Step>,
    h: Seq<Step>,
)
    ensures
        ({
            let steps = a + b + c + d + e + f + g + h;
            &&& holds_part(steps, a)
            &&& holds_part(steps, b)
            &&& holds_part(steps, c)
            &&& holds_part(steps, d)
            &&& holds_part(steps, e)
            &&& holds_part(steps, f)
            &&& holds_part(steps, g)
        }),
{
    assert(holds_part(a, a));
    lemma_part_added(a, b, a);
    lemma_part_added(a + b, c, a);
    lemma_part_added(a + b + c, d, a);
    lemma_part_added(a + b + c + d, e, a);
    lemma_part_added(a + b + c + d + e, f, a);
    lemma_part_added(a + b + c + d + e + f, g, a);
    lemma_part_added(a + b + c + d + e + f + g, h, a);
    lemma_part_added(a, b, b);
    lemma_part_added(a + b, c, b);
    lemma_part_added(a + b + c, d, b);
    lemma_part_added(a + b + c + d, e, b);
    lemma_part_added(a + b + c + d + e, f, b);
    lemma_part_added(a + b + c + d + e + f, g, b);
    lemma_part_added(a + b + c + d + e + f + g, h, b);
    lemma_part_added(a + b, c, c);
    lemma_part_added(a + b + c, d, c);
    lemma_part_added(a + b + c + d, e, c);
    lemma_part_added(a + b + c + d + e, f, c);
    lemma_part_added(a + b + c + d + e + f, g, c);
    lemma_part_added(a + b + c + d + e + f + g, h, c);
    lemma_part_added(a + b + c, d, d);
    lemma_part_added(a + b + c + d, e, d);
    lemma_part_added(a + b + c + d + e, f, d);
    lemma_part_added(a + b + c + d + e + f, g, d);
    lemma_part_added(a + b + c + d + e + f + g, h, d);
    lemma_part_added(a + b + c + d, e, e);
    lemma_part_added(a + b + c + d + e, f, e);
    lemma_part_added(a + b + c + d + e + f, g, e);
    lemma_part_added(a + b + c + d + e + f + g, h, e);
    lemma_part_added(a + b + c + d + e, f, f);
    lemma_part_added(a + b + c + d + e + f, g, f);
    lemma_part_added(a + b + c + d + e + f + g, h, f);
    lemma_part_added(a + b + c + d + e + f, g, g);
    lemma_part_added(a + b + c + d + e + f + g, h, g);
}

/// What is added to a plan is in it, and nothing is lost.
proof fn lemma_part_added(steps: Seq<Step>, more: Seq<Step>, part: Seq<Step>)
    requires
        holds_part(steps, part) || more == part,
    ensures
        holds_part(steps + more, part),
{
    assert forall|k: int| 0 <= k < part.len() implies (steps + more).contains(#[trigger] part[k]) by {
        if more == part {
            assert((steps + more)[steps.len() + k] == part[k]);
        } else {
            assert(steps.contains(part[k]));
            let i = choose|i: int| 0 <= i < steps.len() && steps[i] == part[k];
            assert((steps + more)[i] == part[k]);
        }
    }
}

/// A service finds its environment and its sockets: every configured variable
/// is set to its value, its streams are redirected, and every socket is handed
/// over, with their number where there are any.
pub proof fn variables_and_sockets_are_handed_over(config: ServiceConfig, context: ChildContext)
    ensures
        child_plan(config, context) matches Ok(steps) ==> {
            &&& forall|k: int|
                0 <= k < config.service.environment@.len() ==> steps.contains(
                    Step::SetVariable(
                        (#[trigger] config.service.environment@[k]).0@,
                        config.service.environment@[k].1@,
                    ),
                )
            &&& steps.contains(
                Step::SetVariable(
                    "VIGIL_SUPERVISOR_PID"@,
                    signed_decimal(context.supervisor_pid as int),
                ),
            )
            &&& context.listen_fds@.len() > 0 ==> steps.contains(
                Step::SetVariable("LISTEN_FDS"@, decimal(context.listen_fds@.len())),
            )
            &&& forall|k: int|
                0 <= k < context.listen_fds@.len() ==> steps.contains(
                    Step::Relocate(fd_step(#[trigger] context.listen_fds@[k], k)),
                )
        },
{
    if child_plan(config, context) is Ok {
        let steps = child_plan(config, context)->Ok_0;
        let n = config.service.environment@.len() as int;
        let env = environment_of(
            config,
            context.supervisor_pid,
            context.own_pid,
            context.listen_fds@.len(),
        );
        lemma_plan_parts(config, context);
        services_get_their_environment(
            config,
            context.supervisor_pid,
            context.own_pid,
            context.listen_fds@.len(),
        );
        let c = variable_steps(env);
        assert forall|k: int| 0 <= k < n implies steps.contains(
            Step::SetVariable(
                (#[trigger] config.service.environment@[k]).0@,
                config.service.environment@[k].1@,
            ),
        ) by {
            assert(steps.contains(c[k]));
        }
        assert(steps.contains(c[n]));
        if context.listen_fds@.len() > 0 {
            let s = one_if(config.service.readiness.kind is Signal);
            assert(steps.contains(c[n + 1 + s]));
        }
        let b = descriptor_steps(config, context);
        let p = one_if(context.has_pipe);
        assert forall|k: int| 0 <= k < context.listen_fds@.len() implies steps.contains(
            Step::Relocate(fd_step(#[trigger] context.listen_fds@[k], k)),
        ) by {
            assert(b[3 + p + k] == Step::Relocate(fd_step(context.listen_fds@[k], k)));
            assert(steps.contains(b[3 + p + k]));
        }
    }
}

/// A service runs within its limits, under its user and in its directory: every
/// configured limit is set, the user is changed unless it is `root`, and the
/// directory where one is configured.
pub proof fn limits_and_identity_are_applied(config: ServiceConfig, context: ChildContext)
    ensures
        child_plan(config, context) matches Ok(steps) ==> {
            let limits = config.service.resource_limits;
            &&& limits.max_files matches Some(n) ==> steps.contains(
                Step::SetLimit(Limit::OpenFiles, n),
            )
            &&& limits.max_procs matches Some(n) ==> steps.contains(
                Step::SetLimit(Limit::Processes, n),
            )
            &&& (limits.max_memory_mb is Some && limits.max_memory_mb->0 <= 0xfff_ffff_ffff)
                ==> steps.contains(
                Step::SetLimit(
                    Limit::AddressSpace,
                    (limits.max_memory_mb->0 * 1048576) as u64,
                ),
            )
            &&& config.service.user@ != "root"@ ==> steps.contains(
                Step::GiveUp(PrivilegeStep::SetUid(context.user->0.uid)),
            )
            &&& config.service.working_dir matches Some(d) ==> steps.contains(Step::ChangeDir(d@))
            &&& steps.contains(Step::DieWithSupervisor)
        },
{
    if child_plan(config, context) is Ok {
        let steps = child_plan(config, context)->Ok_0;
        lemma_plan_parts(config, context);
        let l = config.service.resource_limits;
        limits_are_set_as_configured(l);
        if l.max_files is Some {
            lemma_limit_step(steps, limits_of(l), (Limit::OpenFiles, l.max_files->0));
        }
        if l.max_procs is Some {
            lemma_limit_step(steps, limits_of(l), (Limit::Processes, l.max_procs->0));
        }
        if l.max_memory_mb is Some && l.max_memory_mb->0 <= 0xfff_ffff_ffff {
            let v = (l.max_memory_mb->0 * 1048576) as u64;
            assert(limits_of(l).contains((Limit::AddressSpace, v)));
            lemma_limit_step(steps, limits_of(l), (Limit::AddressSpace, v));
        }
        if config.service.user@ != "root"@ {
            the_user_changes_last(
                config.service.user@,
                config.service.group@,
                context.user,
                context.group,
            );
            let privileges = privilege_steps(
                config.service.user@,
                config.service.group@,
                context.user,
                context.group,
            )->Ok_0;
            let k = privileges.len() - 1;
            assert(steps.contains(give_up_steps(privileges)[k]));
        }
    }
}

proof fn lemma_limit_step(steps: Seq<Step>, limits: Seq<(Limit, u64)>, l: (Limit, u64))
    requires
        holds_part(steps, limit_steps(limits)),
        limits.contains(l),
    ensures
        steps.contains(Step::SetLimit(l.0, l.1)),
{
    let k = choose|k: int| 0 <= k < limits.len() && limits[k] == l;
    assert(steps.contains(limit_steps(limits)[k]));
}

/// Exactly the limits that are configured are set, each once and to its value;
/// one on memory is configured in mebibytes and set in bytes.
pub proof fn limits_are_set_as_configured(limits: ResourceLimits)
    ensures
        limits_of(limits).no_duplicates(),
        forall|v: u64| #[trigger]
            limits_of(limits).contains((Limit::OpenFiles, v)) <==> limits.max_files == Some(v),
        forall|v: u64| #[trigger]
            limits_of(limits).contains((Limit::Processes, v)) <==> limits.max_procs == Some(v),
        forall|v: u64| #[trigger]
            limits_of(limits).contains((Limit::AddressSpace, v)) <==> {
                &&& limits.max_memory_mb is Some
                &&& v == if limits.max_memory_mb->0 <= 0xfff_ffff_ffff {
                    limits.max_memory_mb->0 * 1048576
                } else {
                    u64::MAX as int
                }
            },
{
    let all = limits_of(limits);
    let f: int = if limits.max_files is Some {
        1
    } else {
        0
    };
    let p: int = if limits.max_procs is Some {
        1
    } else {
        0
    };
    let m: int = if limits.max_memory_mb is Some {
        1
    } else {
        0
    };
    assert(all.len() == f + p + m);
    if limits.max_files is Some {
        assert(all[0] == (Limit::OpenFiles, limits.max_files->0));
    }
    if limits.max_procs is Some {
        assert(all[f] == (Limit::Processes, limits.max_procs->0));
    }
    if limits.max_memory_mb is Some {
        assert(all[f + p] == (Limit::AddressSpace, mebibytes(limits.max_memory_mb->0)));
    }
}

/// A size in mebibytes is so many times 1048576 bytes, for every size that can
/// be written in bytes, and as much as can be written for the others.
pub proof fn mebibytes_are_exact(mb: u64)
    ensures
        mb <= 0xfff_ffff_ffff ==> mebibytes(mb) == mb * 1048576,
        mb > 0xfff_ffff_ffff ==> mebibytes(mb) == u64::MAX,
        mb <= 0xfff_ffff_ffff ==> mebibytes(mb) / 1048576 == mb,
{
}

/// A service runs under the identity that is configured: it keeps all its
/// privileges only as `root` of group `root`; otherwise it takes the group that
/// is configured, or the user's own where that is `root`, before the user. A
/// name that no database knows stops it.
pub proof fn identities_are_taken_as_configured(
    user_name: Text,
    group_name: Text,
    user: Option<UserEntry>,
    group: Option<u32>,
)
    ensures
        ({
            let steps = privilege_steps(user_name, group_name, user, group);
            let other_user = user_name != "root"@;
            let other_group = group_name != "root"@;
            &&& !other_user && !other_group ==> steps == Ok::<Seq<PrivilegeStep>, Text>(Seq::empty())
            &&& other_user && user is None ==> steps == Err::<Seq<PrivilegeStep>, Text>(
                "user '"@ + user_name + "' not found"@,
            )
            &&& other_group && group is None && !(other_user && user is None) ==> steps == Err::<
                Seq<PrivilegeStep>,
                Text,
            >("group '"@ + group_name + "' not found"@)
            &&& (steps is Ok && !other_user && other_group) ==> {
                &&& steps->Ok_0.len() == 1
                &&& steps->Ok_0[0] == PrivilegeStep::SetGid(group->0)
            }
            &&& (steps is Ok && other_user) ==> {
                let gid = if other_group {
                    group->0
                } else {
                    user->0.primary_gid
                };
                &&& steps->Ok_0.len() == 3
                &&& steps->Ok_0[0] == PrivilegeStep::InitGroups(gid)
                &&& steps->Ok_0[1] == PrivilegeStep::SetGid(gid)
                &&& steps->Ok_0[2] == PrivilegeStep::SetUid(user->0.uid)
            }
            &&& (!other_user || user is Some) && (!other_group || group is Some)
                && !user_name.contains('\0') ==> steps is Ok
            &&& other_user && user is Some && (!other_group || group is Some)
                && user_name.contains('\0') ==> steps == Err::<Seq<PrivilegeStep>, Text>(
                "user name contains NUL"@,
            )
        }),
{
    reveal_strlit("root");
    assert(!"root"@.contains('\0'));
}

/// A stream that is logged goes to the log pipe where there is one, and never
/// to the terminal; standard error follows standard output exactly where that
/// is asked for.
pub proof fn streams_go_where_they_are_sent(target: OutputTarget, is_stderr: bool, has_pipe: bool)
    ensures
        ({
            let r = redirect_of(target, is_stderr, has_pipe);
            &&& r is LogPipe <==> has_pipe && (target is Log || target is Syslog)
            &&& r is DevNull <==> target is Null || (!has_pipe && (target is Log || target is Syslog))
            &&& r is CopyStdout <==> is_stderr && target is Stdout
            &&& r is Keep <==> !is_stderr && target is Stdout
            &&& is_logged(target) <==> redirect_of(target, is_stderr, true) is LogPipe
        }),
{
}

/// A log goes to the configured path; without one, to the service's own
/// directory under the log directory, into `current`, and to `/dev/log`. The
/// directory of a configured log file is where its name is taken off.
pub proof fn logs_go_where_they_are_configured(
    logging: LoggingConfig,
    log_dir: Text,
    name: Text,
    dir: Text,
    file: Text,
)
    ensures
        logging.path is None ==> {
            &&& log_base(logging, log_dir, name) == joined(log_dir, name)
            &&& log_file(logging, log_dir, name) == joined(
                log_base(logging, log_dir, name),
                "current"@,
            )
            &&& syslog_socket(logging) == "/dev/log"@
        },
        logging.path matches Some(p) ==> {
            &&& logging.kind is File ==> log_base(logging, log_dir, name) == match parent_of(p@) {
                Some(d) => d,
                None => joined(log_dir, name),
            }
            &&& log_file(logging, log_dir, name) == p@
            &&& syslog_socket(logging) == p@
            &&& !(logging.kind is File) ==> log_base(logging, log_dir, name) == p@
            &&& (logging.kind is File && p@ == joined(dir, file) && file.len() > 0 && !file.contains(
                '/',
            ) && file != "."@ && dir.len() > 0 && dir.last() != '/' && without_idle(
                dir,
                body_start(dir),
            ) == dir) ==> log_base(logging, log_dir, name) == dir
        },
{
    if logging.path matches Some(p) && logging.kind is File && p@ == joined(dir, file) && file.len()
        > 0 && !file.contains('/') && file != "."@ && dir.len() > 0 && dir.last() != '/'
        && without_idle(dir, body_start(dir)) == dir {
        parent_undoes_join(dir, file);
    }
}

/// A service has a log writer unless its logging is `none`, and the log writer
/// is told the service's name; one for syslog is told where to write what the
/// daemon does not take, and the daemon's socket.
pub proof fn log_writers_are_told_their_service(config: ServiceConfig, log_dir: Text, name: Text)
    ensures
        logger_arguments(config, log_dir, name) is Some <==> !(config.logging.kind is NoLog),
        logger_arguments(config, log_dir, name) matches Some(args) ==> args.len() >= 4 && args[1]
            == name,
        config.logging.kind is Syslog ==> {
            let args = logger_arguments(config, log_dir, name)->0;
            &&& args.len() == 4
            &&& args[0] == "syslog"@
            &&& args[2] == log_base(config.logging, log_dir, name)
            &&& args[3] == match config.logging.path {
                Some(p) => p@,
                None => "/dev/log"@,
            }
        },
{
}

/// A CPU weight is the share of 9999 parts in 2^18 that the shares make up,
/// rounded down and counted from 1, until it reaches 10000.
pub proof fn weights_are_proportional(shares: u64)
    ensures
        ({
            let w = weight_of(shares as int);
            &&& shares < 262144 ==> (w - 1) * 262144 <= shares * 9999 < w * 262144
            &&& shares >= 262144 ==> w == 10000
            &&& 1 <= w <= 10000
        }),
{
    let x = shares * 9999;
    let q = x / 262144;
    assert(q * 262144 <= x < (q + 1) * 262144);
}

/// The finish script of a service lies beside its configuration file, in a
/// directory of its name; its cgroup bears that name too.
pub proof fn finish_scripts_lie_beside_the_configuration(service: Text, dir: Text, file: Text)
    requires
        file.len() > 0,
        !file.contains('/'),
        file != "."@,
        dir.len() > 0,
        dir.last() != '/',
        without_idle(dir, body_start(dir)) == dir,
    ensures
        finish_script(service, joined(dir, file)) == joined(joined(dir, service), "finish"@),
        cgroup_of(service) == "/sys/fs/cgroup/vigil-"@ + service + ".scope"@,
{
    parent_undoes_join(dir, file);
}

/// A supervisor that is told no directories uses the standard ones, and it
/// learns its service and the configuration file from the first words.
pub proof fn supervisors_have_standard_directories(words: Seq<Text>, a: SuperviseArgs)
    requires
        words.len() >= 3,
        says_to_supervisor(words, a),
    ensures
        a.service_name@ == words[1],
        a.config_path@ == words[2],
        words.len() == 3 ==> a.log_dir@ == "/var/log/vigil"@,
        words.len() <= 4 ==> a.supervise_dir@ == "/run/vigil/supervise"@,
        words.len() > 3 ==> a.log_dir@ == words[3],
        words.len() > 4 ==> a.supervise_dir@ == words[4],
{
}

/// A descriptor ends in the place that its socket is told, 3 for the first, and
/// only one that is elsewhere is moved.
pub proof fn descriptors_move_to_their_places(fd: i32, i: int)
    requires
        0 <= i <= i32::MAX - 3,
    ensures
        match fd_step(fd, i) {
            FdStep::Move { from, to } => from == fd && to == 3 + i && from != to,
            FdStep::Keep(at) => at == fd && fd == 3 + i,
        },
{
}

/// The listen specs of a service are its listen entries, each in its place; a
/// service without sockets has none.
pub proof fn every_listen_entry_is_bound(config: ServiceConfig)
    ensures
        config.socket is None ==> listen_specs(config).len() == 0,
        config.socket matches Some(sock) ==> {
            &&& listen_specs(config).len() == sock.listen@.len()
            &&& forall|i: int|
                0 <= i < sock.listen@.len() ==> listen_specs(config)[i] == #[trigger] sock.listen@[i]@
        },
{
}

/// The plan has its order: the streams are set up first, output before error,
/// so that error can follow output, and input last; then the log pipe is closed.
/// It holds one step for each thing that is to be done and none besides.
pub proof fn plans_hold_nothing_else(config: ServiceConfig, context: ChildContext)
    ensures
        child_plan(config, context) matches Ok(steps) ==> {
            let limits = config.service.resource_limits;
            &&& steps[0] == Step::NewProcessGroup
            &&& steps[1] == Step::UnblockSignals
            &&& steps[2] == Step::Redirect(
                1,
                redirect_of(config.service.stdout, false, context.has_pipe),
            )
            &&& steps[3] == Step::Redirect(
                2,
                redirect_of(config.service.stderr, true, context.has_pipe),
            )
            &&& steps[4] == Step::Redirect(0, Redirect::DevNull)
            &&& context.has_pipe ==> steps[5] == Step::ClosePipe
            &&& steps.len() == 8 + one_if(context.has_pipe) + context.listen_fds@.len()
                + config.service.environment@.len() + one_if(
                config.service.readiness.kind is Signal,
            ) + 3 * one_if(context.listen_fds@.len() > 0) + one_if(limits.max_files is Some)
                + one_if(limits.max_procs is Some) + one_if(limits.max_memory_mb is Some) + 3
                * one_if(config.service.user@ != "root"@) + one_if(
                config.service.user@ == "root"@ && config.service.group@ != "root"@,
            ) + one_if(config.service.working_dir is Some)
        },
{
    if child_plan(config, context) is Ok {
        let steps = child_plan(config, context)->Ok_0;
        let env = environment_of(
            config,
            context.supervisor_pid,
            context.own_pid,
            context.listen_fds@.len(),
        );
        let privileges = privilege_steps(
            config.service.user@,
            config.service.group@,
            context.user,
            context.group,
        )->Ok_0;
        let limits = limits_of(config.service.resource_limits);
        let g = match config.service.working_dir {
            Some(d) => seq![Step::ChangeDir(d@)],
            None => Seq::empty(),
        };
        lemma_plan_length(
            descriptor_steps(config, context),
            variable_steps(env),
            limit_steps(limits),
            give_up_steps(privileges),
            g,
            seq![Step::Exec(command_line(config))],
        );
        assert(env.len() == config.service.environment@.len() + 1 + one_if(
            config.service.readiness.kind is Signal,
        ) + 3 * one_if(context.listen_fds@.len() > 0)) by {
            services_get_their_environment(
                config,
                context.supervisor_pid,
                context.own_pid,
                context.listen_fds@.len(),
            );
        }
        assert(privileges.len() == 3 * one_if(config.service.user@ != "root"@) + one_if(
            config.service.user@ == "root"@ && config.service.group@ != "root"@,
        )) by {
            identities_are_taken_as_configured(
                config.service.user@,
                config.service.group@,
                context.user,
                context.group,
            );
        }
        lemma_descriptor_steps(config, context);
        assert(limits.len() == one_if(config.service.resource_limits.max_files is Some) + one_if(
            config.service.resource_limits.max_procs is Some,
        ) + one_if(config.service.resource_limits.max_memory_mb is Some));
    }
}

proof fn lemma_descriptor_steps(config: ServiceConfig, context: ChildContext)
    ensures
        ({
            let b = descriptor_steps(config, context);
            &&& b.len() == 3 + one_if(context.has_pipe) + context.listen_fds@.len()
            &&& b[0] == Step::Redirect(
                1,
                redirect_of(config.service.stdout, false, context.has_pipe),
            )
            &&& b[1] == Step::Redirect(
                2,
                redirect_of(config.service.stderr, true, context.has_pipe),
            )
            &&& b[2] == Step::Redirect(0, Redirect::DevNull)
            &&& context.has_pipe ==> b[3] == Step::ClosePipe
        }),
{
}

/// How long the plan of these parts is, and how it begins.
proof fn lemma_plan_length(
    b: Seq<Step>,
    c: Seq<Step>,
    d: Seq<Step>,
    e: Seq<Step>,
    g: Seq<Step>,
    h: Seq<Step>,
)
    ensures
        ({
            let steps = seq![Step::NewProcessGroup, Step::UnblockSignals] + b + c + d + e
                + seq![Step::DieWithSupervisor] + g + h;
            &&& steps.len() == 3 + b.len() + c.len() + d.len() + e.len() + g.len() + h.len()
            &&& steps[0] == Step::NewProcessGroup
            &&& steps[1] == Step::UnblockSignals
            &&& b.len() > 0 ==> steps[2] == b[0]
            &&& b.len() > 1 ==> steps[3] == b[1]
            &&& b.len() > 2 ==> steps[4] == b[2]
            &&& b.len() > 3 ==> steps[5] == b[3]
        }),
{
}

/// How many steps something takes that is done or not.
pub open spec fn one_if(done: bool) -> int {
    if done {
        1
    } else {
        0
    }
}

/// Nothing of a step is lost in what is said of it.
pub proof fn child_steps_are_said_in_full(v: Seq<ChildStep>, i: int)
    requires
        0 <= i < v.len(),
    ensures
        child_steps(v).len() == v.len(),
        match v[i] {
            ChildStep::NewProcessGroup => child_steps(v)[i] is NewProcessGroup,
            ChildStep::UnblockSignals => child_steps(v)[i] is UnblockSignals,
            ChildStep::Redirect(fd, r) => child_steps(v)[i] == Step::Redirect(fd, r),
            ChildStep::ClosePipe => child_steps(v)[i] is ClosePipe,
            ChildStep::Relocate(s) => child_steps(v)[i] == Step::Relocate(s),
            ChildStep::SetVariable(k, x) => child_steps(v)[i] == Step::SetVariable(k@, x@),
            ChildStep::SetLimit(l, n) => child_steps(v)[i] == Step::SetLimit(l, n),
            ChildStep::GiveUp(p) => child_steps(v)[i] == Step::GiveUp(p),
            ChildStep::DieWithSupervisor => child_steps(v)[i] is DieWithSupervisor,
            ChildStep::ChangeDir(d) => child_steps(v)[i] == Step::ChangeDir(d@),
            ChildStep::Exec(w) => child_steps(v)[i] is Exec && child_steps(v)[i]->Exec_0.len()
                == w@.len() && forall|k: int|
                0 <= k < w@.len() ==> child_steps(v)[i]->Exec_0[k] == #[trigger] w@[k]@,
        },
{
}

/// What is said of a NUL tells where it was found.
pub proof fn nul_messages_tell_where(what: Text)
    ensures
        nul_message(what) == what + " contains a NUL byte"@,
{
}

/// Wherever a configuration file lies, the finish script of its service lies
/// below the same directory.
pub proof fn finish_scripts_follow_the_configuration(service: Text, a: Text, b: Text)
    requires
        parent_of(a) == parent_of(b),
    ensures
        finish_script(service, a) == finish_script(service, b),
        parent_of(a) matches Some(dir) ==> finish_script(service, a) == joined(
            joined(dir, service),
            "finish"@,
        ),
        parent_of(a) is None ==> finish_script(service, a) == joined(
            joined("/etc/vigil/services"@, service),
            "finish"@,
        ),
{
}

} // verus!
