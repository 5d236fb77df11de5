//! Configuration: what the TOML files under `/etc/vigil` say, and the values
//! that hold where they say nothing.

use vstd::prelude::*;

verus! {

/// `/etc/vigil/vigil.toml`.
#[derive(Debug, Clone)]
pub struct GlobalConfig {
    pub service_dir: String,
    pub target_dir: String,
    pub control_socket: String,
    pub log_dir: String,
    pub runtime_dir: String,
    pub default_target: String,
    pub hostname: Option<String>,
}

impl Default for GlobalConfig {
    fn default() -> (r: Self)
        ensures
            r.service_dir@ == "/etc/vigil/services"@,
            r.target_dir@ == "/etc/vigil/targets"@,
            r.control_socket@ == "/run/vigil/control.sock"@,
            r.log_dir@ == "/var/log/vigil"@,
            r.runtime_dir@ == "/run/vigil"@,
            r.default_target@ == crate::DEFAULT_TARGET@,
            r.hostname is None,
    {
        GlobalConfig {
            service_dir: "/etc/vigil/services".to_string(),
            target_dir: "/etc/vigil/targets".to_string(),
            control_socket: "/run/vigil/control.sock".to_string(),
            log_dir: "/var/log/vigil".to_string(),
            runtime_dir: "/run/vigil".to_string(),
            default_target: crate::DEFAULT_TARGET.to_string(),
            hostname: None,
        }
    }
}

/// One service file.
#[derive(Debug, Clone)]
pub struct ServiceConfig {
    pub service: ServiceSpec,
    pub dependencies: Vec<DependencyConfig>,
    pub logging: LoggingConfig,
    pub socket: Option<SocketConfig>,
}

/// `[service]`.
#[derive(Debug, Clone)]
pub struct ServiceSpec {
    pub command: String,
    pub args: Vec<String>,
    pub user: String,
    pub group: String,
    pub working_dir: Option<String>,
    pub environment: Vec<(String, String)>,
    pub description: String,
    pub restart: RestartConfig,
    pub readiness: ReadinessConfig,
    pub shutdown: ShutdownConfig,
    pub resource_limits: ResourceLimits,
    pub stdout: OutputTarget,
    pub stderr: OutputTarget,
}

pub fn default_user() -> (r: String)
    ensures
        r@ == "root"@,
{
    "root".to_string()
}

pub fn default_group() -> (r: String)
    ensures
        r@ == "root"@,
{
    "root".to_string()
}

/// `[service.restart]`, without the backoff multiplier: the factor is a
/// fraction, and the supervisor program applies it between two attempts.
#[derive(Debug, Clone, Copy, PartialEq, Eq, Structural)]
pub struct RestartConfig {
    pub policy: RestartPolicy,
    pub max_restarts: u32,
    pub backoff_initial_ms: u64,
    pub backoff_max_ms: u64,
}

impl Default for RestartConfig {
    fn default() -> (r: Self)
        ensures
            r.policy == RestartPolicy::Always,
            r.max_restarts == 10,
            r.backoff_initial_ms == 1000,
            r.backoff_max_ms == 30000,
    {
        RestartConfig {
            policy: default_restart_policy(),
            max_restarts: default_max_restarts(),
            backoff_initial_ms: default_backoff_ms(),
            backoff_max_ms: default_backoff_max_ms(),
        }
    }
}

pub fn default_restart_policy() -> (r: RestartPolicy)
    ensures
        r == RestartPolicy::Always,
{
    RestartPolicy::Always
}

pub fn default_max_restarts() -> (r: u32)
    ensures
        r == 10,
{
    10
}

pub fn default_backoff_ms() -> (r: u64)
    ensures
        r == 1000,
{
    1000
}

pub fn default_backoff_max_ms() -> (r: u64)
    ensures
        r == 30000,
{
    30000
}

/// When a service that went down is started again.
#[derive(Debug, Clone, Copy, PartialEq, Eq, Structural)]
pub enum RestartPolicy {
    Always,
    OnFailure,
    OnAbnormal,
    Never,
}

/// `[service.readiness]`.
#[derive(Debug, Clone)]
pub struct ReadinessConfig {
    pub kind: ReadinessType,
    pub timeout_ms: Option<u64>,
    pub signal: Option<String>,
    pub check: Option<String>,
}

impl Default for ReadinessConfig {
    fn default() -> (r: Self)
        ensures
            r.kind == ReadinessType::NoCheck,
            r.timeout_ms is None,
            r.signal is None,
            r.check is None,
    {
        ReadinessConfig {
            kind: default_readiness_type(),
            timeout_ms: None,
            signal: None,
            check: None,
        }
    }
}

impl ReadinessConfig {
    /// The name of the readiness signal: the configured one, else `USR1`.
    pub open spec fn ready_signal_name(&self) -> Seq<char> {
        match self.signal {
            Some(s) => s@,
            None => "USR1"@,
        }
    }

    /// The signal that a service with `signal` readiness raises.
    pub fn ready_signal(&self) -> (r: &str)
        ensures
            r@ == self.ready_signal_name(),
    {
        match &self.signal {
            Some(s) => s.as_str(),
            None => "USR1",
        }
    }
}

pub fn default_readiness_type() -> (r: ReadinessType)
    ensures
        r == ReadinessType::NoCheck,
{
    ReadinessType::NoCheck
}

/// How the supervisor learns that a service is ready.
#[derive(Debug, Clone, Copy, PartialEq, Eq, Structural)]
pub enum ReadinessType {
    /// `none`: ready as soon as it runs.
    NoCheck,
    Pid,
    Signal,
    Exec,
    Socket,
}

impl Default for ReadinessType {
    fn default() -> (r: Self)
        ensures
            r == ReadinessType::NoCheck,
    {
        ReadinessType::NoCheck
    }
}

/// `[service.shutdown]`.
#[derive(Debug, Clone)]
pub struct ShutdownConfig {
    pub signal: String,
    pub timeout_ms: u64,
    pub kill_signal: String,
}

impl Default for ShutdownConfig {
    fn default() -> (r: Self)
        ensures
            r.signal@ == "TERM"@,
            r.timeout_ms == 5000,
            r.kill_signal@ == "KILL"@,
    {
        ShutdownConfig {
            signal: default_shutdown_signal(),
            timeout_ms: default_shutdown_timeout(),
            kill_signal: default_kill_signal(),
        }
    }
}

pub fn default_shutdown_signal() -> (r: String)
    ensures
        r@ == "TERM"@,
{
    "TERM".to_string()
}

pub fn default_shutdown_timeout() -> (r: u64)
    ensures
        r == 5000,
{
    5000
}

pub fn default_kill_signal() -> (r: String)
    ensures
        r@ == "KILL"@,
{
    "KILL".to_string()
}

/// `[service.resource_limits]`.
#[derive(Debug, Clone, Copy, PartialEq, Eq)]
pub struct ResourceLimits {
    pub max_files: Option<u64>,
    pub max_procs: Option<u64>,
    pub max_memory_mb: Option<u64>,
    pub cpu_shares: Option<u64>,
}

impl Default for ResourceLimits {
    fn default() -> (r: Self)
        ensures
            r.max_files is None,
            r.max_procs is None,
            r.max_memory_mb is None,
            r.cpu_shares is None,
    {
        ResourceLimits { max_files: None, max_procs: None, max_memory_mb: None, cpu_shares: None }
    }
}

/// Where one output stream of a service goes.
#[derive(Debug, Clone, Copy, PartialEq, Eq, Structural)]
pub enum OutputTarget {
    Log,
    Null,
    Stdout,
    Syslog,
}

impl Default for OutputTarget {
    fn default() -> (r: Self)
        ensures
            r == OutputTarget::Log,
    {
        OutputTarget::Log
    }
}

/// One `[[dependencies]]` entry.
#[derive(Debug, Clone)]
pub struct DependencyConfig {
    pub service: String,
    pub kind: DependencyType,
    pub required: bool,
}

pub fn default_dep_type() -> (r: DependencyType)
    ensures
        r == DependencyType::After,
{
    DependencyType::After
}

pub fn default_dep_required() -> (r: bool)
    ensures
        r,
{
    true
}

/// `after` and `before` order two services; `wants` pulls one in.
#[derive(Debug, Clone, Copy, PartialEq, Eq, Structural)]
pub enum DependencyType {
    After,
    Before,
    Wants,
}

/// `[logging]`.
#[derive(Debug, Clone)]
pub struct LoggingConfig {
    pub kind: LogType,
    pub path: Option<String>,
    pub max_size_mb: u64,
    pub max_files: u32,
    pub timestamp: bool,
}

/// The logging of a service file without a `[logging]` table. The sizes are
/// zero here, which means no rotation by size; the fields left out of a
/// `[logging]` table that is present take `default_log_max_size` and
/// `default_log_max_files`.
impl Default for LoggingConfig {
    fn default() -> (r: Self)
        ensures
            r.kind == LogType::Pipe,
            r.path is None,
            r.max_size_mb == 0,
            r.max_files == 0,
            !r.timestamp,
    {
        LoggingConfig {
            kind: default_log_type(),
            path: None,
            max_size_mb: 0,
            max_files: 0,
            timestamp: false,
        }
    }
}

pub fn default_log_type() -> (r: LogType)
    ensures
        r == LogType::Pipe,
{
    LogType::Pipe
}

pub fn default_log_max_size() -> (r: u64)
    ensures
        r == 10,
{
    10
}

pub fn default_log_max_files() -> (r: u32)
    ensures
        r == 5,
{
    5
}

/// The kinds of log writer.
#[derive(Debug, Clone, Copy, PartialEq, Eq, Structural)]
pub enum LogType {
    Pipe,
    File,
    Syslog,
    /// `none`: the output is discarded.
    NoLog,
}

impl Default for LogType {
    fn default() -> (r: Self)
        ensures
            r == LogType::Pipe,
    {
        LogType::Pipe
    }
}

/// `[socket]`.
#[derive(Debug, Clone)]
pub struct SocketConfig {
    pub listen: Vec<String>,
    pub socket_type: String,
}

impl SocketConfig {
    /// The protocol of the listen specs that carry no prefix.
    pub fn proto(&self) -> (r: &str)
        ensures
            r@ == self.socket_type@,
    {
        self.socket_type.as_str()
    }
}

pub fn default_socket_type() -> (r: String)
    ensures
        r@ == "tcp"@,
{
    "tcp".to_string()
}

/// One target file. A service name occurs at most once in `services`; of
/// several entries for one name the first one counts.
#[derive(Debug, Clone)]
pub struct TargetConfig {
    pub target: TargetSpec,
    pub services: Vec<(String, TargetServiceEntry)>,
}

/// `[target]`.
#[derive(Debug, Clone)]
pub struct TargetSpec {
    pub description: String,
    pub requires: Vec<String>,
}

/// One entry of a target's `[services]` table.
#[derive(Debug, Clone, Copy, PartialEq, Eq, Structural)]
pub struct TargetServiceEntry {
    pub enabled: bool,
    pub optional: bool,
}

impl Default for TargetServiceEntry {
    fn default() -> (r: Self)
        ensures
            !r.enabled,
            !r.optional,
    {
        TargetServiceEntry { enabled: false, optional: false }
    }
}

/// What `enabled` is in an entry that does not say.
pub fn default_true() -> (r: bool)
    ensures
        r,
{
    true
}

} // verus!
