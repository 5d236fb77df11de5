//! The decision logic of the Vigil init system: configuration rules, the
//! dependency graph, boot targets, the control-plane protocol, the service
//! manager, the per-service supervisor and the log writer. Everything here
//! computes on plain values; the programs around it perform the system calls.

use vstd::prelude::*;

pub mod config;
pub mod ctl;
pub mod dep;
pub mod init;
pub mod launch;
pub mod logtail;
pub mod path;
pub mod protocol;
pub mod readiness;
pub mod rotate;
pub mod scanner;
pub mod signals;
pub mod sockspec;
pub mod supervisor;
pub mod target;
pub mod text;

verus! {

pub const VIGIL_SERVICE_DIR: &'static str = "/etc/vigil/services";

pub const VIGIL_TARGET_DIR: &'static str = "/etc/vigil/targets";

pub const VIGIL_CONTROL_SOCKET: &'static str = "/run/vigil/control.sock";

pub const VIGIL_LOG_DIR: &'static str = "/var/log/vigil";

pub const VIGIL_RUNTIME_DIR: &'static str = "/run/vigil";

pub const VIGIL_SUPERVISE_DIR: &'static str = "/run/vigil/supervise";

pub const DEFAULT_TARGET: &'static str = "default";

/// Environment variable that points `vigil-ctl` at another control socket, and
/// that names its supervisor to a socket-activated service.
pub const SUPERVISOR_SOCKET_ENV: &'static str = "VIGIL_SOCK";

/// Environment variable with the process id of a service's supervisor.
pub const SUPERVISOR_PID_ENV: &'static str = "VIGIL_SUPERVISOR_PID";

/// Environment variable with the signal a service raises once it is ready.
pub const READY_SIGNAL_ENV: &'static str = "VIGIL_READY_SIGNAL";

/// Environment variable with the number of inherited listening descriptors.
pub const LISTEN_FDS_ENV: &'static str = "LISTEN_FDS";

/// Environment variable with the process the descriptors are meant for.
pub const LISTEN_PID_ENV: &'static str = "LISTEN_PID";

/// The first inherited listening descriptor.
pub const LISTEN_FDS_START: i32 = 3;

} // verus!
