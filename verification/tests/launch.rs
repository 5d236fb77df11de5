use vigil::config::{
    LogType, LoggingConfig, OutputTarget, ReadinessConfig, ReadinessType, ResourceLimits,
    RestartConfig, ServiceConfig, ServiceSpec, ShutdownConfig, SocketConfig,
};
use vigil::launch::{
    apply_resource_limits, cpu_plan, drop_privileges, dup_stdio, finish_environment, finish_path,
    logger_args, needs_log_pipe, next_listen, relocate_fds, resolve_log_base, resolve_log_file,
    resolve_syslog_socket, run_service_child, service_argv, service_environment, shares_to_weight,
    status_files, supervise_args, to_cstring, ChildContext, ChildStep, FdStep, Limit,
    PrivilegeStep, Redirect, UserEntry,
};
use vigil::rotate::{logger_mode, FileSink, LoggerArgs};
use vigil::sockspec::{IpAddr, Ipv4Addr, ListenSpec, SocketAddr};
use vigil::supervisor::RecordedState;

fn service() -> ServiceConfig {
    ServiceConfig {
        service: ServiceSpec {
            command: "/usr/bin/sshd".to_string(),
            args: vec!["-D".to_string()],
            user: "root".to_string(),
            group: "root".to_string(),
            working_dir: None,
            environment: vec![("LANG".to_string(), "C.UTF-8".to_string())],
            description: "Secure shell daemon".to_string(),
            restart: RestartConfig::default(),
            readiness: ReadinessConfig::default(),
            shutdown: ShutdownConfig::default(),
            resource_limits: ResourceLimits::default(),
            stdout: OutputTarget::Log,
            stderr: OutputTarget::Log,
        },
        dependencies: vec![],
        logging: LoggingConfig::default(),
        socket: None,
    }
}

fn strings(v: &[&str]) -> Vec<String> {
    v.iter().map(|s| s.to_string()).collect()
}

#[test]
fn shares_to_weight_endpoints() {
    assert_eq!(shares_to_weight(2), 1);
    assert_eq!(shares_to_weight(262_144), 10_000);
    assert_eq!(shares_to_weight(1024), 40); // canonical mapping used by systemd
}

#[test]
fn shares_to_weight_clamps() {
    assert_eq!(shares_to_weight(0), 1);
    assert_eq!(shares_to_weight(1_000_000), 10_000);
}

#[test]
fn shares_never_overflow() {
    assert_eq!(shares_to_weight(u64::MAX), 10_000);
    assert_eq!(shares_to_weight(262_143), 9_999);
    assert_eq!(shares_to_weight(512), 20);
}

#[test]
fn supervisor_command_lines() {
    assert_eq!(supervise_args(&strings(&["vigil-supervise", "sshd"])), None);
    let a = supervise_args(&strings(&["vigil-supervise", "sshd", "/etc/s.toml"])).unwrap();
    assert_eq!(a.service_name, "sshd");
    assert_eq!(a.config_path, "/etc/s.toml");
    assert_eq!(a.log_dir, "/var/log/vigil");
    assert_eq!(a.supervise_dir, "/run/vigil/supervise");
    let a = supervise_args(&strings(&["x", "sshd", "/etc/s.toml", "/l", "/r"])).unwrap();
    assert_eq!((a.log_dir.as_str(), a.supervise_dir.as_str()), ("/l", "/r"));
}

#[test]
fn log_places_follow_the_logging_kind() {
    let mut c = service();
    assert_eq!(resolve_log_base(&c, "/var/log/vigil", "sshd"), "/var/log/vigil/sshd");
    assert_eq!(resolve_log_file(&c, "/var/log/vigil", "sshd"), "/var/log/vigil/sshd/current");
    assert_eq!(resolve_syslog_socket(&c), "/dev/log");
    c.logging.path = Some("/srv/log/app.log".to_string());
    assert_eq!(resolve_log_base(&c, "/d", "sshd"), "/srv/log/app.log");
    assert_eq!(resolve_log_file(&c, "/d", "sshd"), "/srv/log/app.log");
    assert_eq!(resolve_syslog_socket(&c), "/srv/log/app.log");
    c.logging.kind = LogType::File;
    assert_eq!(resolve_log_base(&c, "/d", "sshd"), "/srv/log");
    c.logging.path = Some("/".to_string());
    assert_eq!(resolve_log_base(&c, "/d", "sshd"), "/d/sshd");
}

#[test]
fn log_writers_get_their_arguments() {
    let mut c = service();
    c.logging = LoggingConfig {
        kind: LogType::Pipe,
        path: None,
        max_size_mb: 10,
        max_files: 5,
        timestamp: true,
    };
    assert_eq!(
        logger_args(&c, "/l", "sshd"),
        Some(strings(&["pipe", "sshd", "/l/sshd", "10", "5", "1"]))
    );
    c.logging.kind = LogType::File;
    c.logging.timestamp = false;
    assert_eq!(
        logger_args(&c, "/l", "sshd"),
        Some(strings(&["file", "sshd", "/l/sshd/current", "10", "5", "0"]))
    );
    c.logging.kind = LogType::Syslog;
    assert_eq!(
        logger_args(&c, "/l", "sshd"),
        Some(strings(&["syslog", "sshd", "/l/sshd", "/dev/log"]))
    );
    c.logging.kind = LogType::NoLog;
    assert_eq!(logger_args(&c, "/l", "sshd"), None);
}

#[test]
fn log_pipes_are_made_where_needed() {
    let mut c = service();
    assert!(needs_log_pipe(&c));
    c.service.stdout = OutputTarget::Null;
    assert!(needs_log_pipe(&c));
    c.service.stderr = OutputTarget::Stdout;
    assert!(!needs_log_pipe(&c));
    c.service.stderr = OutputTarget::Syslog;
    assert!(needs_log_pipe(&c));
    c.logging.kind = LogType::NoLog;
    assert!(!needs_log_pipe(&c));
}

#[test]
fn streams_are_redirected() {
    let mut c = service();
    assert_eq!(dup_stdio(&c, true), (Redirect::DevNull, Redirect::LogPipe, Redirect::LogPipe));
    assert_eq!(dup_stdio(&c, false), (Redirect::DevNull, Redirect::DevNull, Redirect::DevNull));
    c.service.stdout = OutputTarget::Stdout;
    c.service.stderr = OutputTarget::Stdout;
    assert_eq!(dup_stdio(&c, true), (Redirect::DevNull, Redirect::Keep, Redirect::CopyStdout));
    c.service.stdout = OutputTarget::Null;
    c.service.stderr = OutputTarget::Syslog;
    assert_eq!(dup_stdio(&c, true), (Redirect::DevNull, Redirect::DevNull, Redirect::LogPipe));
}

#[test]
fn listen_specs_are_bound_in_order() {
    let mut c = service();
    assert_eq!(next_listen(&c, 0), Ok(None));
    c.socket = Some(SocketConfig {
        listen: strings(&["22", "bogus"]),
        socket_type: "udp".to_string(),
    });
    assert_eq!(
        next_listen(&c, 0),
        Ok(Some(ListenSpec::Udp {
            addr: SocketAddr::new(IpAddr::V4(Ipv4Addr::new(0, 0, 0, 0)), 22)
        }))
    );
    assert_eq!(next_listen(&c, 1), Err("invalid listen spec 'bogus'".to_string()));
    assert_eq!(next_listen(&c, 2), Ok(None));
}

#[test]
fn descriptors_move_to_their_places() {
    assert_eq!(
        relocate_fds(&vec![3, 5, 8]),
        vec![
            FdStep::Keep(3),
            FdStep::Move { from: 5, to: 4 },
            FdStep::Move { from: 8, to: 5 },
        ]
    );
    assert_eq!(relocate_fds(&vec![]), vec![]);
}

#[test]
fn environments_are_complete() {
    let mut c = service();
    let pair = |k: &str, v: &str| (k.to_string(), v.to_string());
    assert_eq!(
        service_environment(&c, 100, 101, 0),
        vec![pair("LANG", "C.UTF-8"), pair("VIGIL_SUPERVISOR_PID", "100")]
    );
    c.service.readiness = ReadinessConfig {
        kind: ReadinessType::Signal,
        ..ReadinessConfig::default()
    };
    assert_eq!(
        service_environment(&c, 100, 101, 2),
        vec![
            pair("LANG", "C.UTF-8"),
            pair("VIGIL_SUPERVISOR_PID", "100"),
            pair("VIGIL_READY_SIGNAL", "USR1"),
            pair("LISTEN_FDS", "2"),
            pair("LISTEN_PID", "101"),
            pair("VIGIL_SOCK", "supervisor=100"),
        ]
    );
}

#[test]
fn arguments_hold_no_nul() {
    let mut c = service();
    assert_eq!(service_argv(&c), Some(strings(&["/usr/bin/sshd", "-D"])));
    c.service.args.push("a\0b".to_string());
    assert_eq!(service_argv(&c), None);
    c.service.args.clear();
    c.service.command = "\0".to_string();
    assert_eq!(service_argv(&c), None);
    assert_eq!(to_cstring("x", "log dir"), Ok("x".to_string()));
    assert_eq!(to_cstring("x\0", "log dir"), Err("log dir contains a NUL byte".to_string()));
}

#[test]
fn limits_are_set_in_order() {
    let limits = ResourceLimits {
        max_files: Some(1024),
        max_procs: Some(256),
        max_memory_mb: Some(512),
        cpu_shares: Some(512),
    };
    assert_eq!(
        apply_resource_limits(&limits),
        vec![
            (Limit::OpenFiles, 1024),
            (Limit::Processes, 256),
            (Limit::AddressSpace, 536_870_912),
        ]
    );
    let huge = ResourceLimits { max_memory_mb: Some(u64::MAX), ..ResourceLimits::default() };
    assert_eq!(apply_resource_limits(&huge), vec![(Limit::AddressSpace, u64::MAX)]);
    assert_eq!(apply_resource_limits(&ResourceLimits::default()), vec![]);
}

#[test]
fn privileges_are_given_up() {
    let user = Some(UserEntry { uid: 33, primary_gid: 34 });
    assert_eq!(drop_privileges("root", "root", None, None), Ok(vec![]));
    assert_eq!(
        drop_privileges("www", "root", user, None),
        Ok(vec![
            PrivilegeStep::InitGroups(34),
            PrivilegeStep::SetGid(34),
            PrivilegeStep::SetUid(33),
        ])
    );
    assert_eq!(
        drop_privileges("www", "adm", user, Some(4)),
        Ok(vec![
            PrivilegeStep::InitGroups(4),
            PrivilegeStep::SetGid(4),
            PrivilegeStep::SetUid(33),
        ])
    );
    assert_eq!(drop_privileges("root", "adm", None, Some(4)), Ok(vec![PrivilegeStep::SetGid(4)]));
    assert_eq!(drop_privileges("www", "adm", None, None), Err("user 'www' not found".to_string()));
    assert_eq!(drop_privileges("www", "adm", user, None), Err("group 'adm' not found".to_string()));
    assert_eq!(drop_privileges("w\0", "root", user, None), Err("user name contains NUL".to_string()));
}

#[test]
fn the_child_plan_is_in_order() {
    let mut c = service();
    c.service.user = "www".to_string();
    c.service.working_dir = Some("/srv".to_string());
    c.service.resource_limits.max_files = Some(64);
    let context = ChildContext {
        supervisor_pid: 7,
        own_pid: 8,
        has_pipe: true,
        listen_fds: vec![3, 6],
        user: Some(UserEntry { uid: 33, primary_gid: 34 }),
        group: None,
    };
    let set = |k: &str, v: &str| ChildStep::SetVariable(k.to_string(), v.to_string());
    assert_eq!(
        run_service_child(&c, &context),
        Ok(vec![
            ChildStep::NewProcessGroup,
            ChildStep::UnblockSignals,
            ChildStep::Redirect(1, Redirect::LogPipe),
            ChildStep::Redirect(2, Redirect::LogPipe),
            ChildStep::Redirect(0, Redirect::DevNull),
            ChildStep::ClosePipe,
            ChildStep::Relocate(FdStep::Keep(3)),
            ChildStep::Relocate(FdStep::Move { from: 6, to: 4 }),
            set("LANG", "C.UTF-8"),
            set("VIGIL_SUPERVISOR_PID", "7"),
            set("LISTEN_FDS", "2"),
            set("LISTEN_PID", "8"),
            set("VIGIL_SOCK", "supervisor=7"),
            ChildStep::SetLimit(Limit::OpenFiles, 64),
            ChildStep::GiveUp(PrivilegeStep::InitGroups(34)),
            ChildStep::GiveUp(PrivilegeStep::SetGid(34)),
            ChildStep::GiveUp(PrivilegeStep::SetUid(33)),
            ChildStep::DieWithSupervisor,
            ChildStep::ChangeDir("/srv".to_string()),
            ChildStep::Exec(strings(&["/usr/bin/sshd", "-D"])),
        ])
    );
    let lost = ChildContext { user: None, ..context.clone() };
    assert_eq!(
        run_service_child(&c, &lost),
        Err(Some("failed to prepare environment: user 'www' not found".to_string()))
    );
    c.service.args.push("\0".to_string());
    assert_eq!(run_service_child(&c, &context), Err(Some("invalid argument".to_string())));
    c.service.command.push('\0');
    assert_eq!(run_service_child(&c, &context), Err(None));
}

#[test]
fn cpu_shares_become_a_cgroup() {
    let limits = ResourceLimits { cpu_shares: Some(1024), ..ResourceLimits::default() };
    let plan = cpu_plan(&limits, "sshd", 4321).unwrap();
    assert_eq!(plan.dir, "/sys/fs/cgroup/vigil-sshd.scope");
    assert_eq!(plan.weight, "40\n");
    assert_eq!(plan.procs, "4321\n");
    assert_eq!(cpu_plan(&ResourceLimits::default(), "sshd", 1), None);
}

#[test]
fn status_files_hold_state_and_pid() {
    let f = status_files(RecordedState::Running, Some(77));
    assert_eq!((f.state.as_str(), f.pid.as_deref()), ("running\n", Some("77")));
    let f = status_files(RecordedState::Stopped, None);
    assert_eq!((f.state.as_str(), f.pid.as_deref()), ("stopped\n", None));
}

#[test]
fn finish_scripts_stand_beside_the_configuration() {
    assert_eq!(
        finish_path("sshd", "/etc/vigil/services/sshd.toml"),
        "/etc/vigil/services/sshd/finish"
    );
    assert_eq!(finish_path("sshd", "/"), "/etc/vigil/services/sshd/finish");
    assert_eq!(finish_path("sshd", "sshd.toml"), "sshd/finish");
    let env = finish_environment("sshd", "/c", "/l", 3);
    assert_eq!(env.len(), 4);
    assert_eq!(env[0], ("SERVICE_NAME".to_string(), "sshd".to_string()));
    assert_eq!(env[1], ("CONFIG_PATH".to_string(), "/c".to_string()));
    assert_eq!(env[2], ("LOG_DIR".to_string(), "/l".to_string()));
    assert_eq!(env[3], ("RESTART_COUNT".to_string(), "3".to_string()));
}

#[test]
fn log_writers_read_their_command_line() {
    let mut c = service();
    c.logging.kind = LogType::File;
    c.logging.path = Some("/l/app.log".to_string());
    c.logging.max_size_mb = 7;
    c.logging.max_files = 3;
    c.logging.timestamp = false;
    let mut args = vec!["vigillog".to_string()];
    args.extend(logger_args(&c, "/l", "sshd").unwrap());
    assert_eq!(
        logger_mode(&args),
        LoggerArgs::File(FileSink {
            name: "sshd".to_string(),
            path: "/l/app.log".to_string(),
            max_size_mb: 7,
            max_files: 3,
            timestamp: false,
        })
    );
}
