use vigil::config::{
    default_backoff_max_ms, default_backoff_ms, default_dep_required, default_dep_type,
    default_group, default_kill_signal, default_log_max_files, default_log_max_size,
    default_log_type, default_max_restarts, default_readiness_type, default_restart_policy,
    default_shutdown_signal, default_shutdown_timeout, default_socket_type, default_true,
    default_user, DependencyType, GlobalConfig, LogType, LoggingConfig, OutputTarget,
    ReadinessConfig, ReadinessType, ResourceLimits, RestartConfig, RestartPolicy, ShutdownConfig,
    SocketConfig, TargetServiceEntry,
};

#[test]
fn global_defaults() {
    let g = GlobalConfig::default();
    assert_eq!(g.service_dir, "/etc/vigil/services");
    assert_eq!(g.target_dir, "/etc/vigil/targets");
    assert_eq!(g.control_socket, "/run/vigil/control.sock");
    assert_eq!(g.log_dir, "/var/log/vigil");
    assert_eq!(g.runtime_dir, "/run/vigil");
    assert_eq!(g.default_target, "default");
    assert_eq!(g.hostname, None);
}

#[test]
fn service_defaults() {
    assert_eq!(default_user(), "root");
    assert_eq!(default_group(), "root");
    let r = RestartConfig::default();
    assert_eq!(r.policy, RestartPolicy::Always);
    assert_eq!(
        (r.max_restarts, r.backoff_initial_ms, r.backoff_max_ms),
        (10, 1000, 30000)
    );
    assert_eq!(default_restart_policy(), RestartPolicy::Always);
    assert_eq!(default_max_restarts(), 10);
    assert_eq!(default_backoff_ms(), 1000);
    assert_eq!(default_backoff_max_ms(), 30000);
    let s = ShutdownConfig::default();
    assert_eq!((s.signal.as_str(), s.timeout_ms, s.kill_signal.as_str()), ("TERM", 5000, "KILL"));
    assert_eq!(default_shutdown_signal(), "TERM");
    assert_eq!(default_shutdown_timeout(), 5000);
    assert_eq!(default_kill_signal(), "KILL");
    assert_eq!(OutputTarget::default(), OutputTarget::Log);
    let l = ResourceLimits::default();
    assert!(l.max_files.is_none() && l.max_procs.is_none());
    assert!(l.max_memory_mb.is_none() && l.cpu_shares.is_none());
}

#[test]
fn readiness_and_dependency_defaults() {
    let r = ReadinessConfig::default();
    assert_eq!(r.kind, ReadinessType::NoCheck);
    assert_eq!(default_readiness_type(), ReadinessType::NoCheck);
    assert_eq!(ReadinessType::default(), ReadinessType::NoCheck);
    assert_eq!(r.ready_signal(), "USR1");
    let named = ReadinessConfig { signal: Some("USR2".to_string()), ..r };
    assert_eq!(named.ready_signal(), "USR2");
    assert_eq!(default_dep_type(), DependencyType::After);
    assert!(default_dep_required());
    assert!(default_true());
    let e = TargetServiceEntry::default();
    assert!(!e.enabled && !e.optional);
}

#[test]
fn logging_and_socket_defaults() {
    let l = LoggingConfig::default();
    assert_eq!(l.kind, LogType::Pipe);
    assert_eq!((l.max_size_mb, l.max_files, l.timestamp), (0, 0, false));
    assert!(l.path.is_none());
    assert_eq!(default_log_type(), LogType::Pipe);
    assert_eq!(LogType::default(), LogType::Pipe);
    assert_eq!(default_log_max_size(), 10);
    assert_eq!(default_log_max_files(), 5);
    assert_eq!(default_socket_type(), "tcp");
    let s = SocketConfig { listen: vec![], socket_type: "udp".to_string() };
    assert_eq!(s.proto(), "udp");
}
