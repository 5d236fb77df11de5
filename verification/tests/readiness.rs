use vigil::config::{
    LoggingConfig, OutputTarget, ReadinessConfig, ReadinessType, ResourceLimits, RestartConfig,
    ServiceConfig, ServiceSpec, ShutdownConfig, SocketConfig,
};
use vigil::readiness::{
    answered, is_alive, pidfile_read, readiness_timeout, socket_readiness_target, ChildStatus,
    ProbeResult, ProbeStep, ReadinessProbe, SignalReply, DEFAULT_READINESS_TIMEOUT,
};
use vigil::sockspec::{IpAddr, Ipv4Addr, ListenSpec, SocketAddr};

fn service(readiness: ReadinessConfig, listen: Option<Vec<&str>>) -> ServiceConfig {
    ServiceConfig {
        service: ServiceSpec {
            command: "/bin/true".to_string(),
            args: vec![],
            user: "root".to_string(),
            group: "root".to_string(),
            working_dir: None,
            environment: vec![],
            description: String::new(),
            restart: RestartConfig::default(),
            readiness,
            shutdown: ShutdownConfig::default(),
            resource_limits: ResourceLimits::default(),
            stdout: OutputTarget::Log,
            stderr: OutputTarget::Log,
        },
        dependencies: vec![],
        logging: LoggingConfig::default(),
        socket: listen.map(|l| SocketConfig {
            listen: l.into_iter().map(|s| s.to_string()).collect(),
            socket_type: "tcp".to_string(),
        }),
    }
}

fn readiness(kind: ReadinessType, signal: Option<&str>, check: Option<&str>) -> ReadinessConfig {
    ReadinessConfig {
        kind,
        timeout_ms: None,
        signal: signal.map(|s| s.to_string()),
        check: check.map(|s| s.to_string()),
    }
}

#[test]
fn readiness_timeout_default() {
    let rc = ReadinessConfig::default();
    assert_eq!(readiness_timeout(&rc), DEFAULT_READINESS_TIMEOUT);
}

#[test]
fn readiness_timeout_configured() {
    let rc = ReadinessConfig { timeout_ms: Some(5000), ..ReadinessConfig::default() };
    assert_eq!(readiness_timeout(&rc), 5000);
    assert_eq!(DEFAULT_READINESS_TIMEOUT, 30_000);
}

#[test]
fn signal_readiness_is_not_ready_from_probe() {
    let cfg = service(readiness(ReadinessType::Signal, Some("USR1"), None), None);
    let rc = &cfg.service.readiness;
    let probe = ReadinessProbe::new(rc, socket_readiness_target(&cfg), 0);
    assert!(
        matches!(probe.tick(0), ProbeStep::Done(ProbeResult::Pending)),
        "signal readiness must wait for the signal, not the probe"
    );
}

#[test]
fn socket_readiness_falls_back_to_first_listen_spec() {
    let cfg = service(readiness(ReadinessType::Socket, None, None), Some(vec!["tcp:22"]));
    let rc = &cfg.service.readiness;
    let probe = ReadinessProbe::new(rc, socket_readiness_target(&cfg), 0);
    assert!(probe.invalid.is_none(), "probe should not be invalid");
    assert!(matches!(probe.kind, ReadinessType::Socket));
    assert!(probe.spec.is_some(), "socket probe should carry a target");
    // The socket is not yet listening, so it must report pending (not a
    // false failure).
    assert!(matches!(probe.tick(0), ProbeStep::Connect(_)));
    assert!(matches!(answered(false), ProbeResult::Pending));
}

#[test]
fn socket_readiness_without_target_is_failed() {
    let cfg = service(readiness(ReadinessType::Socket, None, None), None);
    let rc = &cfg.service.readiness;
    let probe = ReadinessProbe::new(rc, socket_readiness_target(&cfg), 0);
    assert!(probe.invalid.is_some());
    assert!(matches!(probe.tick(0), ProbeStep::Done(ProbeResult::Failed(_))));
}

#[test]
fn first_listen_spec_is_the_target() {
    let cfg = service(ReadinessConfig::default(), Some(vec!["udp:53", "tcp:22"]));
    assert_eq!(
        socket_readiness_target(&cfg),
        Some(ListenSpec::Udp {
            addr: SocketAddr::new(IpAddr::V4(Ipv4Addr::new(0, 0, 0, 0)), 53)
        })
    );
    assert_eq!(socket_readiness_target(&service(ReadinessConfig::default(), Some(vec![]))), None);
    assert_eq!(socket_readiness_target(&service(ReadinessConfig::default(), Some(vec!["x"]))), None);
}

#[test]
fn explicit_connect_spec_beats_listen_spec() {
    let cfg = service(readiness(ReadinessType::Socket, None, Some("unix:/run/x")), Some(vec!["tcp:22"]));
    let probe = ReadinessProbe::new(&cfg.service.readiness, socket_readiness_target(&cfg), 0);
    assert_eq!(
        probe.tick(0),
        ProbeStep::Connect(ListenSpec::Unix { path: "/run/x".to_string() })
    );
    assert_eq!(answered(true), ProbeResult::Ready);
}

#[test]
fn misconfigured_checks_fail() {
    let message = |rc: ReadinessConfig| match ReadinessProbe::new(&rc, None, 0).tick(0) {
        ProbeStep::Done(ProbeResult::Failed(m)) => m,
        other => panic!("unexpected step {:?}", other),
    };
    assert_eq!(
        message(readiness(ReadinessType::Pid, None, None)),
        "readiness type 'pid' requires check=<pidfile path>"
    );
    assert_eq!(
        message(readiness(ReadinessType::Exec, None, None)),
        "readiness type 'exec' requires check=<command>"
    );
    assert_eq!(
        message(readiness(ReadinessType::Socket, None, None)),
        "readiness type 'socket' requires check=<connect spec> or a [socket] listen entry"
    );
    assert_eq!(
        message(readiness(ReadinessType::Socket, None, Some("tcp:0"))),
        "invalid readiness socket spec 'tcp:0': binding port 0 (ephemeral) is not supported; pick a fixed port"
    );
}

#[test]
fn no_check_is_ready_at_once() {
    let probe = ReadinessProbe::new(&ReadinessConfig::default(), None, 0);
    assert_eq!(probe.tick(0), ProbeStep::Done(ProbeResult::Ready));
}

#[test]
fn pidfiles_name_a_process_or_not() {
    let rc = readiness(ReadinessType::Pid, None, Some("/run/x.pid"));
    let probe = ReadinessProbe::new(&rc, None, 0);
    assert_eq!(probe.tick(0), ProbeStep::ReadPidfile("/run/x.pid".to_string()));
    assert_eq!(pidfile_read(Some(" 42\n")), Some(42));
    assert_eq!(pidfile_read(Some("+7")), Some(7));
    assert_eq!(pidfile_read(Some("0")), None);
    assert_eq!(pidfile_read(Some("-3")), None);
    assert_eq!(pidfile_read(Some("2147483648")), None);
    assert_eq!(pidfile_read(Some("x")), None);
    assert_eq!(pidfile_read(Some("")), None);
    assert_eq!(pidfile_read(None), None);
    assert!(is_alive(SignalReply::Sent));
    assert!(is_alive(SignalReply::NotPermitted));
    assert!(!is_alive(SignalReply::NoProcess));
    assert!(!is_alive(SignalReply::Failed));
}

#[test]
fn check_commands_run_until_they_succeed() {
    let rc = readiness(ReadinessType::Exec, None, Some("test -e /run/x"));
    let mut probe = ReadinessProbe::new(&rc, None, 1000);
    let command: Vec<String> =
        vec!["/bin/sh".to_string(), "-c".to_string(), "test -e /run/x".to_string()];
    assert_eq!(probe.tick(1000), ProbeStep::Spawn(command.clone()));

    // It cannot be started: retried after half a second.
    assert_eq!(probe.spawned(false, 1000), ProbeStep::Done(ProbeResult::Pending));
    assert_eq!(probe.tick(1499), ProbeStep::Done(ProbeResult::Pending));
    assert_eq!(probe.tick(1500), ProbeStep::Spawn(command.clone()));

    // It runs, and no second one is started beside it.
    assert_eq!(probe.spawned(true, 1500), ProbeStep::Poll);
    assert_eq!(probe.tick(1600), ProbeStep::Poll);
    let v = probe.child_polled(ChildStatus::Running, 6499);
    assert!(!v.kill && v.result == ProbeResult::Pending);

    // After five seconds it is killed and retried.
    let v = probe.child_polled(ChildStatus::Running, 6500);
    assert!(v.kill && v.result == ProbeResult::Pending);
    assert_eq!(probe.tick(6999), ProbeStep::Done(ProbeResult::Pending));
    assert_eq!(probe.tick(7000), ProbeStep::Spawn(command.clone()));
    probe.spawned(true, 7000);

    // It fails: retried.
    let v = probe.child_polled(ChildStatus::Exited { success: false }, 7100);
    assert!(!v.kill && v.result == ProbeResult::Pending);
    assert_eq!(probe.tick(7599), ProbeStep::Done(ProbeResult::Pending));
    assert_eq!(probe.tick(7600), ProbeStep::Spawn(command));
    probe.spawned(true, 7600);

    // It succeeds.
    let v = probe.child_polled(ChildStatus::Exited { success: true }, 7700);
    assert!(!v.kill && v.result == ProbeResult::Ready);
}

#[test]
fn lost_check_commands_fail_the_check() {
    let rc = readiness(ReadinessType::Exec, None, Some("true"));
    let mut probe = ReadinessProbe::new(&rc, None, 0);
    probe.spawned(true, 0);
    let v = probe.child_polled(ChildStatus::Unknown("gone".to_string()), 10);
    assert_eq!(
        v.result,
        ProbeResult::Failed("failed to run readiness check: gone".to_string())
    );
    assert!(!probe.cleanup());
    probe.spawned(true, 20);
    assert!(probe.cleanup());
    assert!(!probe.cleanup());
}
