use vigil::config::{
    DependencyConfig, DependencyType, GlobalConfig, LogType, LoggingConfig, OutputTarget,
    ReadinessConfig, ResourceLimits, RestartConfig, RestartPolicy, ServiceConfig, ServiceSpec,
    ShutdownConfig, TargetConfig, TargetServiceEntry, TargetSpec,
};
use vigil::launch::{resolve_log_base, resolve_log_file, status_files, supervise_args};
use vigil::protocol::{Request, Response, ServiceInfo, ServiceStatus, ShutdownAction};
use vigil::scanner::{
    await_stop, classify_service_file, ensure_directories, global_config_path, insert_service,
    is_valid_service_name, log_reply, read_status_number, reload_reply, restart_reply, start_reply,
    stop_reply, supervisor_was_live, unreadable_reply, LoopAction, Reaped, RequestPlan, RunState,
    Scanner, ServiceFile, ServiceState, ShutdownStep, StartPlan, StopPlan,
};
use vigil::signals::NamedSignal;
use vigil::supervisor::{RecordedState, RestartDecision, TeardownStep};

fn config(max_restarts: u32, after: &[&str]) -> ServiceConfig {
    ServiceConfig {
        service: ServiceSpec {
            command: "/bin/cat".to_string(),
            args: vec![],
            user: "root".to_string(),
            group: "root".to_string(),
            working_dir: None,
            environment: vec![],
            description: "echo service".to_string(),
            restart: RestartConfig { max_restarts, ..RestartConfig::default() },
            readiness: ReadinessConfig::default(),
            shutdown: ShutdownConfig::default(),
            resource_limits: ResourceLimits::default(),
            stdout: OutputTarget::Log,
            stderr: OutputTarget::Log,
        },
        dependencies: after
            .iter()
            .map(|s| DependencyConfig {
                service: s.to_string(),
                kind: DependencyType::After,
                required: true,
            })
            .collect(),
        logging: LoggingConfig { kind: LogType::NoLog, ..LoggingConfig::default() },
        socket: None,
    }
}

fn loaded(name: &str, after: &[&str]) -> ServiceState {
    ServiceState::loaded(
        name.to_string(),
        config(2, after),
        format!("/etc/vigil/services/{}.toml", name),
    )
}

fn scanner(services: Vec<ServiceState>) -> Scanner {
    let mut s = Scanner::new(GlobalConfig::default());
    for state in services {
        insert_service(&mut s.services, state);
    }
    s.build_dep_graph();
    s.apply_target(None);
    s
}

fn target(requires: &[&str], entries: &[(&str, bool)]) -> TargetConfig {
    TargetConfig {
        target: TargetSpec {
            description: String::new(),
            requires: requires.iter().map(|s| s.to_string()).collect(),
        },
        services: entries
            .iter()
            .map(|(n, enabled)| {
                (n.to_string(), TargetServiceEntry { enabled: *enabled, optional: false })
            })
            .collect(),
    }
}

fn error(plan: RequestPlan) -> String {
    match plan {
        RequestPlan::Answer(Response::Error { message }) => message,
        other => panic!("unexpected plan {:?}", other),
    }
}

#[test]
fn valid_names_accepted() {
    for n in ["sshd", "foo-bar_baz", "network.eth0", "a1"] {
        assert!(is_valid_service_name(n), "{} should be valid", n);
    }
}

#[test]
fn invalid_names_rejected() {
    for n in ["", ".", "..", "a/b", "../etc", "a b", "a\tb", "a\nb", "a:b"] {
        assert!(!is_valid_service_name(n), "{} should be rejected", n);
    }
}

#[test]
fn names_are_ascii() {
    assert!(!is_valid_service_name("caf\u{e9}"));
    assert!(!is_valid_service_name("a\0"));
    assert!(is_valid_service_name("..."));
}

#[test]
fn service_files_are_recognised() {
    assert_eq!(
        classify_service_file(Some("toml"), Some("sshd")),
        ServiceFile::Service("sshd".to_string())
    );
    assert_eq!(
        classify_service_file(Some("toml"), Some("a b")),
        ServiceFile::BadName("a b".to_string())
    );
    assert_eq!(
        classify_service_file(Some("toml"), None),
        ServiceFile::Service("unknown".to_string())
    );
    assert_eq!(classify_service_file(Some("conf"), Some("sshd")), ServiceFile::Ignored);
    assert_eq!(classify_service_file(None, Some("sshd")), ServiceFile::Ignored);
}

#[test]
fn configuration_paths_have_precedence() {
    let path = |args: &[&str], var: Option<&str>| {
        global_config_path(&args.iter().map(|s| s.to_string()).collect(), var)
    };
    assert_eq!(path(&["vigil-scan"], None), Ok("/etc/vigil/vigil.toml".to_string()));
    assert_eq!(path(&["vigil-scan"], Some("/e")), Ok("/e".to_string()));
    assert_eq!(path(&["vigil-scan", "-c", "/a"], Some("/e")), Ok("/a".to_string()));
    assert_eq!(
        path(&["vigil-scan", "-c", "/a", "--config", "/b"], None),
        Ok("/b".to_string())
    );
    assert_eq!(
        path(&["vigil-scan", "--config"], None),
        Err("--config requires a path argument".to_string())
    );
    assert_eq!(
        path(&["vigil-scan", "-v"], None),
        Err("unsupported vigil-scan argument '-v'".to_string())
    );
    assert_eq!(path(&[], None), Ok("/etc/vigil/vigil.toml".to_string()));
}

#[test]
fn needed_directories_are_listed() {
    assert_eq!(
        ensure_directories(&GlobalConfig::default()),
        vec![
            "/etc/vigil/services",
            "/etc/vigil/targets",
            "/var/log/vigil",
            "/run/vigil",
            "/run/vigil/supervise",
            "/run/vigil",
        ]
    );
}

#[test]
fn status_files_are_judged() {
    assert!(supervisor_was_live(None));
    assert!(supervisor_was_live(Some("running\n")));
    assert!(supervisor_was_live(Some("restarting\n")));
    assert!(!supervisor_was_live(Some("terminated\n")));
    assert!(!supervisor_was_live(Some("failed\n")));
    assert!(!supervisor_was_live(Some(" stopped ")));
    assert_eq!(read_status_number(Some("42\n")), Some(42));
    assert_eq!(read_status_number(Some("-1")), None);
    assert_eq!(read_status_number(Some("4294967296")), None);
    assert_eq!(read_status_number(None), None);
}

#[test]
fn services_are_replaced_by_name() {
    let mut v = vec![];
    insert_service(&mut v, loaded("a", &[]));
    insert_service(&mut v, loaded("b", &[]));
    insert_service(&mut v, loaded("a", &["b"]));
    assert_eq!(v.len(), 2);
    assert_eq!(v[0].config.dependencies.len(), 1);
    assert!(v[0].enabled && v[0].state == RunState::Stopped);
}

#[test]
fn start_and_stop_orders_mirror_each_other() {
    let mut s = scanner(vec![
        loaded("web", &["db", "net"]),
        loaded("net", &[]),
        loaded("db", &["disk"]),
        loaded("disk", &[]),
    ]);
    let order = s.start_order();
    assert_eq!(order.names, vec!["disk", "db", "net", "web"]);
    assert!(!order.cycle);
    assert_eq!(s.shutdown_order(), Vec::<String>::new());
    for (i, name) in ["disk", "db", "net", "web"].iter().enumerate() {
        s.started(name, 100 + i as u32, 0);
    }
    assert_eq!(s.shutdown_order(), vec!["web", "net", "db", "disk"]);
    s.stopped("db");
    assert_eq!(s.shutdown_order(), vec!["web", "net", "disk"]);
    // Disabled services are not started.
    s.services[1].enabled = false;
    assert_eq!(s.start_order().names, vec!["disk", "db", "web"]);
}

#[test]
fn circular_services_start_as_loaded() {
    let s = scanner(vec![loaded("b", &["a"]), loaded("a", &["b"])]);
    let order = s.start_order();
    assert_eq!(order.names, vec!["b", "a"]);
    assert!(order.cycle);
}

#[test]
fn missing_requirements_are_reported() {
    let mut s = Scanner::new(GlobalConfig::default());
    insert_service(&mut s.services, loaded("a", &["ghost", "b"]));
    insert_service(&mut s.services, loaded("b", &[]));
    assert_eq!(s.build_dep_graph(), vec![("a".to_string(), "ghost".to_string())]);
    assert_eq!(s.dep_graph.services(), &vec!["a".to_string(), "b".to_string()]);
}

#[test]
fn starts_are_planned() {
    let mut s = scanner(vec![loaded("sshd", &[])]);
    assert_eq!(
        s.start_service("ghost"),
        StartPlan::Unknown("service 'ghost' not found".to_string())
    );
    assert_eq!(
        s.start_service("sshd"),
        StartPlan::Spawn {
            dirs: vec![
                "/run/vigil/supervise/sshd".to_string(),
                "/run/vigil/supervise/sshd/status".to_string(),
            ],
            argv: Ok(vec![
                "vigil-supervise".to_string(),
                "sshd".to_string(),
                "/etc/vigil/services/sshd.toml".to_string(),
                "/var/log/vigil".to_string(),
                "/run/vigil/supervise".to_string(),
            ]),
        }
    );
    s.started("sshd", 55, 1000);
    assert_eq!(s.start_service("sshd"), StartPlan::AlreadyUp);
    assert_eq!(s.services[0].supervisor_pid, Some(55));
    assert_eq!(s.services[0].start_time, Some(1000));

    let mut bad = scanner(vec![loaded("sshd", &[])]);
    bad.config.log_dir = "/var\0".to_string();
    match bad.start_service("sshd") {
        StartPlan::Spawn { argv, .. } => {
            assert_eq!(argv, Err("log dir contains a NUL byte".to_string()))
        }
        other => panic!("unexpected plan {:?}", other),
    }
}

#[test]
fn stops_are_planned() {
    let mut s = scanner(vec![loaded("sshd", &[])]);
    assert_eq!(s.stop_service("ghost"), StopPlan::Unknown("service 'ghost' not found".to_string()));
    assert_eq!(s.stop_service("sshd"), StopPlan::AlreadyDown);
    s.started("sshd", 55, 0);
    assert_eq!(
        s.stop_service("sshd"),
        StopPlan::Terminate {
            pid: 55,
            grace: 7000,
            status_dir: "/run/vigil/supervise/sshd/status".to_string(),
        }
    );
    s.stopped("sshd");
    assert_eq!(s.services[0].state, RunState::Stopped);
    assert_eq!(s.services[0].supervisor_pid, None);
    s.services[0].state = RunState::Starting;
    assert_eq!(s.stop_service("sshd"), StopPlan::Unsupervised);
    s.services[0].state = RunState::Failed;
    assert_eq!(s.stop_service("sshd"), StopPlan::AlreadyDown);
    assert_eq!(await_stop(true, 6999, 7000), TeardownStep::Sleep);
    assert_eq!(await_stop(true, 7000, 7000), TeardownStep::Kill);
    assert_eq!(await_stop(false, 9000, 7000), TeardownStep::Done);
    assert_eq!(s.target_path("default"), "/etc/vigil/targets/default.toml");
}

#[test]
fn crashed_supervisors_get_a_second_chance() {
    let mut s = scanner(vec![loaded("a", &[]), loaded("b", &[])]);
    s.started("b", 9, 0);
    assert_eq!(s.supervised_by(8), None);
    let i = s.supervised_by(9).unwrap();
    assert_eq!(i, 1);
    // Two respawns are allowed.
    assert_eq!(s.supervisor_exited(i, true, 1000), Reaped { respawn: true, gave_up: false });
    assert_eq!(s.services[i].restart_count, 1);
    s.started("b", 10, 1000);
    assert_eq!(s.supervisor_exited(i, true, 2000), Reaped { respawn: true, gave_up: false });
    assert_eq!(s.services[i].restart_count, 2);
    s.started("b", 11, 2000);
    assert_eq!(s.supervisor_exited(i, true, 3000), Reaped { respawn: false, gave_up: true });
    assert_eq!(s.services[i].restart_count, 0);
    assert_eq!(s.services[i].state, RunState::Stopped);
    assert_eq!(s.services[i].supervisor_pid, None);
}

#[test]
fn ancient_crashes_do_not_count() {
    let mut s = scanner(vec![loaded("a", &[])]);
    s.services[0].restart_count = 2;
    s.services[0].last_respawn = Some(1000);
    s.started("a", 5, 1000);
    assert_eq!(s.supervisor_exited(0, true, 601_000), Reaped { respawn: true, gave_up: false });
    assert_eq!(s.services[0].restart_count, 1);
    assert_eq!(s.services[0].last_respawn, Some(601_000));
    s.respawn_failed(0);
    assert_eq!(s.services[0].restart_count, 0);
}

#[test]
fn services_that_gave_up_degrade_the_boot() {
    let mut s = scanner(vec![loaded("a", &[]), loaded("b", &[])]);
    let t = target(&["ghost", "a"], &[("b", false)]);
    s.apply_target(Some(&t));
    assert!(s.degraded);
    s.started("a", 5, 0);
    // The service had ended by itself: no respawn.
    assert_eq!(s.supervisor_exited(0, false, 10), Reaped { respawn: false, gave_up: true });
    assert_eq!(s.mark_degraded("a"), Some("a\n".to_string()));
    assert_eq!(s.mark_degraded("b"), None);
    assert!(s.degraded);
    // A disabled service is neither respawned nor missed.
    s.started("b", 6, 0);
    assert_eq!(s.supervisor_exited(1, true, 10), Reaped { respawn: false, gave_up: false });
}

#[test]
fn requests_about_unknown_services_are_refused() {
    let mut s = scanner(vec![]);
    let name = || "ghost".to_string();
    for r in [
        Request::Status { service: Some(name()) },
        Request::Start { service: name() },
        Request::Stop { service: name() },
        Request::Restart { service: name() },
    ] {
        assert_eq!(error(s.process_request(r)), "service 'ghost' not found");
    }
    assert_eq!(
        error(s.process_request(Request::Log { service: name(), lines: 5 })),
        "service 'ghost' has no log file (logging.kind is syslog/none)"
    );
    assert_eq!(
        s.status_reply("ghost", None, None, 0),
        Response::Error { message: "service 'ghost' not found".to_string() }
    );
}

#[test]
fn log_requests_find_the_file() {
    let mut s = scanner(vec![loaded("a", &[])]);
    let log = |s: &mut Scanner| {
        s.process_request(Request::Log { service: "a".to_string(), lines: 7 })
    };
    assert_eq!(
        error(log(&mut s)),
        "service 'a' has no log file (logging.kind is syslog/none)"
    );
    let mut check = |kind: LogType, path: Option<&str>, want: &str| {
        s.services[0].config.logging.kind = kind;
        s.services[0].config.logging.path = path.map(|p| p.to_string());
        assert_eq!(
            log(&mut s),
            RequestPlan::ReadLog {
                service: "a".to_string(),
                path: want.to_string(),
                lines: 7,
            }
        );
        assert_eq!(s.log_file_for("a"), Some(want.to_string()));
    };
    check(LogType::Pipe, None, "/var/log/vigil/a/current");
    check(LogType::Pipe, Some("/srv/a"), "/srv/a/current");
    check(LogType::File, None, "/var/log/vigil/a/current");
    check(LogType::File, Some("/srv/a.log"), "/srv/a.log");
    s.services[0].config.logging.kind = LogType::Syslog;
    assert_eq!(s.log_file_for("a"), None);
    assert_eq!(s.log_file_for("ghost"), None);
}

#[test]
fn shutdown_requests_end_the_scanner() {
    for (action, signal, text) in [
        (ShutdownAction::Reboot, NamedSignal::Term, "shutdown initiated: Reboot"),
        (ShutdownAction::Halt, NamedSignal::Usr1, "shutdown initiated: Halt"),
        (ShutdownAction::Poweroff, NamedSignal::Usr2, "shutdown initiated: Poweroff"),
    ] {
        let mut s = scanner(vec![]);
        assert_eq!(
            s.process_request(Request::Shutdown { action }),
            RequestPlan::Answer(Response::Done { message: text.to_string() })
        );
        assert!(!s.running);
        assert_eq!(s.farewell, Some(signal));
    }
}

#[test]
fn signals_to_the_scanner() {
    let mut s = scanner(vec![]);
    assert_eq!(s.loop_signal(NamedSignal::Chld), LoopAction::Reap);
    assert_eq!(s.loop_signal(NamedSignal::Hup), LoopAction::Reload);
    assert_eq!(s.loop_signal(NamedSignal::Usr1), LoopAction::Nothing);
    assert!(s.running);
    assert_eq!(s.loop_signal(NamedSignal::Int), LoopAction::ShutDown);
    assert!(!s.running);
    assert_eq!(s.farewell, None);
}

#[test]
fn answers_are_worded() {
    let ok = || Ok(());
    let err = || Err("e".to_string());
    let done = |m: &str| Response::Done { message: m.to_string() };
    let fail = |m: &str| Response::Error { message: m.to_string() };
    assert_eq!(start_reply("a", ok()), done("service 'a' started"));
    assert_eq!(start_reply("a", err()), fail("failed to start 'a': e"));
    assert_eq!(stop_reply("a", ok()), done("service 'a' stopped"));
    assert_eq!(stop_reply("a", err()), fail("failed to stop 'a': e"));
    assert_eq!(restart_reply("a", ok(), ok()), done("service 'a' restarted"));
    assert_eq!(restart_reply("a", ok(), err()), fail("stopped 'a' but failed to restart: e"));
    assert_eq!(restart_reply("a", err(), ok()), fail("failed to stop 'a': e"));
    assert_eq!(reload_reply(ok()), done("services reloaded"));
    assert_eq!(reload_reply(err()), fail("reload failed: e"));
    assert_eq!(log_reply("a", Ok(vec!["x".to_string()])), Response::LogLines(vec!["x".to_string()]));
    assert_eq!(log_reply("a", Err("e".to_string())), fail("failed to read logs for 'a': e"));
    assert_eq!(unreadable_reply("e"), fail("failed to read request: e"));
}

#[test]
fn reload_keeps_what_runs_and_adds_what_is_new() {
    let mut s = scanner(vec![loaded("keep", &[]), loaded("drop", &[]), loaded("gone", &[])]);
    s.started("keep", 1, 10);
    s.started("drop", 2, 20);
    s.started("gone", 3, 30);
    s.services[0].restart_count = 1;
    s.services[0].last_respawn = Some(5);
    let t = target(&[], &[("keep", true), ("drop", false), ("fresh", true)]);
    let plan = s.reload_services(
        vec![loaded("keep", &["fresh"]), loaded("drop", &[]), loaded("fresh", &[]), loaded("idle", &[])],
        Ok(Some(&t)),
    );
    assert_eq!(plan.terminate, vec![3]);
    assert_eq!(plan.stop, vec!["drop"]);
    assert_eq!(plan.start, vec!["fresh"]);
    assert_eq!(plan.error, None);
    assert_eq!(s.services.len(), 4);
    assert_eq!(s.services[0].state, RunState::Running);
    assert_eq!(s.services[0].supervisor_pid, Some(1));
    assert_eq!(s.services[0].start_time, Some(10));
    assert_eq!((s.services[0].restart_count, s.services[0].last_respawn), (1, Some(5)));
    assert_eq!(s.services[1].supervisor_pid, Some(2));
    assert_eq!(s.required_services, vec!["keep", "fresh"]);
    assert_eq!(s.start_order().names, vec!["fresh", "keep"]);
}

#[test]
fn reload_fails_with_its_target() {
    let mut s = scanner(vec![loaded("a", &[])]);
    s.started("a", 1, 10);
    let plan = s.reload_services(vec![loaded("b", &[])], Err("failed to parse target".to_string()));
    assert_eq!(plan.error, Some("failed to parse target".to_string()));
    assert_eq!(plan.terminate, vec![1]);
    assert!(plan.stop.is_empty() && plan.start.is_empty());
    assert_eq!(s.services.len(), 1);
    assert_eq!(s.services[0].name, "b");
}

/// Runs the life of a service through the control plane: list, status,
/// restart, log, stop, start, reload, shutdown.
#[test]
fn control_plane_lifecycle() {
    let echosvc = || {
        let mut state = loaded("echosvc", &[]);
        let service = &mut state.config.service;
        service.command = "/bin/sh".to_string();
        service.args = vec!["-c".to_string(), "sleep 300".to_string()];
        service.description = "e2e test service".to_string();
        service.stdout = OutputTarget::Null;
        service.stderr = OutputTarget::Null;
        service.restart = RestartConfig {
            policy: RestartPolicy::Never,
            ..RestartConfig::default()
        };
        state.config.logging.kind = LogType::NoLog;
        state
    };
    let mut s = scanner(vec![echosvc()]);
    let name = || "echosvc".to_string();
    let mut next_pid = 100;
    let mut start = |s: &mut Scanner| -> u32 {
        assert!(matches!(s.start_service("echosvc"), StartPlan::Spawn { argv: Ok(_), .. }));
        next_pid += 1;
        s.started("echosvc", next_pid, 5_000);
        next_pid
    };
    let stop = |s: &mut Scanner| {
        assert!(matches!(s.stop_service("echosvc"), StopPlan::Terminate { .. }));
        s.stopped("echosvc");
    };

    assert_eq!(s.start_order().names, vec![name()]);
    let first = start(&mut s);
    assert_eq!(s.process_request(Request::Ping), RequestPlan::Answer(Response::Pong));

    assert_eq!(s.process_request(Request::List), RequestPlan::List);
    assert_eq!(s.process_request(Request::Status { service: None }), RequestPlan::List);
    assert_eq!(
        s.list_reply(&vec![Some(4242)]),
        Response::List(vec![ServiceInfo {
            name: name(),
            state: "running".to_string(),
            pid: Some(4242),
            description: "e2e test service".to_string(),
        }])
    );

    assert_eq!(
        s.process_request(Request::Status { service: Some(name()) }),
        RequestPlan::Status(name())
    );
    assert_eq!(
        s.status_reply("echosvc", Some(4242), None, 65_999),
        Response::Status(ServiceStatus {
            name: name(),
            state: "running".to_string(),
            pid: Some(4242),
            uptime_secs: 60,
            restart_count: 0,
            description: "e2e test service".to_string(),
            command: "/bin/sh".to_string(),
        })
    );

    s.services[0].restart_count = 2;
    assert_eq!(
        s.process_request(Request::Restart { service: name() }),
        RequestPlan::Restart(name())
    );
    assert_eq!(s.services[0].restart_count, 0);
    stop(&mut s);
    let second = start(&mut s);
    assert_ne!(first, second);

    assert!(error(s.process_request(Request::Log { service: name(), lines: 10 })).contains("no log file"));

    assert_eq!(s.process_request(Request::Stop { service: name() }), RequestPlan::Stop(name()));
    stop(&mut s);
    match s.status_reply("echosvc", None, Some(3), 70_000) {
        Response::Status(st) => {
            assert_eq!(st.state, "stopped");
            assert_eq!((st.pid, st.uptime_secs, st.restart_count), (None, 0, 3));
        }
        other => panic!("unexpected status response: {:?}", other),
    }

    s.services[0].restart_count = 2;
    assert_eq!(s.process_request(Request::Start { service: name() }), RequestPlan::Start(name()));
    assert_eq!(s.services[0].restart_count, 0);
    start(&mut s);

    assert_eq!(s.process_request(Request::Reload), RequestPlan::Reload);
    let plan = s.reload_services(vec![echosvc()], Ok(None));
    assert!(plan.terminate.is_empty() && plan.stop.is_empty() && plan.start.is_empty());
    assert_eq!(s.services[0].state, RunState::Running);

    assert_eq!(s.loop_signal(NamedSignal::Term), LoopAction::ShutDown);
    assert!(!s.running);
    let socket = s.config.control_socket.clone();
    assert_eq!(
        s.shutdown_plan(),
        vec![ShutdownStep::Stop(name()), ShutdownStep::RemoveSocket(socket)]
    );
    stop(&mut s);
    assert_eq!(s.shutdown_order(), Vec::<String>::new());
}

#[test]
fn the_scanner_understands_recorded_states() {
    for (state, live) in [
        (RecordedState::Starting, true),
        (RecordedState::Running, true),
        (RecordedState::Restarting, true),
        (RecordedState::Stopped, false),
        (RecordedState::Terminated, false),
        (RecordedState::Failed, false),
    ] {
        let files = status_files(state, Some(77));
        assert_eq!(supervisor_was_live(Some(&files.state)), live);
        assert_eq!(read_status_number(files.pid.as_deref()), Some(77));
    }
    assert_eq!(
        RestartDecision::GaveUp.recorded_state(),
        RecordedState::Failed
    );
    assert_eq!(
        RestartDecision::Terminated.recorded_state().as_str(),
        "terminated"
    );
    assert_eq!(
        RestartDecision::Stopped.recorded_state().as_str(),
        "stopped"
    );
    let again = RestartDecision::Restart {
        attempt: 1,
        delay: 1000,
    };
    assert_eq!(again.recorded_state().as_str(), "restarting");
}

#[test]
fn supervisors_read_their_command_line() {
    let s = scanner(vec![loaded("sshd", &[])]);
    let StartPlan::Spawn { dirs, argv } = s.start_service("sshd") else {
        panic!("nothing to spawn");
    };
    let args = supervise_args(&argv.unwrap()).unwrap();
    assert_eq!(args.service_name, "sshd");
    assert_eq!(args.config_path, s.services[0].config_path);
    assert_eq!(args.log_dir, s.config.log_dir);
    assert_eq!(dirs[0], format!("{}/sshd", args.supervise_dir));
}

#[test]
fn logs_are_read_where_the_writer_puts_them() {
    let mut s = scanner(vec![loaded("sshd", &[])]);
    s.services[0].config.logging.path = Some("/l/sshd".to_string());
    s.services[0].config.logging.kind = LogType::Pipe;
    let base = resolve_log_base(&s.services[0].config, "/var/log/vigil", "sshd");
    assert_eq!(s.log_file_for("sshd"), Some(format!("{}/current", base)));
    s.services[0].config.logging.kind = LogType::File;
    let file = resolve_log_file(&s.services[0].config, "/var/log/vigil", "sshd");
    assert_eq!(file, "/l/sshd");
    assert_eq!(s.log_file_for("sshd"), Some(file));
}

#[test]
fn pid_1_is_told_after_the_services_are_down() {
    let mut s = scanner(vec![loaded("db", &[]), loaded("web", &["db"]), loaded("off", &[])]);
    s.started("db", 10, 0);
    s.started("web", 11, 0);
    s.process_request(Request::Shutdown { action: ShutdownAction::Halt });
    assert_eq!(
        s.shutdown_plan(),
        vec![
            ShutdownStep::Stop("web".to_string()),
            ShutdownStep::Stop("db".to_string()),
            ShutdownStep::RemoveSocket("/run/vigil/control.sock".to_string()),
            ShutdownStep::Notify(NamedSignal::Usr1),
        ]
    );
}
