use vigil::config::{
    DependencyConfig, DependencyType, GlobalConfig, LoggingConfig, OutputTarget, ReadinessConfig,
    ResourceLimits, RestartConfig, ServiceConfig, ServiceSpec, ShutdownConfig, TargetConfig,
    TargetServiceEntry, TargetSpec,
};
use vigil::scanner::{insert_service, Scanner, ServiceState};
use vigil::target::resolve_target;

fn config(deps: &[(&str, DependencyType, bool)]) -> ServiceConfig {
    ServiceConfig {
        service: ServiceSpec {
            command: "/bin/true".to_string(),
            args: vec![],
            user: "root".to_string(),
            group: "root".to_string(),
            working_dir: None,
            environment: vec![],
            description: String::new(),
            restart: RestartConfig::default(),
            readiness: ReadinessConfig::default(),
            shutdown: ShutdownConfig::default(),
            resource_limits: ResourceLimits::default(),
            stdout: OutputTarget::Log,
            stderr: OutputTarget::Log,
        },
        dependencies: deps
            .iter()
            .map(|(service, kind, required)| DependencyConfig {
                service: service.to_string(),
                kind: *kind,
                required: *required,
            })
            .collect(),
        logging: LoggingConfig::default(),
        socket: None,
    }
}

fn scanner(services: &[(&str, &[(&str, DependencyType, bool)])]) -> Scanner {
    let mut s = Scanner::new(GlobalConfig::default());
    for (name, deps) in services {
        insert_service(
            &mut s.services,
            ServiceState::loaded(name.to_string(), config(deps), format!("/etc/{}.toml", name)),
        );
    }
    s.build_dep_graph();
    s
}

fn target(requires: &[&str], entries: &[(&str, bool, bool)]) -> TargetConfig {
    TargetConfig {
        target: TargetSpec {
            description: String::new(),
            requires: requires.iter().map(|s| s.to_string()).collect(),
        },
        services: entries
            .iter()
            .map(|(n, enabled, optional)| {
                (n.to_string(), TargetServiceEntry { enabled: *enabled, optional: *optional })
            })
            .collect(),
    }
}

fn enabled(s: &Scanner) -> Vec<String> {
    s.services.iter().filter(|x| x.enabled).map(|x| x.name.clone()).collect()
}

const AFTER: DependencyType = DependencyType::After;
const BEFORE: DependencyType = DependencyType::Before;
const WANTS: DependencyType = DependencyType::Wants;

#[test]
fn a_missing_or_empty_target_enables_everything() {
    let mut s = scanner(&[("a", &[]), ("b", &[])]);
    s.apply_target(None);
    assert_eq!(enabled(&s), vec!["a", "b"]);
    assert_eq!(s.required_services, vec!["a", "b"]);
    let empty = target(&["ghost"], &[]);
    s.apply_target(Some(&empty));
    assert_eq!(enabled(&s), vec!["a", "b"]);
    assert_eq!(s.required_services, vec!["a", "b"]);
    assert!(!s.degraded);
}

#[test]
fn entries_enable_and_require() {
    let mut s = scanner(&[("syslog", &[]), ("ntpd", &[]), ("sshd", &[]), ("cron", &[])]);
    let t = target(&[], &[("syslog", true, true), ("ntpd", true, false), ("sshd", false, false)]);
    s.apply_target(Some(&t));
    assert_eq!(enabled(&s), vec!["syslog", "ntpd"]);
    assert_eq!(s.required_services, vec!["ntpd"]);
}

#[test]
fn requires_beat_the_table() {
    let mut s = scanner(&[("network", &[]), ("a", &[]), ("off", &[])]);
    let t = target(&["network", "off"], &[("a", true, true), ("off", false, false)]);
    s.apply_target(Some(&t));
    assert_eq!(enabled(&s), vec!["network", "a", "off"]);
    assert_eq!(s.required_services, vec!["network", "off"]);
    assert!(!s.degraded);
}

#[test]
fn a_required_service_that_is_missing_degrades() {
    let mut s = scanner(&[("a", &[])]);
    let t = target(&["ghost"], &[("a", true, false)]);
    s.apply_target(Some(&t));
    assert!(s.degraded);
    assert_eq!(s.required_services, vec!["a"]);
    // A healthy target starts from a clean slate.
    let healthy = target(&["a"], &[("a", true, false)]);
    s.apply_target(Some(&healthy));
    assert!(!s.degraded);
}

#[test]
fn required_dependencies_are_closed() {
    let mut s = scanner(&[
        ("web", &[("db", AFTER, true)]),
        ("db", &[("disk", AFTER, true), ("ghost", AFTER, true)]),
        ("disk", &[("web", BEFORE, false), ("cache", AFTER, false)]),
        ("cache", &[("far", AFTER, true)]),
        ("far", &[]),
        ("x", &[]),
    ]);
    let t = target(&["web"], &[("x", false, false), ("disk", false, false)]);
    s.apply_target(Some(&t));
    // `cache` comes up with `disk`, but nothing requires it, so that what it
    // requires is not pulled in.
    assert_eq!(enabled(&s), vec!["web", "db", "disk", "cache"]);
    assert_eq!(s.required_services, vec!["web", "db", "disk"]);
}

#[test]
fn wishes_are_granted_unless_disabled() {
    let mut s = scanner(&[
        ("a", &[("b", WANTS, false), ("c", WANTS, false), ("d", WANTS, false)]),
        ("b", &[("e", WANTS, false)]),
        ("c", &[]),
        ("e", &[]),
    ]);
    // The wishes of a service that is only wished for are granted in turn, but
    // nothing that is only wished for is required.
    let t = target(&[], &[("a", true, true), ("c", false, false)]);
    s.apply_target(Some(&t));
    assert_eq!(enabled(&s), vec!["a", "b", "e"]);
    assert!(s.required_services.is_empty());
    let t = target(&[], &[("a", true, false), ("c", false, false)]);
    s.apply_target(Some(&t));
    assert_eq!(enabled(&s), vec!["a", "b", "e"]);
    assert_eq!(s.required_services, vec!["a"]);
    // A service that the table disables passes no wish on.
    let t = target(&[], &[("a", true, true), ("b", false, false)]);
    s.apply_target(Some(&t));
    assert_eq!(enabled(&s), vec!["a", "c"]);
}

#[test]
fn a_required_wish_is_a_requirement() {
    let mut s = scanner(&[("a", &[("b", WANTS, true)]), ("b", &[])]);
    let t = target(&["a"], &[("b", false, false)]);
    s.apply_target(Some(&t));
    assert_eq!(enabled(&s), vec!["a", "b"]);
    assert_eq!(s.required_services, vec!["a", "b"]);
}

#[test]
fn circles_of_requirements_are_closed_too() {
    let mut s = scanner(&[("a", &[("b", AFTER, true)]), ("b", &[("a", AFTER, true)]), ("c", &[])]);
    let t = target(&["b"], &[("c", false, false)]);
    let r = resolve_target(Some(&t), &s.services, &s.dep_graph);
    assert_eq!(r.enabled, vec![true, true, false]);
    assert_eq!(r.required, vec![true, true, false]);
    assert!(!r.degraded);
    s.apply_target(Some(&t));
    assert_eq!(s.required_services, vec!["a", "b"]);
}
