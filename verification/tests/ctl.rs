use vigil::ctl::render;
use vigil::protocol::{Response, ServiceInfo, ServiceStatus};

#[test]
fn plain_answers() {
    let out = render(Response::Pong);
    assert_eq!((out.lines, out.failed), (vec!["pong".to_string()], false));
    let out = render(Response::Done { message: "service 'a' started".to_string() });
    assert_eq!((out.lines, out.failed), (vec!["service 'a' started".to_string()], false));
    let out = render(Response::Error { message: "no".to_string() });
    assert_eq!((out.lines, out.failed), (vec!["error: no".to_string()], true));
    let out = render(Response::LogLines(vec!["x".to_string(), "y".to_string()]));
    assert_eq!((out.lines, out.failed), (vec!["x".to_string(), "y".to_string()], false));
}

#[test]
fn status_is_printed_field_by_field() {
    let out = render(Response::Status(ServiceStatus {
        name: "sshd".to_string(),
        state: "running".to_string(),
        pid: Some(1234),
        uptime_secs: 120,
        restart_count: 2,
        description: "Secure shell daemon".to_string(),
        command: "/usr/bin/sshd".to_string(),
    }));
    assert_eq!(
        out.lines,
        vec![
            "Service: sshd",
            "  State:       running",
            "  PID:         1234",
            "  Uptime:      120s",
            "  Restarts:    2",
            "  Description: Secure shell daemon",
            "  Command:     /usr/bin/sshd",
        ]
    );
}

#[test]
fn lists_are_printed_in_columns() {
    assert_eq!(render(Response::List(vec![])).lines, vec!["No services loaded."]);
    let info = |name: &str, pid: Option<u32>| ServiceInfo {
        name: name.to_string(),
        state: "running".to_string(),
        pid,
        description: "d".to_string(),
    };
    let long = "a-service-with-quite-a-long-name";
    let out = render(Response::List(vec![info("sshd", Some(7)), info(long, None)]));
    let row = |a: &str, b: &str, c: &str, d: &str| format!("{:<20} {:<12} {:<8} {}", a, b, c, d);
    assert_eq!(
        out.lines,
        vec![
            row("NAME", "STATE", "PID", "DESCRIPTION"),
            "-".repeat(60),
            row("sshd", "running", "7", "d"),
            row(long, "running", "n/a", "d"),
        ]
    );
}
