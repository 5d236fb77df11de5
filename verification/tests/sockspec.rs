use vigil::sockspec::{
    default_type, parse_ip, parse_listen_spec, parse_port, poll_timeout, split_host_port,
    udp_is_up, unix_is_up, unix_path_bytes, IpAddr, Ipv4Addr, Ipv6Addr, ListenSpec, SocketAddr,
    UdpReply, UnixReply,
};

fn tcp(ip: IpAddr, port: u16) -> ListenSpec {
    ListenSpec::Tcp {
        addr: SocketAddr::new(ip, port),
    }
}

fn v6(groups: [u16; 8]) -> IpAddr {
    IpAddr::V6(Ipv6Addr { segments: groups })
}

#[test]
fn parse_port_only_tcp() {
    let spec = parse_listen_spec("22", "tcp").unwrap();
    assert_eq!(spec, tcp(IpAddr::V4(Ipv4Addr::new(0, 0, 0, 0)), 22));
}

#[test]
fn parse_tcp_prefix() {
    let spec = parse_listen_spec("tcp:127.0.0.1:8000", "tcp").unwrap();
    assert_eq!(spec, tcp(IpAddr::V4(Ipv4Addr::new(127, 0, 0, 1)), 8000));
}

#[test]
fn parse_udp_default_type() {
    let spec = parse_listen_spec("udp:53", "tcp").unwrap();
    assert_eq!(
        spec,
        ListenSpec::Udp {
            addr: SocketAddr::new(IpAddr::V4(Ipv4Addr::new(0, 0, 0, 0)), 53)
        }
    );
}

#[test]
fn parse_ipv6_bracketed() {
    let spec = parse_listen_spec("[::1]:80", "tcp").unwrap();
    assert_eq!(spec, tcp(IpAddr::V6(Ipv6Addr::new(0, 0, 0, 0, 0, 0, 0, 1)), 80));
}

#[test]
fn parse_ipv6_any() {
    let spec = parse_listen_spec("tcp:[::]:80", "tcp").unwrap();
    assert_eq!(spec, tcp(IpAddr::V6(Ipv6Addr::new(0, 0, 0, 0, 0, 0, 0, 0)), 80));
}

#[test]
fn parse_unix() {
    let spec = parse_listen_spec("unix:/run/x.sock", "tcp").unwrap();
    assert_eq!(
        spec,
        ListenSpec::Unix {
            path: "/run/x.sock".to_string()
        }
    );
}

#[test]
fn parse_wildcard_default() {
    let spec = parse_listen_spec("9000", "tcp").unwrap();
    assert_eq!(spec, tcp(IpAddr::V4(Ipv4Addr::new(0, 0, 0, 0)), 9000));
}

#[test]
fn reject_hostname() {
    assert!(parse_listen_spec("tcp:localhost:80", "tcp").is_err());
}

#[test]
fn reject_bad_port() {
    assert!(parse_listen_spec("tcp:1.2.3.4:notaport", "tcp").is_err());
    assert!(parse_listen_spec("tcp:1.2.3.4:70000", "tcp").is_err());
    assert!(parse_listen_spec("tcp:1.2.3.4:0", "tcp").is_err());
}

#[test]
fn reject_empty() {
    assert!(parse_listen_spec("", "tcp").is_err());
}

#[test]
fn reject_unknown_type() {
    assert!(parse_listen_spec("weird:22", "tcp").is_err());
}

#[test]
fn prefix_beats_default_type() {
    assert_eq!(default_type(), "tcp");
    let a = parse_listen_spec("udp:53", "unix").unwrap();
    let b = parse_listen_spec("udp:53", "tcp").unwrap();
    assert_eq!(a, b);
    assert_eq!(
        parse_listen_spec(" /run/y.sock ", "unix").unwrap(),
        ListenSpec::Unix {
            path: "/run/y.sock".to_string()
        }
    );
}

#[test]
fn listen_spec_errors_say_what_is_wrong() {
    let err = |spec: &str, kind: &str| parse_listen_spec(spec, kind).unwrap_err();
    assert_eq!(err("  ", "tcp"), "empty listen spec");
    assert_eq!(err("unix:", "tcp"), "unix socket path is empty");
    assert_eq!(err("22", "sctp"), "unsupported socket type 'sctp'");
    assert_eq!(err("[::1", "tcp"), "unterminated '[' in listen spec '[::1'");
    assert_eq!(err("[::1]", "tcp"), "invalid port ''");
    assert_eq!(err("[::1]x:80", "tcp"), "invalid port ''");
    assert_eq!(err("tcp:70000", "tcp"), "invalid port '70000'");
    assert_eq!(
        err("tcp:0", "tcp"),
        "binding port 0 (ephemeral) is not supported; pick a fixed port"
    );
    assert_eq!(
        err("tcp:localhost:80", "tcp"),
        "'localhost' is not an IP literal; use an IP address (or 0.0.0.0 / :: / *) \u{2014} name resolution is not available at boot"
    );
    // The port is read first.
    assert_eq!(err("tcp:localhost:x", "tcp"), "invalid port 'x'");
}

#[test]
fn host_and_port_are_split() {
    assert_eq!(split_host_port(":80").unwrap(), ("0.0.0.0".to_string(), 80));
    assert_eq!(split_host_port("*:+81").unwrap(), ("*".to_string(), 81));
    assert_eq!(split_host_port(" [::1]:82 ").unwrap(), ("::1".to_string(), 82));
    assert_eq!(split_host_port("::1:83").unwrap(), ("::1".to_string(), 83));
    assert_eq!(split_host_port("84").unwrap(), ("0.0.0.0".to_string(), 84));
    assert_eq!(parse_port("65535"), Ok(65535));
    assert!(parse_port("65536").is_err());
    assert!(parse_port("-1").is_err());
}

#[test]
fn wildcards_are_any_ipv4_address() {
    let any = IpAddr::V4(Ipv4Addr::new(0, 0, 0, 0));
    assert_eq!(parse_ip("*"), Ok(any));
    assert_eq!(parse_ip(""), Ok(any));
}

#[test]
fn ipv4_literals() {
    assert_eq!(parse_ip("255.1.20.3"), Ok(IpAddr::V4(Ipv4Addr::new(255, 1, 20, 3))));
    for bad in ["256.0.0.1", "01.2.3.4", "1.2.3", "1.2.3.4.5", "1..2.3", "1.2.3.4 ", "+1.2.3.4", "1.2.3.0004"] {
        assert!(parse_ip(bad).is_err(), "{} should be rejected", bad);
    }
    assert_eq!(parse_ip("0.0.0.0"), Ok(IpAddr::V4(Ipv4Addr::new(0, 0, 0, 0))));
}

#[test]
fn ipv6_literals() {
    assert_eq!(parse_ip("1:2:3:4:5:6:7:8"), Ok(v6([1, 2, 3, 4, 5, 6, 7, 8])));
    assert_eq!(parse_ip("fe80::1aB"), Ok(v6([0xfe80, 0, 0, 0, 0, 0, 0, 0x1ab])));
    assert_eq!(parse_ip("1:2:3:4:5:6:7::"), Ok(v6([1, 2, 3, 4, 5, 6, 7, 0])));
    assert_eq!(parse_ip("::2:3:4:5:6:7:8"), Ok(v6([0, 2, 3, 4, 5, 6, 7, 8])));
    assert_eq!(parse_ip("::ffff:1.2.3.4"), Ok(v6([0, 0, 0, 0, 0, 0xffff, 0x0102, 0x0304])));
    assert_eq!(parse_ip("1:2:3:4:5:6:7.8.9.10"), Ok(v6([1, 2, 3, 4, 5, 6, 0x0708, 0x090a])));
    for bad in [
        "1:2:3:4:5:6:7", "1:2:3:4:5:6:7:8:9", "1:2:3:4:5:6:7:8::", ":::", "1::2::3", ":1::2",
        "12345::", "g::", "::1.2.3", "1.2.3.4::", "1:2:3:4:5:6:7:1.2.3.4", "::1%eth0", "1:", ":",
    ] {
        assert!(parse_ip(bad).is_err(), "{} should be rejected", bad);
    }
}

#[test]
fn unix_paths_fit_or_not() {
    assert_eq!(unix_path_bytes("/run/x").unwrap(), b"/run/x".to_vec());
    assert!(unix_path_bytes("a\0b").is_none());
    assert!(unix_path_bytes(&"x".repeat(108)).is_none());
    assert_eq!(unix_path_bytes(&"x".repeat(107)).unwrap().len(), 107);
    assert_eq!(unix_path_bytes("\u{e9}").unwrap(), vec![0xc3, 0xa9]);
}

#[test]
fn probe_replies_are_judged() {
    assert!(udp_is_up(UdpReply::Datagram));
    assert!(udp_is_up(UdpReply::Silence));
    assert!(!udp_is_up(UdpReply::Refused));
    assert!(!udp_is_up(UdpReply::Unsent));
    assert!(unix_is_up(UnixReply::Connected));
    assert!(unix_is_up(UnixReply::Pending { writable: true, error: Some(0) }));
    assert!(!unix_is_up(UnixReply::Pending { writable: true, error: Some(111) }));
    assert!(!unix_is_up(UnixReply::Pending { writable: true, error: None }));
    assert!(!unix_is_up(UnixReply::Pending { writable: false, error: Some(0) }));
    assert!(!unix_is_up(UnixReply::Refused));
    assert!(!unix_is_up(UnixReply::Unsent));
    assert_eq!(poll_timeout(300), 300);
    assert_eq!(poll_timeout(u64::MAX), i32::MAX);
}
