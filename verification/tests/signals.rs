use vigil::signals::{
    check_ready_signal, describe_exit, readiness_signal_named, signal_from_name, signal_number,
    signal_signo, signal_with_number, validate_signal_name, NamedSignal, ReadySignal, Signal,
};

#[test]
fn signal_names_resolve() {
    assert_eq!(signal_signo("USR1"), Some(libc::SIGUSR1));
    assert_eq!(signal_signo("term"), None); // must match exact names
    assert_eq!(signal_signo("bogus"), None);
    assert!(signal_signo("KILL").is_some());
}

#[test]
fn describe_exit_forms() {
    assert_eq!(describe_exit(Some(3), None), "exit code 3");
    assert!(describe_exit(None, Some(Signal::SIGSEGV)).contains("SIGSEGV"));
    assert_eq!(describe_exit(None, None), "unknown");
}

#[test]
fn exits_are_described_exactly() {
    assert_eq!(describe_exit(Some(-7), None), "exit code -7");
    assert_eq!(describe_exit(Some(i32::MIN), None), "exit code -2147483648");
    assert_eq!(describe_exit(None, Some(Signal::SIGKILL)), "signal SIGKILL");
    assert_eq!(describe_exit(Some(1), Some(Signal::SIGHUP)), "unknown");
}

#[test]
fn thirteen_readiness_names_have_their_numbers() {
    let table = [
        ("HUP", libc::SIGHUP),
        ("INT", libc::SIGINT),
        ("QUIT", libc::SIGQUIT),
        ("KILL", libc::SIGKILL),
        ("STOP", libc::SIGSTOP),
        ("TERM", libc::SIGTERM),
        ("USR1", libc::SIGUSR1),
        ("USR2", libc::SIGUSR2),
        ("ALRM", libc::SIGALRM),
        ("PIPE", libc::SIGPIPE),
        ("CHLD", libc::SIGCHLD),
        ("CONT", libc::SIGCONT),
        ("ABRT", libc::SIGABRT),
    ];
    for (name, number) in table {
        assert_eq!(signal_signo(name), Some(number), "{}", name);
        let signal = readiness_signal_named(name).unwrap();
        assert_eq!(signal_number(signal), number);
        assert_eq!(signal_with_number(number), Some(signal));
    }
    assert_eq!(signal_number(NamedSignal::Pwr), libc::SIGPWR);
    assert_eq!(signal_signo("PWR"), None);
    assert_eq!(signal_with_number(libc::SIGWINCH), None);
    assert_eq!(signal_with_number(0), None);
}

#[test]
fn shutdown_names_are_validated() {
    for name in ["TERM", "KILL", "STOP", "HUP", "INT", "QUIT", "USR1", "USR2", "ALRM", "PIPE"] {
        assert_eq!(validate_signal_name(name, "shutdown.signal", "svc"), Ok(()));
        assert_eq!(Some(signal_number(signal_from_name(name))), signal_signo(name));
    }
    assert_eq!(
        validate_signal_name("KILLL", "shutdown.kill_signal", "sshd"),
        Err("vigil-supervise [sshd]: invalid shutdown.kill_signal 'KILLL' (TERM/INT/QUIT/KILL/HUP/USR1/USR2/ALRM/PIPE/STOP)".to_string())
    );
    assert!(validate_signal_name("CHLD", "f", "s").is_err());
    assert_eq!(signal_from_name("KILLL"), NamedSignal::Term);
    assert_eq!(signal_from_name("CHLD"), NamedSignal::Term);
}

#[test]
fn readiness_signals_must_not_collide() {
    assert_eq!(check_ready_signal(false, "bogus"), Ok(ReadySignal::Unused));
    assert_eq!(check_ready_signal(true, "USR2"), Ok(ReadySignal::Raised(NamedSignal::Usr2)));
    assert_eq!(check_ready_signal(true, "bogus"), Err("invalid readiness signal name".to_string()));
    for name in ["TERM", "INT", "HUP"] {
        assert_eq!(
            check_ready_signal(true, name),
            Err("readiness signal must not be one of TERM/INT/HUP (reserved for stopping)".to_string())
        );
    }
}

#[test]
fn signal_texts_are_those_of_the_kernel() {
    for (mine, theirs) in [
        (Signal::SIGHUP, nix::sys::signal::Signal::SIGHUP),
        (Signal::SIGILL, nix::sys::signal::Signal::SIGILL),
        (Signal::SIGTRAP, nix::sys::signal::Signal::SIGTRAP),
        (Signal::SIGBUS, nix::sys::signal::Signal::SIGBUS),
        (Signal::SIGFPE, nix::sys::signal::Signal::SIGFPE),
        (Signal::SIGSEGV, nix::sys::signal::Signal::SIGSEGV),
        (Signal::SIGSTKFLT, nix::sys::signal::Signal::SIGSTKFLT),
        (Signal::SIGVTALRM, nix::sys::signal::Signal::SIGVTALRM),
        (Signal::SIGIO, nix::sys::signal::Signal::SIGIO),
        (Signal::SIGPWR, nix::sys::signal::Signal::SIGPWR),
        (Signal::SIGSYS, nix::sys::signal::Signal::SIGSYS),
    ] {
        assert_eq!(mine.as_str(), format!("{:?}", theirs));
    }
}
