use vigil::init::{
    ask_children, init_action, is_child_status, may_run, mount_filesystems, proc_pid,
    scanner_is_lost, set_hostname, setup_runtime, shutdown_commands, wait_for_scanner, InitAction,
    ScannerWait,
};
use vigil::protocol::ShutdownAction;
use vigil::signals::NamedSignal;

#[test]
fn only_pid_1_runs_without_force() {
    assert!(may_run(&vec!["vigil".to_string()], 1));
    assert!(!may_run(&vec!["vigil".to_string()], 2));
    assert!(may_run(&vec!["vigil".to_string(), "--force".to_string()], 2));
}

#[test]
fn signals_of_pid_1() {
    assert_eq!(init_action(NamedSignal::Chld), InitAction::Reap);
    assert_eq!(init_action(NamedSignal::Int), InitAction::ShutDown(ShutdownAction::Reboot));
    assert_eq!(init_action(NamedSignal::Term), InitAction::ShutDown(ShutdownAction::Reboot));
    assert_eq!(init_action(NamedSignal::Usr1), InitAction::ShutDown(ShutdownAction::Halt));
    assert_eq!(init_action(NamedSignal::Usr2), InitAction::ShutDown(ShutdownAction::Poweroff));
    assert_eq!(init_action(NamedSignal::Pwr), InitAction::ShutDown(ShutdownAction::Poweroff));
    assert_eq!(init_action(NamedSignal::Hup), InitAction::Nothing);
}

#[test]
fn lost_scanners_are_respawned() {
    assert!(scanner_is_lost(ScannerWait::Ended));
    assert!(scanner_is_lost(ScannerWait::Gone));
    assert!(!scanner_is_lost(ScannerWait::Alive));
    assert!(!scanner_is_lost(ScannerWait::Unknown));
    assert!(wait_for_scanner(true, 49));
    assert!(!wait_for_scanner(true, 50));
    assert!(!wait_for_scanner(false, 0));
    assert!(ask_children(2, 19));
    assert!(!ask_children(2, 20));
    assert!(!ask_children(0, 0));
}

#[test]
fn children_are_found_by_their_status() {
    let status = "Name:\tsleep\nUmask:\t0022\nPid:\t42\nPPid:\t1\nTracerPid:\t0\n";
    assert!(is_child_status(status, 1));
    assert!(!is_child_status(status, 42));
    assert!(!is_child_status("Name:\tx\n PPid:\t1\n", 1));
    assert!(!is_child_status("", 1));
    assert!(is_child_status("PPid: 7 ", 7));
    assert_eq!(proc_pid("42"), Some(42));
    assert_eq!(proc_pid("self"), None);
}

#[test]
fn early_mounts() {
    let mounts = mount_filesystems();
    let targets: Vec<&str> = mounts.iter().map(|m| m.target.as_str()).collect();
    assert_eq!(targets, vec!["/proc", "/sys", "/dev", "/run", "/dev/shm", "/dev/pts"]);
    assert!(mounts.iter().all(|m| m.nosuid));
    assert_eq!(mounts[0].fstype, "proc");
    assert!(mounts[2].noexec && !mounts[2].nodev);
    assert!(!mounts[4].noexec && mounts[4].nodev);
    assert_eq!(mounts[3].data.as_deref(), Some("mode=0755"));
    assert_eq!(mounts[5].data.as_deref(), Some("gid=5,mode=620,ptmxmode=0666"));
    assert_eq!(mounts[0].data, None);
}

#[test]
fn runtime_directories_and_hostname() {
    assert_eq!(setup_runtime(), vec!["/run/vigil", "/run/vigil/supervise", "/var/log/vigil"]);
    assert_eq!(set_hostname(&Some("box".to_string())), Some("box".to_string()));
    assert_eq!(set_hostname(&Some("b\0x".to_string())), None);
    assert_eq!(set_hostname(&None), None);
}

#[test]
fn shutdown_commands_match_the_action() {
    assert_eq!(
        shutdown_commands(ShutdownAction::Poweroff),
        vec![
            vec!["/sbin/shutdown", "-P", "now"],
            vec!["/usr/sbin/shutdown", "-P", "now"],
            vec!["/sbin/poweroff"],
            vec!["/usr/sbin/poweroff"],
        ]
    );
    assert_eq!(shutdown_commands(ShutdownAction::Halt)[0][1], "-H");
    assert_eq!(shutdown_commands(ShutdownAction::Halt)[2], vec!["/sbin/halt"]);
    assert_eq!(shutdown_commands(ShutdownAction::Reboot)[1][1], "-r");
    assert_eq!(shutdown_commands(ShutdownAction::Reboot)[3], vec!["/usr/sbin/reboot"]);
}
