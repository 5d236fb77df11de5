//! PID 1: what it mounts, how it answers signals, when it respawns the
//! scanner, and how it shuts the machine down.

use crate::protocol::ShutdownAction;
use crate::signals::NamedSignal;
use crate::text::{
    decimal, decimal_reads_back, from_chars, has_char, in_range, parse_i32, prefixes_come_off,
    signed_value, split, split_chars, starts_with, stripped, texts, to_chars, trim, trim_front,
    trimmed, Text,
};
use crate::{VIGIL_LOG_DIR, VIGIL_RUNTIME_DIR, VIGIL_SUPERVISE_DIR};
use vstd::prelude::*;

verus! {

/// How often PID 1 looks after a scanner that it stops, and how long it sleeps
/// in between.
pub const STOP_CHECKS: u32 = 50;

/// How often PID 1 asks orphaned children to end before it kills them.
pub const KILL_ROUNDS: u32 = 20;

/// How long it sleeps between two of these looks, in milliseconds.
pub const INIT_POLL_MS: u64 = 100;

/// Whether the program may run: as PID 1, or anywhere with `--force`.
pub fn may_run(args: &Vec<String>, pid: i32) -> (r: bool)
    ensures
        r == (pid == 1 || texts(args@).contains("--force"@)),
{
    crate::text::position(args, "--force").is_some() || pid == 1
}

/// What a signal to PID 1 asks for.
#[derive(Debug, Clone, Copy, PartialEq, Eq, Structural)]
pub enum InitAction {
    /// Reap children, and see after the scanner.
    Reap,
    /// Stop the scanner, then shut the machine down.
    ShutDown(ShutdownAction),
    Nothing,
}

/// The signal map of PID 1.
pub open spec fn action_for(signal: NamedSignal) -> InitAction {
    match signal {
        NamedSignal::Chld => InitAction::Reap,
        NamedSignal::Term | NamedSignal::Int => InitAction::ShutDown(ShutdownAction::Reboot),
        NamedSignal::Usr1 => InitAction::ShutDown(ShutdownAction::Halt),
        NamedSignal::Usr2 | NamedSignal::Pwr => InitAction::ShutDown(ShutdownAction::Poweroff),
        _ => InitAction::Nothing,
    }
}

pub fn init_action(signal: NamedSignal) -> (r: InitAction)
    ensures
        r == action_for(signal),
{
    match signal {
        NamedSignal::Chld => InitAction::Reap,
        NamedSignal::Term | NamedSignal::Int => InitAction::ShutDown(ShutdownAction::Reboot),
        NamedSignal::Usr1 => InitAction::ShutDown(ShutdownAction::Halt),
        NamedSignal::Usr2 | NamedSignal::Pwr => InitAction::ShutDown(ShutdownAction::Poweroff),
        _ => InitAction::Nothing,
    }
}

/// What a look at the scanner process found.
#[derive(Debug, Clone, Copy, PartialEq, Eq, Structural)]
pub enum ScannerWait {
    Alive,
    /// It has just ended.
    Ended,
    /// It is no child any more: it was reaped before.
    Gone,
    /// The look failed in another way.
    Unknown,
}

/// Whether the scanner is to be started again, after what it left behind has
/// been cleared away.
pub fn scanner_is_lost(wait: ScannerWait) -> (r: bool)
    ensures
        r == (wait is Ended || wait is Gone),
{
    match wait {
        ScannerWait::Ended | ScannerWait::Gone => true,
        ScannerWait::Alive | ScannerWait::Unknown => false,
    }
}

/// Whether PID 1 goes on waiting for a scanner that it asked to end; `checks`
/// looks are over. If not, it kills the scanner, should it still be there.
pub fn wait_for_scanner(alive: bool, checks: u32) -> (r: bool)
    ensures
        r == (alive && checks < STOP_CHECKS),
        r == (alive && checks < 50),
{
    alive && checks < STOP_CHECKS
}

/// Whether PID 1 asks its remaining children once more to end; `rounds` such
/// rounds are over. If not, it waits a second and kills those that remain.
pub fn ask_children(remaining: usize, rounds: u32) -> (r: bool)
    ensures
        r == (remaining > 0 && rounds < KILL_ROUNDS),
        r == (remaining > 0 && rounds < 20),
{
    remaining > 0 && rounds < KILL_ROUNDS
}

// ---------------------------------------------------------------------------
// Children
// ---------------------------------------------------------------------------

/// The process that an entry of `/proc` stands for, if it stands for one.
pub fn proc_pid(name: &str) -> (r: Option<i32>)
    ensures
        match r {
            Some(p) => in_range(signed_value(name@), i32::MIN as int, i32::MAX as int) == Some(
                p as int,
            ),
            None => in_range(signed_value(name@), i32::MIN as int, i32::MAX as int) is None,
        },
{
    parse_i32(name)
}

/// Whether a line of a process status names the given parent.
pub open spec fn names_parent(line: Text, ppid: int) -> bool {
    stripped(line, "PPid:"@) matches Some(rest) && in_range(
        signed_value(trimmed(rest)),
        i32::MIN as int,
        i32::MAX as int,
    ) == Some(ppid)
}

/// Whether a process status, as `/proc` gives it, is that of a child of the
/// given process.
pub fn is_child_status(status: &str, ppid: i32) -> (r: bool)
    ensures
        r == exists|i: int|
            0 <= i < split(status@, '\n').len() && names_parent(
                #[trigger] split(status@, '\n')[i],
                ppid as int,
            ),
{
    let v = to_chars(status);
    assert(v@.subrange(0, v@.len() as int) =~= v@);
    let lines = split_chars(&v, 0, v.len(), '\n');
    let ghost all = split(status@, '\n');
    let mut i: usize = 0;
    while i < lines.len()
        invariant
            i <= lines@.len(),
            crate::text::contents(lines@) == all,
            all == split(status@, '\n'),
            forall|j: int| 0 <= j < i ==> !names_parent(#[trigger] all[j], ppid as int),
        decreases lines@.len() - i,
    {
        assert(lines@[i as int]@ == all[i as int]);
        if line_names_parent(&lines[i], ppid) {
            assert(names_parent(all[i as int], ppid as int));
            return true;
        }
        i += 1;
    }
    false
}

fn line_names_parent(line: &Vec<char>, ppid: i32) -> (r: bool)
    ensures
        r == names_parent(line@, ppid as int),
{
    let n = line.len();
    if !starts_with(line, "PPid:") {
        return false;
    }
    proof {
        reveal_strlit("PPid:");
    }
    assert(line@.subrange(5, n as int) =~= line@.skip(5));
    let rest = from_chars(line, 5, n);
    match parse_i32(trim(rest.as_str()).as_str()) {
        Some(p) => p == ppid,
        None => false,
    }
}

// ---------------------------------------------------------------------------
// Boot
// ---------------------------------------------------------------------------

/// A filesystem that PID 1 mounts.
#[derive(Debug, Clone, PartialEq, Eq)]
pub struct MountSpec {
    pub source: String,
    pub target: String,
    pub fstype: String,
    pub nosuid: bool,
    pub noexec: bool,
    pub nodev: bool,
    pub data: Option<String>,
}

/// What a `MountSpec` says.
pub struct Mount {
    pub source: Text,
    pub target: Text,
    pub fstype: Text,
    pub nosuid: bool,
    pub noexec: bool,
    pub nodev: bool,
    pub data: Option<Text>,
}

impl View for MountSpec {
    type V = Mount;

    open spec fn view(&self) -> Mount {
        Mount {
            source: self.source@,
            target: self.target@,
            fstype: self.fstype@,
            nosuid: self.nosuid,
            noexec: self.noexec,
            nodev: self.nodev,
            data: crate::readiness::text_view(self.data),
        }
    }
}

pub open spec fn mount_entry(
    source: Text,
    target: Text,
    noexec: bool,
    nodev: bool,
    data: Option<Text>,
) -> Mount {
    Mount { source, target, fstype: source, nosuid: true, noexec, nodev, data }
}

/// The filesystems that PID 1 mounts, in order. None of them honours set-uid
/// bits; programs and devices are admitted only where they belong.
pub open spec fn boot_mounts() -> Seq<Mount> {
    seq![
        mount_entry("proc"@, "/proc"@, true, true, None),
        mount_entry("sysfs"@, "/sys"@, true, true, None),
        mount_entry("devtmpfs"@, "/dev"@, true, false, None),
        mount_entry("tmpfs"@, "/run"@, true, true, Some("mode=0755"@)),
        mount_entry("tmpfs"@, "/dev/shm"@, false, true, Some("mode=1777"@)),
        mount_entry("devpts"@, "/dev/pts"@, true, false, Some("gid=5,mode=620,ptmxmode=0666"@)),
    ]
}

fn mount_spec(
    source: &str,
    target: &str,
    noexec: bool,
    nodev: bool,
    data: Option<&str>,
) -> (r: MountSpec)
    ensures
        r@ == mount_entry(
            source@,
            target@,
            noexec,
            nodev,
            match data {
                Some(d) => Some(d@),
                None => None,
            },
        ),
{
    MountSpec {
        source: source.to_string(),
        target: target.to_string(),
        fstype: source.to_string(),
        nosuid: true,
        noexec,
        nodev,
        data: match data {
            Some(d) => Some(d.to_string()),
            None => None,
        },
    }
}

pub fn mount_filesystems() -> (r: Vec<MountSpec>)
    ensures
        r@.map_values(|m: MountSpec| m@) == boot_mounts(),
{
    let mut out: Vec<MountSpec> = Vec::new();
    out.push(mount_spec("proc", "/proc", true, true, None));
    out.push(mount_spec("sysfs", "/sys", true, true, None));
    out.push(mount_spec("devtmpfs", "/dev", true, false, None));
    out.push(mount_spec("tmpfs", "/run", true, true, Some("mode=0755")));
    out.push(mount_spec("tmpfs", "/dev/shm", false, true, Some("mode=1777")));
    out.push(
        mount_spec("devpts", "/dev/pts", true, false, Some("gid=5,mode=620,ptmxmode=0666")),
    );
    assert(out@.map_values(|m: MountSpec| m@) =~= boot_mounts());
    out
}

/// The directories that PID 1 makes for its children.
pub fn setup_runtime() -> (r: Vec<String>)
    ensures
        texts(r@) == seq![VIGIL_RUNTIME_DIR@, VIGIL_SUPERVISE_DIR@, VIGIL_LOG_DIR@],
{
    let mut out: Vec<String> = Vec::new();
    out.push(VIGIL_RUNTIME_DIR.to_string());
    out.push(VIGIL_SUPERVISE_DIR.to_string());
    out.push(VIGIL_LOG_DIR.to_string());
    assert(texts(out@) =~= seq![VIGIL_RUNTIME_DIR@, VIGIL_SUPERVISE_DIR@, VIGIL_LOG_DIR@]);
    out
}

/// The host name to set: the configured one, if it can be one.
pub fn set_hostname(configured: &Option<String>) -> (r: Option<String>)
    ensures
        match r {
            Some(h) => configured matches Some(c) && c@ == h@ && !h@.contains('\0'),
            None => configured matches Some(c) ==> c@.contains('\0'),
        },
{
    match configured {
        Some(c) => if has_char(c.as_str(), '\0') {
            None
        } else {
            Some(c.clone())
        },
        None => None,
    }
}

// ---------------------------------------------------------------------------
// Shutdown
// ---------------------------------------------------------------------------

/// The flag of `shutdown` for an action.
pub open spec fn shutdown_flag(action: ShutdownAction) -> Text {
    match action {
        ShutdownAction::Halt => "-H"@,
        ShutdownAction::Poweroff => "-P"@,
        ShutdownAction::Reboot => "-r"@,
    }
}

/// The program that performs an action.
pub open spec fn action_program(action: ShutdownAction) -> Text {
    match action {
        ShutdownAction::Halt => "halt"@,
        ShutdownAction::Poweroff => "poweroff"@,
        ShutdownAction::Reboot => "reboot"@,
    }
}

/// The command lines that PID 1 tries in order to shut the machine down; the
/// first word of each is the program. `shutdown` comes first, then the
/// program of the action itself: `reboot` would turn a halt into a reboot.
pub open spec fn shutdown_lines(action: ShutdownAction) -> Seq<Seq<Text>> {
    seq![
        seq!["/sbin/shutdown"@, shutdown_flag(action), "now"@],
        seq!["/usr/sbin/shutdown"@, shutdown_flag(action), "now"@],
        seq!["/sbin/"@ + action_program(action)],
        seq!["/usr/sbin/"@ + action_program(action)],
    ]
}

/// What each of several command lines says.
pub open spec fn command_lines(v: Seq<Vec<String>>) -> Seq<Seq<Text>> {
    v.map_values(|c: Vec<String>| texts(c@))
}

pub fn shutdown_commands(action: ShutdownAction) -> (r: Vec<Vec<String>>)
    ensures
        command_lines(r@) == shutdown_lines(action),
{
    let flag = match action {
        ShutdownAction::Halt => "-H",
        ShutdownAction::Poweroff => "-P",
        ShutdownAction::Reboot => "-r",
    };
    let program = match action {
        ShutdownAction::Halt => "halt",
        ShutdownAction::Poweroff => "poweroff",
        ShutdownAction::Reboot => "reboot",
    };
    let first = three_words("/sbin/shutdown", flag, "now");
    let second = three_words("/usr/sbin/shutdown", flag, "now");
    let third = one_word("/sbin/".to_string().concat(program));
    let fourth = one_word("/usr/sbin/".to_string().concat(program));
    let mut out: Vec<Vec<String>> = Vec::new();
    out.push(first);
    out.push(second);
    out.push(third);
    out.push(fourth);
    assert(command_lines(out@) =~= shutdown_lines(action));
    out
}

fn three_words(a: &str, b: &str, c: &str) -> (r: Vec<String>)
    ensures
        texts(r@) == seq![a@, b@, c@],
{
    let mut out: Vec<String> = Vec::new();
    out.push(a.to_string());
    out.push(b.to_string());
    out.push(c.to_string());
    assert(texts(out@) =~= seq![a@, b@, c@]);
    out
}

fn one_word(a: String) -> (r: Vec<String>)
    ensures
        texts(r@) == seq![a@],
{
    let mut out: Vec<String> = Vec::new();
    out.push(a);
    assert(texts(out@) =~= seq![a@]);
    out
}

// ---------------------------------------------------------------------------
// Laws
// ---------------------------------------------------------------------------

/// What a client asks for is what PID 1 does: the signal by which the scanner
/// passes a shutdown request on leads PID 1 to the same action.
pub proof fn shutdown_requests_reach_pid_1(action: ShutdownAction)
    ensures
        action_for(crate::scanner::farewell_of(action)) == InitAction::ShutDown(action),
{
}

/// PID 1 reaps on `CHLD`, reboots on `TERM` and `INT`, powers off on `USR2` and
/// `PWR`, halts on `USR1`, and heeds no other signal.
pub proof fn pid_1_heeds_its_signals_alone(signal: NamedSignal)
    ensures
        action_for(signal) == InitAction::Reap <==> signal is Chld,
        action_for(signal) == InitAction::ShutDown(ShutdownAction::Reboot) <==> signal is Term
            || signal is Int,
        action_for(signal) == InitAction::ShutDown(ShutdownAction::Halt) <==> signal is Usr1,
        action_for(signal) == InitAction::ShutDown(ShutdownAction::Poweroff) <==> signal is Usr2
            || signal is Pwr,
{
}

/// A process status names its parent in the line `PPid:`, in decimal behind any
/// white space, and no line names two parents.
pub proof fn parents_are_named_in_decimal(p: i32, q: int, line: Text, rest: Text)
    ensures
        p >= 0 && trimmed(rest) == decimal(p as nat) ==> names_parent("PPid:"@ + rest, p as int),
        p >= 0 ==> names_parent("PPid:\t"@ + decimal(p as nat), p as int),
        names_parent(line, p as int) && names_parent(line, q) ==> p == q,
        names_parent(line, q) ==> line.len() > 5 && line.take(5) == "PPid:"@,
{
    reveal_strlit("PPid:");
    reveal_strlit("PPid:\t");
    if p >= 0 && trimmed(rest) == decimal(p as nat) {
        prefixes_come_off("PPid:"@, rest, line);
        decimal_reads_back(p as nat);
    }
    if p >= 0 {
        let d = decimal(p as nat);
        let l = "PPid:\t"@ + d;
        let rest = seq!['\t'] + d;
        assert(l =~= "PPid:"@ + rest);
        prefixes_come_off("PPid:"@, rest, l);
        decimal_reads_back(p as nat);
        assert(rest.skip(1) =~= d);
        assert(rest[0] == '\t');
        assert(trim_front(rest) == trim_front(d));
        assert(trimmed(rest) == trimmed(d));
    }
    if names_parent(line, q) {
        let rest = stripped(line, "PPid:"@)->0;
        prefixes_come_off("PPid:"@, rest, line);
        assert(line.take(5) =~= "PPid:"@);
        if line.len() == 5 {
            assert(rest.len() == 0);
        }
    }
}

/// What PID 1 runs to shut down depends on the action: no command line of one
/// action is one of another, and none is empty.
pub proof fn shutdown_commands_fit_the_action(a: ShutdownAction, b: ShutdownAction, i: int, j: int)
    requires
        a != b,
        0 <= i < 4,
        0 <= j < 4,
    ensures
        shutdown_lines(a).len() == 4,
        shutdown_lines(a)[i].len() > 0,
        shutdown_lines(a)[i] != shutdown_lines(b)[j],
{
    reveal_strlit("-H");
    reveal_strlit("-P");
    reveal_strlit("-r");
    reveal_strlit("halt");
    reveal_strlit("poweroff");
    reveal_strlit("reboot");
    reveal_strlit("/sbin/");
    reveal_strlit("/usr/sbin/");
    reveal_strlit("now");
    reveal_strlit("/sbin/shutdown");
    reveal_strlit("/usr/sbin/shutdown");
    let x = shutdown_lines(a)[i];
    let y = shutdown_lines(b)[j];
    assert("-H"@[1] == 'H' && "-P"@[1] == 'P' && "-r"@[1] == 'r');
    if x == y {
        if i < 2 {
            assert(x.len() == 3);
            assert(j < 2);
            assert(x[1] == y[1]);
        } else {
            assert(x.len() == 1);
            assert(j >= 2);
            assert(x[0] == y[0]);
            assert(x[0][0] == '/');
            assert("halt"@.len() == 4 && "poweroff"@.len() == 8 && "reboot"@.len() == 6);
            assert("/sbin/"@.len() == 6 && "/usr/sbin/"@.len() == 10);
            assert("/sbin/"@[1] == 's' && "/usr/sbin/"@[1] == 'u');
            assert(("/sbin/"@ + action_program(a))[1] == 's');
            assert(("/usr/sbin/"@ + action_program(a))[1] == 'u');
            assert(("/sbin/"@ + action_program(b))[1] == 's');
            assert(("/usr/sbin/"@ + action_program(b))[1] == 'u');
            assert(x[0].len() == y[0].len());
        }
    }
}

/// No filesystem that PID 1 mounts honours set-uid bits; programs run from
/// shared memory alone, and devices open only in `/dev` and `/dev/pts`. Each is of
/// the kind that its place calls for, and `/dev` is there before what lies in it.
pub proof fn mounts_are_restricted(i: int)
    requires
        0 <= i < boot_mounts().len(),
    ensures
        ({
            let m = boot_mounts()[i];
            &&& m.nosuid
            &&& m.fstype == m.source
            &&& !m.noexec <==> m.target == "/dev/shm"@
            &&& !m.nodev <==> m.target == "/dev"@ || m.target == "/dev/pts"@
            &&& m.target == "/proc"@ ==> m.source == "proc"@ && m.data is None
            &&& m.target == "/sys"@ ==> m.source == "sysfs"@ && m.data is None
            &&& m.target == "/dev"@ ==> m.source == "devtmpfs"@ && m.data is None
            &&& m.target == "/run"@ ==> m.source == "tmpfs"@ && m.data == Some("mode=0755"@)
            &&& m.target == "/dev/shm"@ ==> m.source == "tmpfs"@ && m.data == Some("mode=1777"@)
            &&& m.target == "/dev/pts"@ ==> m.source == "devpts"@ && m.data == Some(
                "gid=5,mode=620,ptmxmode=0666"@,
            )
            &&& m.target == "/dev/shm"@ || m.target == "/dev/pts"@ ==> exists|j: int|
                0 <= j < i && (#[trigger] boot_mounts()[j]).target == "/dev"@
            &&& forall|j: int| 0 <= j < boot_mounts().len() && j != i ==> (
            #[trigger] boot_mounts()[j]).target != m.target
        }),
{
    reveal_strlit("/proc");
    reveal_strlit("/sys");
    reveal_strlit("/dev");
    reveal_strlit("/run");
    reveal_strlit("/dev/shm");
    reveal_strlit("/dev/pts");
    assert("/proc"@.len() == 5 && "/sys"@.len() == 4 && "/dev"@.len() == 4 && "/run"@.len() == 4
        && "/dev/shm"@.len() == 8 && "/dev/pts"@.len() == 8);
    assert("/sys"@[1] == 's' && "/dev"@[1] == 'd' && "/run"@[1] == 'r');
    assert("/dev/shm"@[5] == 's' && "/dev/pts"@[5] == 'p');
    assert(boot_mounts()[2].target == "/dev"@);
}

/// Nothing of a mount is lost in what is said of it.
pub proof fn mounts_are_said_in_full(m: MountSpec)
    ensures
        m@.source == m.source@ && m@.target == m.target@ && m@.fstype == m.fstype@,
        m@.nosuid == m.nosuid && m@.noexec == m.noexec && m@.nodev == m.nodev,
        m.data is None <==> m@.data is None,
        m.data matches Some(d) ==> m@.data == Some(d@),
{
}

/// Every command line is said, with every word in its place.
pub proof fn command_lines_are_said_in_full(v: Seq<Vec<String>>, i: int, k: int)
    requires
        0 <= i < v.len(),
    ensures
        command_lines(v).len() == v.len(),
        command_lines(v)[i].len() == v[i]@.len(),
        0 <= k < v[i]@.len() ==> command_lines(v)[i][k] == v[i]@[k]@,
{
}

/// The machine is shut down by `shutdown` with the flag of the action, and where
/// that is missing by the program of the action's own name.
pub proof fn shutdown_commands_name_the_action(action: ShutdownAction)
    ensures
        ({
            let l = shutdown_lines(action);
            let flag = match action {
                ShutdownAction::Halt => "-H"@,
                ShutdownAction::Poweroff => "-P"@,
                ShutdownAction::Reboot => "-r"@,
            };
            let name = match action {
                ShutdownAction::Halt => "halt"@,
                ShutdownAction::Poweroff => "poweroff"@,
                ShutdownAction::Reboot => "reboot"@,
            };
            &&& l[0] == seq!["/sbin/shutdown"@, flag, "now"@]
            &&& l[1] == seq!["/usr/sbin/shutdown"@, flag, "now"@]
            &&& l[2] == seq!["/sbin/"@ + name]
            &&& l[3] == seq!["/usr/sbin/"@ + name]
        }),
{
}

} // verus!
