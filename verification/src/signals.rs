//! Signals: the names that configuration files use for them, their numbers,
//! and how the end of a process is described.

use crate::text::{
    decimal, decimals_begin_with_no_zero, same, show_signed, signed_decimal, Text,
};
use vstd::prelude::*;

verus! {

/// The signals that configuration files name and that the event loops answer.
#[derive(Debug, Clone, Copy, PartialEq, Eq, Structural)]
pub enum NamedSignal {
    Hup,
    Int,
    Quit,
    Abrt,
    Kill,
    Usr1,
    Usr2,
    Pipe,
    Alrm,
    Term,
    Chld,
    Cont,
    Stop,
    Pwr,
}

impl NamedSignal {
    /// The number of the signal, in the numbering of Linux on x86 and ARM.
    pub open spec fn number(self) -> i32 {
        match self {
            NamedSignal::Hup => 1,
            NamedSignal::Int => 2,
            NamedSignal::Quit => 3,
            NamedSignal::Abrt => 6,
            NamedSignal::Kill => 9,
            NamedSignal::Usr1 => 10,
            NamedSignal::Usr2 => 12,
            NamedSignal::Pipe => 13,
            NamedSignal::Alrm => 14,
            NamedSignal::Term => 15,
            NamedSignal::Chld => 17,
            NamedSignal::Cont => 18,
            NamedSignal::Stop => 19,
            NamedSignal::Pwr => 30,
        }
    }
}

/// Reads one of the `libc::SIG*` constants: they hold the kernel's numbers,
/// which on x86 and ARM Linux are those of `NamedSignal::number`.
#[verifier::external_body]
pub(crate) fn libc_number(s: NamedSignal) -> (r: i32)
    ensures
        r == s.number(),
{
    match s {
        NamedSignal::Hup => libc::SIGHUP, NamedSignal::Int => libc::SIGINT,
        NamedSignal::Quit => libc::SIGQUIT, NamedSignal::Abrt => libc::SIGABRT,
        NamedSignal::Kill => libc::SIGKILL, NamedSignal::Usr1 => libc::SIGUSR1,
        NamedSignal::Usr2 => libc::SIGUSR2, NamedSignal::Pipe => libc::SIGPIPE,
        NamedSignal::Alrm => libc::SIGALRM, NamedSignal::Term => libc::SIGTERM,
        NamedSignal::Chld => libc::SIGCHLD, NamedSignal::Cont => libc::SIGCONT,
        NamedSignal::Stop => libc::SIGSTOP, NamedSignal::Pwr => libc::SIGPWR,
    }
}

/// The number of a signal.
pub fn signal_number(s: NamedSignal) -> (r: i32)
    ensures
        r == s.number(),
{
    libc_number(s)
}

/// The signal with the given number, if it is one that an event loop answers.
pub fn signal_with_number(signo: i32) -> (r: Option<NamedSignal>)
    ensures
        match r {
            Some(s) => s.number() == signo,
            None => forall|s: NamedSignal| #[trigger] s.number() != signo,
        },
{
    let all = [
        NamedSignal::Hup,
        NamedSignal::Int,
        NamedSignal::Quit,
        NamedSignal::Abrt,
        NamedSignal::Kill,
        NamedSignal::Usr1,
        NamedSignal::Usr2,
        NamedSignal::Pipe,
        NamedSignal::Alrm,
        NamedSignal::Term,
        NamedSignal::Chld,
        NamedSignal::Cont,
        NamedSignal::Stop,
        NamedSignal::Pwr,
    ];
    let ghost every = all@;
    assert(every[0] is Hup && every[1] is Int && every[2] is Quit && every[3] is Abrt && every[4]
        is Kill && every[5] is Usr1 && every[6] is Usr2 && every[7] is Pipe && every[8] is Alrm
        && every[9] is Term && every[10] is Chld && every[11] is Cont && every[12] is Stop
        && every[13] is Pwr);
    let mut i: usize = 0;
    while i < 14
        invariant
            i <= 14,
            all@ == every,
            every.len() == 14,
            forall|j: int| 0 <= j < i ==> (#[trigger] every[j]).number() != signo,
        decreases 14 - i,
    {
        if libc_number(all[i]) == signo {
            return Some(all[i]);
        }
        i += 1;
    }
    assert forall|s: NamedSignal| #[trigger] s.number() != signo by {
        match s {
            NamedSignal::Hup => assert(every[0].number() != signo),
            NamedSignal::Int => assert(every[1].number() != signo),
            NamedSignal::Quit => assert(every[2].number() != signo),
            NamedSignal::Abrt => assert(every[3].number() != signo),
            NamedSignal::Kill => assert(every[4].number() != signo),
            NamedSignal::Usr1 => assert(every[5].number() != signo),
            NamedSignal::Usr2 => assert(every[6].number() != signo),
            NamedSignal::Pipe => assert(every[7].number() != signo),
            NamedSignal::Alrm => assert(every[8].number() != signo),
            NamedSignal::Term => assert(every[9].number() != signo),
            NamedSignal::Chld => assert(every[10].number() != signo),
            NamedSignal::Cont => assert(every[11].number() != signo),
            NamedSignal::Stop => assert(every[12].number() != signo),
            NamedSignal::Pwr => assert(every[13].number() != signo),
        }
    }
    None
}

/// The signal that a readiness check may name: thirteen names, in exactly
/// this spelling.
pub open spec fn readiness_signal(name: Text) -> Option<NamedSignal> {
    if name == "HUP"@ {
        Some(NamedSignal::Hup)
    } else if name == "INT"@ {
        Some(NamedSignal::Int)
    } else if name == "QUIT"@ {
        Some(NamedSignal::Quit)
    } else if name == "KILL"@ {
        Some(NamedSignal::Kill)
    } else if name == "STOP"@ {
        Some(NamedSignal::Stop)
    } else if name == "TERM"@ {
        Some(NamedSignal::Term)
    } else if name == "USR1"@ {
        Some(NamedSignal::Usr1)
    } else if name == "USR2"@ {
        Some(NamedSignal::Usr2)
    } else if name == "ALRM"@ {
        Some(NamedSignal::Alrm)
    } else if name == "PIPE"@ {
        Some(NamedSignal::Pipe)
    } else if name == "CHLD"@ {
        Some(NamedSignal::Chld)
    } else if name == "CONT"@ {
        Some(NamedSignal::Cont)
    } else if name == "ABRT"@ {
        Some(NamedSignal::Abrt)
    } else {
        None
    }
}

/// The signal that a shutdown setting may name: ten names, in exactly this
/// spelling.
pub open spec fn shutdown_signal(name: Text) -> Option<NamedSignal> {
    if name == "TERM"@ {
        Some(NamedSignal::Term)
    } else if name == "KILL"@ {
        Some(NamedSignal::Kill)
    } else if name == "STOP"@ {
        Some(NamedSignal::Stop)
    } else if name == "HUP"@ {
        Some(NamedSignal::Hup)
    } else if name == "INT"@ {
        Some(NamedSignal::Int)
    } else if name == "QUIT"@ {
        Some(NamedSignal::Quit)
    } else if name == "USR1"@ {
        Some(NamedSignal::Usr1)
    } else if name == "USR2"@ {
        Some(NamedSignal::Usr2)
    } else if name == "ALRM"@ {
        Some(NamedSignal::Alrm)
    } else if name == "PIPE"@ {
        Some(NamedSignal::Pipe)
    } else {
        None
    }
}

/// The signal with a readiness name.
pub fn readiness_signal_named(name: &str) -> (r: Option<NamedSignal>)
    ensures
        r == readiness_signal(name@),
{
    if same(name, "HUP") {
        Some(NamedSignal::Hup)
    } else if same(name, "INT") {
        Some(NamedSignal::Int)
    } else if same(name, "QUIT") {
        Some(NamedSignal::Quit)
    } else if same(name, "KILL") {
        Some(NamedSignal::Kill)
    } else if same(name, "STOP") {
        Some(NamedSignal::Stop)
    } else if same(name, "TERM") {
        Some(NamedSignal::Term)
    } else if same(name, "USR1") {
        Some(NamedSignal::Usr1)
    } else if same(name, "USR2") {
        Some(NamedSignal::Usr2)
    } else if same(name, "ALRM") {
        Some(NamedSignal::Alrm)
    } else if same(name, "PIPE") {
        Some(NamedSignal::Pipe)
    } else if same(name, "CHLD") {
        Some(NamedSignal::Chld)
    } else if same(name, "CONT") {
        Some(NamedSignal::Cont)
    } else if same(name, "ABRT") {
        Some(NamedSignal::Abrt)
    } else {
        None
    }
}

/// The number of the signal with a readiness name.
pub fn signal_signo(name: &str) -> (r: Option<i32>)
    ensures
        r == match readiness_signal(name@) {
            Some(s) => Some(s.number()),
            None => None,
        },
{
    match readiness_signal_named(name) {
        Some(s) => Some(libc_number(s)),
        None => None,
    }
}

fn shutdown_signal_named(name: &str) -> (r: Option<NamedSignal>)
    ensures
        r == shutdown_signal(name@),
{
    if same(name, "TERM") {
        Some(NamedSignal::Term)
    } else if same(name, "KILL") {
        Some(NamedSignal::Kill)
    } else if same(name, "STOP") {
        Some(NamedSignal::Stop)
    } else if same(name, "HUP") {
        Some(NamedSignal::Hup)
    } else if same(name, "INT") {
        Some(NamedSignal::Int)
    } else if same(name, "QUIT") {
        Some(NamedSignal::Quit)
    } else if same(name, "USR1") {
        Some(NamedSignal::Usr1)
    } else if same(name, "USR2") {
        Some(NamedSignal::Usr2)
    } else if same(name, "ALRM") {
        Some(NamedSignal::Alrm)
    } else if same(name, "PIPE") {
        Some(NamedSignal::Pipe)
    } else {
        None
    }
}

/// The signal that a shutdown setting stands for; `TERM` where its name is
/// not one of the ten.
pub open spec fn configured_signal(name: Text) -> NamedSignal {
    match shutdown_signal(name) {
        Some(s) => s,
        None => NamedSignal::Term,
    }
}

pub fn signal_from_name(name: &str) -> (r: NamedSignal)
    ensures
        r == configured_signal(name@),
{
    match shutdown_signal_named(name) {
        Some(s) => s,
        None => NamedSignal::Term,
    }
}

/// What is said of a shutdown setting whose signal name is not one of the ten.
pub open spec fn bad_signal_message(name: Text, field: Text, service: Text) -> Text {
    "vigil-supervise ["@ + service + "]: invalid "@ + field + " '"@ + name
        + "' (TERM/INT/QUIT/KILL/HUP/USR1/USR2/ALRM/PIPE/STOP)"@
}

/// Accepts only the names that `signal_from_name` maps exactly, so that a
/// name cannot pass here and then be sent as a different signal.
pub fn validate_signal_name(name: &str, field: &str, service_name: &str) -> (r: Result<(), String>)
    ensures
        match r {
            Ok(_) => shutdown_signal(name@) is Some,
            Err(message) => shutdown_signal(name@) is None && message@ == bad_signal_message(
                name@,
                field@,
                service_name@,
            ),
        },
{
    if shutdown_signal_named(name).is_some() {
        Ok(())
    } else {
        Err(
            "vigil-supervise [".to_string().concat(service_name).concat("]: invalid ").concat(
                field,
            ).concat(" '").concat(name).concat(
                "' (TERM/INT/QUIT/KILL/HUP/USR1/USR2/ALRM/PIPE/STOP)",
            ),
        )
    }
}

/// Which signals the supervisor blocks and waits for.
#[derive(Debug, Clone, Copy, PartialEq, Eq)]
pub enum ReadySignal {
    /// Readiness is not signalled.
    Unused,
    /// The service raises this signal when it is ready.
    Raised(NamedSignal),
}

/// The readiness signal of a configuration, if it is usable: its name is
/// known, and it is none of those by which the supervisor itself is stopped.
pub fn check_ready_signal(uses_signal: bool, name: &str) -> (r: Result<ReadySignal, String>)
    ensures
        match r {
            Ok(ReadySignal::Unused) => !uses_signal,
            Ok(ReadySignal::Raised(s)) => {
                &&& uses_signal
                &&& readiness_signal(name@) == Some(s)
                &&& !(s is Term) && !(s is Int) && !(s is Hup)
            },
            Err(message) => {
                &&& uses_signal
                &&& match readiness_signal(name@) {
                    None => message@ == "invalid readiness signal name"@,
                    Some(s) => (s is Term || s is Int || s is Hup) && message@
                        == "readiness signal must not be one of TERM/INT/HUP (reserved for stopping)"@,
                }
            },
        },
{
    if !uses_signal {
        return Ok(ReadySignal::Unused);
    }
    match readiness_signal_named(name) {
        None => Err("invalid readiness signal name".to_string()),
        Some(s) => match s {
            NamedSignal::Term | NamedSignal::Int | NamedSignal::Hup => Err(
                "readiness signal must not be one of TERM/INT/HUP (reserved for stopping)".to_string(),
            ),
            _ => Ok(ReadySignal::Raised(s)),
        },
    }
}

/// The signals that can end a process.
#[derive(Debug, Clone, Copy, PartialEq, Eq, Structural)]
pub enum Signal {
    SIGHUP,
    SIGINT,
    SIGQUIT,
    SIGILL,
    SIGTRAP,
    SIGABRT,
    SIGBUS,
    SIGFPE,
    SIGKILL,
    SIGUSR1,
    SIGSEGV,
    SIGUSR2,
    SIGPIPE,
    SIGALRM,
    SIGTERM,
    SIGSTKFLT,
    SIGCHLD,
    SIGCONT,
    SIGSTOP,
    SIGTSTP,
    SIGTTIN,
    SIGTTOU,
    SIGURG,
    SIGXCPU,
    SIGXFSZ,
    SIGVTALRM,
    SIGPROF,
    SIGWINCH,
    SIGIO,
    SIGPWR,
    SIGSYS,
}

impl Signal {
    /// The conventional name of the signal.
    pub open spec fn text(self) -> Text {
        match self {
            Signal::SIGHUP => "SIGHUP"@,
            Signal::SIGINT => "SIGINT"@,
            Signal::SIGQUIT => "SIGQUIT"@,
            Signal::SIGILL => "SIGILL"@,
            Signal::SIGTRAP => "SIGTRAP"@,
            Signal::SIGABRT => "SIGABRT"@,
            Signal::SIGBUS => "SIGBUS"@,
            Signal::SIGFPE => "SIGFPE"@,
            Signal::SIGKILL => "SIGKILL"@,
            Signal::SIGUSR1 => "SIGUSR1"@,
            Signal::SIGSEGV => "SIGSEGV"@,
            Signal::SIGUSR2 => "SIGUSR2"@,
            Signal::SIGPIPE => "SIGPIPE"@,
            Signal::SIGALRM => "SIGALRM"@,
            Signal::SIGTERM => "SIGTERM"@,
            Signal::SIGSTKFLT => "SIGSTKFLT"@,
            Signal::SIGCHLD => "SIGCHLD"@,
            Signal::SIGCONT => "SIGCONT"@,
            Signal::SIGSTOP => "SIGSTOP"@,
            Signal::SIGTSTP => "SIGTSTP"@,
            Signal::SIGTTIN => "SIGTTIN"@,
            Signal::SIGTTOU => "SIGTTOU"@,
            Signal::SIGURG => "SIGURG"@,
            Signal::SIGXCPU => "SIGXCPU"@,
            Signal::SIGXFSZ => "SIGXFSZ"@,
            Signal::SIGVTALRM => "SIGVTALRM"@,
            Signal::SIGPROF => "SIGPROF"@,
            Signal::SIGWINCH => "SIGWINCH"@,
            Signal::SIGIO => "SIGIO"@,
            Signal::SIGPWR => "SIGPWR"@,
            Signal::SIGSYS => "SIGSYS"@,
        }
    }

    pub fn as_str(self) -> (r: &'static str)
        ensures
            r@ == self.text(),
    {
        match self {
            Signal::SIGHUP => "SIGHUP",
            Signal::SIGINT => "SIGINT",
            Signal::SIGQUIT => "SIGQUIT",
            Signal::SIGILL => "SIGILL",
            Signal::SIGTRAP => "SIGTRAP",
            Signal::SIGABRT => "SIGABRT",
            Signal::SIGBUS => "SIGBUS",
            Signal::SIGFPE => "SIGFPE",
            Signal::SIGKILL => "SIGKILL",
            Signal::SIGUSR1 => "SIGUSR1",
            Signal::SIGSEGV => "SIGSEGV",
            Signal::SIGUSR2 => "SIGUSR2",
            Signal::SIGPIPE => "SIGPIPE",
            Signal::SIGALRM => "SIGALRM",
            Signal::SIGTERM => "SIGTERM",
            Signal::SIGSTKFLT => "SIGSTKFLT",
            Signal::SIGCHLD => "SIGCHLD",
            Signal::SIGCONT => "SIGCONT",
            Signal::SIGSTOP => "SIGSTOP",
            Signal::SIGTSTP => "SIGTSTP",
            Signal::SIGTTIN => "SIGTTIN",
            Signal::SIGTTOU => "SIGTTOU",
            Signal::SIGURG => "SIGURG",
            Signal::SIGXCPU => "SIGXCPU",
            Signal::SIGXFSZ => "SIGXFSZ",
            Signal::SIGVTALRM => "SIGVTALRM",
            Signal::SIGPROF => "SIGPROF",
            Signal::SIGWINCH => "SIGWINCH",
            Signal::SIGIO => "SIGIO",
            Signal::SIGPWR => "SIGPWR",
            Signal::SIGSYS => "SIGSYS",
        }
    }
}

/// How the end of a process reads in the log.
pub open spec fn exit_text(code: Option<i32>, signal: Option<Signal>) -> Text {
    match (code, signal) {
        (Some(c), None) => "exit code "@ + signed_decimal(c as int),
        (None, Some(s)) => "signal "@ + s.text(),
        _ => "unknown"@,
    }
}

pub fn describe_exit(code: Option<i32>, signal: Option<Signal>) -> (r: String)
    ensures
        r@ == exit_text(code, signal),
{
    match (code, signal) {
        (Some(c), None) => "exit code ".to_string().concat(show_signed(c).as_str()),
        (None, Some(s)) => "signal ".to_string().concat(s.as_str()),
        _ => "unknown".to_string(),
    }
}

// ---------------------------------------------------------------------------
// Laws
// ---------------------------------------------------------------------------

/// No two of the signals share a number.
pub proof fn numbers_are_distinct(a: NamedSignal, b: NamedSignal)
    requires
        a.number() == b.number(),
    ensures
        a == b,
{
}

/// A name that may stand in a shutdown setting means the same signal
/// everywhere: what is validated, what is sent and what a readiness check of
/// that name would wait for are one signal.
pub proof fn valid_names_mean_one_signal(name: Text)
    requires
        shutdown_signal(name) is Some,
    ensures
        readiness_signal(name) == shutdown_signal(name),
{
    reveal_strlit("HUP");
    reveal_strlit("INT");
    reveal_strlit("QUIT");
    reveal_strlit("KILL");
    reveal_strlit("STOP");
    reveal_strlit("TERM");
    reveal_strlit("USR1");
    reveal_strlit("USR2");
    reveal_strlit("ALRM");
    reveal_strlit("PIPE");
    reveal_strlit("CHLD");
    reveal_strlit("CONT");
    reveal_strlit("ABRT");
    assert("HUP"@[0] == 'H' && "HUP"@[1] == 'U' && "HUP"@[2] == 'P');
    assert("INT"@[0] == 'I' && "INT"@[1] == 'N' && "INT"@[2] == 'T');
    assert("QUIT"@[0] == 'Q' && "QUIT"@[1] == 'U' && "QUIT"@[2] == 'I' && "QUIT"@[3] == 'T');
    assert("KILL"@[0] == 'K' && "KILL"@[1] == 'I' && "KILL"@[2] == 'L' && "KILL"@[3] == 'L');
    assert("STOP"@[0] == 'S' && "STOP"@[1] == 'T' && "STOP"@[2] == 'O' && "STOP"@[3] == 'P');
    assert("TERM"@[0] == 'T' && "TERM"@[1] == 'E' && "TERM"@[2] == 'R' && "TERM"@[3] == 'M');
    assert("USR1"@[0] == 'U' && "USR1"@[1] == 'S' && "USR1"@[2] == 'R' && "USR1"@[3] == '1');
    assert("USR2"@[0] == 'U' && "USR2"@[1] == 'S' && "USR2"@[2] == 'R' && "USR2"@[3] == '2');
    assert("ALRM"@[0] == 'A' && "ALRM"@[1] == 'L' && "ALRM"@[2] == 'R' && "ALRM"@[3] == 'M');
    assert("PIPE"@[0] == 'P' && "PIPE"@[1] == 'I' && "PIPE"@[2] == 'P' && "PIPE"@[3] == 'E');
    assert("CHLD"@[0] == 'C' && "CHLD"@[1] == 'H' && "CHLD"@[2] == 'L' && "CHLD"@[3] == 'D');
    assert("CONT"@[0] == 'C' && "CONT"@[1] == 'O' && "CONT"@[2] == 'N' && "CONT"@[3] == 'T');
    assert("ABRT"@[0] == 'A' && "ABRT"@[1] == 'B' && "ABRT"@[2] == 'R' && "ABRT"@[3] == 'T');
}

/// A readiness check may name thirteen signals and no others, each by its
/// conventional name without `SIG`.
pub proof fn readiness_names_are_conventional(name: Text)
    ensures
        readiness_signal("HUP"@) == Some(NamedSignal::Hup),
        readiness_signal("INT"@) == Some(NamedSignal::Int),
        readiness_signal("QUIT"@) == Some(NamedSignal::Quit),
        readiness_signal("ABRT"@) == Some(NamedSignal::Abrt),
        readiness_signal("KILL"@) == Some(NamedSignal::Kill),
        readiness_signal("USR1"@) == Some(NamedSignal::Usr1),
        readiness_signal("USR2"@) == Some(NamedSignal::Usr2),
        readiness_signal("PIPE"@) == Some(NamedSignal::Pipe),
        readiness_signal("ALRM"@) == Some(NamedSignal::Alrm),
        readiness_signal("TERM"@) == Some(NamedSignal::Term),
        readiness_signal("CHLD"@) == Some(NamedSignal::Chld),
        readiness_signal("CONT"@) == Some(NamedSignal::Cont),
        readiness_signal("STOP"@) == Some(NamedSignal::Stop),
        readiness_signal(name) is Some ==> 3 <= name.len() <= 4,
        forall|other: Text| #[trigger]
            readiness_signal(other) is Some && readiness_signal(other) == readiness_signal(name)
                ==> other == name,
        readiness_signal(name) != Some(NamedSignal::Pwr),
{
    reveal_strlit("HUP");
    reveal_strlit("INT");
    reveal_strlit("QUIT");
    reveal_strlit("ABRT");
    reveal_strlit("KILL");
    reveal_strlit("USR1");
    reveal_strlit("USR2");
    reveal_strlit("PIPE");
    reveal_strlit("ALRM");
    reveal_strlit("TERM");
    reveal_strlit("CHLD");
    reveal_strlit("CONT");
    reveal_strlit("STOP");
    assert("HUP"@[0] == 'H' && "INT"@[0] == 'I');
    assert("QUIT"@[0] == 'Q' && "ABRT"@[1] == 'B' && "KILL"@[0] == 'K' && "USR1"@[3] == '1'
        && "USR2"@[3] == '2' && "PIPE"@[0] == 'P' && "ALRM"@[1] == 'L' && "TERM"@[0] == 'T'
        && "CHLD"@[1] == 'H' && "CONT"@[1] == 'O' && "STOP"@[0] == 'S');
    assert("QUIT"@[3] == 'T' && "ABRT"@[0] == 'A' && "KILL"@[3] == 'L' && "USR1"@[0] == 'U'
        && "USR2"@[0] == 'U' && "PIPE"@[3] == 'E' && "ALRM"@[0] == 'A' && "TERM"@[3] == 'M'
        && "CHLD"@[0] == 'C' && "CONT"@[0] == 'C' && "STOP"@[3] == 'P');
}

/// A shutdown setting may name every signal of a readiness check but `CHLD`,
/// `CONT` and `ABRT`; any other name is sent as `TERM`.
pub proof fn unknown_names_are_sent_as_term(name: Text)
    ensures
        (readiness_signal(name) is Some && name != "CHLD"@ && name != "CONT"@ && name != "ABRT"@)
            ==> configured_signal(name) == readiness_signal(name)->0,
        (readiness_signal(name) is None || name == "CHLD"@ || name == "CONT"@ || name == "ABRT"@)
            ==> configured_signal(name) == NamedSignal::Term && shutdown_signal(name) is None,
{
    reveal_strlit("HUP");
    reveal_strlit("INT");
    reveal_strlit("QUIT");
    reveal_strlit("ABRT");
    reveal_strlit("KILL");
    reveal_strlit("USR1");
    reveal_strlit("USR2");
    reveal_strlit("PIPE");
    reveal_strlit("ALRM");
    reveal_strlit("TERM");
    reveal_strlit("CHLD");
    reveal_strlit("CONT");
    reveal_strlit("STOP");
    assert("HUP"@[0] == 'H' && "INT"@[0] == 'I');
    assert("QUIT"@[0] == 'Q' && "ABRT"@[1] == 'B' && "KILL"@[0] == 'K' && "USR1"@[3] == '1'
        && "USR2"@[3] == '2' && "PIPE"@[0] == 'P' && "ALRM"@[1] == 'L' && "TERM"@[0] == 'T'
        && "CHLD"@[1] == 'H' && "CONT"@[1] == 'O' && "STOP"@[0] == 'S');
    assert("QUIT"@[3] == 'T' && "ABRT"@[0] == 'A' && "KILL"@[3] == 'L' && "USR1"@[0] == 'U'
        && "USR2"@[0] == 'U' && "PIPE"@[3] == 'E' && "ALRM"@[0] == 'A' && "TERM"@[3] == 'M'
        && "CHLD"@[0] == 'C' && "CONT"@[0] == 'C' && "STOP"@[3] == 'P');
}

/// What the log says of an end tells exit codes, signals and unknown ends
/// apart, and gives the code in decimal or the signal by its name.
pub proof fn ends_are_described_in_full(code: i32, signal: Signal)
    ensures
        code >= 0 ==> exit_text(Some(code), None) == "exit code "@ + decimal(code as nat),
        code < 0 ==> exit_text(Some(code), None) == "exit code -"@ + decimal((-code) as nat),
        exit_text(None, Some(signal)) == "signal "@ + signal.text(),
        exit_text(None, None) == "unknown"@,
        exit_text(Some(code), Some(signal)) == "unknown"@,
{
    reveal_strlit("exit code ");
    reveal_strlit("exit code -");
    reveal_strlit("-");
    if code < 0 {
        decimals_begin_with_no_zero((-code) as nat);
        assert("exit code "@ + (seq!['-'] + decimal((-code) as nat)) =~= "exit code -"@ + decimal(
            (-code) as nat,
        ));
    } else {
        decimals_begin_with_no_zero(code as nat);
    }
}

/// The conventional name of a signal is `SIG` and the name by which a
/// configuration calls it, where one may.
pub proof fn signals_bear_conventional_names()
    ensures
        Signal::SIGHUP.text() == "SIG"@ + "HUP"@,
        Signal::SIGINT.text() == "SIG"@ + "INT"@,
        Signal::SIGQUIT.text() == "SIG"@ + "QUIT"@,
        Signal::SIGILL.text() == "SIG"@ + "ILL"@,
        Signal::SIGTRAP.text() == "SIG"@ + "TRAP"@,
        Signal::SIGABRT.text() == "SIG"@ + "ABRT"@,
        Signal::SIGBUS.text() == "SIG"@ + "BUS"@,
        Signal::SIGFPE.text() == "SIG"@ + "FPE"@,
        Signal::SIGKILL.text() == "SIG"@ + "KILL"@,
        Signal::SIGUSR1.text() == "SIG"@ + "USR1"@,
        Signal::SIGSEGV.text() == "SIG"@ + "SEGV"@,
        Signal::SIGUSR2.text() == "SIG"@ + "USR2"@,
        Signal::SIGPIPE.text() == "SIG"@ + "PIPE"@,
        Signal::SIGALRM.text() == "SIG"@ + "ALRM"@,
        Signal::SIGTERM.text() == "SIG"@ + "TERM"@,
        Signal::SIGSTKFLT.text() == "SIG"@ + "STKFLT"@,
        Signal::SIGCHLD.text() == "SIG"@ + "CHLD"@,
        Signal::SIGCONT.text() == "SIG"@ + "CONT"@,
        Signal::SIGSTOP.text() == "SIG"@ + "STOP"@,
        Signal::SIGTSTP.text() == "SIG"@ + "TSTP"@,
        Signal::SIGTTIN.text() == "SIG"@ + "TTIN"@,
        Signal::SIGTTOU.text() == "SIG"@ + "TTOU"@,
        Signal::SIGURG.text() == "SIG"@ + "URG"@,
        Signal::SIGXCPU.text() == "SIG"@ + "XCPU"@,
        Signal::SIGXFSZ.text() == "SIG"@ + "XFSZ"@,
        Signal::SIGVTALRM.text() == "SIG"@ + "VTALRM"@,
        Signal::SIGPROF.text() == "SIG"@ + "PROF"@,
        Signal::SIGWINCH.text() == "SIG"@ + "WINCH"@,
        Signal::SIGIO.text() == "SIG"@ + "IO"@,
        Signal::SIGPWR.text() == "SIG"@ + "PWR"@,
        Signal::SIGSYS.text() == "SIG"@ + "SYS"@,
{
    reveal_strlit("SIG");
    reveal_strlit("HUP");
    reveal_strlit("SIGHUP");
    assert("SIGHUP"@ =~= "SIG"@ + "HUP"@);
    reveal_strlit("INT");
    reveal_strlit("SIGINT");
    assert("SIGINT"@ =~= "SIG"@ + "INT"@);
    reveal_strlit("QUIT");
    reveal_strlit("SIGQUIT");
    assert("SIGQUIT"@ =~= "SIG"@ + "QUIT"@);
    reveal_strlit("ILL");
    reveal_strlit("SIGILL");
    assert("SIGILL"@ =~= "SIG"@ + "ILL"@);
    reveal_strlit("TRAP");
    reveal_strlit("SIGTRAP");
    assert("SIGTRAP"@ =~= "SIG"@ + "TRAP"@);
    reveal_strlit("ABRT");
    reveal_strlit("SIGABRT");
    assert("SIGABRT"@ =~= "SIG"@ + "ABRT"@);
    reveal_strlit("BUS");
    reveal_strlit("SIGBUS");
    assert("SIGBUS"@ =~= "SIG"@ + "BUS"@);
    reveal_strlit("FPE");
    reveal_strlit("SIGFPE");
    assert("SIGFPE"@ =~= "SIG"@ + "FPE"@);
    reveal_strlit("KILL");
    reveal_strlit("SIGKILL");
    assert("SIGKILL"@ =~= "SIG"@ + "KILL"@);
    reveal_strlit("USR1");
    reveal_strlit("SIGUSR1");
    assert("SIGUSR1"@ =~= "SIG"@ + "USR1"@);
    reveal_strlit("SEGV");
    reveal_strlit("SIGSEGV");
    assert("SIGSEGV"@ =~= "SIG"@ + "SEGV"@);
    reveal_strlit("USR2");
    reveal_strlit("SIGUSR2");
    assert("SIGUSR2"@ =~= "SIG"@ + "USR2"@);
    reveal_strlit("PIPE");
    reveal_strlit("SIGPIPE");
    assert("SIGPIPE"@ =~= "SIG"@ + "PIPE"@);
    reveal_strlit("ALRM");
    reveal_strlit("SIGALRM");
    assert("SIGALRM"@ =~= "SIG"@ + "ALRM"@);
    reveal_strlit("TERM");
    reveal_strlit("SIGTERM");
    assert("SIGTERM"@ =~= "SIG"@ + "TERM"@);
    reveal_strlit("STKFLT");
    reveal_strlit("SIGSTKFLT");
    assert("SIGSTKFLT"@ =~= "SIG"@ + "STKFLT"@);
    reveal_strlit("CHLD");
    reveal_strlit("SIGCHLD");
    assert("SIGCHLD"@ =~= "SIG"@ + "CHLD"@);
    reveal_strlit("CONT");
    reveal_strlit("SIGCONT");
    assert("SIGCONT"@ =~= "SIG"@ + "CONT"@);
    reveal_strlit("STOP");
    reveal_strlit("SIGSTOP");
    assert("SIGSTOP"@ =~= "SIG"@ + "STOP"@);
    reveal_strlit("TSTP");
    reveal_strlit("SIGTSTP");
    assert("SIGTSTP"@ =~= "SIG"@ + "TSTP"@);
    reveal_strlit("TTIN");
    reveal_strlit("SIGTTIN");
    assert("SIGTTIN"@ =~= "SIG"@ + "TTIN"@);
    reveal_strlit("TTOU");
    reveal_strlit("SIGTTOU");
    assert("SIGTTOU"@ =~= "SIG"@ + "TTOU"@);
    reveal_strlit("URG");
    reveal_strlit("SIGURG");
    assert("SIGURG"@ =~= "SIG"@ + "URG"@);
    reveal_strlit("XCPU");
    reveal_strlit("SIGXCPU");
    assert("SIGXCPU"@ =~= "SIG"@ + "XCPU"@);
    reveal_strlit("XFSZ");
    reveal_strlit("SIGXFSZ");
    assert("SIGXFSZ"@ =~= "SIG"@ + "XFSZ"@);
    reveal_strlit("VTALRM");
    reveal_strlit("SIGVTALRM");
    assert("SIGVTALRM"@ =~= "SIG"@ + "VTALRM"@);
    reveal_strlit("PROF");
    reveal_strlit("SIGPROF");
    assert("SIGPROF"@ =~= "SIG"@ + "PROF"@);
    reveal_strlit("WINCH");
    reveal_strlit("SIGWINCH");
    assert("SIGWINCH"@ =~= "SIG"@ + "WINCH"@);
    reveal_strlit("IO");
    reveal_strlit("SIGIO");
    assert("SIGIO"@ =~= "SIG"@ + "IO"@);
    reveal_strlit("PWR");
    reveal_strlit("SIGPWR");
    assert("SIGPWR"@ =~= "SIG"@ + "PWR"@);
    reveal_strlit("SYS");
    reveal_strlit("SIGSYS");
    assert("SIGSYS"@ =~= "SIG"@ + "SYS"@);
}

/// What is said of a bad name gives the service, the setting and the name.
pub proof fn bad_names_are_given(name: Text, field: Text, service: Text)
    ensures
        ({
            let m = bad_signal_message(name, field, service);
            let head = "vigil-supervise ["@ + service + "]: invalid "@ + field + " '"@ + name;
            m.len() > head.len() && m.take(head.len() as int) == head && m[head.len() as int] == '\''
        }),
{
    reveal_strlit("' (TERM/INT/QUIT/KILL/HUP/USR1/USR2/ALRM/PIPE/STOP)");
    let head = "vigil-supervise ["@ + service + "]: invalid "@ + field + " '"@ + name;
    assert(bad_signal_message(name, field, service).take(head.len() as int) =~= head);
}

} // verus!
