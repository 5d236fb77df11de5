//! The control-plane protocol: what `vigil-ctl` asks, what `vigil-scan`
//! answers, and how messages are framed on the socket.
//!
//! A message is a 4-byte little-endian payload length followed by the payload.

use crate::text::{decimal, show, texts, Text};
use vstd::prelude::*;

verus! {

/// The largest payload, in bytes, that a reader accepts.
pub const MAX_MESSAGE: usize = 1048576;

/// What a client asks.
#[derive(Debug, Clone, PartialEq, Eq)]
pub enum Request {
    Status { service: Option<String> },
    Start { service: String },
    Stop { service: String },
    Restart { service: String },
    List,
    Log { service: String, lines: usize },
    Reload,
    Shutdown { action: ShutdownAction },
    Ping,
}

#[derive(Debug, Clone, Copy, PartialEq, Eq, Structural)]
pub enum ShutdownAction {
    Poweroff,
    Reboot,
    Halt,
}

/// What the scanner answers.
#[derive(Debug, Clone, PartialEq, Eq)]
pub enum Response {
    /// `Ok` on the wire: the request was carried out.
    Done { message: String },
    Error { message: String },
    Status(ServiceStatus),
    List(Vec<ServiceInfo>),
    LogLines(Vec<String>),
    Pong,
}

/// The state of one service. `pid` is the process of the service itself, not
/// that of its supervisor.
#[derive(Debug, Clone, PartialEq, Eq)]
pub struct ServiceStatus {
    pub name: String,
    pub state: String,
    pub pid: Option<u32>,
    pub uptime_secs: u64,
    pub restart_count: u32,
    pub description: String,
    pub command: String,
}

/// One line of the list of services.
#[derive(Debug, Clone, PartialEq, Eq)]
pub struct ServiceInfo {
    pub name: String,
    pub state: String,
    pub pid: Option<u32>,
    pub description: String,
}

/// What a `ServiceInfo` says.
pub struct Info {
    pub name: Text,
    pub state: Text,
    pub pid: Option<u32>,
    pub description: Text,
}

/// What a `ServiceStatus` says.
pub struct Status {
    pub name: Text,
    pub state: Text,
    pub pid: Option<u32>,
    pub uptime_secs: u64,
    pub restart_count: u32,
    pub description: Text,
    pub command: Text,
}

/// What a `Response` says.
pub enum Reply {
    Done(Text),
    Error(Text),
    Status(Status),
    List(Seq<Info>),
    LogLines(Seq<Text>),
    Pong,
}

impl View for ServiceInfo {
    type V = Info;

    open spec fn view(&self) -> Info {
        Info {
            name: self.name@,
            state: self.state@,
            pid: self.pid,
            description: self.description@,
        }
    }
}

impl View for ServiceStatus {
    type V = Status;

    open spec fn view(&self) -> Status {
        Status {
            name: self.name@,
            state: self.state@,
            pid: self.pid,
            uptime_secs: self.uptime_secs,
            restart_count: self.restart_count,
            description: self.description@,
            command: self.command@,
        }
    }
}

/// What each of several `ServiceInfo` says.
pub open spec fn infos(v: Seq<ServiceInfo>) -> Seq<Info> {
    v.map_values(|i: ServiceInfo| i@)
}

impl View for Response {
    type V = Reply;

    open spec fn view(&self) -> Reply {
        match self {
            Response::Done { message } => Reply::Done(message@),
            Response::Error { message } => Reply::Error(message@),
            Response::Status(s) => Reply::Status(s@),
            Response::List(v) => Reply::List(infos(v@)),
            Response::LogLines(v) => Reply::LogLines(texts(v@)),
            Response::Pong => Reply::Pong,
        }
    }
}

impl ShutdownAction {
    pub open spec fn text(self) -> Text {
        match self {
            ShutdownAction::Poweroff => "Poweroff"@,
            ShutdownAction::Reboot => "Reboot"@,
            ShutdownAction::Halt => "Halt"@,
        }
    }

    pub fn as_str(self) -> (r: &'static str)
        ensures
            r@ == self.text(),
    {
        match self {
            ShutdownAction::Poweroff => "Poweroff",
            ShutdownAction::Reboot => "Reboot",
            ShutdownAction::Halt => "Halt",
        }
    }
}

// ---------------------------------------------------------------------------
// Framing
// ---------------------------------------------------------------------------

/// The four little-endian bytes of a number below 2^32.
pub open spec fn le_bytes(n: int) -> Seq<u8> {
    seq![
        (n % 256) as u8,
        (n / 256 % 256) as u8,
        (n / 65536 % 256) as u8,
        (n / 16777216 % 256) as u8,
    ]
}

/// The number that four little-endian bytes write.
pub open spec fn le_value(b: Seq<u8>) -> int {
    b[0] + b[1] * 256 + b[2] * 65536 + b[3] * 16777216
}

/// A payload behind its length. A length that four bytes cannot write loses
/// its upper part.
pub open spec fn framed(payload: Seq<u8>) -> Seq<u8> {
    le_bytes(payload.len() as int % 0x100000000) + payload
}

/// The bytes of the message with the given payload.
pub fn write_message(payload: &Vec<u8>) -> (r: Vec<u8>)
    ensures
        r@ == framed(payload@),
{
    let total: u64 = payload.len() as u64;
    let len: u64 = total % 0x100000000;
    let mut out: Vec<u8> = Vec::new();
    out.push((len % 256) as u8);
    out.push((len / 256 % 256) as u8);
    out.push((len / 65536 % 256) as u8);
    out.push((len / 16777216 % 256) as u8);
    assert(out@ =~= le_bytes(len as int));
    let mut i: usize = 0;
    while i < payload.len()
        invariant
            i <= payload@.len(),
            out@ == le_bytes(len as int) + payload@.take(i as int),
        decreases payload@.len() - i,
    {
        out.push(payload[i]);
        assert(payload@.take(i + 1) =~= payload@.take(i as int).push(payload@[i as int]));
        i += 1;
    }
    assert(payload@.take(i as int) =~= payload@);
    out
}

/// What is said of a payload that is too long.
pub open spec fn too_large_message(len: int) -> Text {
    "message too large: "@ + decimal(len as nat) + " bytes"@
}

/// The length of the payload that a message header announces. More than
/// `MAX_MESSAGE` is refused.
pub fn message_length(header: &[u8; 4]) -> (r: Result<usize, String>)
    ensures
        match r {
            Ok(n) => n == le_value(header@) && n <= MAX_MESSAGE,
            Err(m) => le_value(header@) > MAX_MESSAGE && m@ == too_large_message(
                le_value(header@),
            ),
        },
        ({
            let n = header@[0] + header@[1] * 0x100 + header@[2] * 0x10000 + header@[3] * 0x1000000;
            match r {
                Ok(len) => len == n && n <= 0x100000,
                Err(m) => n > 0x100000 && m@ == "message too large: "@ + decimal(n as nat)
                    + " bytes"@,
            }
        }),
{
    let n: u64 = header[0] as u64 + header[1] as u64 * 256 + header[2] as u64 * 65536
        + header[3] as u64 * 16777216;
    if n > MAX_MESSAGE as u64 {
        Err("message too large: ".to_string().concat(show(n).as_str()).concat(" bytes"))
    } else {
        Ok(n as usize)
    }
}

/// Whether the bytes of a stream begin with a whole message that is not too
/// long.
pub open spec fn holds_message(stream: Seq<u8>) -> bool {
    &&& stream.len() >= 4
    &&& le_value(stream) <= MAX_MESSAGE
    &&& stream.len() >= 4 + le_value(stream)
}

/// The payload of the message at the beginning of a stream.
pub open spec fn first_payload(stream: Seq<u8>) -> Seq<u8> {
    stream.subrange(4, 4 + le_value(stream))
}

/// The payload of the message at the beginning of the bytes of a stream.
pub fn read_message(stream: &Vec<u8>) -> (r: Result<Vec<u8>, String>)
    ensures
        match r {
            Ok(p) => holds_message(stream@) && p@ == first_payload(stream@),
            Err(m) => !holds_message(stream@) && m@ == if stream@.len() >= 4 && le_value(stream@)
                > MAX_MESSAGE {
                too_large_message(le_value(stream@))
            } else {
                "failed to fill whole buffer"@
            },
        },
{
    if stream.len() < 4 {
        return Err("failed to fill whole buffer".to_string());
    }
    let header = [stream[0], stream[1], stream[2], stream[3]];
    assert(le_value(header@) == le_value(stream@));
    let n = match message_length(&header) {
        Ok(n) => n,
        Err(m) => {
            return Err(m);
        },
    };
    if stream.len() - 4 < n {
        return Err("failed to fill whole buffer".to_string());
    }
    let mut out: Vec<u8> = Vec::new();
    let mut i: usize = 0;
    while i < n
        invariant
            i <= n <= MAX_MESSAGE,
            n <= stream@.len() - 4,
            out@ == stream@.subrange(4, 4 + i),
        decreases n - i,
    {
        out.push(stream[i + 4]);
        assert(stream@.subrange(4, 4 + i + 1) =~= stream@.subrange(4, 4 + i).push(stream@[4 + i]));
        i += 1;
    }
    Ok(out)
}

// ---------------------------------------------------------------------------
// Laws
// ---------------------------------------------------------------------------

/// What is written is read back: a reader gets exactly the payload of a
/// message, whatever follows it on the stream, if the payload is not too long.
pub proof fn messages_read_back(payload: Seq<u8>, rest: Seq<u8>)
    requires
        payload.len() <= MAX_MESSAGE,
    ensures
        holds_message(framed(payload) + rest),
        first_payload(framed(payload) + rest) == payload,
{
    let stream = framed(payload) + rest;
    lemma_le(payload.len() as int);
    assert(le_value(stream) == le_value(le_bytes(payload.len() as int)));
    assert(first_payload(stream) =~= payload);
}

/// A payload that is too long is refused by the reader, as long as its length
/// can be written at all.
pub proof fn long_messages_are_refused(payload: Seq<u8>, rest: Seq<u8>)
    requires
        MAX_MESSAGE < payload.len() < 0x100000000,
    ensures
        !holds_message(framed(payload) + rest),
{
    let stream = framed(payload) + rest;
    lemma_le(payload.len() as int);
    assert(le_value(stream) == le_value(le_bytes(payload.len() as int)));
}

proof fn lemma_le(n: int)
    requires
        0 <= n < 0x100000000,
    ensures
        le_value(le_bytes(n)) == n,
{
    let a = n % 256;
    let b = n / 256 % 256;
    let c = n / 65536 % 256;
    let d = n / 16777216 % 256;
    assert(n / 256 / 256 == n / 65536);
    assert(n / 65536 / 256 == n / 16777216);
    assert(n == a + b * 256 + c * 65536 + d * 16777216);
}

/// A message is its payload behind four bytes, and these write the payload's
/// length, the least significant byte first.
pub proof fn headers_write_the_length(payload: Seq<u8>)
    requires
        payload.len() < 0x100000000,
    ensures
        framed(payload).len() == payload.len() + 4,
        framed(payload).skip(4) == payload,
        framed(payload)[0] + framed(payload)[1] * 0x100 + framed(payload)[2] * 0x10000 + framed(
            payload,
        )[3] * 0x1000000 == payload.len(),
{
    lemma_le(payload.len() as int);
    let f = framed(payload);
    assert(f.skip(4) =~= payload);
    let h = le_bytes(payload.len() as int);
    assert(f[0] == h[0] && f[1] == h[1] && f[2] == h[2] && f[3] == h[3]);
}

/// A stream holds a message where its first four bytes announce a payload of at
/// most a mebibyte that is all there, and that payload is what follows them,
/// neither more nor less.
pub proof fn payloads_follow_their_header(stream: Seq<u8>, i: int)
    requires
        stream.len() >= 4,
    ensures
        ({
            let n = stream[0] + stream[1] * 0x100 + stream[2] * 0x10000 + stream[3] * 0x1000000;
            &&& holds_message(stream) <==> n <= 0x100000 && stream.len() >= 4 + n
            &&& holds_message(stream) ==> first_payload(stream).len() == n && (0 <= i < n
                ==> first_payload(stream)[i] == stream[4 + i])
        }),
{
}

/// The actions of a shutdown are named differently.
pub proof fn shutdown_actions_have_names(a: ShutdownAction, b: ShutdownAction)
    requires
        a.text() == b.text(),
    ensures
        a == b,
{
    reveal_strlit("Poweroff");
    reveal_strlit("Reboot");
    reveal_strlit("Halt");
    assert("Poweroff"@.len() == 8 && "Reboot"@.len() == 6 && "Halt"@.len() == 4);
}

/// Nothing of a status or of a line of the list is lost in what is said of it.
pub proof fn answers_are_said_in_full(a: ServiceStatus, b: ServiceInfo, v: Seq<ServiceInfo>, i: int)
    ensures
        a@.name == a.name@ && a@.state == a.state@ && a@.pid == a.pid && a@.uptime_secs
            == a.uptime_secs && a@.restart_count == a.restart_count && a@.description
            == a.description@ && a@.command == a.command@,
        b@.name == b.name@ && b@.state == b.state@ && b@.pid == b.pid && b@.description
            == b.description@,
        infos(v).len() == v.len(),
        0 <= i < v.len() ==> infos(v)[i] == v[i]@,
{
}

/// Nothing of an answer is lost in what is said of it.
pub proof fn responses_are_said_in_full(r: Response)
    ensures
        match r {
            Response::Done { message } => r@ == Reply::Done(message@),
            Response::Error { message } => r@ == Reply::Error(message@),
            Response::Status(s) => r@ == Reply::Status(s@),
            Response::List(v) => r@ is List && r@->List_0.len() == v@.len() && forall|i: int|
                0 <= i < v@.len() ==> r@->List_0[i] == #[trigger] v@[i]@,
            Response::LogLines(v) => r@ is LogLines && r@->LogLines_0.len() == v@.len() && forall|
                i: int,
            | 0 <= i < v@.len() ==> r@->LogLines_0[i] == #[trigger] v@[i]@,
            Response::Pong => r@ is Pong,
        },
{
}

} // verus!
