//! The control tool: how the scanner's answers are printed.

use crate::protocol::{infos, Info, Reply, Response, ServiceInfo, ServiceStatus, Status};
use crate::text::{decimal, show, texts, to_chars, Text};
use vstd::prelude::*;

verus! {

/// What the control tool prints.
#[derive(Debug, Clone, PartialEq, Eq)]
pub struct Output {
    /// Lines for standard output, or for standard error where `failed`.
    pub lines: Vec<String>,
    /// Whether the request failed: the tool then exits with status 1.
    pub failed: bool,
}

/// As many blanks.
pub open spec fn blanks(n: int) -> Text {
    Seq::new(
        if n > 0 {
            n as nat
        } else {
            0
        },
        |i: int| ' ',
    )
}

/// A text with blanks behind it up to a width, in characters.
pub open spec fn padded(s: Text, width: int) -> Text {
    s + blanks(width - s.len())
}

fn pad(s: &str, width: usize) -> (r: String)
    ensures
        r@ == padded(s@, width as int),
{
    let n = to_chars(s).len();
    let mut out = s.to_string();
    let mut i: usize = n;
    assert(s@ + blanks(0) =~= s@);
    while i < width
        invariant
            n <= i,
            i <= width || i == n,
            out@ == s@ + blanks(i - n),
            n == s@.len(),
        decreases width - i,
    {
        assert(s@ + blanks(i + 1 - n) =~= (s@ + blanks(i - n)).push(' '));
        out.push(' ');
        i += 1;
    }
    assert(padded(s@, width as int) =~= s@ + blanks(i - n));
    out
}

/// A process number, or `n/a`.
pub open spec fn pid_text(pid: Option<u32>) -> Text {
    match pid {
        Some(p) => decimal(p as nat),
        None => "n/a"@,
    }
}

fn show_pid(pid: Option<u32>) -> (r: String)
    ensures
        r@ == pid_text(pid),
{
    match pid {
        Some(p) => show(p as u64),
        None => "n/a".to_string(),
    }
}

/// One row of the list of services: name, state and process in columns, then
/// the rest.
pub open spec fn row(name: Text, state: Text, pid: Text, rest: Text) -> Text {
    padded(name, 20) + " "@ + padded(state, 12) + " "@ + padded(pid, 8) + " "@ + rest
}

fn make_row(name: &str, state: &str, pid: &str, rest: &str) -> (r: String)
    ensures
        r@ == row(name@, state@, pid@, rest@),
{
    pad(name, 20).concat(" ").concat(pad(state, 12).as_str()).concat(" ").concat(
        pad(pid, 8).as_str(),
    ).concat(" ").concat(rest)
}

/// The rows of the services.
pub open spec fn rows(services: Seq<Info>) -> Seq<Text> {
    services.map_values(|i: Info| row(i.name, i.state, pid_text(i.pid), i.description))
}

/// The list of services as it is printed.
pub open spec fn list_lines(services: Seq<Info>) -> Seq<Text> {
    if services.len() == 0 {
        seq!["No services loaded."@]
    } else {
        seq![
            row("NAME"@, "STATE"@, "PID"@, "DESCRIPTION"@),
            "------------------------------------------------------------"@,
        ] + rows(services)
    }
}

/// The status of a service as it is printed.
pub open spec fn status_lines(s: Status) -> Seq<Text> {
    seq![
        "Service: "@ + s.name,
        "  State:       "@ + s.state,
        "  PID:         "@ + pid_text(s.pid),
        "  Uptime:      "@ + decimal(s.uptime_secs as nat) + "s"@,
        "  Restarts:    "@ + decimal(s.restart_count as nat),
        "  Description: "@ + s.description,
        "  Command:     "@ + s.command,
    ]
}

/// An answer as it is printed.
pub open spec fn reply_lines(reply: Reply) -> Seq<Text> {
    match reply {
        Reply::Pong => seq!["pong"@],
        Reply::Done(message) => seq![message],
        Reply::Error(message) => seq!["error: "@ + message],
        Reply::Status(s) => status_lines(s),
        Reply::List(v) => list_lines(v),
        Reply::LogLines(v) => v,
    }
}

/// The lines that print an answer.
pub fn render(response: Response) -> (r: Output)
    ensures
        texts(r.lines@) == reply_lines(response@),
        r.failed == (response@ is Error),
{
    let mut lines: Vec<String> = Vec::new();
    let mut failed = false;
    match response {
        Response::Pong => {
            lines.push("pong".to_string());
            assert(texts(lines@) =~= seq!["pong"@]);
        },
        Response::Done { message } => {
            lines.push(message);
            assert(texts(lines@) =~= seq![message@]);
        },
        Response::Error { message } => {
            lines.push("error: ".to_string().concat(message.as_str()));
            failed = true;
            assert(texts(lines@) =~= seq!["error: "@ + message@]);
        },
        Response::Status(s) => {
            lines = render_status(&s);
        },
        Response::List(v) => {
            lines = render_list(&v);
        },
        Response::LogLines(v) => {
            lines = v;
        },
    }
    Output { lines, failed }
}

fn render_status(s: &ServiceStatus) -> (r: Vec<String>)
    ensures
        texts(r@) == status_lines(s@),
{
    let mut out: Vec<String> = Vec::new();
    out.push("Service: ".to_string().concat(s.name.as_str()));
    out.push("  State:       ".to_string().concat(s.state.as_str()));
    out.push("  PID:         ".to_string().concat(show_pid(s.pid).as_str()));
    out.push(
        "  Uptime:      ".to_string().concat(show(s.uptime_secs).as_str()).concat("s"),
    );
    out.push("  Restarts:    ".to_string().concat(show(s.restart_count as u64).as_str()));
    out.push("  Description: ".to_string().concat(s.description.as_str()));
    out.push("  Command:     ".to_string().concat(s.command.as_str()));
    assert(texts(out@) =~= status_lines(s@));
    out
}

fn render_list(services: &Vec<ServiceInfo>) -> (r: Vec<String>)
    ensures
        texts(r@) == list_lines(infos(services@)),
{
    let ghost all = infos(services@);
    let mut out: Vec<String> = Vec::new();
    if services.len() == 0 {
        out.push("No services loaded.".to_string());
        assert(texts(out@) =~= seq!["No services loaded."@]);
        return out;
    }
    out.push(make_row("NAME", "STATE", "PID", "DESCRIPTION"));
    out.push("------------------------------------------------------------".to_string());
    let ghost head = seq![
        row("NAME"@, "STATE"@, "PID"@, "DESCRIPTION"@),
        "------------------------------------------------------------"@,
    ];
    assert(texts(out@) =~= head + rows(all).take(0));
    let mut i: usize = 0;
    while i < services.len()
        invariant
            i <= services@.len(),
            all == infos(services@),
            texts(out@) == head + rows(all).take(i as int),
        decreases services@.len() - i,
    {
        let ghost before = texts(out@);
        let s = &services[i];
        let line = make_row(
            s.name.as_str(),
            s.state.as_str(),
            show_pid(s.pid).as_str(),
            s.description.as_str(),
        );
        assert(line@ == rows(all)[i as int]);
        out.push(line);
        assert(texts(out@) =~= before.push(rows(all)[i as int]));
        assert(head + rows(all).take(i + 1) =~= before.push(rows(all)[i as int]));
        i += 1;
    }
    assert(rows(all).take(i as int) =~= rows(all));
    out
}

// ---------------------------------------------------------------------------
// Laws
// ---------------------------------------------------------------------------

/// A text in a column is there whole, with nothing but blanks behind it; it
/// fills the column and is never cut.
pub proof fn columns_hold_their_text(s: Text, width: int, i: int)
    requires
        width >= 0,
    ensures
        padded(s, width).len() == if s.len() >= width {
            s.len() as int
        } else {
            width
        },
        padded(s, width).take(s.len() as int) == s,
        s.len() <= i < width ==> padded(s, width)[i] == ' ',
{
    assert(padded(s, width).take(s.len() as int) =~= s);
}

/// A row holds its four texts whole and in order, each behind a blank where the
/// column before it ends: at fixed places where the texts fit, and further on
/// behind one that does not.
pub proof fn rows_have_columns(name: Text, state: Text, pid: Text, rest: Text)
    ensures
        ({
            let r = row(name, state, pid, rest);
            let a = 1 + wider(name.len() as int, 20);
            let b = a + 1 + wider(state.len() as int, 12);
            let c = b + 1 + wider(pid.len() as int, 8);
            &&& r.len() == c + rest.len()
            &&& r.take(name.len() as int) == name
            &&& r.subrange(a, a + state.len() as int) == state
            &&& r.subrange(b, b + pid.len() as int) == pid
            &&& r.skip(c) == rest
            &&& r[a - 1] == ' ' && r[b - 1] == ' ' && r[c - 1] == ' '
        }),
{
    reveal_strlit(" ");
    columns_hold_their_text(name, 20, 0);
    columns_hold_their_text(state, 12, 0);
    columns_hold_their_text(pid, 8, 0);
    let r = row(name, state, pid, rest);
    let a = 1 + wider(name.len() as int, 20);
    let b = a + 1 + wider(state.len() as int, 12);
    let c = b + 1 + wider(pid.len() as int, 8);
    assert(r.take(name.len() as int) =~= name);
    assert(r.subrange(a, a + state.len() as int) =~= state);
    assert(r.subrange(b, b + pid.len() as int) =~= pid);
    assert(r.skip(c) =~= rest);
}

/// The larger of two widths.
pub open spec fn wider(a: int, b: int) -> int {
    if a >= b {
        a
    } else {
        b
    }
}

/// Every service has its row in the list, in order, below a heading and a rule;
/// the row tells its name, state, process and description.
pub proof fn lists_have_a_row_for_each(services: Seq<Info>, i: int)
    ensures
        services.len() > 0 ==> list_lines(services).len() == services.len() + 2,
        services.len() == 0 ==> list_lines(services).len() == 1,
        0 <= i < services.len() ==> list_lines(services)[i + 2] == row(
            services[i].name,
            services[i].state,
            match services[i].pid {
                Some(p) => decimal(p as nat),
                None => "n/a"@,
            },
            services[i].description,
        ),
{
}

/// The status of a service is printed in seven lines, each of which ends in
/// what it tells.
pub proof fn statuses_are_printed_in_full(s: Status)
    ensures
        ({
            let l = status_lines(s);
            &&& l.len() == 7
            &&& l[0] == "Service: "@ + s.name
            &&& l[1] == "  State:       "@ + s.state
            &&& s.pid matches Some(p) ==> l[2] == "  PID:         "@ + decimal(p as nat)
            &&& s.pid is None ==> l[2] == "  PID:         n/a"@
            &&& l[3] == "  Uptime:      "@ + decimal(s.uptime_secs as nat) + "s"@
            &&& l[4] == "  Restarts:    "@ + decimal(s.restart_count as nat)
            &&& l[5] == "  Description: "@ + s.description
            &&& l[6] == "  Command:     "@ + s.command
        }),
{
    reveal_strlit("  PID:         ");
    reveal_strlit("n/a");
    reveal_strlit("  PID:         n/a");
    assert("  PID:         "@ + "n/a"@ =~= "  PID:         n/a"@);
}

/// Log lines and messages are printed as they came, all of them; an error is
/// marked as one.
pub proof fn answers_are_printed_unchanged(lines: Seq<Text>, message: Text)
    ensures
        reply_lines(Reply::LogLines(lines)) == lines,
        reply_lines(Reply::Done(message)) == seq![message],
        reply_lines(Reply::Error(message)) == seq!["error: "@ + message],
{
}

} // verus!
