//! Log writing: the command line of the log writer, the lines it writes, when
//! it rotates its files and how, and the messages it sends to syslog.

use crate::config::ServiceConfig;
use crate::dep::lemma_push_contains;
use crate::launch::{log_base, log_file, logger_arguments, mebibytes, mebibytes_saturating};
use crate::path::{
    body_start, join, joined, parent, parent_of, parent_undoes_join, without_idle,
};
use crate::text::{
    decimal, decimal_reads_back, decode_strict, in_range, lemma_decimal_digits, parse_u32,
    parse_unsigned, same, show, texts, to_chars, unsigned_value, Text,
};
use vstd::prelude::*;
use vstd::utf8::*;

verus! {

// ---------------------------------------------------------------------------
// Command line
// ---------------------------------------------------------------------------

/// Where and how a log writer writes files.
#[derive(Debug, Clone, PartialEq, Eq)]
pub struct FileSink {
    pub name: String,
    /// The log directory for `pipe`, the log file for `file`.
    pub path: String,
    pub max_size_mb: u64,
    pub max_files: u32,
    pub timestamp: bool,
}

/// The command line of a log writer.
#[derive(Debug, Clone, PartialEq, Eq)]
pub enum LoggerArgs {
    Pipe(FileSink),
    File(FileSink),
    Syslog { name: String, fallback_dir: String, socket: String },
    /// Arguments are missing.
    Usage,
    UnknownMode(String),
}

/// The number in an argument, where it is there and is one that fits.
pub open spec fn number_argument(args: Seq<String>, i: int, max: int, default: int) -> int {
    if i < args.len() {
        match in_range(unsigned_value(args[i]@), 0, max) {
            Some(n) => n,
            None => default,
        }
    } else {
        default
    }
}

/// What the arguments say of the files: 10 MiB, 5 files and time stamps where
/// they say nothing.
pub open spec fn is_sink(args: Seq<String>, sink: FileSink) -> bool {
    &&& sink.name@ == args[2]@
    &&& sink.path@ == args[3]@
    &&& sink.max_size_mb == number_argument(args, 4, u64::MAX as int, 10)
    &&& sink.max_files == number_argument(args, 5, u32::MAX as int, 5)
    &&& sink.timestamp == (args.len() <= 6 || args[6]@ == "1"@)
}

fn file_sink(args: &Vec<String>) -> (r: FileSink)
    requires
        args@.len() >= 4,
    ensures
        is_sink(args@, r),
{
    let max_size_mb = if args.len() > 4 {
        match parse_unsigned(args[4].as_str(), u64::MAX) {
            Some(n) => n,
            None => 10,
        }
    } else {
        10
    };
    let max_files = if args.len() > 5 {
        match parse_u32(args[5].as_str()) {
            Some(n) => n,
            None => 5,
        }
    } else {
        5
    };
    let timestamp = if args.len() > 6 {
        same(args[6].as_str(), "1")
    } else {
        true
    };
    FileSink {
        name: args[2].clone(),
        path: args[3].clone(),
        max_size_mb,
        max_files,
        timestamp,
    }
}

/// Reads the command line of a log writer, program name first.
pub fn logger_mode(args: &Vec<String>) -> (r: LoggerArgs)
    ensures
        ({
            let n = args@.len();
            if n < 2 {
                r is Usage
            } else if args@[1]@ == "pipe"@ {
                if n < 4 {
                    r is Usage
                } else {
                    r matches LoggerArgs::Pipe(sink) && is_sink(args@, sink)
                }
            } else if args@[1]@ == "file"@ {
                if n < 4 {
                    r is Usage
                } else {
                    r matches LoggerArgs::File(sink) && is_sink(args@, sink)
                }
            } else if args@[1]@ == "syslog"@ {
                if n < 5 {
                    r is Usage
                } else {
                    r matches LoggerArgs::Syslog { name, fallback_dir, socket } && name@
                        == args@[2]@ && fallback_dir@ == args@[3]@ && socket@ == args@[4]@
                }
            } else {
                r matches LoggerArgs::UnknownMode(m) && m@ == args@[1]@
            }
        }),
{
    let n = args.len();
    if n < 2 {
        return LoggerArgs::Usage;
    }
    if same(args[1].as_str(), "pipe") {
        if n < 4 {
            LoggerArgs::Usage
        } else {
            LoggerArgs::Pipe(file_sink(args))
        }
    } else if same(args[1].as_str(), "file") {
        if n < 4 {
            LoggerArgs::Usage
        } else {
            LoggerArgs::File(file_sink(args))
        }
    } else if same(args[1].as_str(), "syslog") {
        if n < 5 {
            LoggerArgs::Usage
        } else {
            LoggerArgs::Syslog {
                name: args[2].clone(),
                fallback_dir: args[3].clone(),
                socket: args[4].clone(),
            }
        }
    } else {
        LoggerArgs::UnknownMode(args[1].clone())
    }
}

// ---------------------------------------------------------------------------
// Lines
// ---------------------------------------------------------------------------

/// The bytes of a line without the newline, or the carriage return and
/// newline, that end it.
pub open spec fn line_body(bytes: Seq<u8>) -> Seq<u8> {
    if bytes.len() > 0 && bytes.last() == 10 {
        let body = bytes.drop_last();
        if body.len() > 0 && body.last() == 13 {
            body.drop_last()
        } else {
            body
        }
    } else {
        bytes
    }
}

/// The text of a line as it was read; none where its bytes are not UTF-8, which
/// ends the log.
pub fn line_text(bytes: &Vec<u8>) -> (r: Option<String>)
    ensures
        match r {
            Some(t) => valid_utf8(line_body(bytes@)) && t@ == decode_utf8(line_body(bytes@)),
            None => !valid_utf8(line_body(bytes@)),
        },
        ({
            let n = bytes@.len();
            let whole = if n >= 2 && bytes@[n - 1] == 10 && bytes@[n - 2] == 13 {
                bytes@.take(n - 2)
            } else if n >= 1 && bytes@[n - 1] == 10 {
                bytes@.take(n - 1)
            } else {
                bytes@
            };
            match r {
                Some(t) => valid_utf8(whole) && t@ == decode_utf8(whole),
                None => !valid_utf8(whole),
            }
        }),
{
    let n = bytes.len();
    let mut end: usize = n;
    if n > 0 && bytes[n - 1] == 10 {
        end = n - 1;
        if end > 0 && bytes[end - 1] == 13 {
            end = end - 1;
        }
    }
    let mut body: Vec<u8> = Vec::new();
    let mut i: usize = 0;
    while i < end
        invariant
            i <= end <= bytes@.len(),
            body@ == bytes@.take(i as int),
        decreases end - i,
    {
        body.push(bytes[i]);
        assert(bytes@.take(i + 1) =~= bytes@.take(i as int).push(bytes@[i as int]));
        i += 1;
    }
    assert(bytes@.take(end as int) =~= line_body(bytes@));
    decode_strict(body)
}

/// The most characters of a tag in a syslog message.
pub const TAG_MAX: usize = 32;

/// A text on one line: its newlines and carriage returns become blanks.
pub open spec fn on_one_line(s: Text) -> Text {
    s.map_values(
        |c: char|
            if c == '\n' || c == '\r' {
                ' '
            } else {
                c
            },
    )
}

/// The first characters of a tag.
pub open spec fn short_tag(tag: Text) -> Text {
    if tag.len() > TAG_MAX {
        tag.take(TAG_MAX as int)
    } else {
        tag
    }
}

/// An RFC 3164 (BSD) syslog datagram: facility `daemon` and severity `info`,
/// the time, the host, the tag with the process, and the message.
pub open spec fn syslog_datagram(tag: Text, msg: Text, time: Text, pid: u32) -> Text {
    "<30>"@ + time + " localhost "@ + short_tag(tag) + "["@ + decimal(pid as nat) + "]: "@
        + on_one_line(msg)
}

/// Build an RFC 3164 (BSD) syslog datagram. `time` is the local time in the
/// format of the header, `pid` the sending process.
pub fn rfc3164_message(tag: &str, msg: &str, time: &str, pid: u32) -> (r: String)
    ensures
        r@ == syslog_datagram(tag@, msg@, time@, pid),
{
    let t = to_chars(tag);
    let count: usize = if t.len() > TAG_MAX {
        TAG_MAX
    } else {
        t.len()
    };
    let short = crate::text::from_chars(&t, 0, count);
    assert(t@.subrange(0, count as int) =~= short_tag(tag@));
    let m = to_chars(msg);
    let mut flat = String::new();
    let mut i: usize = 0;
    assert(flat@ =~= on_one_line(msg@).take(0));
    while i < m.len()
        invariant
            i <= m@.len(),
            m@ == msg@,
            flat@ == on_one_line(msg@).take(i as int),
        decreases m@.len() - i,
    {
        let c = if m[i] == '\n' || m[i] == '\r' {
            ' '
        } else {
            m[i]
        };
        assert(on_one_line(msg@)[i as int] == c);
        assert(on_one_line(msg@).take(i + 1) =~= on_one_line(msg@).take(i as int).push(c));
        flat.push(c);
        i += 1;
    }
    assert(on_one_line(msg@).take(i as int) =~= on_one_line(msg@));
    "<30>".to_string().concat(time).concat(" localhost ").concat(short.as_str()).concat(
        "[",
    ).concat(show(pid as u64).as_str()).concat("]: ").concat(flat.as_str())
}

/// The state of a log writer that sends to syslog.
#[derive(Debug, Clone, Copy, PartialEq, Eq, Structural)]
pub struct SyslogSender {
    /// Whether it has been said that syslog cannot be reached.
    pub warned: bool,
}

/// What becomes of a line for syslog.
#[derive(Debug, Clone, PartialEq, Eq)]
pub enum Delivery {
    /// It was sent.
    Sent,
    /// It goes into the fallback file, as this text. If `warn`, first say that
    /// syslog cannot be reached.
    Fallback { warn: bool, text: String },
}

impl SyslogSender {
    pub fn new() -> (r: Self)
        ensures
            r == (SyslogSender { warned: false }),
    {
        SyslogSender { warned: false }
    }

    /// The state after the attempt to send a line.
    pub open spec fn after(self, sent: bool) -> SyslogSender {
        SyslogSender { warned: self.warned || !sent }
    }

    /// Whether the attempt to send a line leads to the warning.
    pub open spec fn warns(self, sent: bool) -> bool {
        !sent && !self.warned
    }

    /// Takes note of the attempt to send a line. One that could not be sent is
    /// kept in the fallback file; the first time, a warning is due.
    pub fn tried(&mut self, line: &str, sent: bool) -> (r: Delivery)
        ensures
            match r {
                Delivery::Sent => sent,
                Delivery::Fallback { warn, text } => !sent && warn == old(self).warns(sent) && text@
                    == line@ + "\n"@,
            },
            *final(self) == old(self).after(sent),
    {
        if sent {
            return Delivery::Sent;
        }
        let warn = !self.warned;
        self.warned = true;
        Delivery::Fallback { warn, text: line.to_string().concat("\n") }
    }
}

// ---------------------------------------------------------------------------
// Rotation
// ---------------------------------------------------------------------------

#[derive(Debug, Clone, Copy, PartialEq, Eq, Structural)]
pub enum RotationStyle {
    /// Logs live in a service directory; rotated files are numbered
    /// (`current`, `1`, `2`, ...).
    Directory,
    /// Rotated files get a numeric suffix on the log path itself
    /// (`app.log`, `app.log.1`, `app.log.2`, ...).
    Suffix,
}

/// The state of a log file that is written and rotated.
#[derive(Debug, Clone, PartialEq, Eq)]
pub struct RotatingWriter {
    pub current: String,
    /// The size at which the file is rotated; 0 where it is not.
    pub max_bytes: u64,
    /// How many rotated files are kept.
    pub max_files: u32,
    pub timestamp: bool,
    pub style: RotationStyle,
    /// The size of the file.
    pub size: u64,
}

/// One step of a rotation: where `from` exists, remove `to` if `prune`, and
/// rename `from` to `to`.
#[derive(Debug, Clone, PartialEq, Eq)]
pub struct Shift {
    pub from: String,
    pub to: String,
    pub prune: bool,
    /// Whether a rename that fails is an error.
    pub strict: bool,
}

/// What a step of a rotation says.
pub struct ShiftModel {
    pub from: Text,
    pub to: Text,
    pub prune: bool,
    pub strict: bool,
}

impl View for Shift {
    type V = ShiftModel;

    open spec fn view(&self) -> ShiftModel {
        ShiftModel { from: self.from@, to: self.to@, prune: self.prune, strict: self.strict }
    }
}

pub open spec fn shifts(v: Seq<Shift>) -> Seq<ShiftModel> {
    v.map_values(|s: Shift| s@)
}

/// The path of rotated file number `index`.
pub open spec fn rotated(current: Text, style: RotationStyle, index: int) -> Text {
    match style {
        RotationStyle::Directory => joined(
            match parent_of(current) {
                Some(dir) => dir,
                None => "/"@,
            },
            decimal(index as nat),
        ),
        RotationStyle::Suffix => current + "."@ + decimal(index as nat),
    }
}

/// The steps that move rotated files `i`, `i - 1`, ..., 1 one number up.
pub open spec fn shifts_from(current: Text, style: RotationStyle, max: int, i: int) -> Seq<
    ShiftModel,
>
    decreases i,
{
    if i < 1 {
        Seq::empty()
    } else {
        seq![
            ShiftModel {
                from: rotated(current, style, i),
                to: rotated(current, style, i + 1),
                prune: i + 1 >= max,
                strict: false,
            },
        ] + shifts_from(current, style, max, i - 1)
    }
}

/// The steps of a rotation: the rotated files move one number up, the last of
/// them overwritten, and the log file becomes number 1.
pub open spec fn rotation(current: Text, style: RotationStyle, max: int) -> Seq<ShiftModel> {
    shifts_from(current, style, max, max - 1).push(
        ShiftModel { from: current, to: rotated(current, style, 1), prune: true, strict: true },
    )
}

impl RotatingWriter {
    pub fn new(
        current: String,
        max_size_mb: u64,
        max_files: u32,
        timestamp: bool,
        style: RotationStyle,
    ) -> (r: Self)
        ensures
            r == (RotatingWriter {
                current,
                max_bytes: mebibytes(max_size_mb),
                max_files: if max_files < 1 {
                    1
                } else {
                    max_files
                },
                timestamp,
                style,
                size: 0,
            }),
    {
        RotatingWriter {
            current,
            max_bytes: mebibytes_saturating(max_size_mb),
            max_files: if max_files < 1 {
                1
            } else {
                max_files
            },
            timestamp,
            style,
            size: 0,
        }
    }

    /// Takes note that the log file was opened, with the size that it has.
    pub fn opened(&mut self, size: u64)
        ensures
            *final(self) == (RotatingWriter { size, ..*old(self) }),
    {
        self.size = size;
    }

    /// What is written for a line at the time `stamp`.
    pub open spec fn entry(self, line: Text, stamp: Text) -> Text {
        if self.timestamp {
            stamp + " "@ + line + "\n"@
        } else {
            line + "\n"@
        }
    }

    /// What is written for a line; `stamp` is the time in UTC.
    pub fn format_line(&self, line: &str, stamp: &str) -> (r: String)
        ensures
            r@ == self.entry(line@, stamp@),
    {
        if self.timestamp {
            stamp.to_string().concat(" ").concat(line).concat("\n")
        } else {
            line.to_string().concat("\n")
        }
    }

    /// Whether the file has a size limit and has reached it.
    pub open spec fn is_full(self) -> bool {
        self.max_bytes > 0 && self.size >= self.max_bytes
    }

    /// Takes note of bytes that were written. Says whether the file is now to
    /// be rotated.
    pub fn wrote(&mut self, bytes: u64) -> (r: bool)
        ensures
            *final(self) == (RotatingWriter {
                size: if old(self).size + bytes <= u64::MAX {
                    (old(self).size + bytes) as u64
                } else {
                    u64::MAX
                },
                ..*old(self)
            }),
            r == final(self).is_full(),
    {
        self.size = self.size.saturating_add(bytes);
        self.max_bytes > 0 && self.size >= self.max_bytes
    }

    /// The path of rotated file number `index`.
    pub fn rotated_path(&self, index: u32) -> (r: String)
        ensures
            r@ == rotated(self.current@, self.style, index as int),
    {
        match self.style {
            RotationStyle::Directory => {
                let dir = match parent(self.current.as_str()) {
                    Some(d) => d,
                    None => "/".to_string(),
                };
                join(dir.as_str(), show(index as u64).as_str())
            },
            RotationStyle::Suffix => self.current.clone().concat(".").concat(
                show(index as u64).as_str(),
            ),
        }
    }

    /// The steps of a rotation, after which the log file is opened afresh.
    pub fn rotate(&self) -> (r: Vec<Shift>)
        requires
            self.max_files >= 1,
        ensures
            shifts(r@) == rotation(self.current@, self.style, self.max_files as int),
    {
        let ghost want = rotation(self.current@, self.style, self.max_files as int);
        let ghost max = self.max_files as int;
        let mut out: Vec<Shift> = Vec::new();
        let mut i: u32 = self.max_files - 1;
        assert(shifts(out@) =~= Seq::<ShiftModel>::empty());
        assert(Seq::<ShiftModel>::empty() + shifts_from(self.current@, self.style, max, max - 1)
            =~= shifts_from(self.current@, self.style, max, max - 1));
        while i >= 1
            invariant
                i < self.max_files,
                max == self.max_files,
                shifts(out@) + shifts_from(self.current@, self.style, max, i as int)
                    == shifts_from(self.current@, self.style, max, max - 1),
            decreases i,
        {
            let ghost before = shifts(out@);
            let step = Shift {
                from: self.rotated_path(i),
                to: self.rotated_path(i + 1),
                prune: i + 1 >= self.max_files,
                strict: false,
            };
            let ghost s = step@;
            out.push(step);
            assert(shifts(out@) =~= before.push(s));
            assert(before.push(s) + shifts_from(self.current@, self.style, max, i - 1) =~= before
                + shifts_from(self.current@, self.style, max, i as int));
            i = i - 1;
        }
        assert(shifts(out@) =~= shifts_from(self.current@, self.style, max, max - 1));
        let ghost before = shifts(out@);
        let last = Shift {
            from: self.current.clone(),
            to: self.rotated_path(1),
            prune: true,
            strict: true,
        };
        let ghost l = last@;
        out.push(last);
        assert(shifts(out@) =~= before.push(l));
        out
    }
}

// ---------------------------------------------------------------------------
// Laws
// ---------------------------------------------------------------------------

/// The files of a directory tree, by path.
pub type Files = Map<Text, Seq<u8>>;

/// The files after one step of a rotation.
pub open spec fn after_shift(files: Files, s: ShiftModel) -> Files {
    if files.contains_key(s.from) {
        files.insert(s.to, files[s.from]).remove(s.from)
    } else {
        files
    }
}

/// The files after several steps.
pub open spec fn after_shifts(files: Files, steps: Seq<ShiftModel>) -> Files
    decreases steps.len(),
{
    if steps.len() == 0 {
        files
    } else {
        after_shifts(after_shift(files, steps[0]), steps.skip(1))
    }
}

/// What a file holds, if it exists.
pub open spec fn holds(files: Files, path: Text) -> Option<Seq<u8>> {
    if files.contains_key(path) {
        Some(files[path])
    } else {
        None
    }
}

/// Two rotated files have the same path only if they have the same number.
pub proof fn rotated_paths_are_distinct(current: Text, style: RotationStyle, i: int, j: int)
    requires
        i >= 0,
        j >= 0,
        rotated(current, style, i) == rotated(current, style, j),
    ensures
        i == j,
{
    let a = decimal(i as nat);
    let b = decimal(j as nat);
    decimal_reads_back(i as nat);
    decimal_reads_back(j as nat);
    reveal_strlit("/");
    reveal_strlit(".");
    let base = match style {
        RotationStyle::Directory => {
            let dir = match parent_of(current) {
                Some(dir) => dir,
                None => "/"@,
            };
            if dir.len() == 0 || dir.last() == '/' {
                dir
            } else {
                dir + "/"@
            }
        },
        RotationStyle::Suffix => current + "."@,
    };
    assert(rotated(current, style, i) =~= base + a);
    assert(rotated(current, style, j) =~= base + b);
    assert((base + a).skip(base.len() as int) =~= a);
    assert((base + b).skip(base.len() as int) =~= b);
}

/// A rotation keeps every line that it does not prune: the log file becomes
/// number 1, each rotated file moves one number up, and only the one with the
/// highest number is overwritten. No rotated file beyond the configured number
/// comes into being.
pub proof fn rotation_moves_every_file_up(
    files: Files,
    current: Text,
    style: RotationStyle,
    max: int,
)
    requires
        max >= 1,
        files.contains_key(current),
        forall|k: int| 1 <= k <= max ==> #[trigger] rotated(current, style, k) != current,
    ensures
        ({
            let after = after_shifts(files, rotation(current, style, max));
            &&& !after.contains_key(current)
            &&& holds(after, rotated(current, style, 1)) == Some(files[current])
            &&& forall|k: int|
                2 <= k <= max && files.contains_key(rotated(current, style, k - 1)) ==> holds(
                    after,
                    #[trigger] rotated(current, style, k),
                ) == Some(files[rotated(current, style, k - 1)])
            &&& forall|p: Text|
                p != current && (forall|k: int|
                    1 <= k <= max ==> p != #[trigger] rotated(current, style, k)) ==> #[trigger] holds(
                    after,
                    p,
                ) == holds(files, p)
        }),
{
    let steps = shifts_from(current, style, max, max - 1);
    let last = ShiftModel {
        from: current,
        to: rotated(current, style, 1),
        prune: true,
        strict: true,
    };
    lemma_after_push(files, steps, last);
    lemma_shifted(files, current, style, max, max - 1);
    let mid = after_shifts(files, steps);
    let after = after_shifts(files, rotation(current, style, max));
    assert(after == after_shift(mid, last));
    assert(rotated(current, style, 1) != current);
    assert(holds(mid, current) == holds(files, current));
    assert forall|k: int|
        2 <= k <= max && files.contains_key(rotated(current, style, k - 1)) implies holds(
        after,
        #[trigger] rotated(current, style, k),
    ) == Some(files[rotated(current, style, k - 1)]) by {
        if rotated(current, style, k) == rotated(current, style, 1) {
            rotated_paths_are_distinct(current, style, k, 1);
        }
        assert(moved_up(files, mid, current, style, k));
    }
    assert forall|p: Text|
        p != current && (forall|k: int|
            1 <= k <= max ==> p != #[trigger] rotated(current, style, k)) implies #[trigger] holds(
        after,
        p,
    ) == holds(files, p) by {
        assert(holds(mid, p) == holds(files, p));
        assert(p != rotated(current, style, 1));
    }
}

proof fn lemma_after_push(files: Files, steps: Seq<ShiftModel>, s: ShiftModel)
    ensures
        after_shifts(files, steps.push(s)) == after_shift(after_shifts(files, steps), s),
    decreases steps.len(),
{
    if steps.len() == 0 {
        assert(steps.push(s).skip(1) =~= Seq::<ShiftModel>::empty());
        assert(steps.push(s)[0] == s);
        assert(after_shifts(after_shift(files, s), Seq::<ShiftModel>::empty()) == after_shift(
            files,
            s,
        ));
    } else {
        assert(steps.push(s).skip(1) =~= steps.skip(1).push(s));
        assert(steps.push(s)[0] == steps[0]);
        lemma_after_push(after_shift(files, steps[0]), steps.skip(1), s);
    }
}

/// Whether number `k` now holds what number `k - 1` held.
spec fn moved_up(files: Files, after: Files, current: Text, style: RotationStyle, k: int) -> bool {
    files.contains_key(rotated(current, style, k - 1)) ==> holds(
        after,
        rotated(current, style, k),
    ) == Some(files[rotated(current, style, k - 1)])
}

/// Moving numbers `i`, ..., 1 up changes only the numbers 1 to `i + 1`.
proof fn lemma_shifted(files: Files, current: Text, style: RotationStyle, max: int, i: int)
    requires
        0 <= i < max,
    ensures
        ({
            let after = after_shifts(files, shifts_from(current, style, max, i));
            &&& forall|k: int| 2 <= k <= i + 1 ==> #[trigger] moved_up(files, after, current, style, k)
            &&& forall|p: Text|
                (forall|k: int| 1 <= k <= i + 1 ==> p != #[trigger] rotated(current, style, k))
                    ==> #[trigger] holds(after, p) == holds(files, p)
        }),
    decreases i,
{
    if i >= 1 {
        let steps = shifts_from(current, style, max, i);
        let rest = shifts_from(current, style, max, i - 1);
        let first = steps[0];
        assert(steps.skip(1) =~= rest);
        let mid = after_shift(files, first);
        lemma_shifted(mid, current, style, max, i - 1);
        let after = after_shifts(mid, rest);
        assert(after_shifts(files, steps) == after);
        assert forall|k: int| 2 <= k <= i + 1 implies #[trigger] moved_up(
            files,
            after,
            current,
            style,
            k,
        ) by {
            if k == i + 1 {
                let top = rotated(current, style, i + 1);
                assert forall|m: int| 1 <= m <= i implies top != #[trigger] rotated(
                    current,
                    style,
                    m,
                ) by {
                    if top == rotated(current, style, m) {
                        rotated_paths_are_distinct(current, style, i + 1, m);
                    }
                }
                assert(holds(after, top) == holds(mid, top));
                if rotated(current, style, i) == top {
                    rotated_paths_are_distinct(current, style, i, i + 1);
                }
            } else {
                assert(moved_up(mid, after, current, style, k));
                let below = rotated(current, style, k - 1);
                if below == rotated(current, style, i) {
                    rotated_paths_are_distinct(current, style, k - 1, i);
                }
                if below == rotated(current, style, i + 1) {
                    rotated_paths_are_distinct(current, style, k - 1, i + 1);
                }
            }
        }
        assert forall|p: Text|
            (forall|k: int| 1 <= k <= i + 1 ==> p != #[trigger] rotated(current, style, k)) implies
            #[trigger] holds(after, p) == holds(files, p) by {
            assert(p != rotated(current, style, i));
            assert(p != rotated(current, style, i + 1));
            assert(holds(after, p) == holds(mid, p));
        }
    }
}

/// A log writer learns from its command line what the configuration of its
/// service says.
pub proof fn log_writers_learn_their_settings(
    config: ServiceConfig,
    log_dir: Text,
    name: Text,
    args: Seq<String>,
    sink: FileSink,
)
    requires
        config.logging.kind is Pipe || config.logging.kind is File,
        texts(args) == seq!["vigillog"@] + logger_arguments(config, log_dir, name)->0,
        is_sink(args, sink),
    ensures
        args[1]@ == if config.logging.kind is Pipe {
            "pipe"@
        } else {
            "file"@
        },
        sink.name@ == name,
        sink.path@ == if config.logging.kind is Pipe {
            log_base(config.logging, log_dir, name)
        } else {
            log_file(config.logging, log_dir, name)
        },
        sink.max_size_mb == config.logging.max_size_mb,
        sink.max_files == config.logging.max_files,
        sink.timestamp == config.logging.timestamp,
{
    let words = texts(args);
    assert(words.len() == 7);
    assert forall|i: int| 0 <= i < 7 implies #[trigger] args[i]@ == words[i] by {}
    decimal_reads_back(config.logging.max_size_mb as nat);
    decimal_reads_back(config.logging.max_files as nat);
    reveal_strlit("0");
    reveal_strlit("1");
    assert("0"@[0] != "1"@[0]);
}

/// A log is never rotated by size exactly where its limit was given as zero.
pub proof fn unlimited_logs_do_not_rotate(writer: RotatingWriter, max_size_mb: u64)
    requires
        writer.max_bytes == mebibytes(max_size_mb),
    ensures
        max_size_mb == 0 ==> !writer.is_full(),
        max_size_mb > 0 ==> (writer.is_full() <==> writer.size >= mebibytes(max_size_mb)),
{
}

/// Whether a text stands on one line.
pub open spec fn is_one_line(s: Text) -> bool {
    forall|i: int| 0 <= i < s.len() ==> #[trigger] s[i] != '\n' && s[i] != '\r'
}

/// A syslog message is a single line whatever the service wrote, and its tag is
/// short.
pub proof fn syslog_messages_are_single_lines(tag: Text, msg: Text, time: Text, pid: u32)
    requires
        is_one_line(tag),
        is_one_line(time),
    ensures
        is_one_line(syslog_datagram(tag, msg, time, pid)),
        short_tag(tag).len() <= TAG_MAX,
{
    lemma_decimal_digits(pid as nat);
    reveal_strlit("<30>");
    reveal_strlit(" localhost ");
    reveal_strlit("[");
    reveal_strlit("]: ");
    assert(is_one_line(decimal(pid as nat)));
    assert(is_one_line(on_one_line(msg)));
    assert(is_one_line("<30>"@ + time + " localhost "@));
    assert(is_one_line("<30>"@ + time + " localhost "@ + short_tag(tag) + "["@));
}

/// The state of a syslog sender after several attempts.
pub open spec fn after_attempts(sender: SyslogSender, sent: Seq<bool>) -> SyslogSender
    decreases sent.len(),
{
    if sent.len() == 0 {
        sender
    } else {
        after_attempts(sender, sent.drop_last()).after(sent.last())
    }
}

/// How often it warns in the course of them.
pub open spec fn warnings(sender: SyslogSender, sent: Seq<bool>) -> nat
    decreases sent.len(),
{
    if sent.len() == 0 {
        0
    } else {
        warnings(sender, sent.drop_last()) + if after_attempts(sender, sent.drop_last()).warns(
            sent.last(),
        ) {
            1nat
        } else {
            0nat
        }
    }
}

/// A log writer warns once, with the first line that syslog does not take, and
/// not at all where it takes every line.
pub proof fn syslog_loss_is_warned_of_once(sender: SyslogSender, sent: Seq<bool>)
    requires
        !sender.warned,
    ensures
        warnings(sender, sent) == if sent.contains(false) {
            1nat
        } else {
            0nat
        },
        after_attempts(sender, sent).warned == sent.contains(false),
    decreases sent.len(),
{
    if sent.len() > 0 {
        let init = sent.drop_last();
        syslog_loss_is_warned_of_once(sender, init);
        assert(sent =~= init.push(sent.last()));
        lemma_push_contains(init, sent.last(), false);
    }
}

/// Nothing but the line end is lost of a line: what stands before a newline, or
/// before a carriage return and newline, is read whole, and so is a last line
/// that nothing ends.
pub proof fn only_the_line_end_is_lost(b: Seq<u8>)
    ensures
        (b.len() == 0 || b.last() != 13) ==> line_body(b.push(10)) == b,
        line_body(b.push(13).push(10)) == b,
        (b.len() == 0 || b.last() != 10) ==> line_body(b) == b,
{
    assert(b.push(10).drop_last() =~= b);
    assert(b.push(13).push(10).drop_last() =~= b.push(13));
    assert(b.push(13).drop_last() =~= b);
}

/// Every character of a message arrives: in its place, and as it is unless it
/// breaks the line, where a blank stands for it.
pub proof fn line_breaks_become_blanks(s: Text, i: int)
    ensures
        on_one_line(s).len() == s.len(),
        0 <= i < s.len() ==> on_one_line(s)[i] == if s[i] == '\n' || s[i] == '\r' {
            ' '
        } else {
            s[i]
        },
        is_one_line(s) ==> on_one_line(s) == s,
{
    if is_one_line(s) {
        assert(on_one_line(s) =~= s);
    }
}

/// A tag is cut to its first 32 characters, and only where it has more.
pub proof fn tags_are_cut_at_their_end(head: Text, tail: Text)
    requires
        head.len() == 32,
    ensures
        short_tag(head) == head,
        short_tag(head + tail) == head,
        forall|n: int| 0 <= n <= 32 ==> short_tag(#[trigger] head.take(n)) == head.take(n),
{
    assert(head + Seq::<char>::empty() =~= head);
    if tail.len() > 0 {
        assert((head + tail).take(32) =~= head);
    } else {
        assert(head + tail =~= head);
    }
}

/// A syslog datagram ends in the message, after the tag, the sender's process
/// and a colon, and begins with the priority 30 and the time: none of a one-line
/// message under a short tag is changed. Of any other message and tag it is that
/// of the message on one line under the tag cut short.
pub proof fn datagrams_carry_the_message(tag: Text, msg: Text, time: Text, pid: u32)
    ensures
        tag.len() <= 32 && is_one_line(msg) ==> syslog_datagram(tag, msg, time, pid) == "<30>"@
            + time + " localhost "@ + tag + "["@ + decimal(pid as nat) + "]: "@ + msg,
        syslog_datagram(tag, msg, time, pid) == syslog_datagram(
            short_tag(tag),
            on_one_line(msg),
            time,
            pid,
        ),
{
    line_breaks_become_blanks(msg, 0);
    let m = on_one_line(msg);
    assert(is_one_line(m)) by {
        assert forall|i: int| 0 <= i < m.len() implies #[trigger] m[i] != '\n' && m[i]
            != '\r' by {
            line_breaks_become_blanks(msg, i);
        }
    }
    line_breaks_become_blanks(m, 0);
}

/// A line is written whole, with its newline behind it, and behind the time
/// exactly where time stamps are asked for.
pub proof fn lines_are_written_whole(w: RotatingWriter, line: Text, stamp: Text)
    ensures
        w.timestamp ==> w.entry(line, stamp) == stamp + seq![' '] + line + seq!['\n'],
        !w.timestamp ==> w.entry(line, stamp) == line + seq!['\n'],
{
    reveal_strlit(" ");
    reveal_strlit("\n");
    assert(" "@ =~= seq![' ']);
    assert("\n"@ =~= seq!['\n']);
}

/// Rotated files bear their numbers: as a suffix of the log file's path, or in
/// place of its name in its directory.
pub proof fn rotated_files_bear_their_numbers(dir: Text, name: Text, i: nat)
    requires
        name.len() > 0,
        !name.contains('/'),
        name != "."@,
        dir.len() > 0,
        dir.last() != '/',
        without_idle(dir, body_start(dir)) == dir,
    ensures
        rotated(dir + seq!['/'] + name, RotationStyle::Directory, i as int) == dir + seq!['/']
            + decimal(i),
        rotated(dir + seq!['/'] + name, RotationStyle::Suffix, i as int) == dir + seq!['/'] + name
            + seq!['.'] + decimal(i),
{
    reveal_strlit("/");
    reveal_strlit(".");
    assert("/"@ =~= seq!['/']);
    assert("."@ =~= seq!['.']);
    parent_undoes_join(dir, name);
    lemma_decimal_digits(i);
    assert(name[0] != '/') by {
        assert(name.contains(name[0]));
    }
    assert(joined(dir, name) == dir + seq!['/'] + name);
    assert(decimal(i)[0] != '/');
}

/// A rotation has one step for every file that is kept: from the highest number
/// down, each file moves one number up, and last the log file becomes number 1.
/// Files are removed to make room at the two ends, and only the last step must
/// not fail.
pub proof fn rotations_go_from_the_top_down(current: Text, style: RotationStyle, max: int, k: int)
    requires
        max >= 1,
    ensures
        rotation(current, style, max).len() == max,
        0 <= k < max - 1 ==> {
            let s = rotation(current, style, max)[k];
            &&& s.from == rotated(current, style, max - 1 - k)
            &&& s.to == rotated(current, style, max - k)
            &&& s.prune <==> k == 0
            &&& !s.strict
        },
        ({
            let s = rotation(current, style, max).last();
            &&& s.from == current
            &&& s.to == rotated(current, style, 1)
            &&& s.prune
            &&& s.strict
        }),
{
    lemma_shift_places(current, style, max, max - 1, k);
}

proof fn lemma_shift_places(current: Text, style: RotationStyle, max: int, i: int, k: int)
    requires
        0 <= i < max,
    ensures
        shifts_from(current, style, max, i).len() == i,
        0 <= k < i ==> {
            let s = shifts_from(current, style, max, i)[k];
            &&& s.from == rotated(current, style, i - k)
            &&& s.to == rotated(current, style, i - k + 1)
            &&& s.prune <==> i - k + 1 >= max
            &&& !s.strict
        },
    decreases i,
{
    if i >= 1 {
        lemma_shift_places(current, style, max, i - 1, k - 1);
    }
}

/// Settings that the command line leaves out, or that are no numbers, have
/// their defaults: 10 MiB, 5 files, time stamps. Any other flag than `1` turns
/// the time stamps off.
pub proof fn settings_have_defaults(args: Seq<String>, sink: FileSink)
    requires
        args.len() >= 4,
        is_sink(args, sink),
    ensures
        args.len() <= 4 ==> sink.max_size_mb == 10,
        args.len() <= 5 ==> sink.max_files == 5,
        args.len() <= 6 ==> sink.timestamp,
        args.len() > 4 && unsigned_value(args[4]@) is None ==> sink.max_size_mb == 10,
        args.len() > 5 && unsigned_value(args[5]@) is None ==> sink.max_files == 5,
        args.len() > 6 ==> (sink.timestamp <==> args[6]@ == seq!['1']),
        forall|n: u64| args.len() > 4 && args[4]@ == #[trigger] decimal(n as nat) ==> sink.max_size_mb == n,
        forall|n: u32| args.len() > 5 && args[5]@ == #[trigger] decimal(n as nat) ==> sink.max_files == n,
{
    reveal_strlit("1");
    assert("1"@ =~= seq!['1']);
    assert forall|n: u64| args.len() > 4 && args[4]@ == #[trigger] decimal(n as nat) implies sink.max_size_mb
        == n by {
        decimal_reads_back(n as nat);
    }
    assert forall|n: u32| args.len() > 5 && args[5]@ == #[trigger] decimal(n as nat) implies sink.max_files
        == n by {
        decimal_reads_back(n as nat);
    }
}

/// Nothing of a step of a rotation is lost in what is said of it.
pub proof fn shifts_are_said_in_full(v: Seq<Shift>, i: int)
    requires
        0 <= i < v.len(),
    ensures
        shifts(v).len() == v.len(),
        shifts(v)[i].from == v[i].from@,
        shifts(v)[i].to == v[i].to@,
        shifts(v)[i].prune == v[i].prune,
        shifts(v)[i].strict == v[i].strict,
{
}

/// Wherever a log file lies, its rotated files lie beside it: in its directory,
/// under their numbers alone, or under its own path and their numbers.
pub proof fn rotated_files_lie_beside_the_log(current: Text, i: nat)
    ensures
        rotated(current, RotationStyle::Suffix, i as int) == current + seq!['.'] + decimal(i),
        parent_of(current) matches Some(dir) ==> rotated(
            current,
            RotationStyle::Directory,
            i as int,
        ) == joined(dir, decimal(i)),
        parent_of(current) is None ==> rotated(current, RotationStyle::Directory, i as int) == seq![
            '/',
        ] + decimal(i),
{
    reveal_strlit(".");
    reveal_strlit("/");
    assert("."@ =~= seq!['.']);
    assert("/"@ =~= seq!['/']);
    lemma_decimal_digits(i);
    assert(decimal(i)[0] != '/');
}

} // verus!
