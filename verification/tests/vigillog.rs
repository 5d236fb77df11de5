use std::collections::BTreeMap;
use vigil::rotate::{
    line_text, logger_mode, rfc3164_message, Delivery, FileSink, LoggerArgs, RotatingWriter,
    RotationStyle, SyslogSender,
};

/// Files in memory, rotated and written as the writer says.
struct Disk {
    files: BTreeMap<String, String>,
    open: bool,
}

impl Disk {
    fn new() -> Disk {
        Disk { files: BTreeMap::new(), open: false }
    }

    fn ensure_open(&mut self, w: &mut RotatingWriter) {
        if !self.open {
            let file = self.files.entry(w.current.clone()).or_default();
            w.opened(file.len() as u64);
            self.open = true;
        }
    }

    fn rotate(&mut self, w: &mut RotatingWriter) {
        self.open = false;
        for step in w.rotate() {
            if self.files.contains_key(&step.from) {
                if step.prune {
                    self.files.remove(&step.to);
                }
                let content = self.files.remove(&step.from).unwrap();
                self.files.insert(step.to, content);
            }
        }
        self.ensure_open(w);
    }

    fn write_line(&mut self, w: &mut RotatingWriter, line: &str) {
        self.ensure_open(w);
        let out = w.format_line(line, "2024-01-02T03:04:05");
        self.files.get_mut(&w.current).unwrap().push_str(&out);
        if w.wrote(out.len() as u64) {
            self.rotate(w);
        }
    }
}

#[test]
fn directory_rotation_roundtrip() {
    let mut disk = Disk::new();
    let mut w =
        RotatingWriter::new("/log/current".to_string(), 1, 3, false, RotationStyle::Directory);
    for _ in 0..100_000 {
        disk.write_line(&mut w, "line");
    }
    // Rotate enough times to fill (and then prune) the archive chain.
    for _ in 0..4 {
        disk.rotate(&mut w);
    }

    let files: Vec<String> = disk.files.keys().cloned().collect();
    // max_files archives plus the live file.
    for n in ["current", "1", "2", "3"] {
        assert!(
            files.iter().any(|f| *f == format!("/log/{}", n)),
            "missing rotated file {} in {:?}",
            n,
            files
        );
    }
    assert!(!files.iter().any(|f| f == "/log/4"), "archive 4 should be pruned");
}

#[test]
fn suffix_rotation_roundtrip() {
    let mut disk = Disk::new();
    let mut w = RotatingWriter::new("/log/app.log".to_string(), 1, 3, false, RotationStyle::Suffix);
    for _ in 0..100_000 {
        disk.write_line(&mut w, "line");
    }
    for _ in 0..4 {
        disk.rotate(&mut w);
    }

    for n in ["app.log", "app.log.1", "app.log.2", "app.log.3"] {
        assert!(disk.files.contains_key(&format!("/log/{}", n)), "missing {}", n);
    }
    assert!(!disk.files.contains_key("/log/app.log.4"), ".4 should have been pruned");
}

#[test]
fn zero_size_is_unbounded() {
    let mut disk = Disk::new();
    let mut w =
        RotatingWriter::new("/log/current".to_string(), 0, 3, false, RotationStyle::Directory);
    for i in 0..100 {
        disk.write_line(&mut w, &format!("line {}", i));
    }
    disk.rotate(&mut w);
    assert!(disk.files.contains_key("/log/current"));
}

#[test]
fn syslog_lines_have_valid_pri() {
    let line = rfc3164_message("sshd", "connection refused\nsecond", "Jan  2 03:04:05", 99);
    let pri: String = line.chars().skip(1).take_while(|c| c.is_ascii_digit()).collect();
    let pri: u32 = pri.parse().unwrap();
    assert_eq!(pri, 30); // daemon.info
    assert!(line.contains("sshd["));
    assert!(!line.contains('\n'));
}

#[test]
fn syslog_tag_truncated_to_32() {
    let long = "x".repeat(100);
    let line = rfc3164_message(&long, "msg", "Jan  2 03:04:05", 99);
    // tag is bounded by '<..>... localhost ' prefix; simple length sanity
    assert!(line.len() < 200);
    assert!(line.contains(&format!(" {}[99]", "x".repeat(32))));
}

#[test]
fn syslog_messages_are_exact() {
    assert_eq!(
        rfc3164_message("sshd", "a\r\nb", "Jan  2 03:04:05", 12),
        "<30>Jan  2 03:04:05 localhost sshd[12]: a  b"
    );
}

#[test]
fn rotation_keeps_contents_in_order() {
    let mut disk = Disk::new();
    let mut w = RotatingWriter::new("/l/current".to_string(), 0, 2, false, RotationStyle::Directory);
    for name in ["one", "two", "three", "four"] {
        disk.write_line(&mut w, name);
        disk.rotate(&mut w);
    }
    assert_eq!(disk.files["/l/1"], "four\n");
    assert_eq!(disk.files["/l/2"], "three\n");
    assert_eq!(disk.files["/l/current"], "");
    assert_eq!(disk.files.len(), 3);
}

#[test]
fn a_single_archive_is_replaced() {
    let mut disk = Disk::new();
    let mut w = RotatingWriter::new("app".to_string(), 0, 0, false, RotationStyle::Suffix);
    assert_eq!(w.max_files, 1);
    disk.write_line(&mut w, "old");
    disk.rotate(&mut w);
    disk.write_line(&mut w, "new");
    disk.rotate(&mut w);
    assert_eq!(disk.files["app.1"], "new\n");
    assert!(!disk.files.contains_key("app.2"));
}

#[test]
fn files_rotate_at_their_size() {
    let mut w = RotatingWriter::new("x".to_string(), 1, 3, true, RotationStyle::Suffix);
    assert_eq!(w.max_bytes, 1_048_576);
    w.opened(1_048_570);
    assert!(!w.wrote(5));
    assert!(w.wrote(1));
    assert_eq!(w.format_line("hello", "2024-01-02T03:04:05"), "2024-01-02T03:04:05 hello\n");
    let huge = RotatingWriter::new("x".to_string(), u64::MAX, 3, true, RotationStyle::Suffix);
    assert_eq!(huge.max_bytes, u64::MAX);
    assert_eq!(huge.rotated_path(12), "x.12");
    let dir = RotatingWriter::new("/a/current".to_string(), 1, 3, true, RotationStyle::Directory);
    assert_eq!(dir.rotated_path(2), "/a/2");
    let root = RotatingWriter::new("/".to_string(), 1, 3, true, RotationStyle::Directory);
    assert_eq!(root.rotated_path(2), "/2");
}

#[test]
fn log_writer_command_lines() {
    let run = |args: &[&str]| logger_mode(&args.iter().map(|s| s.to_string()).collect::<Vec<String>>());
    assert_eq!(run(&["vigillog"]), LoggerArgs::Usage);
    assert_eq!(run(&["vigillog", "pipe", "sshd"]), LoggerArgs::Usage);
    assert_eq!(run(&["vigillog", "file", "sshd"]), LoggerArgs::Usage);
    assert_eq!(run(&["vigillog", "syslog", "sshd", "/d"]), LoggerArgs::Usage);
    assert_eq!(run(&["vigillog", "tape"]), LoggerArgs::UnknownMode("tape".to_string()));
    let sink = |mb: u64, files: u32, timestamp: bool| FileSink {
        name: "sshd".to_string(),
        path: "/d".to_string(),
        max_size_mb: mb,
        max_files: files,
        timestamp,
    };
    assert_eq!(run(&["vigillog", "pipe", "sshd", "/d"]), LoggerArgs::Pipe(sink(10, 5, true)));
    assert_eq!(
        run(&["vigillog", "file", "sshd", "/d", "20", "7", "0"]),
        LoggerArgs::File(sink(20, 7, false))
    );
    assert_eq!(
        run(&["vigillog", "pipe", "sshd", "/d", "x", "4294967296", "1"]),
        LoggerArgs::Pipe(sink(10, 5, true))
    );
    assert_eq!(
        run(&["vigillog", "syslog", "sshd", "/d", "/dev/log"]),
        LoggerArgs::Syslog {
            name: "sshd".to_string(),
            fallback_dir: "/d".to_string(),
            socket: "/dev/log".to_string(),
        }
    );
}

#[test]
fn lines_lose_their_ends_and_bad_bytes() {
    let text = |bytes: &[u8]| line_text(&bytes.to_vec());
    assert_eq!(text(b"hello\n").as_deref(), Some("hello"));
    assert_eq!(text(b"hello\r\n").as_deref(), Some("hello"));
    assert_eq!(text(b"hello\r").as_deref(), Some("hello\r"));
    assert_eq!(text(b"\n").as_deref(), Some(""));
    assert_eq!(text(&[0xc3, 0xa9]).as_deref(), Some("\u{e9}"));
    assert_eq!(text(&[b'a', 0xff, b'b', b'\n']), None);
    assert_eq!(text(&[0xc3, b'\n']), None);
}

#[test]
fn unsent_lines_fall_back_with_one_warning() {
    let mut sender = SyslogSender::new();
    let kept = |warn: bool, text: &str| Delivery::Fallback { warn, text: text.to_string() };
    assert_eq!(sender.tried("a", true), Delivery::Sent);
    assert_eq!(sender.tried("b", false), kept(true, "b\n"));
    assert_eq!(sender.tried("c", true), Delivery::Sent);
    assert_eq!(sender.tried("d", false), kept(false, "d\n"));
}
