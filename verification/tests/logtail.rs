use vigil::logtail::LogTail;

/// The last lines of a file, read as the search says.
fn tail(file: &[u8], max_lines: usize) -> (Vec<String>, usize) {
    let mut search = LogTail::new(file.len() as u64);
    if file.is_empty() {
        return (vec![], 0);
    }
    let mut reads = 0;
    loop {
        let from = search.widen() as usize;
        reads += 1;
        if let Some(lines) = search.lines(&file[from..].to_vec(), max_lines) {
            return (lines, reads);
        }
    }
}

#[test]
fn small_files_are_read_at_once() {
    assert_eq!(tail(b"a\nb\nc\n", 2), (vec!["b".to_string(), "c".to_string()], 1));
    assert_eq!(tail(b"a\nb\nc", 2), (vec!["b".to_string(), "c".to_string()], 1));
    assert_eq!(tail(b"a\nb\n", 10), (vec!["a".to_string(), "b".to_string()], 1));
    assert_eq!(tail(b"\n", 10), (vec!["".to_string()], 1));
    assert_eq!(tail(b"\n\n", 10), (vec!["".to_string(), "".to_string()], 1));
    assert_eq!(tail(b"a\n", 0), (vec![], 1));
    assert_eq!(tail(b"", 5), (vec![], 0));
}

#[test]
fn windows_grow_until_the_lines_are_found() {
    let mut file = String::new();
    for i in 0..20_000 {
        file.push_str(&format!("line number {}\n", i));
    }
    for n in [1, 50, 3_000, 10_000, 19_999, 20_000, 30_000] {
        let (lines, reads) = tail(file.as_bytes(), n);
        let want: Vec<String> = file.lines().map(|l| l.to_string()).collect();
        let from = want.len().saturating_sub(n);
        assert_eq!(lines, want[from..].to_vec(), "last {} lines", n);
        assert!(reads <= 4);
    }
}

#[test]
fn a_cut_first_line_is_not_shown() {
    // One long line at the beginning, cut by the first window.
    let mut file = "x".repeat(20_000);
    file.push_str("\nshort\n");
    let (lines, reads) = tail(file.as_bytes(), 1);
    assert_eq!((lines, reads), (vec!["short".to_string()], 1));
    let (lines, reads) = tail(file.as_bytes(), 2);
    assert_eq!(lines, vec!["x".repeat(20_000), "short".to_string()]);
    assert_eq!(reads, 2);
}

#[test]
fn bad_bytes_are_replaced() {
    assert_eq!(tail(&[b'a', 0xff, b'\n', 0xc3, b'\n'], 2).0, vec!["a\u{fffd}", "\u{fffd}"]);
}

#[test]
fn windows_are_quadrupled() {
    let mut search = LogTail::new(1_000_000);
    assert_eq!(search.widen(), 1_000_000 - 16_384);
    assert_eq!(search.widen(), 1_000_000 - 65_536);
    assert_eq!(search.widen(), 1_000_000 - 262_144);
    assert_eq!(search.widen(), 0);
    let mut small = LogTail::new(10);
    assert_eq!(small.widen(), 0);
    assert_eq!(small.window, 10);
}
