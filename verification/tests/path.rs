use std::path::{Path, PathBuf};
use vigil::path::{exec_search_paths, join, parent};

#[test]
fn search_paths_are_unique_and_ordered() {
    for exe in [
        "/opt/vigil/bin/vigil",
        "/usr/local/bin/vigil-scan",
        "/usr/sbin/vigil-scan",
        "/sbin/init",
        "/bin/vigil",
        "/vigil",
        "vigil",
    ] {
        let paths = exec_search_paths(Some(exe), "vigil-scan");
        assert!(paths.len() >= 4, "unexpected path set: {:?}", paths);
        let has_insert = paths.windows(2).any(|w| w[0] == w[1]);
        assert!(!has_insert, "duplicate entries");
        for (i, p) in paths.iter().enumerate() {
            assert!(!paths[i + 1..].contains(p), "duplicate entries in {:?}", paths);
        }
        assert!(
            paths.iter().any(|p| PathBuf::from(p) == PathBuf::from("/usr/sbin/vigil-scan")),
            "must include /usr/sbin"
        );
        assert!(
            paths.iter().any(|p| PathBuf::from(p) == PathBuf::from("/bin/vigil-scan")),
            "must include /bin"
        );
    }
}

#[test]
fn a_fixed_directory_of_the_running_binary_comes_first_and_once() {
    assert_eq!(
        exec_search_paths(Some("/usr/local/bin/vigil-scan"), "vigil-scan"),
        vec![
            "/usr/local/bin/vigil-scan",
            "/usr/sbin/vigil-scan",
            "/sbin/vigil-scan",
            "/usr/bin/vigil-scan",
            "/bin/vigil-scan",
        ]
    );
    assert_eq!(
        exec_search_paths(Some("/usr/sbin/vigil-scan"), "vigillog"),
        vec![
            "/usr/sbin/vigillog",
            "/usr/local/bin/vigillog",
            "/sbin/vigillog",
            "/usr/bin/vigillog",
            "/bin/vigillog",
        ]
    );
    assert_eq!(exec_search_paths(Some("/sbin/init"), "/opt/x"), vec!["/opt/x"]);
}

#[test]
fn every_entry_bears_the_binary_name() {
    for p in exec_search_paths(Some("/opt/vigil/bin/vigil"), "vigillog") {
        assert_eq!(Path::new(&p).file_name().and_then(|f| f.to_str()), Some("vigillog"));
    }
}

#[test]
fn own_directory_is_searched_first() {
    assert_eq!(
        exec_search_paths(Some("/opt/vigil/bin/vigil"), "vigil-scan"),
        vec![
            "/opt/vigil/bin/vigil-scan",
            "/usr/local/bin/vigil-scan",
            "/usr/sbin/vigil-scan",
            "/sbin/vigil-scan",
            "/usr/bin/vigil-scan",
            "/bin/vigil-scan",
        ]
    );
    assert_eq!(exec_search_paths(None, "x").len(), 5);
    assert_eq!(exec_search_paths(Some("/"), "x").len(), 5);
}

#[test]
fn joins_agree_with_std() {
    for base in ["", "/", "a", "a/", "/a/b", "."] {
        for rest in ["", "b", "/b", "../c", "b/"] {
            let want = Path::new(base).join(rest);
            assert_eq!(join(base, rest), want.to_str().unwrap(), "{:?} {:?}", base, rest);
        }
    }
}

#[test]
fn parents_agree_with_std() {
    for p in [
        "", "/", "//", "a", "a/", "a//", "a/b", "a//b", "/a", "/a/", "/a/b/.", "./a", ".", "./",
        "..", "a/..", "a/./b", "/./a", "a/.", ".//a", "././a", "a/b/./.", "/..", "a/.b", ".a", "./.",
        "/etc/vigil/services/sshd.toml", "a/b///", "//a", "/.", "a/./.",
    ] {
        let want = Path::new(p).parent().map(|d| d.to_str().unwrap().to_string());
        assert_eq!(parent(p), want, "parent of {:?}", p);
    }
}

#[test]
fn parent_undoes_join_on_plain_names() {
    assert_eq!(parent(&join("/run/vigil", "sshd")), Some("/run/vigil".to_string()));
}
