use terminal_plugin::path::{file_name, is_absolute, join_path, logical_normalize};

fn chars(s: &str) -> Vec<char> {
    s.chars().collect()
}

fn joined(windows: bool, base: &str, rest: &str) -> String {
    join_path(windows, &chars(base), &chars(rest)).iter().collect()
}

fn normal(windows: bool, s: &str) -> String {
    logical_normalize(windows, &chars(s)).iter().collect()
}

#[test]
fn joining_follows_the_platform() {
    assert_eq!(joined(false, "/a", "b"), "/a/b");
    assert_eq!(joined(false, "/a/", "b"), "/a/b");
    assert_eq!(joined(false, "", "b"), "b");
    assert_eq!(joined(false, "/a", "/b"), "/b");
    assert_eq!(joined(false, "/a", ""), "/a/");
    assert_eq!(joined(true, "C:\\a", "b"), "C:\\a\\b");
    assert_eq!(joined(true, "C:\\a", "\\b"), "C:\\b");
    assert_eq!(joined(true, "C:\\a", "D:b"), "D:b");
    assert_eq!(joined(true, "C:", "b"), "C:b");
}

#[test]
fn absolute_paths() {
    assert!(is_absolute(false, &chars("/a")));
    assert!(!is_absolute(false, &chars("a")));
    assert!(is_absolute(true, &chars("C:\\a")));
    assert!(!is_absolute(true, &chars("C:a")));
    assert!(!is_absolute(true, &chars("\\a")));
    assert!(is_absolute(true, &chars("\\\\server\\share")));
}

#[test]
fn the_last_name_of_a_path() {
    let name = |windows: bool, s: &str| {
        file_name(windows, &chars(s)).map(|n| n.iter().collect::<String>())
    };
    assert_eq!(name(false, "/bin/bash"), Some("bash".to_owned()));
    assert_eq!(name(false, "/bin/bash/."), Some("bash".to_owned()));
    assert_eq!(name(false, "/bin/.."), None);
    assert_eq!(name(false, "."), None);
    assert_eq!(name(false, "/"), None);
    assert_eq!(name(false, ""), None);
    assert_eq!(name(true, "C:\\bin\\zsh.exe"), Some("zsh.exe".to_owned()));
    assert_eq!(name(false, "C:\\bin"), Some("C:\\bin".to_owned()));
}

#[test]
fn normalizing_twice_changes_nothing() {
    for s in ["/a/./b/../c", "a/../..", "", "/", "//x//y/", "../up", "./."] {
        let once = normal(false, s);
        assert_eq!(normal(false, &once), once);
    }
    for s in [
        "C:\\a\\..\\b",
        "C:a/b",
        "\\\\s\\sh\\x\\..",
        "\\x",
        "a/..",
        "a\\D:E:x",
        ".\\D:E:x",
        "\\\\?\\C:\\a\\.\\b",
        "\\\\?\\UNC\\s\\\\x",
        "\\\\.\\COM1\\..",
    ] {
        let once = normal(true, s);
        assert_eq!(normal(true, &once), once);
        assert_eq!(is_absolute(true, &chars(&once)), is_absolute(true, &chars(s)));
    }
    assert_eq!(normal(false, "/a/./b/../c"), "/a/c");
    assert_eq!(normal(false, "../up"), "up");
    // A drive further on is a name like any other.
    assert_eq!(normal(true, "a\\D:b"), "a\\D:b");
    assert_eq!(normal(true, "C:\\a\\D:b\\.."), "C:\\a");
    assert_eq!(normal(true, ".\\D:b"), "D:b");
    assert_eq!(normal(true, ".\\D:\\b"), "D:b");
    assert_eq!(normal(true, ".\\D:.."), "D:");
}

#[test]
fn long_prefixes_are_kept() {
    assert_eq!(normal(true, "\\\\?\\UNC\\server\\share\\..\\.."), "\\\\?\\UNC\\server\\share\\");
    assert_eq!(normal(true, "\\\\?\\C:\\a\\..\\.."), "\\\\?\\C:\\");
    assert_eq!(normal(true, "\\\\?\\C:"), "\\\\?\\C:");
    assert_eq!(normal(true, "\\\\?\\vol\\a/b\\..\\c"), "\\\\?\\vol\\c");
    assert_eq!(normal(true, "\\\\.\\COM1\\.."), "\\\\.\\COM1\\");
    assert_eq!(joined(true, "\\\\?\\C:\\a", "..\\b/c"), "\\\\?\\C:\\b\\c");
    assert_eq!(joined(true, "\\\\?\\C:\\a", "\\b"), "\\\\?\\C:\\b");
    assert!(is_absolute(true, &chars("\\\\?\\C:")));
}
