use terminal_plugin::command::{
    collapse_home, expand_home, parse_cd, strip_surrounding_quotes, Platform,
};

fn unix() -> Platform {
    Platform { windows: false, home: Some("/home/nico".to_owned()), state_home: None }
}

fn windows() -> Platform {
    Platform { windows: true, home: Some("C:\\Users\\nico".to_owned()), state_home: None }
}

fn unix_cd(line: &str, base: &str) -> Option<String> {
    parse_cd(line, base, &unix())
}

fn windows_cd(line: &str, base: &str) -> Option<String> {
    parse_cd(line, base, &windows())
}

#[test]
fn collapse_home_replaces_leading_home_with_tilde() {
    assert_eq!(collapse_home("/home/nico", &unix()), "~");
    assert_eq!(collapse_home("/home/nico/projects", &unix()), "~/projects");
    assert_eq!(collapse_home("/home/nicolae", &unix()), "/home/nicolae"); // not a prefix match
    assert_eq!(collapse_home("/tmp", &unix()), "/tmp");
}

#[test]
fn collapse_home_replaces_leading_userprofile_with_tilde() {
    assert_eq!(collapse_home("C:\\Users\\nico", &windows()), "~");
    // Separators become `/`.
    assert_eq!(collapse_home("C:\\Users\\nico\\projects", &windows()), "~/projects");
    // A folder that only begins alike is another one.
    assert_eq!(collapse_home("C:\\Users\\nicolae", &windows()), "C:\\Users\\nicolae");
    assert_eq!(collapse_home("C:\\Temp", &windows()), "C:\\Temp");
}

#[test]
fn parse_cd_returns_none_for_non_cd_commands() {
    let base = "/tmp";
    assert_eq!(unix_cd("ls", base), None);
    assert_eq!(unix_cd("echo cd", base), None);
    // "cdrom" is another word.
    assert_eq!(unix_cd("cdrom", base), None);
    assert_eq!(unix_cd("cda /tmp", base), None);
}

#[test]
fn parse_cd_absolute_path_replaces_base() {
    assert_eq!(unix_cd("cd /var/log", "/tmp").unwrap(), "/var/log");
    assert_eq!(windows_cd("cd C:\\Windows", "C:\\tmp").unwrap(), "C:\\Windows");
}

#[test]
fn parse_cd_relative_joins_with_base() {
    assert_eq!(unix_cd("cd projects", "/home/nico").unwrap(), "/home/nico/projects");
    assert_eq!(
        windows_cd("cd projects", "C:\\Users\\nico").unwrap(),
        "C:\\Users\\nico\\projects",
    );
}

#[test]
fn parse_cd_dotdot_pops_one_component() {
    assert_eq!(unix_cd("cd ..", "/home/nico/projects").unwrap(), "/home/nico");
    assert_eq!(windows_cd("cd ..", "C:\\Users\\nico\\projects").unwrap(), "C:\\Users\\nico");
}

#[test]
fn parse_cd_strips_surrounding_double_quotes() {
    assert_eq!(unix_cd("cd \"my projects\"", "/tmp").unwrap(), "/tmp/my projects");
    assert_eq!(windows_cd("cd \"My Projects\"", "C:\\tmp").unwrap(), "C:\\tmp\\My Projects");
}

#[test]
fn parse_cd_no_argument_returns_home() {
    assert_eq!(unix_cd("cd", "/tmp"), Some("/home/nico".to_owned()));
    assert_eq!(unix_cd("  cd  ", "/tmp"), Some("/home/nico".to_owned()));
    let homeless = Platform { windows: false, home: None, state_home: None };
    assert_eq!(parse_cd("cd", "/tmp", &homeless), None);
    assert_eq!(parse_cd("cd ~", "/tmp", &homeless), Some("/tmp/~".to_owned()));
}

#[test]
fn parse_cd_strips_slash_d_flag() {
    assert_eq!(windows_cd("cd /d D:\\data", "C:\\Users\\nico").unwrap(), "D:\\data");
    // In either case.
    assert_eq!(windows_cd("CD /D D:\\data", "C:\\Users\\nico").unwrap(), "D:\\data");
    // Elsewhere it is a folder.
    assert_eq!(unix_cd("cd /d", "/home/nico").unwrap(), "/d");
}

#[test]
fn parse_cd_is_case_insensitive_on_command_word() {
    assert_eq!(unix_cd("CD /tmp", "/").unwrap(), "/tmp");
    assert_eq!(windows_cd("CD C:\\Windows", "C:\\").unwrap(), "C:\\Windows");
}

#[test]
fn dots_are_worked_out_without_looking() {
    assert_eq!(unix_cd("cd ./a/../b//c/.", "/x").unwrap(), "/x/b/c");
    assert_eq!(unix_cd("cd ../../..", "/a/b").unwrap(), "/");
    assert_eq!(unix_cd("cd a/../../b", "rel").unwrap(), "b");
    assert_eq!(windows_cd("cd ../..", "C:\\a").unwrap(), "C:\\");
    assert_eq!(windows_cd("cd \\x", "C:\\a").unwrap(), "C:\\x");
    assert_eq!(windows_cd("cd x", "\\\\server\\share").unwrap(), "\\\\server\\share\\x");
    assert_eq!(windows_cd("cd ..", "\\\\server\\share").unwrap(), "\\\\server\\share\\");
    assert_eq!(windows_cd("cd a/b", "C:").unwrap(), "C:a\\b");
}

#[test]
fn a_line_with_other_letters_is_no_cd() {
    assert_eq!(unix_cd("c\u{20ac}d", "/"), None);
    assert_eq!(unix_cd("", "/"), None);
    assert_eq!(unix_cd("c", "/"), None);
    assert_eq!(unix_cd("cd\u{a0}x", "/").unwrap(), "/x");
}

#[test]
fn a_tilde_is_the_home_folder() {
    assert_eq!(expand_home("~", &unix()), "/home/nico");
    assert_eq!(expand_home("~/", &unix()), "/home/nico");
    assert_eq!(expand_home("~/a/b", &unix()), "/home/nico/a/b");
    assert_eq!(expand_home("~//tmp", &unix()), "/home/nico//tmp");
    assert_eq!(expand_home("~a", &unix()), "~a");
    assert_eq!(expand_home("~\\a", &unix()), "~\\a");
    assert_eq!(expand_home("~\\a", &windows()), "C:\\Users\\nico\\a");
    assert_eq!(expand_home("/x/~", &unix()), "/x/~");
    assert_eq!(expand_home("~/D:x", &windows()), "C:\\Users\\nico\\D:x");
    assert_eq!(unix_cd("cd ~//tmp", "/").unwrap(), "/home/nico/tmp");
    let long = Platform {
        windows: true,
        home: Some("\\\\?\\C:\\nico".to_owned()),
        state_home: None,
    };
    assert_eq!(expand_home("~/a/b", &long), "\\\\?\\C:\\nico\\a\\b");
}

#[test]
fn quotes_come_off_in_pairs() {
    assert_eq!(strip_surrounding_quotes("\"a b\""), "a b");
    assert_eq!(strip_surrounding_quotes("'a'"), "a");
    assert_eq!(strip_surrounding_quotes("''a''"), "'a'");
    assert_eq!(strip_surrounding_quotes("'a\""), "'a\"");
    assert_eq!(strip_surrounding_quotes("\""), "\"");
    assert_eq!(strip_surrounding_quotes(""), "");
}

#[test]
fn folders_are_compared_by_their_names() {
    assert_eq!(collapse_home("/home/nico/", &unix()), "~");
    assert_eq!(collapse_home("/home//./nico/a/./b//", &unix()), "~/a/./b");
    assert_eq!(collapse_home("/home/nico/a\\b", &unix()), "~/a/b");
    assert_eq!(collapse_home("home/nico", &unix()), "home/nico");
    assert_eq!(collapse_home("c:/Users/nico/x\\y", &windows()), "~/x/y");
    let root = Platform { windows: false, home: Some("/".to_owned()), state_home: None };
    assert_eq!(collapse_home("/etc", &root), "~/etc");
    assert_eq!(collapse_home("/", &root), "~");
    let homeless = Platform { windows: false, home: None, state_home: None };
    assert_eq!(collapse_home("/home/nico", &homeless), "/home/nico");
}

#[test]
fn a_shown_folder_leads_back() {
    for p in ["/home/nico", "/home/nico/a/./b//", "/home/nicolae", "/tmp", "/", "//home//nico//x"] {
        let back = expand_home(&collapse_home(p, &unix()), &unix());
        assert_eq!(std::path::Path::new(&back), std::path::Path::new(p));
    }
    for p in ["C:\\Users\\nico", "c:/Users/nico/x", "D:\\y"] {
        let back = expand_home(&collapse_home(p, &windows()), &windows());
        assert_eq!(collapse_home(&back, &windows()), collapse_home(p, &windows()));
    }
}
