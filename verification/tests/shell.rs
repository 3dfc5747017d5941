use terminal_plugin::shell::{
    command_line, count_dsr, default_program, dsr_reply, foreground_busy, interactive_flag,
    line_bytes, program_to_run, ShellConfig,
};

#[test]
fn default_program_returns_non_empty() {
    assert!(!default_program(false, false, None, None).is_empty());
    assert!(!default_program(false, true, None, None).is_empty());
    assert!(!default_program(true, false, None, None).is_empty());
    let empty = || Some(String::new());
    assert_eq!(default_program(false, false, empty(), empty()), "/bin/sh");
    assert_eq!(default_program(false, true, empty(), empty()), "cmd.exe");
}

#[test]
fn interactive_flag_recognises_unix_shells() {
    assert_eq!(interactive_flag("/bin/bash", false), Some("-i"));
    assert_eq!(interactive_flag("/usr/bin/zsh", false), Some("-i"));
    assert_eq!(interactive_flag("fish", false), Some("-i"));
}

#[test]
fn interactive_flag_recognises_windows_shells() {
    assert_eq!(interactive_flag("powershell.exe", false), Some("-NoLogo"));
    assert_eq!(interactive_flag("PowerShell.EXE", false), Some("-NoLogo"));
    assert_eq!(interactive_flag("pwsh", false), Some("-NoLogo"));
    // cmd.exe and unknown shells get no flag.
    assert_eq!(interactive_flag("cmd.exe", false), None);
    assert_eq!(interactive_flag("CMD.exe", false), None);
    assert_eq!(interactive_flag("nu", false), None);
}

#[test]
fn the_login_shell_is_interactive_too() {
    assert_eq!(interactive_flag("$SHELL", false), Some("-i"));
}

#[test]
fn a_dsr_query_is_answered_once_even_across_two_reads() {
    let mut tail = Vec::new();
    assert_eq!(count_dsr(&mut tail, b"abc\x1b[6ndef"), 1);
    assert_eq!(count_dsr(&mut tail, b"ghi"), 0, "not counted again");
    assert_eq!(count_dsr(&mut tail, b"x\x1b["), 0);
    assert_eq!(count_dsr(&mut tail, b"6ny"), 1, "straddling two reads");
    assert_eq!(count_dsr(&mut tail, b"\x1b[6n\x1b[6n"), 2);
}

#[test]
fn every_cut_of_a_stream_counts_the_same() {
    let stream = b"\x1b[6n\x1b[6\x1b[6nx\x1b[6n";
    for first in 0..=stream.len() {
        for second in first..=stream.len() {
            let mut tail = Vec::new();
            let mut hits = count_dsr(&mut tail, &stream[..first]);
            hits += count_dsr(&mut tail, &stream[first..second]);
            hits += count_dsr(&mut tail, &stream[second..]);
            assert_eq!(hits, 3);
            assert!(tail.len() <= 3);
        }
    }
    assert_eq!(dsr_reply(), b"\x1b[1;1R");
}

#[test]
fn what_is_kept_is_no_part_of_a_counted_query() {
    let mut tail = Vec::new();
    assert_eq!(count_dsr(&mut tail, b"\x1b[6n"), 1);
    assert!(tail.is_empty());
    assert_eq!(count_dsr(&mut tail, b"abcdef"), 0);
    assert_eq!(tail, b"def");
    assert_eq!(count_dsr(&mut tail, b"\x1b[6nz"), 1);
    assert_eq!(tail, b"z");
}

#[test]
fn a_shell_gets_its_flag_and_terminal_type() {
    let mut cfg = ShellConfig::with_program("/bin/bash".to_owned());
    let (args, env) = command_line(&cfg, false);
    assert_eq!(args, vec!["-i"]);
    assert_eq!(env, vec![("TERM".to_owned(), "xterm-256color".to_owned())]);
    cfg.args = vec!["-l".to_owned()];
    cfg.env = vec![
        ("A".to_owned(), "1".to_owned()),
        ("TERM".to_owned(), "dumb".to_owned()),
    ];
    let (args, env) = command_line(&cfg, false);
    assert_eq!(args, vec!["-l"]);
    assert_eq!(env, cfg.env);
    cfg.env = vec![("A".to_owned(), "1".to_owned())];
    let (_, env) = command_line(&cfg, false);
    assert_eq!(env.len(), 2);
    assert_eq!(env[0].0, "TERM");
    assert_eq!(env[1].0, "A");
    let (args, _) = command_line(&ShellConfig::with_program("cmd.exe".to_owned()), true);
    assert!(args.is_empty());
}

#[test]
fn the_flag_goes_by_the_last_name_in_the_path() {
    assert_eq!(interactive_flag("C:\\Git\\bin\\Bash.exe", true), Some("-i"));
    assert_eq!(interactive_flag("C:\\Git\\bin\\Bash.exe", false), None);
    assert_eq!(interactive_flag("/opt/ksh/", false), Some("-i"));
    assert_eq!(interactive_flag("..", false), None);
    assert_eq!(interactive_flag(".exe", false), None);
}

#[test]
fn the_program_to_run() {
    let own = Some("/usr/bin/fish".to_owned());
    let com = Some("C:\\cmd.exe".to_owned());
    assert_eq!(default_program(false, false, com.clone(), own.clone()), "/usr/bin/fish");
    assert_eq!(default_program(false, true, com, own), "C:\\cmd.exe");
    assert_eq!(default_program(false, false, None, None), "/bin/sh");
    assert_eq!(default_program(false, true, None, None), "cmd.exe");
    assert_eq!(default_program(true, true, None, None), "$SHELL");
    assert_eq!(program_to_run("$SHELL", "/bin/zsh"), "/bin/zsh");
    assert_eq!(program_to_run("bash", "/bin/zsh"), "bash");
}

#[test]
fn a_line_ends_with_enter() {
    assert_eq!(line_bytes("ls", false), b"ls\n");
    assert_eq!(line_bytes("dir", true), b"dir\r\n");
    assert_eq!(line_bytes("", false), b"\n");
}

#[test]
fn a_shell_is_busy_while_another_group_has_the_terminal() {
    assert!(!foreground_busy("77 (sh) S 1 77 77 34816 77 4194304"));
    assert!(foreground_busy("77 (sh) S 1 77 77 34816 90 4194304"));
    // The name may hold spaces and brackets.
    assert!(foreground_busy("77 (a ) b) S 1 77 77 34816 90 4194304\n"));
    // No terminal, or nothing to read.
    assert!(!foreground_busy("77 (sh) S 1 77 77 0 -1 4194304"));
    assert!(!foreground_busy("77 (sh) S 1 x 77 34816 90"));
    assert!(!foreground_busy("77 (sh) S 1"));
    assert!(!foreground_busy("77 sh S 1 77 77 34816 90"));
    assert!(!foreground_busy(""));
    assert!(foreground_busy("77 (sh) S 1 -2147483648 77 34816 +2147483647"));
    assert!(!foreground_busy("77 (sh) S 1 77 77 34816 2147483648"));
}
