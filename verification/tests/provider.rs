use terminal_plugin::command::Platform;
use terminal_plugin::dashboard::{DashboardKey, DashboardKeysym, DashboardKind, DashboardRequest};
use terminal_plugin::provider::{Entry, TerminalProvider};

const INPUT_PLACEHOLDER: &str = "<input></input>";

fn provider() -> TerminalProvider {
    TerminalProvider::new("/bin/sh".to_owned(), Some("nico".to_owned()), "verysilly".to_owned())
}

fn unix() -> Platform {
    Platform {
        windows: false,
        home: Some("/home/nico".to_owned()),
        state_home: Some("/home/nico/.local/state".to_owned()),
    }
}

fn windows() -> Platform {
    Platform {
        windows: true,
        home: Some("C:\\Users\\nico".to_owned()),
        state_home: Some("C:\\Users\\nico\\AppData\\Local".to_owned()),
    }
}

/// A history file in memory, written as the provider asks.
fn record(p: &mut TerminalProvider, file: &mut String, line: &str) {
    if let Some(write) = p.record_command(line, &unix()) {
        file.push_str(&write.append);
        if let Some(content) = write.rewrite {
            *file = content;
        }
    }
}

fn entry(prompt: &str, input: &str, output: &str) -> Entry {
    Entry { prompt: prompt.to_owned(), input: input.to_owned(), output: output.to_owned() }
}

#[test]
fn fetch_empty_returns_input_placeholder() {
    let p = provider();
    let elems = p.fetch(&unix(), None);
    assert_eq!(elems.len(), 1);
    // The prompt stands before it.
    assert!(elems[0].ends_with(INPUT_PLACEHOLDER));
}

#[test]
fn name_and_display_name() {
    let p = provider();
    assert_eq!(p.name(), "terminal");
    assert_eq!(p.display_name(), "terminal");
}

#[test]
fn refresh_on_navigate_is_false() {
    let p = provider();
    assert!(!p.refresh_on_navigate());
}

#[test]
fn on_setting_change_updates_shell_program() {
    let mut p = provider();
    p.on_setting_change("shellProgram", "/bin/dash", &unix());
    assert_eq!(p.shell_program, "/bin/dash");
}

#[test]
fn on_setting_change_updates_initial_path() {
    let mut p = provider();
    p.on_setting_change("initialPath", "/tmp", &unix());
    assert_eq!(p.cwd, Some("/tmp".to_owned()));
}

#[test]
fn on_setting_change_initial_path_expands_tilde() {
    let mut p = provider();
    p.on_setting_change("initialPath", "~", &unix());
    assert_eq!(p.cwd, Some("/home/nico".to_owned()));
    p.on_setting_change("initialPath", "~/sub", &unix());
    assert_eq!(p.cwd, Some("/home/nico/sub".to_owned()));
}

#[test]
fn on_setting_change_updates_command_history_size() {
    let mut p = provider();
    p.on_setting_change("commandHistorySize", "42", &unix());
    assert_eq!(p.command_history_size, 42);
}

#[test]
fn on_setting_change_command_history_size_ignores_garbage() {
    let mut p = provider();
    let original = p.command_history_size;
    p.on_setting_change("commandHistorySize", "not-a-number", &unix());
    assert_eq!(p.command_history_size, original);
}

#[test]
fn on_setting_change_updates_scrollback_size() {
    let mut p = provider();
    p.on_setting_change("scrollbackSize", "9", &unix());
    assert_eq!(p.scrollback_size, 9);
}

#[test]
fn trim_scrollback_caps_entries_to_scrollback_size() {
    let mut p = provider();
    p.scrollback_size = 3;
    for i in 0..5 {
        p.entries.push(entry("", &format!("cmd{}", i), ""));
    }
    p.trim_scrollback();
    assert_eq!(p.entries.len(), 3);
    assert_eq!(p.entries[0].input, "cmd2");
    assert_eq!(p.entries[2].input, "cmd4");
}

#[test]
fn trim_scrollback_zero_disables_capping() {
    let mut p = provider();
    p.scrollback_size = 0;
    for i in 0..5 {
        p.entries.push(entry("", &format!("cmd{}", i), ""));
    }
    p.trim_scrollback();
    assert_eq!(p.entries.len(), 5);
}

#[test]
fn load_command_history_reads_last_n_lines() {
    let mut p = provider();
    p.command_history_size = 3;
    p.load_command_history(Some("a\nb\nc\nd\ne\n"));
    assert_eq!(p.command_history, vec!["c", "d", "e"]);
}

#[test]
fn load_command_history_handles_missing_file() {
    let mut p = provider();
    p.load_command_history(None);
    assert!(p.command_history.is_empty());
    assert!(p.command_history_loaded);
}

#[test]
fn record_command_appends_to_file_and_memory() {
    let mut on_disk = String::new();
    let mut p = provider();
    record(&mut p, &mut on_disk, "ls -la");
    record(&mut p, &mut on_disk, "cd /tmp");
    assert_eq!(p.command_history, vec!["ls -la", "cd /tmp"]);
    assert_eq!(on_disk, "ls -la\ncd /tmp\n");
}

#[test]
fn record_command_skips_empty_and_replaces_newlines() {
    let mut on_disk = String::new();
    let mut p = provider();
    record(&mut p, &mut on_disk, "");
    record(&mut p, &mut on_disk, "a\nb");
    assert_eq!(p.command_history, vec!["a b"]);
    assert_eq!(on_disk, "a b\n");
}

#[test]
fn record_command_caps_memory_at_command_history_size() {
    let mut on_disk = String::new();
    let mut p = provider();
    p.command_history_size = 3;
    for i in 0..5 {
        record(&mut p, &mut on_disk, &format!("cmd{}", i));
    }
    assert_eq!(p.command_history, vec!["cmd2", "cmd3", "cmd4"]);
}

#[test]
fn record_command_compacts_file_when_appends_reach_cap() {
    let mut on_disk = String::new();
    let mut p = provider();
    p.command_history_size = 3;
    // With a size of three the file is written anew every three appends. After
    // six it holds exactly the last three.
    for i in 0..6 {
        record(&mut p, &mut on_disk, &format!("cmd{}", i));
    }
    assert_eq!(on_disk, "cmd3\ncmd4\ncmd5\n");
    assert_eq!(p.appends_since_compact, 0);
}

#[test]
fn resolve_command_history_path_prefers_override() {
    let mut p = provider();
    let custom = "/tmp/sicompass-test-history".to_owned();
    p.command_history_path = Some(custom.clone());
    assert_eq!(p.resolve_command_history_path(&unix()), Some(custom));
}

#[test]
fn resolve_command_history_path_uses_state_home() {
    let p = provider();
    let path = p.resolve_command_history_path(&unix()).unwrap();
    assert!(path.contains("sicompass"));
    assert!(path.ends_with("history"));
    assert_eq!(path, "/home/nico/.local/state/sicompass/terminal/history");
    assert_eq!(
        p.resolve_command_history_path(&windows()).unwrap(),
        "C:\\Users\\nico\\AppData\\Local\\sicompass\\terminal\\history",
    );
    let homeless = Platform { windows: false, home: None, state_home: None };
    assert_eq!(p.resolve_command_history_path(&homeless), None);
}

#[test]
fn on_setting_change_ignores_empty_and_other_keys() {
    let mut p = provider();
    let original = p.shell_program.clone();
    p.on_setting_change("shellProgram", "", &unix());
    p.on_setting_change("initialPath", "", &unix());
    p.on_setting_change("unrelated", "/bin/zsh", &unix());
    assert_eq!(p.shell_program, original);
    assert_eq!(p.cwd, None);
}

#[test]
fn commit_edit_rejects_non_empty_old() {
    let mut p = provider();
    p.shell_running = true;
    let (done, write) = p.commit_edit("previous command", "ls", true, &unix(), None);
    assert!(!done);
    assert!(write.is_none());
    assert!(p.entries.is_empty());
    assert!(!p.accepts_edit("previous command"));
}

#[test]
fn fetch_uses_synthesized_prompt_for_input_slot() {
    let p = provider();
    let elems = p.fetch(&unix(), None);
    assert_eq!(elems.len(), 1);
    let s = &elems[0];
    assert!(s.ends_with("$ <input></input>"), "expected prompt suffix; got {:?}", s);
    assert!(s.contains('@'), "expected user@host segment; got {:?}", s);
    assert_eq!(s, "nico@verysilly:~$ <input></input>");
}

#[test]
fn fetch_uses_synthesized_prompt_for_input_slot_windows() {
    let p = provider();
    let elems = p.fetch(&windows(), None);
    assert_eq!(elems.len(), 1);
    let s = &elems[0];
    assert!(s.ends_with("> <input></input>"), "expected prompt suffix; got {:?}", s);
    assert!(!s.contains('@'), "Windows prompt should omit user@host; got {:?}", s);
    assert_eq!(s, "C:\\Users\\nico> <input></input>");
}

#[test]
fn fetch_uses_entry_prompt_for_past_commands() {
    let mut p = provider();
    p.entries.push(entry("user@host:/tmp$ ", "ls", "ls\nfile1\nfile2\n"));
    let elems = p.fetch(&unix(), None);
    // The earlier prompt and command, two lines of output, the present prompt.
    assert_eq!(elems.len(), 4);
    assert_eq!(elems[0], "user@host:/tmp$ ls");
    assert_eq!(elems[1], "file1");
    assert_eq!(elems[2], "file2");
    assert!(elems[3].ends_with("$ <input></input>"));
}

#[test]
fn dashboard_kind_is_interactive() {
    let p = provider();
    assert_eq!(p.dashboard_kind(), DashboardKind::Interactive);
    assert!(!p.manual_dashboard_entry_allowed());
}

#[test]
fn dashboard_render_without_shell_returns_blank_frame() {
    let mut p = provider();
    let frame = p.dashboard_render(b"", 20, 5);
    assert_eq!(frame.cols, 20);
    assert_eq!(frame.rows, 5);
    assert_eq!(frame.cells.len(), 100);
    assert_eq!(frame.cursor, None);
}

#[test]
fn leave_dashboard_clears_in_dashboard_flag() {
    let mut p = provider();
    p.in_dashboard = true;
    p.leave_dashboard();
    assert!(!p.in_dashboard);
}

#[test]
fn auto_enter_dashboard_default_is_true() {
    let p = provider();
    assert!(p.auto_enter_dashboard);
}

#[test]
fn on_setting_change_toggles_auto_enter_dashboard() {
    let mut p = provider();
    p.on_setting_change("autoEnterDashboard", "false", &unix());
    assert!(!p.auto_enter_dashboard);
    p.on_setting_change("autoEnterDashboard", "true", &unix());
    assert!(p.auto_enter_dashboard);
    for on in ["1", "on"] {
        p.on_setting_change("autoEnterDashboard", "yes", &unix());
        assert!(!p.auto_enter_dashboard);
        p.on_setting_change("autoEnterDashboard", on, &unix());
        assert!(p.auto_enter_dashboard);
    }
}

#[test]
fn detector_emits_enter_request_from_scrollback() {
    let mut p = provider();
    p.drive_alt_screen_detector(b"\x1b[?1049h");
    assert_eq!(p.take_dashboard_request(), Some(DashboardRequest::Enter));
    // It is asked once.
    assert_eq!(p.take_dashboard_request(), None);
    assert!(p.auto_entered_dashboard);
}

#[test]
fn detector_emits_leave_request_only_when_auto_entered() {
    let mut p = provider();
    p.in_dashboard = true;
    p.auto_entered_dashboard = true;
    p.drive_alt_screen_detector(b"\x1b[?1049l");
    assert_eq!(p.take_dashboard_request(), Some(DashboardRequest::Leave));

    let mut q = provider();
    q.in_dashboard = true;
    q.auto_entered_dashboard = false;
    q.drive_alt_screen_detector(b"\x1b[?1049l");
    assert_eq!(q.take_dashboard_request(), None);
}

#[test]
fn detector_silent_when_setting_disabled() {
    let mut p = provider();
    p.on_setting_change("autoEnterDashboard", "false", &unix());
    p.drive_alt_screen_detector(b"\x1b[?1049h");
    assert_eq!(p.take_dashboard_request(), None);
    assert!(!p.auto_entered_dashboard);
}

#[test]
fn detector_silent_for_enter_when_already_in_dashboard() {
    let mut p = provider();
    p.in_dashboard = true;
    p.drive_alt_screen_detector(b"\x1b[?1049h");
    assert_eq!(p.take_dashboard_request(), None);
}

#[test]
fn leave_dashboard_clears_auto_entered_flag() {
    let mut p = provider();
    p.auto_entered_dashboard = true;
    p.in_dashboard = true;
    p.leave_dashboard();
    assert!(!p.auto_entered_dashboard);
}

#[test]
fn detector_resumes_across_chunk_boundaries_in_provider() {
    let mut p = provider();
    p.drive_alt_screen_detector(b"\x1b[");
    p.drive_alt_screen_detector(b"?10");
    p.drive_alt_screen_detector(b"49h");
    assert_eq!(p.take_dashboard_request(), Some(DashboardRequest::Enter));
}

#[test]
fn every_switch_of_a_chunk_counts() {
    let mut p = provider();
    p.drive_alt_screen_detector(b"\x1b[?47l\x1b[?47l\x1b[?47l\x1b[?47l\x1b[?47h");
    assert_eq!(p.take_dashboard_request(), Some(DashboardRequest::Enter));
    let mut p = provider();
    p.in_dashboard = true;
    p.auto_entered_dashboard = true;
    p.drive_alt_screen_detector(
        b"\x1b[?1049h\x1b[?1049h\x1b[?1049h\x1b[?1049h\x1b[?1049l",
    );
    assert_eq!(p.take_dashboard_request(), Some(DashboardRequest::Leave));
}

#[test]
fn a_user_without_a_name_is_called_user() {
    let p = TerminalProvider::new("sh".to_owned(), None, "box".to_owned());
    assert_eq!(p.current_prompt(&unix(), Some("/tmp")), "user@box:/tmp$ ");
    let p = TerminalProvider::new("sh".to_owned(), Some(String::new()), "box".to_owned());
    assert_eq!(p.current_prompt(&unix(), Some("/tmp")), "user@box:/tmp$ ");
}

#[test]
fn the_shell_is_started_once() {
    let mut p = provider();
    p.cwd = Some("/srv".to_owned());
    let config = p.init().unwrap();
    assert_eq!(config.program, "/bin/sh");
    assert_eq!(config.cwd, Some("/srv".to_owned()));
    assert!(config.args.is_empty() && config.env.is_empty());
    assert_eq!((config.rows, config.cols), (24, 80));
    assert!(p.ensure_shell().is_none());
    p.shell_started(None);
    assert!(p.shell_running);
    assert!(p.entries.is_empty());
    assert!(p.init().is_none());
    p.cleanup();
    assert!(!p.shell_running);
    assert!(p.init().is_some());
}

#[test]
fn a_shell_that_does_not_start_is_shown() {
    let mut p = provider();
    let _ = p.init();
    p.shell_started(Some("no such file".to_owned()));
    assert!(!p.shell_running);
    assert_eq!(p.entries.len(), 1);
    assert_eq!(p.entries[0].input, "(failed to start `/bin/sh`)");
    assert_eq!(p.entries[0].output, "no such file");
    assert!(!p.commit_edit("", "ls", true, &unix(), None).0);
}

#[test]
fn a_command_becomes_an_entry_with_its_output() {
    let mut p = provider();
    p.shell_running = true;
    // What comes before the first command is dropped.
    assert!(p.tick(b"Welcome!\n$ "));
    assert!(p.entries.is_empty());
    let (done, write) = p.commit_edit("", "echo hi", true, &unix(), Some("/home/nico/code"));
    assert!(done);
    assert_eq!(write.unwrap().append, "echo hi\n");
    assert_eq!(p.entries[0].prompt, "nico@verysilly:~/code$ ");
    assert!(p.tick(b"echo hi\r\n\x1b[32mhi\x1b[0m\r\n"));
    assert!(p.tick(b"$ "));
    assert!(!p.tick(b"\x1b[0m"));
    assert!(!p.tick(b""));
    assert_eq!(
        p.fetch(&unix(), Some("/home/nico/code")),
        vec![
            "nico@verysilly:~/code$ echo hi",
            "hi",
            "nico@verysilly:~/code$ <input></input>",
        ],
    );
}

#[test]
fn a_line_that_could_not_be_sent_does_not_count() {
    let mut p = provider();
    p.shell_running = true;
    assert!(!p.commit_edit("", "ls", false, &unix(), None).0);
    assert!(p.entries.is_empty());
    assert!(p.command_history.is_empty());
}

#[test]
fn a_cd_moves_the_next_prompt() {
    let mut p = provider();
    p.shell_running = true;
    assert!(p.commit_edit("", "cd projects", true, &unix(), None).0);
    assert_eq!(p.entries[0].prompt, "nico@verysilly:~$ ");
    assert_eq!(p.current_prompt(&unix(), None), "nico@verysilly:~/projects$ ");
    assert!(p.commit_edit("", "cd ..", true, &unix(), None).0);
    assert_eq!(p.shell_cwd(&unix(), None), "/home/nico");
    assert!(p.commit_edit("", "ls", true, &unix(), None).0);
    assert_eq!(p.shell_cwd(&unix(), None), "/home/nico");
    let homeless = Platform { windows: true, home: None, state_home: None };
    assert_eq!(provider().shell_cwd(&homeless, None), "\\");
}

#[test]
fn entries_and_history_keep_the_newest() {
    let mut p = provider();
    p.shell_running = true;
    p.on_setting_change("scrollbackSize", "2", &unix());
    p.on_setting_change("commandHistorySize", "+2", &unix());
    for line in ["a", "b", "c"] {
        assert!(p.commit_edit("", line, true, &unix(), None).0);
    }
    assert_eq!(p.entries.len(), 2);
    assert_eq!(p.entries[1].input, "c");
    assert_eq!(p.command_history, vec!["b", "c"]);
    p.on_setting_change("scrollbackSize", "1", &unix());
    assert_eq!(p.entries.len(), 1);
    for bad in ["", "+", "-1", "1 ", "1.5", "99999999999999999999999"] {
        p.on_setting_change("scrollbackSize", bad, &unix());
        assert_eq!(p.scrollback_size, 1);
    }
}

#[test]
fn history_survives_a_session_and_its_file_stays_small() {
    let mut on_disk = String::new();
    let mut p = provider();
    p.command_history_size = 4;
    for i in 0..50 {
        record(&mut p, &mut on_disk, &format!("cmd{}", i));
        assert!(on_disk.lines().count() < 8);
        let mut q = provider();
        q.command_history_size = 4;
        q.load_command_history(Some(&on_disk));
        assert_eq!(q.command_history, p.command_history);
        // Only the first load counts.
        q.load_command_history(Some("other\n"));
        assert_eq!(q.command_history, p.command_history);
    }
}

#[test]
fn short_sessions_keep_the_file_small() {
    let mut on_disk = String::new();
    for i in 0..40 {
        let mut p = provider();
        p.command_history_size = 5;
        p.load_command_history(Some(&on_disk));
        record(&mut p, &mut on_disk, &format!("cmd{}", i));
        assert!(on_disk.lines().count() < 10);
        assert!(on_disk.ends_with(&format!("cmd{}\n", i)));
    }
    // A file that is already too long is cut at once.
    let mut on_disk = "old\n".repeat(100);
    let mut p = provider();
    p.command_history_size = 5;
    p.load_command_history(Some(&on_disk));
    assert_eq!(p.appends_since_compact, 95);
    record(&mut p, &mut on_disk, "new");
    assert_eq!(on_disk, "old\nold\nold\nold\nnew\n");
}

#[test]
fn without_a_size_the_file_only_grows() {
    let mut on_disk = String::new();
    let mut p = provider();
    p.command_history_size = 0;
    for i in 0..20 {
        record(&mut p, &mut on_disk, &format!("cmd{}", i));
    }
    assert_eq!(p.command_history.len(), 20);
    assert_eq!(on_disk.lines().count(), 20);
    assert_eq!(p.appends_since_compact, 20);
}

#[test]
fn compacting_writes_the_history_in_memory() {
    let mut p = provider();
    p.command_history = vec!["a".to_owned(), "b c".to_owned()];
    p.appends_since_compact = 7;
    assert_eq!(p.compact_command_history_file(), "a\nb c\n");
    assert_eq!(p.appends_since_compact, 0);
}

#[test]
fn loading_skips_blank_lines_and_carriage_returns() {
    let mut p = provider();
    p.load_command_history(Some("a\r\n\nb\n\r\nc"));
    assert_eq!(p.command_history, vec!["a", "b", "c"]);
}

#[test]
fn the_dashboard_shows_what_a_program_draws() {
    let mut p = provider();
    p.shell_running = true;
    assert!(p.enter_dashboard().is_none());
    p.dashboard_resize(3, 10);
    assert!(p.tick(b"vim\r\n"));
    assert!(p.entries.is_empty());
    let frame = p.dashboard_render(b"ok", 10, 3);
    assert_eq!((frame.cols, frame.rows), (10, 3));
    assert_eq!(frame.cell(0, 0).ch, 'v');
    assert_eq!(frame.cell(1, 1).ch, 'k');
    assert_eq!(frame.cursor, Some((2, 1)));
    // The grid is still there after closing and opening.
    p.leave_dashboard();
    let _ = p.enter_dashboard();
    assert_eq!(p.dashboard_render(b"", 10, 3).cell(0, 0).ch, 'v');
}

#[test]
fn opening_the_dashboard_starts_the_shell() {
    let mut p = provider();
    assert!(p.enter_dashboard().is_some());
    assert!(p.in_dashboard);
    assert_eq!(p.dashboard_render(b"", 5, 5).cols, 80);
    assert!(!p.tick(b"not running"));
}

#[test]
fn keys_and_text_go_to_a_running_shell() {
    let up = DashboardKey { keysym: DashboardKeysym::Up, ctrl: false, shift: false, alt: false };
    let plain =
        DashboardKey { keysym: DashboardKeysym::Char('a'), ctrl: false, shift: false, alt: false };
    let mut p = provider();
    assert_eq!(p.dashboard_key(&up), (None, true));
    assert_eq!(p.dashboard_text("h\u{e9}"), None);
    p.shell_running = true;
    assert_eq!(p.dashboard_key(&up), (Some(b"\x1b[A".to_vec()), true));
    assert_eq!(p.dashboard_key(&plain), (None, true));
    assert_eq!(p.dashboard_text("h\u{e9}"), Some(vec![0x68, 0xC3, 0xA9]));
    assert_eq!(p.dashboard_text(""), None);
}
