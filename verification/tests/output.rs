use terminal_plugin::output::{decode_terminal_output, entry_lines, strip_controls};

#[test]
fn decode_strips_csi_and_cr_keeps_text() {
    let s = decode_terminal_output(b"\x1b[31mhello\x1b[0m\r\nworld");
    assert_eq!(s, "hello\nworld");
}

#[test]
fn decode_strips_osc_with_bel_terminator() {
    let s = decode_terminal_output(b"\x1b]0;title\x07ok");
    assert_eq!(s, "ok");
}

#[test]
fn decode_strips_osc_with_st_terminator() {
    let s = decode_terminal_output(b"\x1b]0;title\x1b\\ok");
    assert_eq!(s, "ok");
}

#[test]
fn decode_keeps_newline_and_tab() {
    let s = decode_terminal_output(b"a\tb\nc");
    assert_eq!(s, "a\tb\nc");
}

#[test]
fn entry_lines_strips_echoed_input_and_trailing_prompt() {
    let lines = entry_lines("ls", "ls\nfile1\nfile2\nuser@host ~ $ ");
    assert_eq!(lines, vec!["file1", "file2"]);
}

#[test]
fn entry_lines_strips_trailing_empty_string_when_output_ends_with_newline() {
    let lines = entry_lines("ls", "ls\nfile1\n");
    assert_eq!(lines, vec!["file1"]);
}

#[test]
fn entry_lines_empty_output_yields_no_children() {
    assert!(entry_lines("ls", "").is_empty());
}

#[test]
fn entry_lines_keeps_first_line_when_it_does_not_match_input() {
    let lines = entry_lines("ll", "ls -la\nfile1\nuser@host ~ $ ");
    assert_eq!(lines, vec!["ls -la", "file1"]);
}

#[test]
fn an_echo_that_is_not_ended_is_the_prompt() {
    assert!(entry_lines("ls", "ls").is_empty());
    assert_eq!(entry_lines("", "\nx\n"), vec!["x"]);
}

#[test]
fn bytes_that_are_no_text_become_replacement_characters() {
    assert_eq!(decode_terminal_output(b"a\xFFb"), "a\u{FFFD}b");
    assert_eq!(decode_terminal_output("h\u{e9}llo".as_bytes()), "h\u{e9}llo");
    // A control code of the upper range is dropped, though it is UTF-8.
    assert_eq!(decode_terminal_output(b"a\xC2\x9Bb"), "ab");
}

#[test]
fn other_escape_sequences_leave_nothing() {
    assert_eq!(strip_controls("\x1b(Bx"), "x");
    assert_eq!(strip_controls("\x1b=x\x1b7y"), "xy");
    assert_eq!(strip_controls("\x1bPq#0\x1b\\x"), "x");
    assert_eq!(strip_controls("\x1b^pm\x07x\x1b_apc\x07y"), "xy");
    assert_eq!(strip_controls("a\x1b"), "a");
    assert_eq!(strip_controls("a\x1b["), "a");
    assert_eq!(strip_controls("a\x1b]never ends"), "a");
    assert_eq!(strip_controls("a\x1b]x\x1b"), "a");
    assert_eq!(strip_controls("a\x1b("), "a");
    assert_eq!(strip_controls("\x00\x07\x08\x0b\x7f\u{80}\u{9f}\u{a0}"), "\u{a0}");
}
