use terminal_plugin::interactive_detect::{InteractiveDetector, InteractiveEvent};

fn collect(input: &[u8]) -> Vec<InteractiveEvent> {
    let mut d = InteractiveDetector::new();
    d.feed(input)
}

#[test]
fn detects_alt_screen_enter_leave() {
    assert_eq!(collect(b"\x1b[?1049h"), vec![InteractiveEvent::Enter]);
    assert_eq!(
        collect(b"\x1b[?1049h\x1b[?1049l"),
        vec![InteractiveEvent::Enter, InteractiveEvent::Leave],
    );
    assert_eq!(collect(b"\x1b[?47h"), vec![InteractiveEvent::Enter]);
    assert_eq!(collect(b"\x1b[?1047h"), vec![InteractiveEvent::Enter]);
}

#[test]
fn detects_mouse_tracking() {
    assert_eq!(collect(b"\x1b[?1000h"), vec![InteractiveEvent::Enter]);
    assert_eq!(
        collect(b"\x1b[?1002h\x1b[?1002l"),
        vec![InteractiveEvent::Enter, InteractiveEvent::Leave],
    );
    assert_eq!(collect(b"\x1b[?1006h"), vec![InteractiveEvent::Enter]);
}

#[test]
fn detects_focus_tracking() {
    // Programs that stay on the main screen send this one.
    assert_eq!(collect(b"\x1b[?1004h"), vec![InteractiveEvent::Enter]);
    assert_eq!(
        collect(b"\x1b[?1004h\x1b[?1004l"),
        vec![InteractiveEvent::Enter, InteractiveEvent::Leave],
    );
}

#[test]
fn bracketed_paste_alone_does_not_trigger() {
    // Shells enable ?2004 at every prompt — must not be a trigger.
    assert_eq!(collect(b"\x1b[?2004h"), vec![]);
    assert_eq!(collect(b"\x1b[?2004h\x1b[?2004l"), vec![]);
}

#[test]
fn cursor_visibility_does_not_trigger() {
    assert_eq!(collect(b"\x1b[?25h"), vec![]);
    assert_eq!(collect(b"\x1b[?25l"), vec![]);
}

#[test]
fn claude_style_init_triggers_once() {
    // Synchronized output, cursor off, bracketed paste, focus reports: only
    // the last one counts.
    assert_eq!(
        collect(b"\x1b[?2026h\x1b[?25l\x1b[?2004h\x1b[?1004h\x1b[?2026l"),
        vec![InteractiveEvent::Enter],
    );
}

#[test]
fn multi_param_yields_single_enter() {
    // `CSI ? 1000;1002;1006 h` — three modes, one empty→non-empty cross.
    assert_eq!(collect(b"\x1b[?1000;1002;1006h"), vec![InteractiveEvent::Enter]);
}

#[test]
fn multi_param_alt_screen_with_extra() {
    // `1049` counts though another mode follows it.
    assert_eq!(collect(b"\x1b[?1049;6h"), vec![InteractiveEvent::Enter]);
}

#[test]
fn combined_modes_one_enter_one_leave() {
    // A TUI that enables alt screen + mouse, then disables both on exit.
    assert_eq!(
        collect(b"\x1b[?1049h\x1b[?1002h\x1b[?1002l\x1b[?1049l"),
        vec![InteractiveEvent::Enter, InteractiveEvent::Leave],
    );
}

#[test]
fn idempotent_enable_no_duplicate_enter() {
    assert_eq!(
        collect(b"\x1b[?1004h\x1b[?1004h"),
        vec![InteractiveEvent::Enter],
    );
}

#[test]
fn ignores_plain_csi_and_text() {
    assert_eq!(collect(b"\x1b[31m"), vec![]);
    assert_eq!(collect(b"\x1b[2J"), vec![]);
    assert_eq!(collect(b"\x1b[H"), vec![]);
    assert_eq!(collect(b"hello world\n"), vec![]);
}

#[test]
fn interactive_detect_partial_chunks_resume() {
    let mut d = InteractiveDetector::new();
    let mut events = Vec::new();
    for chunk in [&b"\x1b["[..], &b"?10"[..], &b"49h"[..]] {
        events.extend(d.feed(chunk));
    }
    assert_eq!(events, vec![InteractiveEvent::Enter]);
}

#[test]
fn interactive_detect_garbage_recovers_for_next_sequence() {
    assert_eq!(
        collect(b"\x1b[?1049x\x1b[?1049h"),
        vec![InteractiveEvent::Enter],
    );
}

#[test]
fn switching_a_mode_tells_when_the_set_becomes_empty() {
    let mut d = InteractiveDetector::new();
    assert_eq!(d.apply_mode(2004, true), None);
    assert_eq!(d.apply_mode(1049, true), Some(InteractiveEvent::Enter));
    assert_eq!(d.apply_mode(1002, true), None);
    assert_eq!(d.apply_mode(1049, false), None);
    assert_eq!(d.apply_mode(1049, false), None);
    assert_eq!(d.apply_mode(1002, false), Some(InteractiveEvent::Leave));
    assert_eq!(d.apply_mode(1002, false), None);
}

#[test]
fn a_list_switched_on_and_off_is_one_enter_and_one_leave() {
    assert_eq!(
        collect(b"\x1b[?1049;1000;2004;1006h text \x1b[?1049;1000;2004;1006l"),
        vec![InteractiveEvent::Enter, InteractiveEvent::Leave],
    );
    // Empty parameters do not count.
    assert_eq!(collect(b"\x1b[?;;1003h"), vec![InteractiveEvent::Enter]);
    assert_eq!(collect(b"\x1b[?;h"), vec![]);
}

#[test]
fn every_cut_of_a_stream_gives_the_same_reports() {
    let stream = b"x\x1b[?1000;1006hy\x1b[?2004lz\x1b[?1006;1000l";
    for cut in 0..stream.len() {
        let mut d = InteractiveDetector::new();
        let mut events = d.feed(&stream[..cut]);
        events.extend(d.feed(&stream[cut..]));
        assert_eq!(events, vec![InteractiveEvent::Enter, InteractiveEvent::Leave]);
    }
}
