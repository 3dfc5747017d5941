use terminal_plugin::altscreen_detect::{AltScreenDetector, AltScreenEvent};

fn collect(input: &[u8]) -> Vec<AltScreenEvent> {
    let mut d = AltScreenDetector::new();
    d.feed(input)
}

#[test]
fn detects_1049h_enter() {
    assert_eq!(collect(b"\x1b[?1049h"), vec![AltScreenEvent::Enter]);
}

#[test]
fn detects_1049l_leave() {
    assert_eq!(collect(b"\x1b[?1049l"), vec![AltScreenEvent::Leave]);
}

#[test]
fn detects_47h_and_47l() {
    assert_eq!(collect(b"\x1b[?47h"), vec![AltScreenEvent::Enter]);
    assert_eq!(collect(b"\x1b[?47l"), vec![AltScreenEvent::Leave]);
}

#[test]
fn detects_1047h_and_1047l() {
    assert_eq!(collect(b"\x1b[?1047h"), vec![AltScreenEvent::Enter]);
    assert_eq!(collect(b"\x1b[?1047l"), vec![AltScreenEvent::Leave]);
}

#[test]
fn ignores_other_csi_question_modes() {
    // ?25 = cursor visibility, ?2004 = bracketed paste
    assert_eq!(collect(b"\x1b[?25h"), vec![]);
    assert_eq!(collect(b"\x1b[?25l"), vec![]);
    assert_eq!(collect(b"\x1b[?2004h"), vec![]);
}

#[test]
fn ignores_plain_csi() {
    assert_eq!(collect(b"\x1b[31m"), vec![]);
    assert_eq!(collect(b"\x1b[2J"), vec![]);
    assert_eq!(collect(b"\x1b[H"), vec![]);
}

#[test]
fn ignores_plain_text() {
    assert_eq!(collect(b"hello world\n"), vec![]);
}

#[test]
fn altscreen_detect_partial_chunks_resume() {
    let mut d = AltScreenDetector::new();
    let mut events = Vec::new();
    for chunk in [&b"\x1b["[..], &b"?10"[..], &b"49h"[..]] {
        events.extend(d.feed(chunk));
    }
    assert_eq!(events, vec![AltScreenEvent::Enter]);
}

#[test]
fn multi_mode_param_bails_out() {
    // A list of modes is dropped; vim, less and htop send a single one.
    assert_eq!(collect(b"\x1b[?1049;6h"), vec![]);
}

#[test]
fn altscreen_detect_garbage_recovers_for_next_sequence() {
    // First sequence has a junk final byte; second is valid.
    assert_eq!(collect(b"\x1b[?1049x\x1b[?1049h"), vec![AltScreenEvent::Enter]);
}

#[test]
fn enter_then_leave_in_one_chunk() {
    assert_eq!(
        collect(b"\x1b[?1049hsome stuff\x1b[?1049l"),
        vec![AltScreenEvent::Enter, AltScreenEvent::Leave],
    );
}

#[test]
fn nested_esc_inside_csi_param_recovers() {
    let mut d = AltScreenDetector::new();
    let mut events = Vec::new();
    events.extend(d.feed(b"\x1b[?10"));
    events.extend(d.feed(b"\x1b[?1049h"));
    // A stray escape inside a sequence is passed over, and the `[` behind it
    // ends that sequence. What follows is plain text until the next escape.
    assert_eq!(events, vec![]);
}

#[test]
fn a_mode_is_read_as_a_number() {
    assert_eq!(collect(b"\x1b[?0001049h"), vec![AltScreenEvent::Enter]);
    assert_eq!(collect(b"\x1b[?h"), vec![]);
    // More digits than fit do not wrap around to a mode.
    assert_eq!(collect(b"\x1b[?4294968345h"), vec![]);
    assert_eq!(collect(b"\x1b[?99999999999999999999h"), vec![]);
}

#[test]
fn every_cut_of_a_stream_gives_the_same_events() {
    let stream = b"a\x1b[?1049hb\x1b[?25l\x1b[?47lc";
    for cut in 0..stream.len() {
        let mut d = AltScreenDetector::new();
        let mut events = d.feed(&stream[..cut]);
        events.extend(d.feed(&stream[cut..]));
        assert_eq!(events, vec![AltScreenEvent::Enter, AltScreenEvent::Leave]);
    }
}
