use terminal_plugin::dashboard::{DashboardKey, DashboardKeysym};
use terminal_plugin::keys::{encode_dashboard_key, encode_function_key};

#[test]
fn encode_special_keys() {
    assert_eq!(
        encode_dashboard_key(&DashboardKey {
            keysym: DashboardKeysym::Enter, ctrl: false, shift: false, alt: false,
        }).unwrap(),
        b"\r",
    );
    assert_eq!(
        encode_dashboard_key(&DashboardKey {
            keysym: DashboardKeysym::Up, ctrl: false, shift: false, alt: false,
        }).unwrap(),
        b"\x1b[A",
    );
    assert_eq!(
        encode_dashboard_key(&DashboardKey {
            keysym: DashboardKeysym::Backspace, ctrl: false, shift: false, alt: false,
        }).unwrap(),
        b"\x7F",
    );
    assert_eq!(
        encode_dashboard_key(&DashboardKey {
            keysym: DashboardKeysym::PageUp, ctrl: false, shift: false, alt: false,
        }).unwrap(),
        b"\x1b[5~",
    );
    assert_eq!(
        encode_dashboard_key(&DashboardKey {
            keysym: DashboardKeysym::F(1), ctrl: false, shift: false, alt: false,
        }).unwrap(),
        b"\x1bOP",
    );
    assert_eq!(
        encode_dashboard_key(&DashboardKey {
            keysym: DashboardKeysym::F(5), ctrl: false, shift: false, alt: false,
        }).unwrap(),
        b"\x1b[15~",
    );
}

#[test]
fn encode_escape_keysym_emits_esc_byte() {
    let bytes = encode_dashboard_key(&DashboardKey {
        keysym: DashboardKeysym::Escape, ctrl: false, shift: false, alt: false,
    }).unwrap();
    assert_eq!(bytes, b"\x1b");
}

#[test]
fn encode_ctrl_letter_to_control_byte() {
    let bytes = encode_dashboard_key(&DashboardKey {
        keysym: DashboardKeysym::Char('c'), ctrl: true, shift: false, alt: false,
    }).unwrap();
    assert_eq!(bytes, vec![0x03]); // SIGINT
    let bytes = encode_dashboard_key(&DashboardKey {
        keysym: DashboardKeysym::Char('d'), ctrl: true, shift: false, alt: false,
    }).unwrap();
    assert_eq!(bytes, vec![0x04]); // EOF
}

#[test]
fn encode_alt_letter_prefixes_esc() {
    let bytes = encode_dashboard_key(&DashboardKey {
        keysym: DashboardKeysym::Char('b'), ctrl: false, shift: false, alt: true,
    }).unwrap();
    assert_eq!(bytes, vec![0x1B, b'b']);
}

#[test]
fn encode_unmodified_char_is_none() {
    // Plain printable letters arrive through `dashboard_text`; the keysym
    // path should produce no bytes.
    assert!(encode_dashboard_key(&DashboardKey {
        keysym: DashboardKeysym::Char('a'), ctrl: false, shift: false, alt: false,
    }).is_none());
}

fn sent(keysym: DashboardKeysym, ctrl: bool, alt: bool) -> Option<Vec<u8>> {
    encode_dashboard_key(&DashboardKey { keysym, ctrl, shift: false, alt })
}

#[test]
fn every_named_key_has_its_bytes() {
    let table: Vec<(DashboardKeysym, &[u8])> = vec![
        (DashboardKeysym::Tab, b"\t"),
        (DashboardKeysym::Down, b"\x1b[B"),
        (DashboardKeysym::Right, b"\x1b[C"),
        (DashboardKeysym::Left, b"\x1b[D"),
        (DashboardKeysym::Home, b"\x1b[H"),
        (DashboardKeysym::End, b"\x1b[F"),
        (DashboardKeysym::PageDown, b"\x1b[6~"),
        (DashboardKeysym::Insert, b"\x1b[2~"),
        (DashboardKeysym::Delete, b"\x1b[3~"),
    ];
    for (keysym, bytes) in table {
        assert_eq!(sent(keysym, false, false).unwrap(), bytes);
    }
    assert_eq!(sent(DashboardKeysym::Unknown, false, false), None);
    assert_eq!(sent(DashboardKeysym::Unknown, true, true), None);
}

#[test]
fn function_keys_one_to_twelve_and_no_others() {
    let table: Vec<&[u8]> = vec![
        b"\x1bOP", b"\x1bOQ", b"\x1bOR", b"\x1bOS", b"\x1b[15~", b"\x1b[17~", b"\x1b[18~",
        b"\x1b[19~", b"\x1b[20~", b"\x1b[21~", b"\x1b[23~", b"\x1b[24~",
    ];
    for n in 1u8..=12 {
        assert_eq!(encode_function_key(n), table[n as usize - 1]);
        assert_eq!(sent(DashboardKeysym::F(n), false, false).unwrap(), table[n as usize - 1]);
    }
    for n in [0u8, 13, 24, 255] {
        assert!(encode_function_key(n).is_empty());
        assert_eq!(sent(DashboardKeysym::F(n), false, false), None);
    }
}

#[test]
fn control_codes_of_letters_and_signs() {
    assert_eq!(sent(DashboardKeysym::Char('Z'), true, false), Some(vec![0x1A]));
    assert_eq!(sent(DashboardKeysym::Char('a'), true, true), Some(vec![0x1B, 0x01]));
    for (c, code) in [
        (' ', 0x00u8),
        ('@', 0x00),
        ('[', 0x1B),
        ('\\', 0x1C),
        (']', 0x1D),
        ('^', 0x1E),
        ('_', 0x1F),
        ('?', 0x7F),
    ] {
        assert_eq!(sent(DashboardKeysym::Char(c), true, false), Some(vec![code]));
        assert_eq!(sent(DashboardKeysym::Char(c), true, true), Some(vec![0x1B, code]));
    }
    assert_eq!(sent(DashboardKeysym::Char('1'), true, false), None);
    assert_eq!(sent(DashboardKeysym::Char('\u{e9}'), true, true), None);
}

#[test]
fn alt_sends_the_character_in_utf8() {
    assert_eq!(
        sent(DashboardKeysym::Char('\u{e9}'), false, true),
        Some(vec![0x1B, 0xC3, 0xA9]),
    );
    assert_eq!(
        sent(DashboardKeysym::Char('\u{1F600}'), false, true),
        Some(vec![0x1B, 0xF0, 0x9F, 0x98, 0x80]),
    );
}
