//! Key presses as the bytes a Unix terminal sends for them.
use vstd::prelude::*;
use vstd::slice::slice_to_vec;
use vstd::utf8::encode_utf8;

use crate::dashboard::{DashboardKey, DashboardKeysym};

verus! {

/// The bytes of function key `n`, or nothing where there is no such key.
pub open spec fn function_key_bytes(n: u8) -> Seq<u8> {
    if n == 1 {
        seq![0x1B, 0x4F, 0x50]
    } else if n == 2 {
        seq![0x1B, 0x4F, 0x51]
    } else if n == 3 {
        seq![0x1B, 0x4F, 0x52]
    } else if n == 4 {
        seq![0x1B, 0x4F, 0x53]
    } else if n == 5 {
        seq![0x1B, 0x5B, 0x31, 0x35, 0x7E]
    } else if n == 6 {
        seq![0x1B, 0x5B, 0x31, 0x37, 0x7E]
    } else if n == 7 {
        seq![0x1B, 0x5B, 0x31, 0x38, 0x7E]
    } else if n == 8 {
        seq![0x1B, 0x5B, 0x31, 0x39, 0x7E]
    } else if n == 9 {
        seq![0x1B, 0x5B, 0x32, 0x30, 0x7E]
    } else if n == 10 {
        seq![0x1B, 0x5B, 0x32, 0x31, 0x7E]
    } else if n == 11 {
        seq![0x1B, 0x5B, 0x32, 0x33, 0x7E]
    } else if n == 12 {
        seq![0x1B, 0x5B, 0x32, 0x34, 0x7E]
    } else {
        Seq::empty()
    }
}

/// The control code of a character typed with Ctrl, if it has one. A letter
/// has the same code in either case.
pub open spec fn control_code(c: char) -> Option<u8> {
    if 'a' <= c <= 'z' {
        Some((c as u32 - 'a' as u32 + 1) as u8)
    } else if 'A' <= c <= 'Z' {
        Some((c as u32 - 'A' as u32 + 1) as u8)
    } else if c == ' ' || c == '@' {
        Some(0)
    } else if c == '[' {
        Some(0x1B)
    } else if c == '\\' {
        Some(0x1C)
    } else if c == ']' {
        Some(0x1D)
    } else if c == '^' {
        Some(0x1E)
    } else if c == '_' {
        Some(0x1F)
    } else if c == '?' {
        Some(0x7F)
    } else {
        None
    }
}

/// The bytes of a character typed with modifiers. Alt puts an escape
/// character in front. Without Ctrl and Alt the character arrives as text,
/// not as a key.
pub open spec fn modified_char_bytes(c: char, ctrl: bool, alt: bool) -> Option<Seq<u8>> {
    if ctrl {
        match control_code(c) {
            Some(code) if alt => Some(seq![0x1B, code]),
            Some(code) => Some(seq![code]),
            None => None,
        }
    } else if alt {
        Some(seq![0x1Bu8] + encode_utf8(seq![c]))
    } else {
        None
    }
}

/// The bytes a key press sends, if it sends any.
pub open spec fn key_bytes(key: DashboardKey) -> Option<Seq<u8>> {
    match key.keysym {
        DashboardKeysym::Enter => Some(seq![0x0D]),
        DashboardKeysym::Backspace => Some(seq![0x7F]),
        DashboardKeysym::Tab => Some(seq![0x09]),
        DashboardKeysym::Escape => Some(seq![0x1B]),
        DashboardKeysym::Up => Some(seq![0x1B, 0x5B, 0x41]),
        DashboardKeysym::Down => Some(seq![0x1B, 0x5B, 0x42]),
        DashboardKeysym::Right => Some(seq![0x1B, 0x5B, 0x43]),
        DashboardKeysym::Left => Some(seq![0x1B, 0x5B, 0x44]),
        DashboardKeysym::Home => Some(seq![0x1B, 0x5B, 0x48]),
        DashboardKeysym::End => Some(seq![0x1B, 0x5B, 0x46]),
        DashboardKeysym::PageUp => Some(seq![0x1B, 0x5B, 0x35, 0x7E]),
        DashboardKeysym::PageDown => Some(seq![0x1B, 0x5B, 0x36, 0x7E]),
        DashboardKeysym::Insert => Some(seq![0x1B, 0x5B, 0x32, 0x7E]),
        DashboardKeysym::Delete => Some(seq![0x1B, 0x5B, 0x33, 0x7E]),
        DashboardKeysym::F(n) => if 1 <= n <= 12 {
            Some(function_key_bytes(n))
        } else {
            None
        },
        DashboardKeysym::Char(c) => modified_char_bytes(c, key.ctrl, key.alt),
        DashboardKeysym::Unknown => None,
    }
}

/// Translates a key press into the bytes a Unix terminal sends for it.
/// Returns `None` for keys that send nothing: unknown ones, function keys that
/// have no sequence, and plain characters, which arrive as text.
pub fn encode_dashboard_key(key: &DashboardKey) -> (bytes: Option<Vec<u8>>)
    ensures
        match bytes {
            Some(b) => key_bytes(*key) == Some(b@),
            None => key_bytes(*key) is None,
        },
{
    let bytes: Vec<u8> = match key.keysym {
        DashboardKeysym::Enter => vec![0x0D],
        DashboardKeysym::Backspace => vec![0x7F],
        DashboardKeysym::Tab => vec![0x09],
        DashboardKeysym::Escape => vec![0x1B],
        DashboardKeysym::Up => vec![0x1B, 0x5B, 0x41],
        DashboardKeysym::Down => vec![0x1B, 0x5B, 0x42],
        DashboardKeysym::Right => vec![0x1B, 0x5B, 0x43],
        DashboardKeysym::Left => vec![0x1B, 0x5B, 0x44],
        DashboardKeysym::Home => vec![0x1B, 0x5B, 0x48],
        DashboardKeysym::End => vec![0x1B, 0x5B, 0x46],
        DashboardKeysym::PageUp => vec![0x1B, 0x5B, 0x35, 0x7E],
        DashboardKeysym::PageDown => vec![0x1B, 0x5B, 0x36, 0x7E],
        DashboardKeysym::Insert => vec![0x1B, 0x5B, 0x32, 0x7E],
        DashboardKeysym::Delete => vec![0x1B, 0x5B, 0x33, 0x7E],
        DashboardKeysym::F(n) => {
            if n < 1 || n > 12 {
                return None;
            }
            encode_function_key(n)
        },
        DashboardKeysym::Char(c) => {
            return encode_modified_char(c, key.ctrl, key.alt);
        },
        DashboardKeysym::Unknown => {
            return None;
        },
    };
    assert(key_bytes(*key) is Some);
    assert(bytes@ =~= key_bytes(*key)->0);
    Some(bytes)
}

/// The control code of a character typed with Ctrl.
fn ctrl_byte(c: char) -> (code: Option<u8>)
    ensures
        code == control_code(c),
{
    if 'a' <= c && c <= 'z' {
        return Some((c as u32 - 0x60) as u8);
    }
    if 'A' <= c && c <= 'Z' {
        return Some((c as u32 - 0x40) as u8);
    }
    match c {
        ' ' | '@' => Some(0x00),
        '[' => Some(0x1B),
        '\\' => Some(0x1C),
        ']' => Some(0x1D),
        '^' => Some(0x1E),
        '_' => Some(0x1F),
        '?' => Some(0x7F),
        _ => None,
    }
}

/// A character typed with Ctrl, Alt, both or neither.
fn encode_modified_char(c: char, ctrl: bool, alt: bool) -> (bytes: Option<Vec<u8>>)
    ensures
        match bytes {
            Some(b) => modified_char_bytes(c, ctrl, alt) == Some(b@),
            None => modified_char_bytes(c, ctrl, alt) is None,
        },
{
    if ctrl {
        let code: u8 = match ctrl_byte(c) {
            Some(code) => code,
            None => {
                return None;
            },
        };
        let bytes: Vec<u8> = if alt {
            vec![0x1B, code]
        } else {
            vec![code]
        };
        assert(bytes@ =~= modified_char_bytes(c, ctrl, alt)->0);
        return Some(bytes);
    }
    if alt {
        let mut text = String::new();
        text.push(c);
        let mut bytes: Vec<u8> = vec![0x1B];
        let mut encoded: Vec<u8> = slice_to_vec(text.as_str().as_bytes());
        assert(text@ =~= seq![c]);
        bytes.append(&mut encoded);
        assert(bytes@ =~= seq![0x1Bu8] + encode_utf8(seq![c]));
        return Some(bytes);
    }
    None
}

/// The bytes of function key `n`; none for a key above twelve or for zero.
pub fn encode_function_key(n: u8) -> (bytes: Vec<u8>)
    ensures
        bytes@ == function_key_bytes(n),
{
    let bytes: Vec<u8> = match n {
        1 => vec![0x1B, 0x4F, 0x50],
        2 => vec![0x1B, 0x4F, 0x51],
        3 => vec![0x1B, 0x4F, 0x52],
        4 => vec![0x1B, 0x4F, 0x53],
        5 => vec![0x1B, 0x5B, 0x31, 0x35, 0x7E],
        6 => vec![0x1B, 0x5B, 0x31, 0x37, 0x7E],
        7 => vec![0x1B, 0x5B, 0x31, 0x38, 0x7E],
        8 => vec![0x1B, 0x5B, 0x31, 0x39, 0x7E],
        9 => vec![0x1B, 0x5B, 0x32, 0x30, 0x7E],
        10 => vec![0x1B, 0x5B, 0x32, 0x31, 0x7E],
        11 => vec![0x1B, 0x5B, 0x32, 0x33, 0x7E],
        12 => vec![0x1B, 0x5B, 0x32, 0x34, 0x7E],
        _ => Vec::new(),
    };
    assert(bytes@ =~= function_key_bytes(n));
    bytes
}

/// Function keys from one to twelve send something, and no two of them the
/// same.
pub proof fn law_function_keys_differ(n: u8, m: u8)
    requires
        1 <= n < m <= 12,
    ensures
        function_key_bytes(n).len() > 0,
        function_key_bytes(n) != function_key_bytes(m),
{
    let a = function_key_bytes(n);
    let b = function_key_bytes(m);
    if m <= 4 {
        assert(a[2] != b[2]);
    } else if n <= 4 {
        assert(a.len() != b.len());
    } else {
        assert(a[2] != b[2] || a[3] != b[3]);
    }
}

/// A key press that sends something sends at least one byte.
pub proof fn law_sent_keys_are_not_empty(key: DashboardKey)
    ensures
        key_bytes(key) is Some ==> key_bytes(key)->0.len() > 0,
{
}

/// A key press with the modifiers that were held.
pub open spec fn pressed(
    keysym: DashboardKeysym,
    ctrl: bool,
    shift: bool,
    alt: bool,
) -> DashboardKey {
    DashboardKey { keysym, ctrl, shift, alt }
}

/// Whether a key press sends exactly these bytes.
pub open spec fn sends(key: DashboardKey, bytes: Seq<u8>) -> bool {
    key_bytes(key) == Some(bytes)
}

/// A letter typed with Ctrl sends its place in the alphabet, counted from one,
/// in either case. Alt puts an escape character in front.
pub proof fn law_ctrl_letters_count_from_one(c: char, place: u8, shift: bool)
    requires
        1 <= place <= 26,
        c as u32 == 'a' as u32 + place - 1 || c as u32 == 'A' as u32 + place - 1,
    ensures
        sends(pressed(DashboardKeysym::Char(c), true, shift, false), seq![place]),
        sends(pressed(DashboardKeysym::Char(c), true, shift, true), seq![0x1Bu8, place]),
        control_code(c) == Some(place),
{
}

/// Two different letters never send the same with Ctrl, and the next letter of
/// the alphabet sends the next code.
pub proof fn law_ctrl_letters_differ(c: char, d: char)
    requires
        'a' <= c < d <= 'z',
    ensures
        control_code(c) is Some && control_code(d) is Some,
        control_code(d)->0 - control_code(c)->0 == d as u32 - c as u32,
        control_code('a') == Some(1u8),
{
}

/// The signs from `@` to `_` send with Ctrl what stands as far into the control
/// codes as they stand behind `@`. A space sends zero, a question mark sends
/// delete, and no other sign sends anything.
pub proof fn law_ctrl_signs(c: char, shift: bool, alt: bool)
    ensures
        '@' <= c <= '_' ==> control_code(c) == Some((c as u32 - 0x40) as u8),
        control_code(' ') == Some(0u8),
        control_code('?') == Some(0x7Fu8),
        !('@' <= c <= '_') && !('a' <= c <= 'z') && c != ' ' && c != '?' ==> control_code(c) is None
            && key_bytes(pressed(DashboardKeysym::Char(c), true, shift, alt)) is None,
        control_code(c) matches Some(code) ==> sends(
            pressed(DashboardKeysym::Char(c), true, shift, alt),
            if alt {
                seq![0x1Bu8, code]
            } else {
                seq![code]
            },
        ),
{
}

/// Without Ctrl, a character with Alt sends an escape character and then the
/// character itself; without both it sends nothing here.
pub proof fn law_alt_puts_escape_in_front(c: char, shift: bool)
    ensures
        sends(
            pressed(DashboardKeysym::Char(c), false, shift, true),
            seq![0x1Bu8] + encode_utf8(seq![c]),
        ),
        key_bytes(pressed(DashboardKeysym::Char(c), false, shift, false)) is None,
{
}

/// Enter sends a carriage return, Tab a tab, Escape an escape character and
/// Backspace delete, whatever modifiers are held.
pub proof fn law_editing_keys(ctrl: bool, shift: bool, alt: bool)
    ensures
        sends(pressed(DashboardKeysym::Enter, ctrl, shift, alt), seq!['\r' as u8]),
        sends(pressed(DashboardKeysym::Tab, ctrl, shift, alt), seq!['\t' as u8]),
        sends(pressed(DashboardKeysym::Escape, ctrl, shift, alt), seq!['\x1B' as u8]),
        sends(pressed(DashboardKeysym::Backspace, ctrl, shift, alt), seq!['\x7F' as u8]),
        key_bytes(pressed(DashboardKeysym::Unknown, ctrl, shift, alt)) is None,
{
}

/// The arrow keys send the control sequences that move a cursor: `A` up, `B`
/// down, `C` right, `D` left. Home and End send `H` and `F`. Insert, Delete,
/// Page Up and Page Down send a number and `~`.
pub proof fn law_navigation_keys(ctrl: bool, shift: bool, alt: bool)
    ensures
        ({
            let csi = seq!['\x1B' as u8, '[' as u8];
            &&& sends(pressed(DashboardKeysym::Up, ctrl, shift, alt), csi + seq!['A' as u8])
            &&& sends(pressed(DashboardKeysym::Down, ctrl, shift, alt), csi + seq!['B' as u8])
            &&& sends(pressed(DashboardKeysym::Right, ctrl, shift, alt), csi + seq!['C' as u8])
            &&& sends(pressed(DashboardKeysym::Left, ctrl, shift, alt), csi + seq!['D' as u8])
            &&& sends(pressed(DashboardKeysym::Home, ctrl, shift, alt), csi + seq!['H' as u8])
            &&& sends(pressed(DashboardKeysym::End, ctrl, shift, alt), csi + seq!['F' as u8])
            &&& sends(
                pressed(DashboardKeysym::Insert, ctrl, shift, alt),
                csi + seq!['2' as u8, '~' as u8],
            )
            &&& sends(
                pressed(DashboardKeysym::Delete, ctrl, shift, alt),
                csi + seq!['3' as u8, '~' as u8],
            )
            &&& sends(
                pressed(DashboardKeysym::PageUp, ctrl, shift, alt),
                csi + seq!['5' as u8, '~' as u8],
            )
            &&& sends(
                pressed(DashboardKeysym::PageDown, ctrl, shift, alt),
                csi + seq!['6' as u8, '~' as u8],
            )
        }),
{
    let csi = seq![0x1Bu8, 0x5B];
    assert(csi + seq![0x41u8] =~= seq![0x1B, 0x5B, 0x41]);
    assert(csi + seq![0x42u8] =~= seq![0x1B, 0x5B, 0x42]);
    assert(csi + seq![0x43u8] =~= seq![0x1B, 0x5B, 0x43]);
    assert(csi + seq![0x44u8] =~= seq![0x1B, 0x5B, 0x44]);
    assert(csi + seq![0x48u8] =~= seq![0x1B, 0x5B, 0x48]);
    assert(csi + seq![0x46u8] =~= seq![0x1B, 0x5B, 0x46]);
    assert(csi + seq![0x32u8, 0x7E] =~= seq![0x1B, 0x5B, 0x32, 0x7E]);
    assert(csi + seq![0x33u8, 0x7E] =~= seq![0x1B, 0x5B, 0x33, 0x7E]);
    assert(csi + seq![0x35u8, 0x7E] =~= seq![0x1B, 0x5B, 0x35, 0x7E]);
    assert(csi + seq![0x36u8, 0x7E] =~= seq![0x1B, 0x5B, 0x36, 0x7E]);
}

/// The first four function keys send `ESC O` and the letters from `P` on. The
/// others send `ESC [`, a number and `~`; the numbers go up by one from 15 and
/// leave out 16 and 22. There is no key zero and none above twelve.
pub proof fn law_function_keys(n: u8, ctrl: bool, shift: bool, alt: bool)
    ensures
        ({
            let key = pressed(DashboardKeysym::F(n), ctrl, shift, alt);
            let number = n + 10 + (if n >= 6 {
                1int
            } else {
                0
            }) + (if n >= 11 {
                1int
            } else {
                0
            });
            &&& 1 <= n <= 4 ==> sends(
                key,
                seq!['\x1B' as u8, 'O' as u8, ('P' as u8 + n - 1) as u8],
            )
            &&& 5 <= n <= 12 ==> sends(
                key,
                seq![
                    '\x1B' as u8,
                    '[' as u8,
                    ('0' as u8 + number / 10) as u8,
                    ('0' as u8 + number % 10) as u8,
                    '~' as u8,
                ],
            )
            &&& n == 0 || n > 12 ==> key_bytes(key) is None && function_key_bytes(n).len() == 0
            &&& 1 <= n <= 12 ==> sends(key, function_key_bytes(n))
        }),
{
}

} // verus!
