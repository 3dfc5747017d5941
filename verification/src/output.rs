//! What a shell printed, as plain text for the scrollback.
use vstd::prelude::*;
use vstd::utf8::{decode_utf8, valid_utf8};

use crate::text::{chars_of, fields, same_chars, split_fields, string_of, strings_of, texts_of};

verus! {

/// What `String::from_utf8_lossy` makes of bytes.
pub uninterp spec fn utf8_lossy(bytes: Seq<u8>) -> Seq<char>;

/// Decodes bytes with `String::from_utf8_lossy`, which puts a replacement
/// character wherever the bytes are no UTF-8. Bytes that are all UTF-8 become
/// the text they encode. How many replacement characters other bytes become is
/// not stated.
#[verifier::external_body]
pub(crate) fn lossy_text(bytes: &[u8]) -> (text: String)
    ensures
        text@ == utf8_lossy(bytes@),
        valid_utf8(bytes@) ==> text@ == decode_utf8(bytes@),
{
    String::from_utf8_lossy(bytes).into_owned()
}

/// Whether a character is shown: any but the control codes, of which only the
/// line feed and the tab count.
pub open spec fn is_shown(c: char) -> bool {
    let n = c as u32;
    c == '\n' || c == '\t' || (n >= 0x20 && !(0x7F <= n <= 0x9F))
}

/// What follows a control sequence, given what stands behind `ESC [`: it runs
/// up to its first letter or punctuation mark from `@` to `~`.
pub open spec fn behind_csi(s: Seq<char>) -> Seq<char>
    decreases s.len(),
{
    if s.len() == 0 {
        s
    } else if 0x40 <= s[0] as u32 <= 0x7E {
        s.skip(1)
    } else {
        behind_csi(s.skip(1))
    }
}

/// What follows a control string, given what stands behind its introducer: it
/// runs up to a bell, or up to an escape character and one more.
pub open spec fn behind_string(s: Seq<char>) -> Seq<char>
    decreases s.len(),
{
    if s.len() == 0 {
        s
    } else if s[0] == '\x07' {
        s.skip(1)
    } else if s[0] == '\x1b' {
        s.skip(if s.len() >= 2 { 2 } else { 1 })
    } else {
        behind_string(s.skip(1))
    }
}

/// What follows an escape sequence, given what stands behind `ESC`.
pub open spec fn behind_escape(s: Seq<char>) -> Seq<char> {
    if s.len() == 0 {
        s
    } else if s[0] == '[' {
        behind_csi(s.skip(1))
    } else if s[0] == ']' || s[0] == 'P' || s[0] == '^' || s[0] == '_' {
        behind_string(s.skip(1))
    } else if 0x20 <= s[0] as u32 <= 0x2F {
        s.skip(if s.len() >= 2 { 2 } else { 1 })
    } else {
        s.skip(1)
    }
}

/// The text that is left without escape sequences and control codes.
pub open spec fn shown_text(s: Seq<char>) -> Seq<char>
    decreases s.len(),
    via shown_text_ends
{
    if s.len() == 0 {
        s
    } else if s[0] == '\x1b' {
        shown_text(behind_escape(s.skip(1)))
    } else if is_shown(s[0]) {
        seq![s[0]] + shown_text(s.skip(1))
    } else {
        shown_text(s.skip(1))
    }
}

#[via_fn]
proof fn shown_text_ends(s: Seq<char>) {
    if s.len() > 0 {
        lemma_behind_escape(s.skip(1));
    }
}

proof fn lemma_behind_csi(s: Seq<char>)
    ensures
        behind_csi(s).len() <= s.len(),
        behind_csi(s) == s.skip(s.len() - behind_csi(s).len()),
    decreases s.len(),
{
    if s.len() > 0 && !(0x40 <= s[0] as u32 <= 0x7E) {
        lemma_behind_csi(s.skip(1));
    }
    assert(behind_csi(s) =~= s.skip(s.len() - behind_csi(s).len()));
}

proof fn lemma_behind_string(s: Seq<char>)
    ensures
        behind_string(s).len() <= s.len(),
        behind_string(s) == s.skip(s.len() - behind_string(s).len()),
    decreases s.len(),
{
    if s.len() > 0 && s[0] != '\x07' && s[0] != '\x1b' {
        lemma_behind_string(s.skip(1));
    }
    assert(behind_string(s) =~= s.skip(s.len() - behind_string(s).len()));
}

proof fn lemma_behind_escape(s: Seq<char>)
    ensures
        behind_escape(s).len() <= s.len(),
        behind_escape(s) == s.skip(s.len() - behind_escape(s).len()),
{
    if s.len() > 0 {
        lemma_behind_csi(s.skip(1));
        lemma_behind_string(s.skip(1));
    }
    assert(behind_escape(s) =~= s.skip(s.len() - behind_escape(s).len()));
}

/// Where the text goes on behind a control sequence.
fn skip_csi(chars: &[char], from: usize) -> (next: usize)
    requires
        from <= chars@.len(),
    ensures
        from <= next <= chars@.len(),
        chars@.skip(next as int) == behind_csi(chars@.skip(from as int)),
{
    let mut i: usize = from;
    while i < chars.len()
        invariant
            from <= i <= chars@.len(),
            behind_csi(chars@.skip(i as int)) == behind_csi(chars@.skip(from as int)),
        decreases chars.len() - i,
    {
        let n: u32 = chars[i] as u32;
        assert(chars@.skip(i as int).skip(1) =~= chars@.skip(i + 1));
        i += 1;
        if n >= 0x40 && n <= 0x7E {
            return i;
        }
    }
    i
}

/// Where the text goes on behind a control string.
fn skip_string(chars: &[char], from: usize) -> (next: usize)
    requires
        from <= chars@.len(),
    ensures
        from <= next <= chars@.len(),
        chars@.skip(next as int) == behind_string(chars@.skip(from as int)),
{
    let mut i: usize = from;
    while i < chars.len()
        invariant
            from <= i <= chars@.len(),
            behind_string(chars@.skip(i as int)) == behind_string(chars@.skip(from as int)),
        decreases chars.len() - i,
    {
        let c: char = chars[i];
        assert(chars@.skip(i as int).skip(1) =~= chars@.skip(i + 1));
        i += 1;
        if c == '\x07' {
            return i;
        }
        if c == '\x1b' {
            if i < chars.len() {
                assert(chars@.skip(i - 1).skip(2) =~= chars@.skip(i + 1));
                i += 1;
            }
            return i;
        }
    }
    i
}

/// Where the text goes on behind an escape sequence.
fn skip_escape(chars: &[char], from: usize) -> (next: usize)
    requires
        from <= chars@.len(),
    ensures
        from <= next <= chars@.len(),
        chars@.skip(next as int) == behind_escape(chars@.skip(from as int)),
{
    if from >= chars.len() {
        return from;
    }
    let c: char = chars[from];
    let n: u32 = c as u32;
    assert(chars@.skip(from as int).skip(1) =~= chars@.skip(from + 1));
    if c == '[' {
        skip_csi(chars, from + 1)
    } else if c == ']' || c == 'P' || c == '^' || c == '_' {
        skip_string(chars, from + 1)
    } else if n >= 0x20 && n <= 0x2F && from + 1 < chars.len() {
        // Charset designators and the like have one more character.
        assert(chars@.skip(from as int).skip(2) =~= chars@.skip(from + 2));
        from + 2
    } else {
        from + 1
    }
}

/// Removes escape sequences and control codes from a text.
pub fn strip_controls(text: &str) -> (shown: String)
    ensures
        shown@ == shown_text(text@),
{
    let chars = chars_of(text);
    let mut shown: Vec<char> = Vec::new();
    let mut i: usize = 0;
    assert(chars@.skip(0) =~= chars@);
    assert(shown@ + shown_text(chars@) =~= shown_text(chars@));
    while i < chars.len()
        invariant
            i <= chars@.len(),
            shown@ + shown_text(chars@.skip(i as int)) == shown_text(text@),
        decreases chars.len() - i,
    {
        let c: char = chars[i];
        let n: u32 = c as u32;
        let ghost rest = chars@.skip(i as int);
        let ghost before = shown@;
        assert(rest.skip(1) =~= chars@.skip(i + 1));
        if c == '\x1b' {
            i = skip_escape(chars.as_slice(), i + 1);
        } else {
            if c == '\n' || c == '\t' || (n >= 0x20 && !(n >= 0x7F && n <= 0x9F)) {
                shown.push(c);
                assert(before + (seq![c] + shown_text(rest.skip(1))) =~= shown@ + shown_text(
                    rest.skip(1),
                ));
            }
            i += 1;
        }
    }
    assert(shown@ + shown_text(chars@.skip(i as int)) =~= shown@);
    string_of(shown.as_slice())
}

/// Decodes what a shell printed, and removes escape sequences and control
/// codes.
pub fn decode_terminal_output(bytes: &[u8]) -> (shown: String)
    ensures
        shown@ == shown_text(utf8_lossy(bytes@)),
        valid_utf8(bytes@) ==> shown@ == shown_text(decode_utf8(bytes@)),
{
    strip_controls(lossy_text(bytes).as_str())
}

/// The lines of a command's output: without the part behind the last line
/// feed, where the next prompt stands, and without the command itself if the
/// terminal repeated it first.
pub open spec fn lines_below(input: Seq<char>, output: Seq<char>) -> Seq<Seq<char>> {
    let lines = fields(output, '\n', '\n').drop_last();
    if lines.len() > 0 && lines[0] == input {
        lines.skip(1)
    } else {
        lines
    }
}

/// The lines of a command's output, without its echo and without the next
/// prompt.
pub fn entry_lines(input: &str, output: &str) -> (lines: Vec<String>)
    ensures
        strings_of(lines@) == lines_below(input@, output@),
{
    let pieces = split_fields(chars_of(output).as_slice(), '\n', '\n');
    let ghost all = texts_of(pieces@);
    let last: usize = pieces.len() - 1;
    let echoed = last > 0 && same_chars(pieces[0].as_slice(), chars_of(input).as_slice());
    let first: usize = if echoed {
        1
    } else {
        0
    };
    let mut lines: Vec<String> = Vec::new();
    let mut i: usize = first;
    while i < last
        invariant
            first <= i,
            i <= last || first > last,
            last == pieces@.len() - 1,
            lines@.len() == i - first,
            forall|j: int| 0 <= j < i - first ==> (#[trigger] lines@[j])@ == pieces@[j + first]@,
        decreases last - i,
    {
        lines.push(string_of(pieces[i].as_slice()));
        i += 1;
    }
    proof {
        let kept = all.drop_last();
        if last > 0 {
            assert(kept[0] == pieces@[0]@);
        }
        assert(echoed == (kept.len() > 0 && kept[0] == input@));
        assert(strings_of(lines@) =~= lines_below(input@, output@));
    }
    lines
}

/// What is shown holds no control codes but line feeds and tabs, whatever the
/// shell printed.
pub proof fn law_shown_text_has_no_controls(s: Seq<char>, i: int)
    requires
        0 <= i < shown_text(s).len(),
    ensures
        is_shown(shown_text(s)[i]),
    decreases s.len(),
{
    if s.len() > 0 {
        if s[0] == '\x1b' {
            lemma_behind_escape(s.skip(1));
            law_shown_text_has_no_controls(behind_escape(s.skip(1)), i);
        } else if is_shown(s[0]) {
            if i > 0 {
                law_shown_text_has_no_controls(s.skip(1), i - 1);
            }
        } else {
            law_shown_text_has_no_controls(s.skip(1), i);
        }
    }
}

/// Text without control codes is shown as it is.
pub proof fn law_plain_text_is_kept(s: Seq<char>)
    requires
        forall|i: int| 0 <= i < s.len() ==> is_shown(#[trigger] s[i]),
    ensures
        shown_text(s) == s,
    decreases s.len(),
{
    if s.len() > 0 {
        let rest = s.skip(1);
        assert forall|i: int| 0 <= i < rest.len() implies is_shown(#[trigger] rest[i]) by {
            assert(rest[i] == s[i + 1]);
        }
        law_plain_text_is_kept(rest);
        assert(is_shown(s[0]));
        assert(seq![s[0]] + rest =~= s);
    }
}

/// An escape sequence leaves nothing behind: what is shown of a text that
/// starts with one is what is shown of the rest.
pub proof fn law_control_sequence_is_dropped(params: Seq<char>, last: char, rest: Seq<char>)
    requires
        forall|i: int|
            0 <= i < params.len() ==> !(0x40 <= #[trigger] params[i] as u32 <= 0x7E),
        0x40 <= last as u32 <= 0x7E,
    ensures
        shown_text(seq!['\x1b', '['] + params + seq![last] + rest) == shown_text(rest),
{
    let s = seq!['\x1b', '['] + params + seq![last] + rest;
    let body = params + seq![last] + rest;
    assert(s.skip(1).skip(1) =~= body);
    lemma_csi_body(params, last, rest);
}

proof fn lemma_csi_body(params: Seq<char>, last: char, rest: Seq<char>)
    requires
        forall|i: int|
            0 <= i < params.len() ==> !(0x40 <= #[trigger] params[i] as u32 <= 0x7E),
        0x40 <= last as u32 <= 0x7E,
    ensures
        behind_csi(params + seq![last] + rest) == rest,
    decreases params.len(),
{
    let body = params + seq![last] + rest;
    if params.len() == 0 {
        assert(body[0] == last);
        assert(body.skip(1) =~= rest);
    } else {
        let shorter = params.skip(1);
        assert(body[0] == params[0]);
        assert forall|i: int| 0 <= i < shorter.len() implies !(0x40
            <= #[trigger] shorter[i] as u32 <= 0x7E) by {
            assert(shorter[i] == params[i + 1]);
        }
        lemma_csi_body(shorter, last, rest);
        assert(body.skip(1) =~= shorter + seq![last] + rest);
    }
}

} // verus!
