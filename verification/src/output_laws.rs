//! What is kept of the text a shell prints, and how it is cut into rows.
use vstd::prelude::*;

use crate::output::{
    behind_csi, behind_escape, behind_string, is_shown, lines_below, shown_text,
};
use crate::text::{fields, lemma_fields_join};
use crate::text_laws::{lacks, law_text_without_separator_is_one_piece};

verus! {

/// Lines, each with a line feed behind it.
pub open spec fn with_feeds(lines: Seq<Seq<char>>) -> Seq<char>
    decreases lines.len(),
{
    if lines.len() == 0 {
        Seq::empty()
    } else {
        lines[0] + seq!['\n'] + with_feeds(lines.skip(1))
    }
}

/// Whether a text begins with a line that is exactly `input`.
pub open spec fn echoes(input: Seq<char>, output: Seq<char>) -> bool {
    &&& lacks(input, '\n')
    &&& output.len() > input.len()
    &&& output.take(input.len() as int) == input
    &&& output[input.len() as int] == '\n'
}

/// The lines of a text that end in a line feed, and what follows the last one.
proof fn lemma_lines(s: Seq<char>)
    ensures
        ({
            let all = fields(s, '\n', '\n');
            &&& all.len() > 0
            &&& s == with_feeds(all.drop_last()) + all.last()
            &&& forall|i: int| 0 <= i < all.len() ==> lacks(#[trigger] all[i], '\n')
        }),
    decreases s.len(),
{
    let all = fields(s, '\n', '\n');
    if lacks(s, '\n') {
        law_text_without_separator_is_one_piece(s, '\n', '\n');
        assert(all.drop_last() =~= Seq::<Seq<char>>::empty());
        assert(s =~= with_feeds(all.drop_last()) + all.last());
    } else {
        let i = first_feed(s, 0);
        assert(s.skip(0) =~= s);
        lemma_first_feed(s, 0);
        let head = s.take(i);
        let rest = s.skip(i + 1);
        assert(head.push('\n') + rest =~= s);
        lemma_fields_join(head, '\n', rest, '\n', '\n');
        law_text_without_separator_is_one_piece(head, '\n', '\n');
        lemma_lines(rest);
        let below = fields(rest, '\n', '\n');
        assert(all =~= seq![head] + below);
        assert(all.drop_last() =~= seq![head] + below.drop_last());
        assert(all.drop_last().skip(1) =~= below.drop_last());
        assert(all.last() == below.last());
        assert(s =~= with_feeds(all.drop_last()) + all.last());
        assert forall|k: int| 0 <= k < all.len() implies lacks(#[trigger] all[k], '\n') by {
            if k > 0 {
                assert(all[k] == below[k - 1]);
            }
        }
    }
}

/// Where the first line feed stands at or after `from`, or the end.
spec fn first_feed(s: Seq<char>, from: int) -> int
    decreases s.len() - from,
{
    if from >= s.len() || s[from] == '\n' {
        from
    } else {
        first_feed(s, from + 1)
    }
}

proof fn lemma_first_feed(s: Seq<char>, from: int)
    requires
        0 <= from <= s.len(),
        !lacks(s.skip(from), '\n'),
    ensures
        from <= first_feed(s, from) < s.len(),
        s[first_feed(s, from)] == '\n',
        lacks(s.subrange(from, first_feed(s, from)), '\n'),
        from == 0 ==> lacks(s.take(first_feed(s, from)), '\n'),
    decreases s.len() - from,
{
    let rest = s.skip(from);
    let k = choose|k: int| 0 <= k < rest.len() && #[trigger] rest[k] == '\n';
    assert(rest[k] == s[from + k]);
    if s[from] != '\n' {
        assert(s.skip(from + 1)[k - 1] == '\n');
        lemma_first_feed(s, from + 1);
        let i = first_feed(s, from);
        assert forall|j: int| 0 <= j < i - from implies #[trigger] s.subrange(from, i)[j]
            != '\n' by {
            if j > 0 {
                assert(s.subrange(from + 1, i)[j - 1] != '\n');
            }
        }
        assert(s.subrange(0, i) =~= s.take(i));
    }
}

/// The rows of an output are its lines. No row holds a line feed. The command,
/// if it was repeated as the first line, then the rows, and then what stands
/// behind the last line feed give back exactly the output.
pub proof fn law_rows_are_the_lines(input: Seq<char>, output: Seq<char>) -> (tail: Seq<char>)
    ensures
        ({
            let rows = lines_below(input, output);
            let head = if echoes(input, output) {
                input + seq!['\n']
            } else {
                Seq::empty()
            };
            &&& output == head + with_feeds(rows) + tail
            &&& lacks(tail, '\n')
            &&& forall|i: int| 0 <= i < rows.len() ==> lacks(#[trigger] rows[i], '\n')
        }),
{
    let all = fields(output, '\n', '\n');
    let lines = all.drop_last();
    let tail = all.last();
    let rows = lines_below(input, output);
    lemma_lines(output);
    assert(lacks(all[all.len() - 1], '\n'));
    if lines.len() > 0 {
        assert(lines[0] == all[0]);
        assert(lacks(all[0], '\n'));
        let text = lines[0] + seq!['\n'] + with_feeds(lines.skip(1)) + tail;
        assert(output =~= text);
        if lines[0] == input {
            assert(output.take(input.len() as int) =~= input);
            assert(echoes(input, output));
            assert forall|i: int| 0 <= i < rows.len() implies lacks(#[trigger] rows[i], '\n') by {
                assert(rows[i] == all[i + 1]);
            }
        } else {
            if echoes(input, output) {
                let n = input.len() as int;
                let m = lines[0].len() as int;
                assert(output[m] == '\n');
                assert(output[n] == '\n');
                if m < n {
                    assert(output.take(n)[m] == '\n');
                    assert(input[m] == '\n');
                } else if n < m {
                    assert(lines[0][n] == output[n]);
                }
                assert(m == n);
                assert(lines[0] =~= input) by {
                    assert forall|j: int| 0 <= j < n implies lines[0][j] == input[j] by {
                        assert(output[j] == lines[0][j]);
                        assert(output.take(n)[j] == output[j]);
                    }
                }
            }
            assert forall|i: int| 0 <= i < rows.len() implies lacks(#[trigger] rows[i], '\n') by {
                assert(rows[i] == all[i]);
            }
            assert(output =~= Seq::<char>::empty() + with_feeds(rows) + tail);
        }
    } else {
        assert(output =~= tail);
        if echoes(input, output) {
            assert(output[input.len() as int] == '\n');
            assert(tail[input.len() as int] == '\n');
        }
        assert(output =~= Seq::<char>::empty() + with_feeds(rows) + tail);
    }
    tail
}

/// The characters that are shown: line feed, tab, and everything from the space
/// on but delete and the control codes behind it.
pub proof fn law_shown_characters(c: char)
    ensures
        is_shown('\n'),
        is_shown('\t'),
        c != '\n' && c != '\t' && (c as u32) < ' ' as u32 ==> !is_shown(c),
        ' ' <= c <= '~' ==> is_shown(c),
        0x7F <= c as u32 && c as u32 <= 0x9F ==> !is_shown(c),
        c as u32 >= 0xA0 ==> is_shown(c),
{
}

/// Text is taken from front to back: a character that is shown is kept, and a
/// control code other than escape is dropped.
pub proof fn law_characters_are_kept_or_dropped(c: char, rest: Seq<char>)
    ensures
        is_shown(c) ==> shown_text(seq![c] + rest) == seq![c] + shown_text(rest),
        !is_shown(c) && c != '\x1b' ==> shown_text(seq![c] + rest) == shown_text(rest),
        shown_text(Seq::empty()) == Seq::<char>::empty(),
{
    let all = seq![c] + rest;
    assert(all[0] == c);
    assert(all.skip(1) =~= rest);
}

/// Whether a text holds no final character of a control sequence.
pub open spec fn no_final(s: Seq<char>) -> bool {
    forall|i: int| 0 <= i < s.len() ==> !(0x40 <= #[trigger] s[i] as u32 <= 0x7E)
}

proof fn lemma_behind_csi(body: Seq<char>, rest: Seq<char>)
    requires
        no_final(body),
    ensures
        behind_csi(body + rest) == behind_csi(rest),
        behind_csi(body).len() == 0,
    decreases body.len(),
{
    if body.len() == 0 {
        assert(body + rest =~= rest);
    } else {
        let shorter = body.skip(1);
        assert forall|i: int| 0 <= i < shorter.len() implies !(0x40
            <= #[trigger] shorter[i] as u32 <= 0x7E) by {
            assert(shorter[i] == body[i + 1]);
        }
        assert((body + rest)[0] == body[0]);
        assert((body + rest).skip(1) =~= shorter + rest);
        lemma_behind_csi(shorter, rest);
    }
}

/// A control sequence is dropped up to and with its final character, which is
/// one from `@` to `~`. One that has none swallows the rest.
pub proof fn law_control_sequences_are_dropped(body: Seq<char>, last: char, rest: Seq<char>)
    requires
        no_final(body),
        '@' <= last <= '~',
    ensures
        shown_text(seq!['\x1b', '['] + body + seq![last] + rest) == shown_text(rest),
        shown_text(seq!['\x1b', '['] + body) == Seq::<char>::empty(),
{
    reveal_with_fuel(shown_text, 2);
    let s = seq!['\x1b', '['] + body + seq![last] + rest;
    let tail = seq![last] + rest;
    assert(s.skip(1)[0] == '[');
    assert(s.skip(1).skip(1) =~= body + tail);
    assert(tail[0] == last);
    assert(tail.skip(1) =~= rest);
    lemma_behind_csi(body, tail);
    let open = seq!['\x1b', '['] + body;
    assert(open.skip(1)[0] == '[');
    assert(open.skip(1).skip(1) =~= body);
    assert(behind_csi(body) =~= Seq::<char>::empty());
}

/// Whether a text holds neither a bell nor an escape character.
pub open spec fn no_end(s: Seq<char>) -> bool {
    forall|i: int| 0 <= i < s.len() ==> #[trigger] s[i] != '\x07' && s[i] != '\x1b'
}

proof fn lemma_behind_string(body: Seq<char>, rest: Seq<char>)
    requires
        no_end(body),
    ensures
        behind_string(body + rest) == behind_string(rest),
        behind_string(body).len() == 0,
    decreases body.len(),
{
    if body.len() == 0 {
        assert(body + rest =~= rest);
    } else {
        let shorter = body.skip(1);
        assert forall|i: int| 0 <= i < shorter.len() implies #[trigger] shorter[i] != '\x07'
            && shorter[i] != '\x1b' by {
            assert(shorter[i] == body[i + 1]);
        }
        assert((body + rest)[0] == body[0]);
        assert((body + rest).skip(1) =~= shorter + rest);
        lemma_behind_string(shorter, rest);
    }
}

/// A control string (`ESC ]`, `ESC P`, `ESC ^`, `ESC _`) is dropped up to and
/// with a bell, or an escape character and what follows it. One that has no end
/// swallows the rest.
pub proof fn law_control_strings_are_dropped(
    kind: char,
    body: Seq<char>,
    then: char,
    rest: Seq<char>,
)
    requires
        kind == ']' || kind == 'P' || kind == '^' || kind == '_',
        no_end(body),
    ensures
        shown_text(seq!['\x1b', kind] + body + seq!['\x07'] + rest) == shown_text(rest),
        shown_text(seq!['\x1b', kind] + body + seq!['\x1b', then] + rest) == shown_text(rest),
        shown_text(seq!['\x1b', kind] + body + seq!['\x1b']) == Seq::<char>::empty(),
        shown_text(seq!['\x1b', kind] + body) == Seq::<char>::empty(),
{
    reveal_with_fuel(shown_text, 2);
    let start = seq!['\x1b', kind];
    let bell = seq!['\x07'] + rest;
    let esc = seq!['\x1b', then] + rest;
    let cut = seq!['\x1b'];
    let a = start + body + seq!['\x07'] + rest;
    let b = start + body + seq!['\x1b', then] + rest;
    let c = start + body + seq!['\x1b'];
    let d = start + body;
    assert(a.skip(1)[0] == kind && b.skip(1)[0] == kind && c.skip(1)[0] == kind && d.skip(1)[0]
        == kind);
    assert(a.skip(1).skip(1) =~= body + bell);
    assert(b.skip(1).skip(1) =~= body + esc);
    assert(c.skip(1).skip(1) =~= body + cut);
    assert(d.skip(1).skip(1) =~= body);
    lemma_behind_string(body, bell);
    lemma_behind_string(body, esc);
    lemma_behind_string(body, cut);
    assert(bell[0] == '\x07' && bell.skip(1) =~= rest);
    assert(esc[0] == '\x1b' && esc.skip(2) =~= rest);
    assert(cut.skip(1) =~= Seq::<char>::empty());
    assert(behind_string(body) =~= Seq::<char>::empty());
    assert(behind_escape(a.skip(1)) == rest);
    assert(behind_escape(b.skip(1)) == rest);
    assert(behind_escape(c.skip(1)) == Seq::<char>::empty());
    assert(behind_escape(d.skip(1)) == Seq::<char>::empty());
}

/// Any other escape sequence is dropped with the one character behind the
/// escape character, or with two if that is a sign from space to `/`. An escape
/// character at the end is dropped.
pub proof fn law_other_escapes_are_dropped(kind: char, then: char, rest: Seq<char>)
    requires
        kind != '[' && kind != ']' && kind != 'P' && kind != '^' && kind != '_',
    ensures
        !(' ' <= kind <= '/') ==> shown_text(seq!['\x1b', kind] + rest) == shown_text(rest),
        ' ' <= kind <= '/' ==> shown_text(seq!['\x1b', kind, then] + rest) == shown_text(rest),
        ' ' <= kind <= '/' ==> shown_text(seq!['\x1b', kind]) == Seq::<char>::empty(),
        shown_text(seq!['\x1b']) == Seq::<char>::empty(),
{
    reveal_with_fuel(shown_text, 2);
    let a = seq!['\x1b', kind] + rest;
    let b = seq!['\x1b', kind, then] + rest;
    let c = seq!['\x1b', kind];
    let d = seq!['\x1b'];
    assert(a.skip(1)[0] == kind && b.skip(1)[0] == kind && c.skip(1)[0] == kind);
    assert(a.skip(1).skip(1) =~= rest);
    assert(b.skip(1).skip(2) =~= rest);
    assert(c.skip(1).skip(1) =~= Seq::<char>::empty());
    assert(d.skip(1) =~= Seq::<char>::empty());
    assert(behind_escape(d.skip(1)) =~= Seq::<char>::empty());
    assert(!(' ' <= kind <= '/') ==> behind_escape(a.skip(1)) == rest);
    assert(' ' <= kind <= '/' ==> behind_escape(b.skip(1)) == rest);
    assert(behind_escape(c.skip(1)) =~= Seq::<char>::empty());
}

} // verus!
