//! Text as sequences of characters: trimming, splitting and comparing.
use vstd::prelude::*;

verus! {

/// `String::push` appends one character to the end of a string.
pub assume_specification[ String::push ](s: &mut String, c: char)
    ensures
        final(s)@ == old(s)@.push(c),
;

/// The characters of a string.
pub fn chars_of(s: &str) -> (chars: Vec<char>)
    ensures
        chars@ == s@,
{
    let mut chars: Vec<char> = Vec::new();
    for c in it: s.chars()
        invariant
            chars@ == it.seq().take(it.index()),
            it.seq() == s@,
    {
        assert(it.seq().take(it.index() + 1) =~= it.seq().take(it.index()).push(c));
        chars.push(c);
    }
    assert(chars@ =~= s@);
    chars
}

/// A string of these characters.
pub fn string_of(chars: &[char]) -> (s: String)
    ensures
        s@ == chars@,
{
    let mut s = String::new();
    let mut i: usize = 0;
    while i < chars.len()
        invariant
            i <= chars.len(),
            s@ == chars@.take(i as int),
        decreases chars.len() - i,
    {
        assert(chars@.take(i + 1) =~= chars@.take(i as int).push(chars@[i as int]));
        s.push(chars[i]);
        i += 1;
    }
    assert(chars@.take(i as int) =~= chars@);
    s
}

/// The texts of a list of strings.
pub open spec fn strings_of(strings: Seq<String>) -> Seq<Seq<char>> {
    Seq::new(strings.len(), |i: int| strings[i]@)
}

/// Whether two pieces of text are the same.
pub fn same_chars(a: &[char], b: &[char]) -> (same: bool)
    ensures
        same == (a@ == b@),
{
    if a.len() != b.len() {
        return false;
    }
    let mut i: usize = 0;
    while i < a.len()
        invariant
            i <= a.len(),
            a.len() == b.len(),
            a@.take(i as int) == b@.take(i as int),
        decreases a.len() - i,
    {
        if a[i] != b[i] {
            assert(a@ != b@);
            return false;
        }
        assert(a@.take(i + 1) =~= a@.take(i as int).push(a@[i as int]));
        assert(b@.take(i + 1) =~= b@.take(i as int).push(b@[i as int]));
        i += 1;
    }
    assert(a@.take(i as int) =~= a@);
    assert(b@.take(i as int) =~= b@);
    true
}

/// Whether two strings are the same.
pub fn same_text(a: &str, b: &str) -> (same: bool)
    ensures
        same == (a@ == b@),
{
    same_chars(chars_of(a).as_slice(), chars_of(b).as_slice())
}

/// Whether a character is white space, as Unicode lists it.
pub open spec fn is_space(c: char) -> bool {
    let n = c as u32;
    ||| 0x09 <= n <= 0x0D
    ||| n == 0x20
    ||| n == 0x85
    ||| n == 0xA0
    ||| n == 0x1680
    ||| 0x2000 <= n <= 0x200A
    ||| n == 0x2028
    ||| n == 0x2029
    ||| n == 0x202F
    ||| n == 0x205F
    ||| n == 0x3000
}

/// Whether a character is white space, as Unicode lists it.
pub fn is_white_space(c: char) -> (space: bool)
    ensures
        space == is_space(c),
{
    let n: u32 = c as u32;
    (n >= 0x09 && n <= 0x0D) || n == 0x20 || n == 0x85 || n == 0xA0 || n == 0x1680 || (n >= 0x2000
        && n <= 0x200A) || n == 0x2028 || n == 0x2029 || n == 0x202F || n == 0x205F || n == 0x3000
}

/// Text without the white space at its end.
pub open spec fn trimmed_end(s: Seq<char>) -> Seq<char>
    decreases s.len(),
{
    if s.len() > 0 && is_space(s.last()) {
        trimmed_end(s.drop_last())
    } else {
        s
    }
}

/// Text without the white space at its start.
pub open spec fn trimmed_start(s: Seq<char>) -> Seq<char>
    decreases s.len(),
{
    if s.len() > 0 && is_space(s[0]) {
        trimmed_start(s.skip(1))
    } else {
        s
    }
}

/// Text without the white space at both its ends.
pub open spec fn trimmed(s: Seq<char>) -> Seq<char> {
    trimmed_end(trimmed_start(s))
}

/// Removes the white space at the end.
pub fn trim_end(chars: &mut Vec<char>)
    ensures
        final(chars)@ == trimmed_end(old(chars)@),
{
    let ghost before = chars@;
    while chars.len() > 0 && is_white_space(chars[chars.len() - 1])
        invariant
            trimmed_end(chars@) == trimmed_end(before),
        decreases chars.len(),
    {
        assert(chars@.last() == chars@[chars@.len() - 1]);
        chars.pop();
    }
}

/// Removes the white space at the start.
pub fn trim_start(chars: &[char]) -> (rest: Vec<char>)
    ensures
        rest@ == trimmed_start(chars@),
{
    let mut i: usize = 0;
    assert(chars@.skip(0) =~= chars@);
    while i < chars.len() && is_white_space(chars[i])
        invariant
            i <= chars.len(),
            trimmed_start(chars@.skip(i as int)) == trimmed_start(chars@),
        decreases chars.len() - i,
    {
        assert(chars@.skip(i as int).skip(1) =~= chars@.skip(i + 1));
        i += 1;
    }
    part(chars, i, chars.len())
}

/// Removes the white space at both ends.
pub fn trim(chars: &[char]) -> (rest: Vec<char>)
    ensures
        rest@ == trimmed(chars@),
{
    let mut rest = trim_start(chars);
    trim_end(&mut rest);
    rest
}

/// A copy of the characters from `from` up to but not including `to`.
pub fn part(chars: &[char], from: usize, to: usize) -> (copy: Vec<char>)
    requires
        from <= to <= chars@.len(),
    ensures
        copy@ == chars@.subrange(from as int, to as int),
        to == chars@.len() ==> copy@ == chars@.skip(from as int),
        from == 0 ==> copy@ == chars@.take(to as int),
{
    let mut copy: Vec<char> = Vec::new();
    let mut i: usize = from;
    while i < to
        invariant
            from <= i <= to <= chars@.len(),
            copy@ == chars@.subrange(from as int, i as int),
        decreases to - i,
    {
        assert(chars@.subrange(from as int, i + 1) =~= chars@.subrange(from as int, i as int).push(
            chars@[i as int],
        ));
        copy.push(chars[i]);
        i += 1;
    }
    copy
}

/// Appends a copy of some characters.
pub fn append_chars(chars: &mut Vec<char>, more: &[char])
    ensures
        final(chars)@ == old(chars)@ + more@,
{
    let ghost before = chars@;
    let mut i: usize = 0;
    while i < more.len()
        invariant
            i <= more.len(),
            chars@ == before + more@.take(i as int),
        decreases more.len() - i,
    {
        assert(more@.take(i + 1) =~= more@.take(i as int).push(more@[i as int]));
        chars.push(more[i]);
        i += 1;
    }
    assert(more@.take(i as int) =~= more@);
}

/// Text after another text.
pub fn joined(a: &[char], b: &[char]) -> (both: Vec<char>)
    ensures
        both@ == a@ + b@,
{
    let mut both = part(a, 0, a.len());
    append_chars(&mut both, b);
    assert(both@ =~= a@ + b@);
    both
}

/// The pieces of a text between its separators, of which there may be two.
/// There is always one piece more than there are separators.
pub open spec fn fields(s: Seq<char>, sep1: char, sep2: char) -> Seq<Seq<char>>
    decreases s.len(),
{
    if s.len() == 0 {
        seq![Seq::empty()]
    } else {
        let before = fields(s.drop_last(), sep1, sep2);
        if s.last() == sep1 || s.last() == sep2 {
            before.push(Seq::empty())
        } else {
            before.drop_last().push(before.last().push(s.last()))
        }
    }
}

/// The texts in a list.
pub open spec fn texts_of(lists: Seq<Vec<char>>) -> Seq<Seq<char>> {
    Seq::new(lists.len(), |i: int| lists[i]@)
}

/// A text is never split into no pieces.
pub proof fn lemma_fields_not_empty(s: Seq<char>, sep1: char, sep2: char)
    ensures
        fields(s, sep1, sep2).len() > 0,
    decreases s.len(),
{
    if s.len() > 0 {
        lemma_fields_not_empty(s.drop_last(), sep1, sep2);
    }
}

/// Text without separators goes to the last piece.
pub proof fn lemma_fields_grow(s: Seq<char>, more: Seq<char>, sep1: char, sep2: char)
    requires
        forall|i: int| 0 <= i < more.len() ==> #[trigger] more[i] != sep1 && more[i] != sep2,
    ensures
        fields(s + more, sep1, sep2) == fields(s, sep1, sep2).drop_last().push(
            fields(s, sep1, sep2).last() + more,
        ),
    decreases more.len(),
{
    let before = fields(s, sep1, sep2);
    lemma_fields_not_empty(s, sep1, sep2);
    if more.len() == 0 {
        assert(s + more =~= s);
        assert(before.last() + more =~= before.last());
        assert(before.drop_last().push(before.last()) =~= before);
    } else {
        let shorter = more.drop_last();
        assert forall|i: int| 0 <= i < shorter.len() implies #[trigger] shorter[i] != sep1
            && shorter[i] != sep2 by {
            assert(shorter[i] == more[i]);
        }
        lemma_fields_grow(s, shorter, sep1, sep2);
        assert((s + more).drop_last() =~= s + shorter);
        assert((s + more).last() == more[more.len() - 1]);
        let mid = before.drop_last().push(before.last() + shorter);
        assert(mid.drop_last() =~= before.drop_last());
        assert((before.last() + shorter).push(more.last()) =~= before.last() + more);
    }
}

/// Texts with a separator between them come apart into the pieces of both.
pub proof fn lemma_fields_join(s: Seq<char>, c: char, then: Seq<char>, sep1: char, sep2: char)
    requires
        c == sep1 || c == sep2,
    ensures
        fields(s.push(c) + then, sep1, sep2) == fields(s, sep1, sep2) + fields(then, sep1, sep2),
    decreases then.len(),
{
    let all = s.push(c) + then;
    let head = fields(s, sep1, sep2);
    if then.len() == 0 {
        assert(all =~= s.push(c));
        assert(s.push(c).drop_last() =~= s);
        assert(head.push(Seq::empty()) =~= head + fields(then, sep1, sep2));
    } else {
        let before = then.drop_last();
        lemma_fields_join(s, c, before, sep1, sep2);
        lemma_fields_not_empty(before, sep1, sep2);
        assert(all.drop_last() =~= s.push(c) + before);
        assert(all.last() == then.last());
        assert(fields(all, sep1, sep2) =~= head + fields(then, sep1, sep2));
    }
}

/// Splits a text at its separators.
pub fn split_fields(chars: &[char], sep1: char, sep2: char) -> (pieces: Vec<Vec<char>>)
    ensures
        texts_of(pieces@) == fields(chars@, sep1, sep2),
        pieces@.len() > 0,
{
    let mut done: Vec<Vec<char>> = Vec::new();
    let mut last: Vec<char> = Vec::new();
    let mut i: usize = 0;
    assert(texts_of(done@).push(last@) =~= fields(chars@.take(0), sep1, sep2));
    while i < chars.len()
        invariant
            i <= chars.len(),
            texts_of(done@).push(last@) == fields(chars@.take(i as int), sep1, sep2),
        decreases chars.len() - i,
    {
        let c: char = chars[i];
        let ghost before = texts_of(done@).push(last@);
        proof {
            assert(chars@.take(i + 1).drop_last() =~= chars@.take(i as int));
            assert(chars@.take(i + 1).last() == c);
            assert(before.drop_last() =~= texts_of(done@));
            assert(before.last() == last@);
        }
        if c == sep1 || c == sep2 {
            let ghost old_done = done@;
            done.push(last);
            last = Vec::new();
            assert(texts_of(done@) =~= before);
        } else {
            last.push(c);
        }
        i += 1;
    }
    assert(chars@.take(i as int) =~= chars@);
    let ghost before = texts_of(done@).push(last@);
    done.push(last);
    assert(texts_of(done@) =~= before);
    done
}

/// Appends a copy of a string's characters.
pub fn append_text(chars: &mut Vec<char>, text: &str)
    ensures
        final(chars)@ == old(chars)@ + text@,
{
    append_chars(chars, chars_of(text).as_slice());
}

/// A copy of a string.
pub fn copy_text(text: &str) -> (copy: String)
    ensures
        copy@ == text@,
{
    string_of(chars_of(text).as_slice())
}

/// Text with every `from` replaced by `to`.
pub open spec fn replaced(s: Seq<char>, from: char, to: char) -> Seq<char> {
    Seq::new(
        s.len(),
        |i: int|
            if s[i] == from {
                to
            } else {
                s[i]
            },
    )
}

/// Replaces every `from` by `to`.
pub fn replace_char(chars: &[char], from: char, to: char) -> (text: Vec<char>)
    ensures
        text@ == replaced(chars@, from, to),
{
    let mut text: Vec<char> = Vec::new();
    let mut i: usize = 0;
    while i < chars.len()
        invariant
            i <= chars.len(),
            text@.len() == i,
            forall|j: int| 0 <= j < i ==> text@[j] == replaced(chars@, from, to)[j],
        decreases chars.len() - i,
    {
        text.push(if chars[i] == from { to } else { chars[i] });
        i += 1;
    }
    assert(text@ =~= replaced(chars@, from, to));
    text
}

/// Pieces of text with a separator between each two.
pub open spec fn joined_with(pieces: Seq<Seq<char>>, sep: char) -> Seq<char>
    decreases pieces.len(),
{
    if pieces.len() == 0 {
        Seq::empty()
    } else if pieces.len() == 1 {
        pieces[0]
    } else {
        joined_with(pieces.drop_last(), sep).push(sep) + pieces.last()
    }
}

/// Joins pieces of text with a separator between each two.
pub fn join_with(pieces: &Vec<Vec<char>>, sep: char) -> (text: Vec<char>)
    ensures
        text@ == joined_with(texts_of(pieces@), sep),
{
    let mut text: Vec<char> = Vec::new();
    let ghost all = texts_of(pieces@);
    let mut i: usize = 0;
    assert(all.take(0) =~= Seq::empty());
    while i < pieces.len()
        invariant
            i <= pieces.len(),
            all == texts_of(pieces@),
            text@ == joined_with(all.take(i as int), sep),
        decreases pieces.len() - i,
    {
        assert(all.take(i + 1).drop_last() =~= all.take(i as int));
        assert(all.take(i + 1).last() == pieces@[i as int]@);
        if i > 0 {
            text.push(sep);
        }
        append_chars(&mut text, pieces[i].as_slice());
        assert(text@ =~= joined_with(all.take(i + 1), sep));
        i += 1;
    }
    assert(all.take(i as int) =~= all);
    text
}

/// A line without the carriage return that may stand at its end.
pub open spec fn without_return(line: Seq<char>) -> Seq<char> {
    if line.len() > 0 && line.last() == '\r' {
        line.drop_last()
    } else {
        line
    }
}

/// The lines of a text. A line ends with a line feed, or with a carriage
/// return and a line feed; what follows the last line feed is a line only if
/// it is not empty.
pub open spec fn lines_of(s: Seq<char>) -> Seq<Seq<char>> {
    let pieces = fields(s, '\n', '\n');
    let ended = Seq::new((pieces.len() - 1) as nat, |i: int| without_return(pieces[i]));
    if pieces.last().len() == 0 {
        ended
    } else {
        ended.push(pieces.last())
    }
}

/// Splits a text into its lines.
pub fn split_lines(chars: &[char]) -> (lines: Vec<Vec<char>>)
    ensures
        texts_of(lines@) == lines_of(chars@),
{
    let pieces = split_fields(chars, '\n', '\n');
    let ghost all = texts_of(pieces@);
    let ghost ended = Seq::new((all.len() - 1) as nat, |i: int| without_return(all[i]));
    let mut lines: Vec<Vec<char>> = Vec::new();
    let mut i: usize = 0;
    while i + 1 < pieces.len()
        invariant
            i < pieces.len(),
            all == texts_of(pieces@),
            ended == Seq::new((all.len() - 1) as nat, |i: int| without_return(all[i])),
            lines@.len() == i,
            forall|j: int| 0 <= j < i ==> (#[trigger] lines@[j])@ == ended[j],
        decreases pieces.len() - i,
    {
        let piece = pieces[i].as_slice();
        let end: usize = if piece.len() > 0 && piece[piece.len() - 1] == '\r' {
            piece.len() - 1
        } else {
            piece.len()
        };
        let line = part(piece, 0, end);
        assert(line@ =~= without_return(all[i as int]));
        lines.push(line);
        i += 1;
    }
    assert(texts_of(lines@) =~= ended);
    let last = pieces[i].as_slice();
    assert(last@ == all.last());
    if last.len() > 0 {
        let copy = part(last, 0, last.len());
        assert(copy@ =~= all.last());
        lines.push(copy);
        assert(texts_of(lines@) =~= ended.push(all.last()));
    }
    lines
}

/// The pieces of a text between its white space, without empty ones.
pub open spec fn words_of(s: Seq<char>) -> Seq<Seq<char>>
    decreases s.len(),
{
    if s.len() == 0 {
        Seq::empty()
    } else {
        let before = words_of(s.drop_last());
        if is_space(s.last()) {
            before
        } else if s.len() == 1 || is_space(s[s.len() - 2]) {
            before.push(seq![s.last()])
        } else {
            before.drop_last().push(before.last().push(s.last()))
        }
    }
}

/// The list of words with the one being read, if there is one.
spec fn words_with(done: Seq<Seq<char>>, word: Seq<char>) -> Seq<Seq<char>> {
    if word.len() == 0 {
        done
    } else {
        done.push(word)
    }
}

/// Splits a text at its white space.
pub fn split_words(chars: &[char]) -> (words: Vec<Vec<char>>)
    ensures
        texts_of(words@) == words_of(chars@),
{
    let mut done: Vec<Vec<char>> = Vec::new();
    let mut word: Vec<char> = Vec::new();
    let mut i: usize = 0;
    assert(texts_of(done@) =~= Seq::empty());
    while i < chars.len()
        invariant
            i <= chars.len(),
            words_with(texts_of(done@), word@) == words_of(chars@.take(i as int)),
            word@.len() == 0 <==> i == 0 || is_space(chars@[i - 1]),
        decreases chars.len() - i,
    {
        let c: char = chars[i];
        let ghost now = chars@.take(i + 1);
        let ghost done_before = texts_of(done@);
        let ghost word_before = word@;
        assert(now.drop_last() =~= chars@.take(i as int));
        assert(now.last() == c);
        assert(i > 0 ==> now[now.len() - 2] == chars@[i - 1]);
        if is_white_space(c) {
            if word.len() > 0 {
                done.push(word);
                word = Vec::new();
                assert(texts_of(done@) =~= done_before.push(word_before));
            }
        } else {
            word.push(c);
            proof {
                if word_before.len() == 0 {
                    assert(word@ =~= seq![c]);
                } else {
                    assert(done_before.push(word_before).drop_last() =~= done_before);
                }
            }
        }
        i += 1;
    }
    assert(chars@.take(i as int) =~= chars@);
    let ghost done_before = texts_of(done@);
    let ghost word_before = word@;
    if word.len() > 0 {
        done.push(word);
        assert(texts_of(done@) =~= done_before.push(word_before));
    }
    done
}

pub open spec fn is_digit_char(c: char) -> bool {
    '0' <= c <= '9'
}

/// Whether a text is a number in decimal digits.
pub open spec fn is_number(s: Seq<char>) -> bool {
    s.len() > 0 && forall|i: int| 0 <= i < s.len() ==> is_digit_char(#[trigger] s[i])
}

/// The number that decimal digits write.
pub open spec fn number_of(s: Seq<char>) -> nat
    decreases s.len(),
{
    if s.len() == 0 {
        0
    } else {
        number_of(s.drop_last()) * 10 + (s.last() as u32 - 0x30) as nat
    }
}

/// More digits make no smaller number.
proof fn lemma_number_grows(s: Seq<char>, i: int)
    requires
        0 <= i <= s.len(),
    ensures
        number_of(s.take(i)) <= number_of(s),
    decreases s.len() - i,
{
    if i == s.len() {
        assert(s.take(i) =~= s);
    } else {
        lemma_number_grows(s, i + 1);
        assert(s.take(i + 1).drop_last() =~= s.take(i));
    }
}

/// Reads a number of at most `max`.
pub fn parse_number(chars: &[char], max: u64) -> (number: Option<u64>)
    ensures
        match number {
            Some(n) => is_number(chars@) && n == number_of(chars@) && n <= max,
            None => !is_number(chars@) || number_of(chars@) > max,
        },
{
    if chars.len() == 0 {
        return None;
    }
    let mut value: u64 = 0;
    let mut i: usize = 0;
    assert(chars@.take(0) =~= Seq::empty());
    while i < chars.len()
        invariant
            i <= chars.len(),
            value == number_of(chars@.take(i as int)),
            value <= max,
            forall|j: int| 0 <= j < i ==> is_digit_char(#[trigger] chars@[j]),
        decreases chars.len() - i,
    {
        let c: char = chars[i];
        if c < '0' || c > '9' {
            assert(!is_digit_char(chars@[i as int]));
            return None;
        }
        let wide: u128 = value as u128 * 10 + (c as u32 - 0x30) as u128;
        assert(chars@.take(i + 1).drop_last() =~= chars@.take(i as int));
        if wide > max as u128 {
            proof {
                lemma_number_grows(chars@, i + 1);
            }
            return None;
        }
        value = wide as u64;
        i += 1;
    }
    assert(chars@.take(i as int) =~= chars@);
    Some(value)
}

/// A letter of the ASCII alphabet in lower case; any other character as it is.
pub open spec fn lower(c: char) -> char {
    if 'A' <= c <= 'Z' {
        (c as u32 + 0x20) as char
    } else {
        c
    }
}

/// Text with its ASCII letters in lower case.
pub open spec fn lowered(s: Seq<char>) -> Seq<char> {
    Seq::new(s.len(), |i: int| lower(s[i]))
}

/// A letter of the ASCII alphabet in lower case; any other character as it is.
pub fn to_lower(c: char) -> (l: char)
    ensures
        l == lower(c),
{
    if 'A' <= c && c <= 'Z' {
        (c as u8 + 0x20) as char
    } else {
        c
    }
}

/// Text with its ASCII letters in lower case.
pub fn to_lowered(chars: &[char]) -> (text: Vec<char>)
    ensures
        text@ == lowered(chars@),
{
    let mut text: Vec<char> = Vec::new();
    let mut i: usize = 0;
    while i < chars.len()
        invariant
            i <= chars.len(),
            text@.len() == i,
            forall|j: int| 0 <= j < i ==> text@[j] == lower(chars@[j]),
        decreases chars.len() - i,
    {
        text.push(to_lower(chars[i]));
        i += 1;
    }
    assert(text@ =~= lowered(chars@));
    text
}

} // verus!
