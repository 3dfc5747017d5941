//! What holds of text that is trimmed, split, joined and read as numbers.
use vstd::prelude::*;

use crate::text::{
    fields, is_number, is_space, joined_with, lemma_fields_grow, lemma_fields_join,
    lemma_fields_not_empty, lines_of, lower, lowered, number_of, replaced, trimmed, trimmed_end,
    trimmed_start, without_return, words_of,
};

verus! {

/// Whether a text does not hold a character.
pub open spec fn lacks(s: Seq<char>, c: char) -> bool {
    forall|i: int| 0 <= i < s.len() ==> #[trigger] s[i] != c
}

/// Whether a text is white space only.
pub open spec fn all_space(s: Seq<char>) -> bool {
    forall|i: int| 0 <= i < s.len() ==> is_space(#[trigger] s[i])
}

/// Whether a text holds no white space.
pub open spec fn no_space(s: Seq<char>) -> bool {
    forall|i: int| 0 <= i < s.len() ==> !is_space(#[trigger] s[i])
}

/// The white space of ASCII is the space and the codes from tab to carriage
/// return. Beyond ASCII it is what Unicode lists, and nothing else.
pub proof fn law_white_space(c: char)
    ensures
        (c as u32) < 0x80 ==> is_space(c) == (c == ' ' || c == '\t' || c == '\n' || c == '\x0B'
            || c == '\x0C' || c == '\r'),
        (c as u32) >= 0x80 ==> is_space(c) == (c as u32 == 0x85 || c as u32 == 0xA0 || c as u32
            == 0x1680 || (0x2000 <= c as u32 && c as u32 <= 0x200A) || c as u32 == 0x2028
            || c as u32 == 0x2029 || c as u32 == 0x202F || c as u32 == 0x205F || c as u32
            == 0x3000),
{
}

/// Trimming the end drops the white space there and nothing else.
pub proof fn law_end_is_trimmed(core: Seq<char>, after: Seq<char>)
    requires
        core.len() > 0 ==> !is_space(core.last()),
        all_space(after),
    ensures
        trimmed_end(core + after) == core,
    decreases after.len(),
{
    if after.len() == 0 {
        assert(core + after =~= core);
    } else {
        let all = core + after;
        let shorter = after.drop_last();
        assert(all.last() == after[after.len() - 1]);
        assert(all.drop_last() =~= core + shorter);
        assert forall|i: int| 0 <= i < shorter.len() implies is_space(#[trigger] shorter[i]) by {
            assert(shorter[i] == after[i]);
        }
        law_end_is_trimmed(core, shorter);
    }
}

/// Trimming the start drops the white space there and nothing else.
pub proof fn law_start_is_trimmed(before: Seq<char>, core: Seq<char>)
    requires
        all_space(before),
        core.len() > 0 ==> !is_space(core[0]),
    ensures
        trimmed_start(before + core) == core,
    decreases before.len(),
{
    if before.len() == 0 {
        assert(before + core =~= core);
    } else {
        let all = before + core;
        let shorter = before.skip(1);
        assert(all[0] == before[0]);
        assert(all.skip(1) =~= shorter + core);
        assert forall|i: int| 0 <= i < shorter.len() implies is_space(#[trigger] shorter[i]) by {
            assert(shorter[i] == before[i + 1]);
        }
        law_start_is_trimmed(shorter, core);
    }
}

/// Trimming drops the white space at both ends and nothing between.
pub proof fn law_both_ends_are_trimmed(before: Seq<char>, core: Seq<char>, after: Seq<char>)
    requires
        all_space(before),
        all_space(after),
        core.len() > 0 ==> !is_space(core[0]) && !is_space(core.last()),
    ensures
        trimmed(before + core + after) == core,
{
    if core.len() == 0 {
        let blank = before + after;
        assert(before + core + after =~= blank + core);
        assert forall|i: int| 0 <= i < blank.len() implies is_space(#[trigger] blank[i]) by {
            if i >= before.len() {
                assert(blank[i] == after[i - before.len()]);
            }
        }
        law_start_is_trimmed(blank, core);
    } else {
        assert(before + core + after =~= before + (core + after));
        assert((core + after)[0] == core[0]);
        law_start_is_trimmed(before, core + after);
        law_end_is_trimmed(core, after);
    }
}

/// What trimming the end keeps is a beginning of the text, and what it drops is
/// white space.
pub proof fn law_trimmed_end_is_a_beginning(s: Seq<char>, i: int)
    requires
        0 <= i < s.len(),
    ensures
        trimmed_end(s).len() <= s.len(),
        i < trimmed_end(s).len() ==> trimmed_end(s)[i] == s[i],
        i >= trimmed_end(s).len() ==> is_space(s[i]),
        trimmed_end(s).len() > 0 ==> !is_space(trimmed_end(s).last()),
    decreases s.len(),
{
    reveal_with_fuel(trimmed_end, 2);
    if is_space(s.last()) && i < s.len() - 1 {
        law_trimmed_end_is_a_beginning(s.drop_last(), i);
    } else if is_space(s.last()) && s.len() > 1 {
        law_trimmed_end_is_a_beginning(s.drop_last(), 0);
    } else if is_space(s.last()) {
        assert(s.drop_last().len() == 0);
    }
}

/// A text without a separator is one piece.
pub proof fn law_text_without_separator_is_one_piece(s: Seq<char>, sep1: char, sep2: char)
    requires
        lacks(s, sep1),
        lacks(s, sep2),
    ensures
        fields(s, sep1, sep2) == seq![s],
{
    lemma_fields_grow(Seq::empty(), s, sep1, sep2);
    assert(Seq::<char>::empty() + s =~= s);
    assert(fields(Seq::empty(), sep1, sep2) =~= seq![Seq::<char>::empty()]);
    assert(fields(s, sep1, sep2) =~= seq![s]);
}

/// A separator cuts a text in two, and the pieces of it are those of both
/// sides.
pub proof fn law_separators_cut(a: Seq<char>, c: char, b: Seq<char>, sep1: char, sep2: char)
    requires
        c == sep1 || c == sep2,
    ensures
        fields(a.push(c) + b, sep1, sep2) == fields(a, sep1, sep2) + fields(b, sep1, sep2),
{
    lemma_fields_join(a, c, b, sep1, sep2);
}

/// Joining the pieces of a text with its separator gives the text back.
pub proof fn law_joining_undoes_splitting(s: Seq<char>, sep: char)
    ensures
        joined_with(fields(s, sep, sep), sep) == s,
    decreases s.len(),
{
    let all = fields(s, sep, sep);
    if s.len() == 0 {
        assert(all =~= seq![Seq::<char>::empty()]);
    } else {
        let shorter = s.drop_last();
        let before = fields(shorter, sep, sep);
        law_joining_undoes_splitting(shorter, sep);
        lemma_fields_not_empty(shorter, sep, sep);
        assert(shorter.push(s.last()) =~= s);
        if s.last() == sep {
            assert(all.drop_last() =~= before);
            assert(joined_with(all, sep) =~= s);
        } else {
            assert(all.drop_last() =~= before.drop_last());
            assert(joined_with(all, sep) =~= s);
        }
    }
}

/// Joining puts the separator between the pieces, and nowhere else.
pub proof fn law_joining_puts_separators_between(pieces: Seq<Seq<char>>, last: Seq<char>, sep: char)
    ensures
        joined_with(Seq::empty(), sep) == Seq::<char>::empty(),
        joined_with(seq![last], sep) == last,
        pieces.len() > 0 ==> joined_with(pieces.push(last), sep) == joined_with(pieces, sep) + seq![
            sep,
        ] + last,
{
    if pieces.len() > 0 {
        assert(pieces.push(last).drop_last() =~= pieces);
        assert(joined_with(pieces.push(last), sep) =~= joined_with(pieces, sep) + seq![sep]
            + last);
    }
}

/// A line feed, with or without a carriage return before it, ends a line. What
/// follows the last one is a line unless it is empty.
pub proof fn law_line_feeds_end_lines(line: Seq<char>, rest: Seq<char>)
    requires
        lacks(line, '\n'),
    ensures
        line.len() == 0 || line.last() != '\r' ==> lines_of(line.push('\n') + rest) == seq![line]
            + lines_of(rest),
        lines_of(line.push('\r').push('\n') + rest) == seq![line] + lines_of(rest),
        lines_of(line) == if line.len() == 0 {
            Seq::<Seq<char>>::empty()
        } else {
            seq![line]
        },
{
    let returned = line.push('\r');
    assert(returned.drop_last() =~= line);
    lemma_first_line(line, rest);
    lemma_first_line(returned, rest);
    law_text_without_separator_is_one_piece(line, '\n', '\n');
    let one = fields(line, '\n', '\n');
    assert(one.last() == line);
    assert(lines_of(line) =~= if line.len() == 0 {
        Seq::<Seq<char>>::empty()
    } else {
        seq![line]
    });
}

proof fn lemma_first_line(line: Seq<char>, rest: Seq<char>)
    requires
        lacks(line, '\n'),
    ensures
        lines_of(line.push('\n') + rest) == seq![without_return(line)] + lines_of(rest),
{
    lemma_fields_join(line, '\n', rest, '\n', '\n');
    law_text_without_separator_is_one_piece(line, '\n', '\n');
    lemma_fields_not_empty(rest, '\n', '\n');
    let all = fields(line.push('\n') + rest, '\n', '\n');
    let below = fields(rest, '\n', '\n');
    assert(all =~= seq![line] + below);
    assert(all.last() == below.last());
    assert(lines_of(line.push('\n') + rest) =~= seq![without_return(line)] + lines_of(rest));
}

proof fn lemma_word_at_end(s: Seq<char>)
    requires
        s.len() > 0,
        !is_space(s.last()),
    ensures
        words_of(s).len() > 0,
{
}

/// White space cuts a text in two, and the words of it are those of both sides.
pub proof fn law_white_space_cuts(a: Seq<char>, c: char, b: Seq<char>)
    requires
        is_space(c),
    ensures
        words_of(a.push(c) + b) == words_of(a) + words_of(b),
    decreases b.len(),
{
    let all = a.push(c) + b;
    if b.len() == 0 {
        assert(all =~= a.push(c));
        assert(a.push(c).drop_last() =~= a);
        assert(words_of(a) + words_of(b) =~= words_of(a));
    } else {
        let shorter = b.drop_last();
        law_white_space_cuts(a, c, shorter);
        assert(all.drop_last() =~= a.push(c) + shorter);
        assert(all.last() == b.last());
        if b.len() > 1 {
            assert(all[all.len() - 2] == b[b.len() - 2]);
            assert(shorter.last() == b[b.len() - 2]);
            if !is_space(shorter.last()) {
                lemma_word_at_end(shorter);
            }
        } else {
            assert(all[all.len() - 2] == c);
        }
        assert(words_of(all) =~= words_of(a) + words_of(b));
    }
}

/// A text without white space is one word, or none if it is empty.
pub proof fn law_text_without_space_is_one_word(s: Seq<char>)
    requires
        no_space(s),
    ensures
        words_of(s) == if s.len() == 0 {
            Seq::<Seq<char>>::empty()
        } else {
            seq![s]
        },
    decreases s.len(),
{
    if s.len() > 0 {
        let shorter = s.drop_last();
        assert forall|i: int| 0 <= i < shorter.len() implies !is_space(#[trigger] shorter[i]) by {
            assert(shorter[i] == s[i]);
        }
        law_text_without_space_is_one_word(shorter);
        assert(!is_space(s[s.len() - 1]));
        if s.len() == 1 {
            assert(seq![s.last()] =~= s);
        } else {
            assert(!is_space(s[s.len() - 2]));
            assert(shorter.push(s.last()) =~= s);
        }
        assert(words_of(s) =~= seq![s]);
    }
}

/// Ten to the power of `n`.
pub open spec fn power_of_ten(n: nat) -> nat
    decreases n,
{
    if n == 0 {
        1
    } else {
        10 * power_of_ten((n - 1) as nat)
    }
}

/// Digits are read in the decimal system: those in front count for as many more
/// places as there are behind them.
pub proof fn law_digits_are_decimal(a: Seq<char>, b: Seq<char>, d: char)
    requires
        '0' <= d <= '9',
    ensures
        number_of(a + b) == number_of(a) * power_of_ten(b.len()) + number_of(b),
        number_of(seq![d]) == d as u32 - '0' as u32,
        number_of(Seq::empty()) == 0,
    decreases b.len(),
{
    let one = seq![d];
    assert(one.drop_last() =~= Seq::<char>::empty());
    reveal_with_fuel(number_of, 2);
    if b.len() == 0 {
        assert(a + b =~= a);
        assert(number_of(a) * 1 == number_of(a)) by (nonlinear_arith);
    } else {
        let shorter = b.drop_last();
        law_digits_are_decimal(a, shorter, d);
        assert((a + b).drop_last() =~= a + shorter);
        assert((a + b).last() == b.last());
        let n = number_of(a);
        let p = power_of_ten(shorter.len());
        let m = number_of(shorter);
        assert(power_of_ten(b.len()) == 10 * p);
        assert((n * p + m) * 10 == n * (10 * p) + m * 10) by (nonlinear_arith);
    }
}

/// A number is one or more digits from `0` to `9`.
pub proof fn law_numbers_are_digits(s: Seq<char>)
    ensures
        is_number(s) ==> s.len() > 0 && forall|i: int|
            0 <= i < s.len() ==> '0' <= #[trigger] s[i] <= '9',
        s.len() > 0 && (forall|i: int| 0 <= i < s.len() ==> '0' <= #[trigger] s[i] <= '9')
            ==> is_number(s),
{
    if is_number(s) {
        assert forall|i: int| 0 <= i < s.len() implies '0' <= #[trigger] s[i] <= '9' by {
            assert(crate::text::is_digit_char(s[i]));
        }
    }
}

/// Only the letters of ASCII have another lower case here.
pub proof fn law_lower_case(s: Seq<char>, i: int)
    requires
        0 <= i < s.len(),
    ensures
        lowered(s).len() == s.len(),
        'A' <= s[i] <= 'Z' ==> lowered(s)[i] as u32 - 'a' as u32 == s[i] as u32 - 'A' as u32,
        !('A' <= s[i] <= 'Z') ==> lowered(s)[i] == s[i],
        lower(s[i]) == lowered(s)[i],
{
}

/// Replacing a character changes it wherever it stands and nothing else.
pub proof fn law_characters_are_replaced(s: Seq<char>, from: char, to: char, i: int)
    requires
        0 <= i < s.len(),
    ensures
        replaced(s, from, to).len() == s.len(),
        s[i] == from ==> replaced(s, from, to)[i] == to,
        s[i] != from ==> replaced(s, from, to)[i] == s[i],
{
}

} // verus!
