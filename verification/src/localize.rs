//! The strings the user sees, looked up by id in a bundle of `id = text`
//! lines.
use vstd::prelude::*;

use crate::text::{
    chars_of, copy_text, lines_of, part, same_chars, split_lines, string_of, texts_of, trim,
    trimmed,
};

verus! {

/// Whether ` = ` stands at a place in a line.
pub open spec fn equals_at(line: Seq<char>, i: int) -> bool {
    0 <= i && i + 3 <= line.len() && line[i] == ' ' && line[i + 1] == '=' && line[i + 2] == ' '
}

/// Where ` = ` first stands in a line, from a place on.
pub open spec fn equals_from(line: Seq<char>, from: int) -> Option<int>
    decreases line.len() - from,
{
    if from + 3 > line.len() {
        None
    } else if equals_at(line, from) {
        Some(from)
    } else {
        equals_from(line, from + 1)
    }
}

/// The text a line gives to an id.
pub open spec fn text_for(line: Seq<char>, key: Seq<char>) -> Option<Seq<char>> {
    match equals_from(line, 0) {
        Some(i) => if trimmed(line.take(i)) == key {
            Some(line.skip(i + 3))
        } else {
            None
        },
        None => None,
    }
}

/// The text the first line that has the id gives to it.
pub open spec fn lookup(lines: Seq<Seq<char>>, key: Seq<char>) -> Option<Seq<char>>
    decreases lines.len(),
{
    if lines.len() == 0 {
        None
    } else {
        match text_for(lines[0], key) {
            Some(text) => Some(text),
            None => lookup(lines.skip(1), key),
        }
    }
}

/// What an id reads in a bundle. A missing id reads as itself.
pub open spec fn translated(bundle: Seq<char>, key: Seq<char>) -> Seq<char> {
    match lookup(lines_of(bundle), key) {
        Some(text) => text,
        None => key,
    }
}

/// Where ` = ` first stands in a line.
fn find_equals(line: &[char]) -> (at: Option<usize>)
    ensures
        match at {
            Some(i) => equals_from(line@, 0) == Some(i as int) && equals_at(line@, i as int),
            None => equals_from(line@, 0) is None,
        },
{
    let n = line.len();
    let mut i: usize = 0;
    while i < n && n - i >= 3
        invariant
            i <= n == line@.len(),
            equals_from(line@, i as int) == equals_from(line@, 0),
        decreases n - i,
    {
        if line[i] == ' ' && line[i + 1] == '=' && line[i + 2] == ' ' {
            return Some(i);
        }
        i += 1;
    }
    None
}

/// The text of `key` in a bundle of `id = text` lines; the key itself if no
/// line has it.
pub fn t(bundle: &str, key: &str) -> (text: String)
    ensures
        text@ == translated(bundle@, key@),
{
    let wanted = chars_of(key);
    let lines = split_lines(chars_of(bundle).as_slice());
    let ghost all = texts_of(lines@);
    let mut i: usize = 0;
    assert(all.skip(0) =~= all);
    while i < lines.len()
        invariant
            i <= lines@.len(),
            all == texts_of(lines@),
            all == lines_of(bundle@),
            wanted@ == key@,
            lookup(all.skip(i as int), key@) == lookup(all, key@),
        decreases lines.len() - i,
    {
        let line = lines[i].as_slice();
        let n: usize = line.len();
        assert(all.skip(i as int)[0] == line@);
        assert(all.skip(i as int).skip(1) =~= all.skip(i + 1));
        if let Some(at) = find_equals(line) {
            let id = trim(part(line, 0, at).as_slice());
            if same_chars(id.as_slice(), wanted.as_slice()) {
                return string_of(part(line, at + 3, n).as_slice());
            }
        }
        i += 1;
    }
    copy_text(key)
}

/// An id that no line of the bundle has reads as itself.
pub proof fn law_missing_id_is_the_id(bundle: Seq<char>, key: Seq<char>)
    requires
        forall|i: int|
            0 <= i < lines_of(bundle).len() ==> text_for(#[trigger] lines_of(bundle)[i], key)
                is None,
    ensures
        translated(bundle, key) == key,
{
    lemma_lookup_none(lines_of(bundle), key);
}

proof fn lemma_lookup_none(lines: Seq<Seq<char>>, key: Seq<char>)
    requires
        forall|i: int| 0 <= i < lines.len() ==> text_for(#[trigger] lines[i], key) is None,
    ensures
        lookup(lines, key) is None,
    decreases lines.len(),
{
    if lines.len() > 0 {
        let rest = lines.skip(1);
        assert forall|i: int| 0 <= i < rest.len() implies text_for(#[trigger] rest[i], key)
            is None by {
            assert(rest[i] == lines[i + 1]);
        }
        lemma_lookup_none(rest, key);
    }
}

} // verus!
