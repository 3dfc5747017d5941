//! Who the user is told to be, and what their strings read.
use vstd::prelude::*;

use crate::localize::{equals_at, equals_from, lookup, text_for, translated};
use crate::sys::{
    home_of, host_named, line_at, probed_home, probed_host, probed_user, prompt_host,
    reported_host, short_host, up_to_dot, user_of,
};
use crate::text::{fields, lemma_fields_join, lines_of, trimmed};
use crate::text_laws::{
    lacks, law_line_feeds_end_lines, law_text_without_separator_is_one_piece,
};

verus! {

/// A machine's short name is what stands before the first dot of its name, or
/// `host` if nothing does.
pub proof fn law_short_names_end_at_a_dot(first: Seq<char>, rest: Seq<char>)
    requires
        lacks(first, '.'),
    ensures
        first.len() > 0 ==> host_named(first.push('.') + rest) == first && host_named(first)
            == first,
        first.len() == 0 ==> host_named(first.push('.') + rest) == "host"@ && host_named(first)
            == "host"@,
{
    lemma_fields_join(first, '.', rest, '.', '.');
    law_text_without_separator_is_one_piece(first, '.', '.');
    assert(fields(first.push('.') + rest, '.', '.')[0] == first);
    assert(up_to_dot(first) == first);
}

/// White space around a machine's name does not count. What the machine itself
/// prints comes before the variable, unless it is blank.
pub proof fn law_machine_names(printed: Seq<char>, variable: Option<Seq<char>>)
    ensures
        short_host(printed) == host_named(trimmed(printed)),
        trimmed(printed).len() > 0 ==> reported_host(Some(printed), variable) == printed
            && prompt_host(Some(printed), variable) == host_named(trimmed(printed)),
        trimmed(printed).len() == 0 ==> reported_host(Some(printed), variable) == reported_host(
            None,
            variable,
        ) && prompt_host(Some(printed), variable) == prompt_host(None, variable),
        variable matches Some(name) ==> reported_host(None, variable) == name && prompt_host(
            None,
            variable,
        ) == host_named(name),
        variable is None ==> reported_host(None, variable).len() == 0 && prompt_host(None, variable)
            == "host"@,
{
}

/// A variable that holds a name names the user; without one the user is `user`.
pub proof fn law_user_names(name: Seq<char>)
    ensures
        name.len() > 0 ==> user_of(Some(name)) == name,
        name.len() == 0 ==> user_of(Some(name)) == "user"@,
        user_of(None) == "user"@,
{
}

/// The home folder is in `HOME` if that is set, even to nothing, and else in
/// `USERPROFILE`. An empty one is none.
pub proof fn law_home_folders(home: Seq<char>, profile: Option<Seq<char>>)
    ensures
        home.len() > 0 ==> home_of(Some(home), profile) == Some(home) && home_of(None, Some(home))
            == Some(home),
        home.len() == 0 ==> home_of(Some(home), profile) is None && home_of(None, Some(home))
            is None,
        home_of(None, None) is None,
{
}

/// A probe tells the user's name in its first line, the home folder in the
/// second and the machine's name in the third, each without white space around
/// it. What is missing or blank is not told.
pub proof fn law_probe_lines(lines: Seq<Seq<char>>)
    ensures
        lines.len() > 0 && trimmed(lines[0]).len() > 0 ==> probed_user(lines) == trimmed(lines[0]),
        lines.len() == 0 || trimmed(lines[0]).len() == 0 ==> probed_user(lines) == "user"@,
        lines.len() > 1 && trimmed(lines[1]).len() > 0 ==> probed_home(lines) == Some(
            trimmed(lines[1]),
        ),
        lines.len() <= 1 || trimmed(lines[1]).len() == 0 ==> probed_home(lines) is None,
        lines.len() > 2 ==> probed_host(lines) == host_named(trimmed(lines[2])),
        lines.len() <= 2 ==> probed_host(lines) == "host"@,
{
    assert(line_at(lines, 0).len() == 0 || lines.len() > 0);
    if lines.len() <= 2 {
        let none = Seq::<char>::empty();
        assert(trimmed(none) =~= none);
        law_short_names_end_at_a_dot(none, none);
    }
}

/// The three lines a probe prints are read as three lines.
pub proof fn law_probe_prints_three_lines(user: Seq<char>, home: Seq<char>, host: Seq<char>)
    requires
        lacks(user, '\n') && lacks(user, '\r'),
        lacks(home, '\n') && lacks(home, '\r'),
        lacks(host, '\n') && lacks(host, '\r'),
    ensures
        lines_of(user.push('\n') + (home.push('\n') + (host.push('\n') + Seq::<char>::empty())))
            == seq![user, home, host],
{
    let none = Seq::<char>::empty();
    let third = host.push('\n') + none;
    let second = home.push('\n') + third;
    law_line_feeds_end_lines(user, second);
    law_line_feeds_end_lines(home, third);
    law_line_feeds_end_lines(host, none);
    law_line_feeds_end_lines(none, none);
    assert(user.len() > 0 ==> user[user.len() - 1] != '\r');
    assert(home.len() > 0 ==> home[home.len() - 1] != '\r');
    assert(host.len() > 0 ==> host[host.len() - 1] != '\r');
    assert(lines_of(user.push('\n') + second) =~= seq![user, home, host]);
}

/// Whether ` = ` stands at a place of a line.
pub open spec fn has_equals(line: Seq<char>, i: int) -> bool {
    0 <= i && i + 2 < line.len() && line[i] == ' ' && line[i + 1] == '=' && line[i + 2] == ' '
}

proof fn lemma_equals_from(line: Seq<char>, from: int, at: int)
    requires
        0 <= from <= at,
        has_equals(line, at),
        forall|i: int| from <= i < at ==> !#[trigger] has_equals(line, i),
    ensures
        equals_from(line, from) == Some(at),
    decreases at - from,
{
    assert(equals_at(line, from) == has_equals(line, from));
    if from < at {
        lemma_equals_from(line, from + 1, at);
    }
}

proof fn lemma_no_equals(line: Seq<char>, from: int)
    requires
        0 <= from,
        forall|i: int| from <= i ==> !#[trigger] has_equals(line, i),
    ensures
        equals_from(line, from) is None,
    decreases line.len() - from,
{
    if from + 3 <= line.len() {
        assert(equals_at(line, from) == has_equals(line, from));
        lemma_no_equals(line, from + 1);
    }
}

/// A line gives the text behind its first ` = ` to the id before it, around
/// which white space does not count. A line without ` = ` gives nothing.
pub proof fn law_lines_give_texts(id: Seq<char>, text: Seq<char>, key: Seq<char>)
    ensures
        ({
            let line = id + seq![' ', '=', ' '] + text;
            (forall|i: int| 0 <= i < id.len() ==> !#[trigger] has_equals(line, i)) ==> {
                &&& trimmed(id) == key ==> text_for(line, key) == Some(text)
                &&& trimmed(id) != key ==> text_for(line, key) is None
            }
        }),
        (forall|i: int| 0 <= i ==> !#[trigger] has_equals(id, i)) ==> text_for(id, key) is None,
{
    let line = id + seq![' ', '=', ' '] + text;
    let at = id.len() as int;
    assert(line[at] == ' ' && line[at + 1] == '=' && line[at + 2] == ' ');
    assert(has_equals(line, at));
    if forall|i: int| 0 <= i < id.len() ==> !#[trigger] has_equals(line, i) {
        lemma_equals_from(line, 0, at);
        assert(line.take(at) =~= id);
        assert(line.skip(at + 3) =~= text);
    }
    if forall|i: int| 0 <= i ==> !#[trigger] has_equals(id, i) {
        lemma_no_equals(id, 0);
    }
}

/// The first line that has an id gives its text.
pub proof fn law_first_line_counts(lines: Seq<Seq<char>>, key: Seq<char>, i: int)
    requires
        0 <= i < lines.len(),
        text_for(lines[i], key) is Some,
        forall|k: int| 0 <= k < i ==> text_for(#[trigger] lines[k], key) is None,
    ensures
        lookup(lines, key) == text_for(lines[i], key),
    decreases i,
{
    if i > 0 {
        let rest = lines.skip(1);
        assert(text_for(lines[0], key) is None);
        assert forall|k: int| 0 <= k < i - 1 implies text_for(#[trigger] rest[k], key) is None by {
            assert(rest[k] == lines[k + 1]);
        }
        assert(rest[i - 1] == lines[i]);
        law_first_line_counts(rest, key, i - 1);
    }
}

/// An id reads as what the lines of the bundle give it, and as itself if they
/// give it nothing.
pub proof fn law_ids_read_as_their_texts(bundle: Seq<char>, key: Seq<char>)
    ensures
        lookup(lines_of(bundle), key) matches Some(text) ==> translated(bundle, key) == text,
        lookup(lines_of(bundle), key) is None ==> translated(bundle, key) == key,
{
}

} // verus!
