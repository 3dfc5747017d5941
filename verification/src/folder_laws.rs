//! Where paths and `cd` commands lead, and how folders are shown.
use vstd::prelude::*;

use crate::command::{
    behind_tilde, cd_argument, cd_result, home_expanded, shown_folder, unquoted,
};
use crate::path::{
    after_names, begins_with, busy, canonical_prefix, first_of, is_absolute_path, is_sep,
    is_verbatim, left_over, lemma_prefix_len, main_sep, normalized, other_sep, parts, path_below,
    path_joined, prefix_len, same_path, same_prefix, trail_of, without_idle_end, PathParts, Trail,
};
use crate::path_laws::{
    all_plain, is_plain_name, lemma_busy_plain, lemma_trail_parts, lemma_walk_again,
};
use crate::text::{
    fields, is_space, joined_with, lemma_fields_join, lemma_fields_not_empty, replaced,
    trimmed_start,
};
use crate::text_laws::{
    all_space, lacks, law_both_ends_are_trimmed, law_start_is_trimmed,
    law_text_without_separator_is_one_piece,
};

verus! {

/// What an absolute path starts with: `/`, or on Windows a drive and `\`.
pub open spec fn root_of(windows: bool, drive: char) -> Seq<char> {
    if windows {
        seq![drive, ':', '\\']
    } else {
        seq!['/']
    }
}

/// Whether a character can be the letter of a drive.
pub open spec fn is_drive_letter(c: char) -> bool {
    'a' <= c <= 'z' || 'A' <= c <= 'Z'
}

/// Whether a text looks as if it began with a drive.
pub open spec fn has_drive(s: Seq<char>) -> bool {
    s.len() >= 2 && s[1] == ':'
}

/// Whether a name is one of a file or folder: not empty, not `.` or `..`, and
/// without separators.
pub open spec fn is_name(windows: bool, name: Seq<char>) -> bool {
    &&& name.len() > 0
    &&& name != seq!['.']
    &&& name != seq!['.', '.']
    &&& lacks(name, '/')
    &&& windows ==> lacks(name, '\\')
}

/// Whether all of them are.
pub open spec fn are_names(windows: bool, names: Seq<Seq<char>>) -> bool {
    forall|i: int| 0 <= i < names.len() ==> is_name(windows, #[trigger] names[i])
}

/// The separator of a system.
pub open spec fn separator_of(windows: bool) -> char {
    if windows {
        '\\'
    } else {
        '/'
    }
}

/// The folder below the root that some names lead to.
pub open spec fn folder(windows: bool, drive: char, names: Seq<Seq<char>>) -> Seq<char> {
    root_of(windows, drive) + joined_with(names, separator_of(windows))
}

/// The trail to a folder.
spec fn trail_to(windows: bool, drive: char, names: Seq<Seq<char>>) -> Trail {
    Trail {
        prefix: if windows {
            seq![drive, ':']
        } else {
            Seq::empty()
        },
        root: true,
        names,
    }
}

proof fn lemma_folder(windows: bool, drive: char, names: Seq<Seq<char>>)
    requires
        windows ==> is_drive_letter(drive),
        are_names(windows, names),
    ensures
        folder(windows, drive, names) == trail_to(windows, drive, names).text(windows),
        parts(windows, folder(windows, drive, names)) == (PathParts {
            prefix: trail_to(windows, drive, names).prefix,
            root: true,
            fields: if names.len() > 0 {
                names
            } else {
                seq![Seq::empty()]
            },
        }),
        parts(windows, folder(windows, drive, names)).names() == names,
        all_plain('/', main_sep(windows), names),
        trail_of(windows, folder(windows, drive, names)) == trail_to(windows, drive, names),
        !is_verbatim(windows, folder(windows, drive, names)),
{
    let none = Seq::<char>::empty();
    let t = trail_to(windows, drive, names);
    let text = folder(windows, drive, names);
    let b = main_sep(windows);
    assert(text =~= t.text(windows));
    assert forall|i: int| 0 <= i < names.len() implies is_plain_name(
        '/',
        b,
        #[trigger] names[i],
    ) by {
        assert(is_name(windows, names[i]));
    }
    assert(other_sep(windows, none) == '/');
    assert(prefix_len(windows, none) == 0);
    assert(none.take(0) =~= none);
    lemma_trail_parts(windows, none, t);
    lemma_busy_plain('/', b, names);
    let p = parts(windows, text);
    assert(!p.dot_first());
    assert(p.shows_root());
    let start = Trail { names: Seq::empty(), ..t };
    if names.len() > 0 {
        assert(busy(p.fields) == names);
        lemma_walk_again(windows, '/', b, t, names.len() as int);
        assert(names.take(names.len() as int) =~= names);
    } else {
        let empty = seq![Seq::<char>::empty()];
        assert(empty.drop_last() =~= Seq::<Seq<char>>::empty());
        reveal_with_fuel(busy, 2);
        reveal_with_fuel(Trail::walk, 2);
        assert(busy(empty) =~= names);
        assert(start =~= t);
    }
    if windows {
        assert(text[0] == drive);
    }
}

/// A path of plain names is worked out already.
pub proof fn law_plain_paths_stay(windows: bool, drive: char, names: Seq<Seq<char>>)
    requires
        windows ==> is_drive_letter(drive),
        are_names(windows, names),
    ensures
        normalized(windows, folder(windows, drive, names)) == folder(windows, drive, names),
        is_absolute_path(windows, folder(windows, drive, names)),
{
    lemma_folder(windows, drive, names);
}

/// The names left of an absolute path after `.` and `..` are worked out.
pub open spec fn names_left(windows: bool, drive: char, body: Seq<char>) -> Seq<Seq<char>> {
    trail_of(windows, root_of(windows, drive) + body).names
}

proof fn lemma_absolute(windows: bool, drive: char, body: Seq<char>)
    requires
        windows ==> is_drive_letter(drive),
    ensures
        ({
            let p = parts(windows, root_of(windows, drive) + body);
            &&& p.prefix == trail_to(windows, drive, Seq::empty()).prefix
            &&& p.root
            &&& p.shows_root()
            &&& p.fields == fields(body, '/', main_sep(windows))
        }),
{
    let s = root_of(windows, drive) + body;
    let n: int = if windows {
        2
    } else {
        0
    };
    if windows {
        assert(s[0] == drive && s[1] == ':' && s[2] == '\\');
    } else {
        assert(s[0] == '/');
    }
    assert(prefix_len(windows, s) == n);
    assert(!is_verbatim(windows, s));
    assert(s.take(n) =~= trail_to(windows, drive, Seq::empty()).prefix);
    assert(s.skip(n).skip(1) =~= body);
}

/// A path is worked out name by name: `.` and empty names lead nowhere, `..`
/// leads up by one name or stays at the root, and any other name leads down. What
/// is left is written with the separator of the system.
pub proof fn law_names_are_worked_out_in_order(
    windows: bool,
    drive: char,
    body: Seq<char>,
    sep: char,
    name: Seq<char>,
)
    requires
        windows ==> is_drive_letter(drive),
        sep == '/' || (windows && sep == '\\'),
        lacks(name, '/'),
        windows ==> lacks(name, '\\'),
    ensures
        ({
            let so_far = names_left(windows, drive, body);
            let next = names_left(windows, drive, body.push(sep) + name);
            &&& normalized(windows, root_of(windows, drive) + body) == folder(
                windows,
                drive,
                so_far,
            )
            &&& names_left(windows, drive, Seq::empty()).len() == 0
            &&& names_left(windows, drive, name) == if is_name(windows, name) {
                seq![name]
            } else {
                Seq::empty()
            }
            &&& name.len() == 0 || name == seq!['.'] ==> next == so_far
            &&& name == seq!['.', '.'] ==> next == if so_far.len() > 0 {
                so_far.drop_last()
            } else {
                so_far
            }
            &&& is_name(windows, name) ==> next == so_far.push(name)
        }),
{
    let b = main_sep(windows);
    let start = trail_to(windows, drive, Seq::empty());
    let none = Seq::<char>::empty();
    lemma_absolute(windows, drive, body);
    lemma_absolute(windows, drive, body.push(sep) + name);
    lemma_absolute(windows, drive, none);
    lemma_fields_join(body, sep, name, '/', b);
    law_text_without_separator_is_one_piece(name, '/', b);
    law_text_without_separator_is_one_piece(none, '/', b);
    let before = fields(body, '/', b);
    let all = before + seq![name];
    assert(all.drop_last() =~= before);
    assert(all.last() == name);
    lemma_walk_keeps_root(windows, start, before);
    let t = start.walk(windows, before);
    assert(trail_of(windows, root_of(windows, drive) + body) == t);
    assert(t.text(windows) =~= folder(windows, drive, t.names));
    let one = seq![none];
    assert(one.drop_last() =~= Seq::<Seq<char>>::empty());
    reveal_with_fuel(Trail::walk, 2);
    assert(start.walk(windows, one) == start);
    lemma_absolute(windows, drive, name);
    let only = seq![name];
    assert(only.drop_last() =~= Seq::<Seq<char>>::empty());
    assert(start.walk(windows, only) == start.step(windows, name));
    assert(names_left(windows, drive, name) =~= if is_name(windows, name) {
        seq![name]
    } else {
        Seq::empty()
    });
    assert(seq!['.', '.'].len() == 2 && seq!['.'].len() == 1);
}

proof fn lemma_walk_keeps_root(windows: bool, start: Trail, fields: Seq<Seq<char>>)
    requires
        start.root,
    ensures
        start.walk(windows, fields).root,
        start.walk(windows, fields).prefix == start.prefix,
    decreases fields.len(),
{
    if fields.len() > 0 {
        lemma_walk_keeps_root(windows, start, fields.drop_last());
    }
}

/// A path is absolute if it starts at a root; on Windows also if it starts with
/// a drive and a separator, but not with either alone.
pub proof fn law_absolute_paths_start_at_a_root(windows: bool, drive: char, body: Seq<char>)
    requires
        windows ==> is_drive_letter(drive),
    ensures
        is_absolute_path(windows, root_of(windows, drive) + body),
        body.len() > 0 && body[0] != '/' ==> !is_absolute_path(false, body),
        body.len() > 0 && body[0] != '/' && body[0] != '\\' && !has_drive(body)
            ==> !is_absolute_path(true, body),
        !is_absolute_path(windows, Seq::empty()),
        is_drive_letter(drive) && (body.len() == 0 || (body[0] != '/' && body[0] != '\\'))
            ==> !is_absolute_path(true, seq![drive, ':'] + body),
        body.len() == 0 || (body[0] != '/' && body[0] != '\\') ==> !is_absolute_path(
            true,
            seq!['\\'] + body,
        ),
{
    lemma_absolute(windows, drive, body);
    assert(body.skip(0) =~= body);
    assert(Seq::<char>::empty().skip(0) =~= Seq::<char>::empty());
    let rooted = seq!['\\'] + body;
    assert(rooted[0] == '\\' && (body.len() > 0 ==> rooted[1] == body[0]));
    assert(rooted.take(0).len() == 0);
    if is_drive_letter(drive) {
        let s = seq![drive, ':'] + body;
        assert(s[0] == drive && s[1] == ':');
        assert(s.skip(2) =~= body);
        assert(s.take(2).len() == 2);
    }
}

/// What stands between a folder and what is below it: a separator, unless the
/// folder is the root and ends in one.
pub open spec fn between(windows: bool, names: Seq<Seq<char>>) -> Seq<char> {
    if names.len() == 0 {
        Seq::empty()
    } else {
        seq![separator_of(windows)]
    }
}

/// A relative path is put behind the folder it is seen from, with one separator
/// between; an absolute one is taken as it is.
pub proof fn law_relative_paths_go_below(
    windows: bool,
    drive: char,
    names: Seq<Seq<char>>,
    rest: Seq<char>,
    body: Seq<char>,
)
    requires
        windows ==> is_drive_letter(drive),
        are_names(windows, names),
        rest.len() > 0,
        rest[0] != '/',
        windows ==> rest[0] != '\\' && !has_drive(rest),
    ensures
        ({
            let base = folder(windows, drive, names);
            let absolute = root_of(windows, drive) + body;
            &&& path_joined(windows, base, rest) == base + between(windows, names) + rest
            &&& path_below(windows, base, rest) == base + between(windows, names) + rest
            &&& path_joined(windows, base, absolute) == absolute
            &&& windows && (body.len() == 0 || (body[0] != '/' && body[0] != '\\'))
                ==> path_joined(windows, base, seq!['\\'] + body) == seq![drive, ':', '\\'] + body
        }),
{
    let base = folder(windows, drive, names);
    lemma_folder(windows, drive, names);
    lemma_absolute(windows, drive, body);
    lemma_folder_end(windows, drive, names);
    assert(rest.skip(0) =~= rest);
    assert(prefix_len(windows, rest) == 0);
    lemma_put_below(windows, drive, names, rest);
    if windows && (body.len() == 0 || (body[0] != '/' && body[0] != '\\')) {
        let rooted = seq!['\\'] + body;
        assert(rooted[0] == '\\');
        assert(body.len() > 0 ==> rooted[1] == body[0]);
        assert(prefix_len(true, rooted) == 0);
        assert(rooted.skip(0) =~= rooted);
        assert(base[0] == drive && base[1] == ':');
        assert(base.take(2) + rooted =~= seq![drive, ':', '\\'] + body);
    }
}

proof fn lemma_put_below(windows: bool, drive: char, names: Seq<Seq<char>>, rest: Seq<char>)
    requires
        windows ==> is_drive_letter(drive),
        are_names(windows, names),
    ensures
        path_below(windows, folder(windows, drive, names), rest) == folder(windows, drive, names)
            + between(windows, names) + rest,
{
    let base = folder(windows, drive, names);
    lemma_folder(windows, drive, names);
    lemma_folder_end(windows, drive, names);
    if names.len() == 0 {
        assert(base + rest =~= base + between(windows, names) + rest);
    } else {
        assert(base.push(main_sep(windows)) + rest =~= base + between(windows, names) + rest);
    }
}

/// Only the root ends in a separator.
proof fn lemma_folder_end(windows: bool, drive: char, names: Seq<Seq<char>>)
    requires
        are_names(windows, names),
    ensures
        folder(windows, drive, names).len() > 2 || !windows,
        folder(windows, drive, names).len() > 0,
        is_sep(windows, folder(windows, drive, names).last()) == (names.len() == 0),
{
    let sep = separator_of(windows);
    let text = joined_with(names, sep);
    if names.len() == 0 {
        let root = root_of(windows, drive);
        assert(folder(windows, drive, names) =~= root);
        assert(root.last() == sep);
    } else {
        lemma_folder_last(windows, drive, names);
    }
}

proof fn lemma_folder_last(windows: bool, drive: char, names: Seq<Seq<char>>)
    requires
        are_names(windows, names),
        names.len() > 0,
    ensures
        folder(windows, drive, names).len() > 2 || !windows,
        !is_sep(windows, folder(windows, drive, names).last()),
{
    let sep = separator_of(windows);
    let text = joined_with(names, sep);
    let last = names[names.len() - 1];
    assert(is_name(windows, last));
    if names.len() == 1 {
        assert(text == last);
    } else {
        assert(text =~= joined_with(names.drop_last(), sep).push(sep) + last);
    }
    assert(text[text.len() - 1] == last[last.len() - 1]);
    let all = folder(windows, drive, names);
    assert(all[all.len() - 1] == text[text.len() - 1]);
}

/// `~` alone and before a separator stands for the home folder, where that is
/// known. Any other path stays as it is.
pub proof fn law_tilde_is_home(
    windows: bool,
    drive: char,
    names: Seq<Seq<char>>,
    rest: Seq<char>,
    other: Seq<char>,
)
    requires
        windows ==> is_drive_letter(drive),
        are_names(windows, names),
        rest.len() > 0,
        other.len() == 0 || other[0] != '~' || (other.len() > 1 && other[1] != '/' && (windows
            ==> other[1] != '\\')),
    ensures
        ({
            let home = folder(windows, drive, names);
            let below = home + between(windows, names) + rest;
            &&& home_expanded(windows, Some(home), seq!['~']) == home
            &&& home_expanded(windows, Some(home), seq!['~', '/']) == home
            &&& home_expanded(windows, Some(home), seq!['~', '/'] + rest) == below
            &&& windows ==> home_expanded(windows, Some(home), seq!['~', '\\'] + rest) == below
            &&& home_expanded(windows, Some(home), other) == other
            &&& home_expanded(windows, None, rest) == rest
        }),
{
    let home = folder(windows, drive, names);
    lemma_folder(windows, drive, names);
    lemma_folder_end(windows, drive, names);
    let a = seq!['~', '/'];
    let b = seq!['~', '/'] + rest;
    let c = seq!['~', '\\'] + rest;
    assert(a.len() == 2 && a.skip(2) =~= Seq::<char>::empty());
    assert(b[0] == '~' && b[1] == '/' && b.skip(2) =~= rest);
    assert(c[0] == '~' && c[1] == '\\' && c.skip(2) =~= rest);
    assert(seq!['~'].len() == 1);
    assert(other != seq!['~']) by {
        if other == seq!['~'] {
            assert(other[0] == '~' && other.len() == 1);
        }
    }
    assert(behind_tilde(windows, other) is None);
    lemma_put_below(windows, drive, names, rest);
}

proof fn lemma_after_plain(names: Seq<Seq<char>>, tail: Seq<Seq<char>>, windows: bool)
    requires
        all_plain('/', main_sep(windows), names),
        all_plain('/', main_sep(windows), tail),
    ensures
        after_names(names + tail, names.len()) == tail,
        without_idle_end(tail) == tail,
    decreases names.len(),
{
    let all = names + tail;
    if tail.len() > 0 {
        assert(is_plain_name('/', main_sep(windows), tail[tail.len() - 1]));
    }
    if names.len() == 0 {
        assert(all =~= tail);
        if tail.len() > 0 {
            assert(is_plain_name('/', main_sep(windows), tail[0]));
        }
    } else {
        let shorter = names.skip(1);
        assert forall|i: int| 0 <= i < shorter.len() implies is_plain_name(
            '/',
            main_sep(windows),
            #[trigger] shorter[i],
        ) by {
            assert(shorter[i] == names[i + 1]);
        }
        assert(is_plain_name('/', main_sep(windows), names[0]));
        assert(all[0] == names[0]);
        assert(all.skip(1) =~= shorter + tail);
        lemma_after_plain(shorter, tail, windows);
    }
}

/// Whether two letters are the same in lower or upper case.
pub open spec fn same_letter(a: char, b: char) -> bool {
    a == b || a as u32 == b as u32 + 0x20 || b as u32 == a as u32 + 0x20
}

/// The home folder is shown as `~`, and a folder below it as `~/` and the names
/// behind it with `/` between them, also for a backslash in a name. The letter of
/// a drive counts in either case.
pub proof fn law_folders_below_home_are_shown_short(
    windows: bool,
    drive: char,
    again: char,
    names: Seq<Seq<char>>,
    tail: Seq<Seq<char>>,
)
    requires
        windows ==> is_drive_letter(drive) && is_drive_letter(again),
        same_letter(drive, again),
        are_names(windows, names),
        are_names(windows, tail),
        tail.len() > 0,
    ensures
        ({
            let home = folder(windows, drive, names);
            &&& shown_folder(windows, Some(home), folder(windows, again, names)) == seq!['~']
            &&& shown_folder(windows, Some(home), folder(windows, again, names + tail)) == seq![
                '~',
                '/',
            ] + replaced(joined_with(tail, '/'), '\\', '/')
        }),
{
    let home = folder(windows, drive, names);
    let all = names + tail;
    let cwd = folder(windows, again, all);
    assert forall|i: int| 0 <= i < all.len() implies is_name(windows, #[trigger] all[i]) by {
        if i < names.len() {
            assert(all[i] == names[i]);
        } else {
            assert(all[i] == tail[i - names.len()]);
        }
    }
    lemma_folder(windows, drive, names);
    lemma_folder(windows, again, names);
    lemma_folder(windows, again, all);
    lemma_folder(windows, again, tail);
    let path = parts(windows, cwd);
    let base = parts(windows, home);
    let twin = parts(windows, folder(windows, again, names));
    assert(canonical_prefix(twin.prefix) =~= canonical_prefix(base.prefix));
    assert(same_prefix(twin.prefix, base.prefix));
    assert(same_path(twin, base));
    assert(path.names() != base.names()) by {
        assert(all.len() > names.len());
    }
    assert(base.names() =~= path.names().subrange(0, base.names().len() as int));
    assert(base.shows_root() && path.shows_root());
    assert(begins_with(path, base));
    lemma_after_plain(names, tail, windows);
    assert(!path.dot_first());
    assert(left_over(path, base) == joined_with(tail, '/'));
}

/// A folder that is not home and not below it is shown as it is, and so is every
/// folder where no home is known.
pub proof fn law_other_folders_are_shown_whole(
    windows: bool,
    drive: char,
    another: char,
    names: Seq<Seq<char>>,
    other: Seq<Seq<char>>,
    i: int,
)
    requires
        windows ==> is_drive_letter(drive) && is_drive_letter(another),
        are_names(windows, names),
        are_names(windows, other),
        (windows && !same_letter(drive, another)) || (0 <= i < names.len() && (i >= other.len()
            || other[i] != names[i])),
    ensures
        ({
            let home = folder(windows, drive, names);
            let cwd = folder(windows, another, other);
            &&& shown_folder(windows, Some(home), cwd) == cwd
            &&& shown_folder(windows, None, cwd) == cwd
        }),
{
    let home = folder(windows, drive, names);
    let cwd = folder(windows, another, other);
    lemma_folder(windows, drive, names);
    lemma_folder(windows, another, other);
    let path = parts(windows, cwd);
    let base = parts(windows, home);
    if windows && !same_letter(drive, another) {
        assert(canonical_prefix(path.prefix)[0] != canonical_prefix(base.prefix)[0]);
    } else if base.names().is_prefix_of(path.names()) {
        assert(path.names().subrange(0, names.len() as int)[i] == other[i]);
        assert(base.names()[i] == names[i]);
    }
    assert(!begins_with(path, base));
    assert(!same_path(path, base));
}

/// One pair of equal quotes around a text is taken off, and nothing else.
pub proof fn law_quotes_are_taken_off(quote: char, s: Seq<char>)
    ensures
        quote == '"' || quote == '\'' ==> unquoted(seq![quote] + s + seq![quote]) == s,
        s.len() < 2 ==> unquoted(s) == s,
        s.len() > 0 && s[0] != '"' && s[0] != '\'' ==> unquoted(s) == s,
        s.len() > 0 && s[0] != s.last() ==> unquoted(s) == s,
{
    let q = seq![quote] + s + seq![quote];
    assert(q[0] == quote && q.last() == quote);
    assert(q.subrange(1, q.len() - 1) =~= s);
}

/// Whether two letters spell `cd`, in either case.
pub open spec fn spells_cd(c: char, d: char) -> bool {
    (c == 'c' || c == 'C') && (d == 'd' || d == 'D')
}

/// What stands behind `cd` and white space is its argument, without the white
/// space at the end. `cd` alone has an empty one.
pub proof fn law_argument_of_cd(
    windows: bool,
    before: Seq<char>,
    c: char,
    d: char,
    gap: Seq<char>,
    argument: Seq<char>,
    after: Seq<char>,
)
    requires
        all_space(before),
        all_space(gap),
        all_space(after),
        spells_cd(c, d),
        gap.len() > 0,
        argument.len() > 0,
        !is_space(argument[0]),
        !is_space(argument.last()),
        argument[0] != '/' || !windows,
    ensures
        cd_argument(windows, before + (seq![c, d] + gap + argument) + after) == Some(argument),
        cd_argument(windows, before + seq![c, d] + after) == Some(Seq::<char>::empty()),
{
    let core = seq![c, d] + gap + argument;
    assert(core[0] == c && core[1] == d && core[2] == gap[0]);
    assert(core.last() == argument.last());
    law_both_ends_are_trimmed(before, core, after);
    assert(core.skip(2) =~= gap + argument);
    law_start_is_trimmed(gap, argument);
    let bare = seq![c, d];
    law_both_ends_are_trimmed(before, bare, after);
    assert(bare.skip(2) =~= Seq::<char>::empty());
    assert(trimmed_start(bare.skip(2)) =~= Seq::<char>::empty());
}

/// On Windows the flag `/d` before the argument does not count.
pub proof fn law_drive_flag_of_cd(
    c: char,
    d: char,
    gap: Seq<char>,
    flag: char,
    then: Seq<char>,
    argument: Seq<char>,
)
    requires
        spells_cd(c, d),
        flag == 'd' || flag == 'D',
        all_space(gap),
        all_space(then),
        gap.len() > 0,
        then.len() > 0,
        argument.len() > 0,
        !is_space(argument[0]),
        !is_space(argument.last()),
    ensures
        cd_argument(true, seq![c, d] + gap + (seq!['/', flag] + then + argument)) == Some(argument),
        cd_argument(false, seq![c, d] + gap + (seq!['/', flag] + then + argument)) == Some(
            seq!['/', flag] + then + argument,
        ),
{
    let none = Seq::<char>::empty();
    let rest = seq!['/', flag] + then + argument;
    let core = seq![c, d] + gap + rest;
    assert(core[0] == c && core[1] == d && core[2] == gap[0]);
    assert(core.last() == argument.last());
    assert(none + core + none =~= core);
    law_both_ends_are_trimmed(none, core, none);
    assert(core.skip(2) =~= gap + rest);
    assert(rest[0] == '/' && rest[1] == flag && rest[2] == then[0]);
    law_start_is_trimmed(gap, rest);
    assert(rest.skip(2) =~= then + argument);
    law_start_is_trimmed(then, argument);
}

/// A line that does not begin with the word `cd` changes no folder.
pub proof fn law_other_commands_change_no_folder(
    windows: bool,
    home: Option<Seq<char>>,
    before: Seq<char>,
    core: Seq<char>,
    after: Seq<char>,
    base: Seq<char>,
)
    requires
        all_space(before),
        all_space(after),
        core.len() > 0 ==> !is_space(core[0]) && !is_space(core.last()),
        core.len() < 2 || !spells_cd(core[0], core[1]) || (core.len() > 2 && !is_space(core[2])),
    ensures
        cd_result(windows, home, before + core + after, base) is None,
{
    law_both_ends_are_trimmed(before, core, after);
}

/// `cd` without an argument leads home. An argument leads to the folder it
/// names, seen from the present one, with `.` and `..` worked out.
#[verifier::spinoff_prover]
#[verifier::rlimit(40)]
pub proof fn law_cd_leads_to_the_folder_it_names(
    windows: bool,
    home: Option<Seq<char>>,
    line: Seq<char>,
    argument: Seq<char>,
    base: Seq<char>,
)
    requires
        cd_argument(windows, line) == Some(argument),
    ensures
        ({
            let to = cd_result(windows, home, line, base);
            let named = home_expanded(windows, home, unquoted(argument));
            &&& argument.len() == 0 ==> to == home
            &&& argument.len() > 0 && is_absolute_path(windows, named) ==> to == Some(
                normalized(windows, named),
            )
            &&& argument.len() > 0 && !is_absolute_path(windows, named) ==> to == Some(
                normalized(windows, path_joined(windows, base, named)),
            )
        }),
{
}

/// From a folder, `cd` with a name leads to the folder of that name in it, with
/// `..` to the folder it is in or nowhere from the root, and with `.` nowhere.
#[verifier::spinoff_prover]
#[verifier::rlimit(40)]
pub proof fn law_cd_goes_down_and_up(
    windows: bool,
    drive: char,
    home: Option<Seq<char>>,
    names: Seq<Seq<char>>,
    rest: Seq<char>,
)
    requires
        windows ==> is_drive_letter(drive),
        are_names(windows, names),
        rest.len() > 0,
        lacks(rest, '/'),
        windows ==> lacks(rest, '\\') && !has_drive(rest),
        rest[0] != '~' && rest[0] != '"' && rest[0] != '\'',
        !is_space(rest[0]),
        !is_space(rest.last()),
    ensures
        cd_result(windows, home, seq!['c', 'd', ' '] + rest, folder(windows, drive, names)) == Some(
            folder(
                windows,
                drive,
                if rest == seq!['.'] {
                    names
                } else if rest == seq!['.', '.'] {
                    if names.len() > 0 {
                        names.drop_last()
                    } else {
                        names
                    }
                } else {
                    names.push(rest)
                },
            ),
        ),
{
    lemma_cd_relative(windows, drive, home, names, rest);
    lemma_worked_out(windows, drive, names, rest);
}

proof fn lemma_one_more_name(windows: bool, drive: char, names: Seq<Seq<char>>, rest: Seq<char>)
    requires
        windows ==> is_drive_letter(drive),
        are_names(windows, names),
        rest.len() > 0,
        lacks(rest, '/'),
        windows ==> lacks(rest, '\\'),
    ensures
        names_left(
            windows,
            drive,
            joined_with(names, separator_of(windows)) + between(windows, names) + rest,
        ) == if rest == seq!['.'] {
            names
        } else if rest == seq!['.', '.'] {
            if names.len() > 0 {
                names.drop_last()
            } else {
                names
            }
        } else {
            names.push(rest)
        },
{
    let sep = separator_of(windows);
    let body = joined_with(names, sep);
    let to = body + between(windows, names) + rest;
    law_names_are_worked_out_in_order(windows, drive, body, sep, rest);
    assert(names_left(windows, drive, body) == names) by {
        lemma_folder(windows, drive, names);
    }
    if names.len() == 0 {
        assert(to =~= rest);
        assert(names =~= Seq::<Seq<char>>::empty());
        assert(names.push(rest) =~= seq![rest]);
    } else {
        assert(to =~= body.push(sep) + rest);
    }
    assert(seq!['.', '.'].len() == 2 && seq!['.'].len() == 1);
}

#[verifier::spinoff_prover]
#[verifier::rlimit(40)]
proof fn lemma_worked_out(windows: bool, drive: char, names: Seq<Seq<char>>, rest: Seq<char>)
    requires
        windows ==> is_drive_letter(drive),
        are_names(windows, names),
        rest.len() > 0,
        lacks(rest, '/'),
        windows ==> lacks(rest, '\\'),
    ensures
        normalized(windows, folder(windows, drive, names) + between(windows, names) + rest)
            == folder(
            windows,
            drive,
            if rest == seq!['.'] {
                names
            } else if rest == seq!['.', '.'] {
                if names.len() > 0 {
                    names.drop_last()
                } else {
                    names
                }
            } else {
                names.push(rest)
            },
        ),
{
    let sep = separator_of(windows);
    let to = joined_with(names, sep) + between(windows, names) + rest;
    law_names_are_worked_out_in_order(windows, drive, to, sep, Seq::empty());
    lemma_one_more_name(windows, drive, names, rest);
    assert(root_of(windows, drive) + to =~= folder(windows, drive, names) + between(windows, names)
        + rest);
}

#[verifier::spinoff_prover]
#[verifier::rlimit(40)]
proof fn lemma_cd_relative(
    windows: bool,
    drive: char,
    home: Option<Seq<char>>,
    names: Seq<Seq<char>>,
    rest: Seq<char>,
)
    requires
        windows ==> is_drive_letter(drive),
        are_names(windows, names),
        rest.len() > 0,
        rest[0] != '/' && rest[0] != '~' && rest[0] != '"' && rest[0] != '\'',
        windows ==> rest[0] != '\\' && !has_drive(rest),
        !is_space(rest[0]),
        !is_space(rest.last()),
    ensures
        cd_result(windows, home, seq!['c', 'd', ' '] + rest, folder(windows, drive, names)) == Some(
            normalized(windows, folder(windows, drive, names) + between(windows, names) + rest),
        ),
{
    let none = Seq::<char>::empty();
    let line = seq!['c', 'd', ' '] + rest;
    assert(none + (seq!['c', 'd'] + seq![' '] + rest) + none =~= line);
    law_argument_of_cd(windows, none, 'c', 'd', seq![' '], rest, none);
    law_quotes_are_taken_off('"', rest);
    assert(rest != seq!['~']) by {
        if rest == seq!['~'] {
            assert(rest[0] == '~');
        }
    }
    assert(home_expanded(windows, home, rest) == rest);
    law_absolute_paths_start_at_a_root(windows, drive, rest);
    assert(!is_absolute_path(windows, rest));
    law_relative_paths_go_below(windows, drive, names, rest, none);
}

/// The names left of a relative path are worked out in the same way. A `..` with
/// no name before it is dropped. On Windows this is said of paths without a
/// colon, which might mark a drive.
pub proof fn law_relative_names_are_worked_out_in_order(
    windows: bool,
    body: Seq<char>,
    sep: char,
    name: Seq<char>,
)
    requires
        body.len() > 0,
        body[0] != '/',
        windows ==> body[0] != '\\' && lacks(body, ':') && lacks(name, ':'),
        sep == '/' || (windows && sep == '\\'),
        lacks(name, '/'),
        windows ==> lacks(name, '\\'),
    ensures
        ({
            let so_far = trail_of(windows, body).names;
            let next = trail_of(windows, body.push(sep) + name).names;
            &&& normalized(windows, body) == joined_with(so_far, separator_of(windows))
            &&& name.len() == 0 || name == seq!['.'] ==> next == so_far
            &&& name == seq!['.', '.'] ==> next == if so_far.len() > 0 {
                so_far.drop_last()
            } else {
                so_far
            }
            &&& is_name(windows, name) ==> next == so_far.push(name)
        }),
{
    let b = main_sep(windows);
    let s = body.push(sep) + name;
    let start = Trail { prefix: Seq::empty(), root: false, names: Seq::empty() };
    assert(s[0] == body[0]);
    if windows && s.len() >= 2 {
        assert(s[1] == if body.len() > 1 {
            body[1]
        } else {
            sep
        });
    }
    assert(prefix_len(windows, body) == 0 && prefix_len(windows, s) == 0);
    assert(body.skip(0) =~= body && s.skip(0) =~= s);
    assert(body.take(0) =~= Seq::<char>::empty() && s.take(0) =~= Seq::<char>::empty());
    lemma_fields_join(body, sep, name, '/', b);
    law_text_without_separator_is_one_piece(name, '/', b);
    let before = fields(body, '/', b);
    let all = before + seq![name];
    assert(all.drop_last() =~= before);
    assert(all.last() == name);
    if windows {
        lemma_fields_lack_colon(body, '/', b);
    }
    lemma_walk_without_drives(windows, start, before);
    let t = start.walk(windows, before);
    assert(t.text(windows) =~= joined_with(t.names, separator_of(windows)));
    if windows && name.len() >= 2 {
        assert(name[1] != ':');
    }
    assert(seq!['.', '.'].len() == 2 && seq!['.'].len() == 1);
}

proof fn lemma_fields_lack_colon(s: Seq<char>, a: char, b: char)
    requires
        lacks(s, ':'),
    ensures
        forall|i: int| 0 <= i < fields(s, a, b).len() ==> lacks(#[trigger] fields(s, a, b)[i], ':'),
    decreases s.len(),
{
    let all = fields(s, a, b);
    if s.len() > 0 {
        let shorter = s.drop_last();
        let before = fields(shorter, a, b);
        assert forall|i: int| 0 <= i < shorter.len() implies #[trigger] shorter[i] != ':' by {
            assert(shorter[i] == s[i]);
        }
        lemma_fields_lack_colon(shorter, a, b);
        lemma_fields_not_empty(shorter, a, b);
        assert(s[s.len() - 1] != ':');
        assert forall|i: int| 0 <= i < all.len() implies lacks(#[trigger] all[i], ':') by {
            if i < before.len() - 1 {
                assert(all[i] == before[i]);
            } else if i == before.len() - 1 {
                assert(lacks(before[i], ':'));
                assert(all[i] == before[i] || all[i] == before[i].push(s.last()));
            }
        }
    }
}

proof fn lemma_walk_without_drives(windows: bool, start: Trail, fields: Seq<Seq<char>>)
    requires
        start.prefix.len() == 0 && !start.root,
        windows ==> forall|i: int| 0 <= i < fields.len() ==> lacks(#[trigger] fields[i], ':'),
    ensures
        start.walk(windows, fields).prefix == start.prefix,
        !start.walk(windows, fields).root,
    decreases fields.len(),
{
    if fields.len() > 0 {
        let before = fields.drop_last();
        assert forall|i: int| windows && 0 <= i < before.len() implies lacks(
            #[trigger] before[i],
            ':',
        ) by {
            assert(before[i] == fields[i]);
        }
        lemma_walk_without_drives(windows, start, before);
        if windows {
            let last = fields[fields.len() - 1];
            assert(lacks(last, ':'));
            assert(last.len() >= 2 ==> last[1] != ':');
        }
    }
}

/// Where one of two characters first stands, told from what stands there and
/// before, or from there being none.
proof fn lemma_first_at(s: Seq<char>, a: char, b: char, from: int, at: int)
    requires
        0 <= from <= at <= s.len(),
        at < s.len() ==> s[at] == a || s[at] == b,
        forall|i: int| from <= i < at ==> #[trigger] s[i] != a && s[i] != b,
    ensures
        first_of(s, a, b, from) == at,
    decreases at - from,
{
    if from < at {
        assert(s[from] != a && s[from] != b);
        lemma_first_at(s, a, b, from + 1, at);
    }
}

/// Whether a text is empty or goes on with a backslash.
pub open spec fn goes_on(tail: Seq<char>) -> bool {
    tail.len() == 0 || tail[0] == '\\'
}

/// On Windows `\\server\share` is the prefix of a path on the network, and
/// `\\.\name` that of a device. Both make a path absolute.
pub proof fn law_network_prefixes(server: Seq<char>, share: Seq<char>, tail: Seq<char>)
    requires
        server.len() > 0 && lacks(server, '/') && lacks(server, '\\'),
        share.len() > 0 && lacks(share, '/') && lacks(share, '\\'),
        server != seq!['?'] && server != seq!['.'],
        goes_on(tail),
    ensures
        ({
            let network = seq!['\\', '\\'] + server + seq!['\\'] + share;
            let device = seq!['\\', '\\', '.', '\\'] + share;
            &&& parts(true, network + tail).prefix == network
            &&& parts(true, device + tail).prefix == device
            &&& is_absolute_path(true, network + tail)
            &&& is_absolute_path(true, device + tail)
        }),
{
    let network = seq!['\\', '\\'] + server + seq!['\\'] + share;
    let device = seq!['\\', '\\', '.', '\\'] + share;
    let n = network + tail;
    let d = device + tail;
    let at = 2 + server.len() as int;
    let end = network.len() as int;
    assert(n[0] == '\\' && n[1] == '\\' && n[at] == '\\');
    assert forall|i: int| 2 <= i < at implies #[trigger] n[i] != '/' && n[i] != '\\' by {
        assert(n[i] == server[i - 2]);
    }
    assert forall|i: int| at + 1 <= i < end implies #[trigger] n[i] != '/' && n[i] != '\\' by {
        assert(n[i] == share[i - at - 1]);
    }
    assert(end < n.len() ==> n[end] == tail[0]);
    lemma_first_at(n, '/', '\\', 2, at);
    lemma_first_at(n, '/', '\\', at + 1, end);
    assert(n[2] == server[0]);
    if server.len() == 1 {
        assert(n[2] != '?' && n[2] != '.') by {
            if n[2] == '?' {
                assert(server =~= seq!['?']);
            }
            if n[2] == '.' {
                assert(server =~= seq!['.']);
            }
        }
    } else {
        assert(n[3] == server[1]);
    }
    assert(n.take(end) =~= network);
    let stop = device.len() as int;
    assert(d[0] == '\\' && d[1] == '\\' && d[2] == '.' && d[3] == '\\');
    assert forall|i: int| 4 <= i < stop implies #[trigger] d[i] != '/' && d[i] != '\\' by {
        assert(d[i] == share[i - 4]);
    }
    assert(stop < d.len() ==> d[stop] == tail[0]);
    lemma_first_at(d, '/', '\\', 4, stop);
    assert(d.take(stop) =~= device);
}

/// What an extended-length path starts with.
pub open spec fn extended() -> Seq<char> {
    seq!['\\', '\\', '?', '\\']
}

/// Behind `\\?\` the prefix of a path goes on with a drive, with `UNC`, a server
/// and a share, or with one name. Only a backslash ends these, and separates the
/// names behind them.
pub proof fn law_extended_prefixes(
    drive: char,
    server: Seq<char>,
    share: Seq<char>,
    name: Seq<char>,
    tail: Seq<char>,
)
    requires
        is_drive_letter(drive),
        lacks(server, '\\'),
        lacks(share, '\\'),
        name.len() > 0 && lacks(name, '\\') && !has_drive(name) && name[0] != 'U',
        goes_on(tail),
    ensures
        ({
            let on_drive = extended() + seq![drive, ':'];
            let on_share = extended() + seq!['U', 'N', 'C', '\\'] + server + seq!['\\'] + share;
            let named = extended() + name;
            &&& parts(true, on_drive + tail).prefix == on_drive
            &&& parts(true, on_share + tail).prefix == on_share
            &&& parts(true, named + tail).prefix == named
            &&& tail.len() > 0 ==> parts(true, on_drive + tail).fields == fields(
                tail.skip(1),
                '\\',
                '\\',
            )
            &&& is_absolute_path(true, on_drive + tail)
            &&& is_absolute_path(true, on_share + tail)
            &&& is_absolute_path(true, named + tail)
        }),
{
    let on_drive = extended() + seq![drive, ':'];
    let on_share = extended() + seq!['U', 'N', 'C', '\\'] + server + seq!['\\'] + share;
    let named = extended() + name;
    let a = on_drive + tail;
    assert(a[0] == '\\' && a[1] == '\\' && a[2] == '?' && a[3] == '\\' && a[4] == drive && a[5]
        == ':');
    assert(a.len() > 6 ==> a[6] == tail[0]);
    assert(prefix_len(true, a) == 6);
    assert(a.take(6) =~= on_drive);
    assert(a.skip(6) =~= tail);
    let b = on_share + tail;
    let at = 8 + server.len() as int;
    let end = on_share.len() as int;
    assert(b[0] == '\\' && b[1] == '\\' && b[2] == '?' && b[3] == '\\');
    assert(b[4] == 'U' && b[5] == 'N' && b[6] == 'C' && b[7] == '\\' && b[at] == '\\');
    assert forall|i: int| 8 <= i < at implies #[trigger] b[i] != '\\' by {
        assert(b[i] == server[i - 8]);
    }
    assert forall|i: int| at + 1 <= i < end implies #[trigger] b[i] != '\\' by {
        assert(b[i] == share[i - at - 1]);
    }
    assert(end < b.len() ==> b[end] == tail[0]);
    lemma_first_at(b, '\\', '\\', 8, at);
    lemma_first_at(b, '\\', '\\', at + 1, end);
    assert(b.take(end) =~= on_share);
    let c = named + tail;
    let stop = named.len() as int;
    assert(c[0] == '\\' && c[1] == '\\' && c[2] == '?' && c[3] == '\\' && c[4] == name[0]);
    if name.len() > 1 {
        assert(c[5] == name[1]);
    } else if tail.len() > 0 {
        assert(c[5] == tail[0]);
    }
    assert forall|i: int| 4 <= i < stop implies #[trigger] c[i] != '\\' by {
        assert(c[i] == name[i - 4]);
    }
    assert(stop < c.len() ==> c[stop] == tail[0]);
    lemma_first_at(c, '\\', '\\', 4, stop);
    assert(c.take(stop) =~= named);
}

/// Whether a path is an extended-length one of Windows.
pub open spec fn is_extended(windows: bool, s: Seq<char>) -> bool {
    windows && s.len() >= 4 && s[0] == '\\' && s[1] == '\\' && s[2] == '?' && s[3] == '\\'
}

/// Whatever a folder looks like, a relative path is put behind it, with a
/// separator between unless the folder is empty, ends in one or is a mere drive.
/// Of a path behind `~` the same holds, whatever it looks like.
pub proof fn law_paths_are_put_below(windows: bool, base: Seq<char>, rest: Seq<char>)
    requires
        !is_extended(windows, base),
        rest.len() > 0,
    ensures
        ({
            let ends = base.len() == 0 || base.last() == '/' || (windows && base.last() == '\\');
            let drive = windows && base.len() == 2 && is_drive_letter(base[0]) && base[1] == ':';
            let below = if ends || drive {
                base + rest
            } else {
                base + seq![separator_of(windows)] + rest
            };
            &&& path_below(windows, base, rest) == below
            &&& rest[0] != '/' && (windows ==> rest[0] != '\\' && !has_drive(rest)) ==> path_joined(
                windows,
                base,
                rest,
            ) == below
            &&& home_expanded(windows, Some(base), seq!['~', '/'] + rest) == below
        }),
{
    assert(base.push(main_sep(windows)) + rest =~= base + seq![separator_of(windows)] + rest);
    assert(rest.skip(0) =~= rest);
    let value = seq!['~', '/'] + rest;
    assert(value[0] == '~' && value[1] == '/' && value.len() > 2);
    assert(value.skip(2) =~= rest);
    assert(value != seq!['~']) by {
        assert(value.len() != seq!['~'].len());
    }
    if windows && base.len() == 2 && base[0] == '\\' && base[1] == '\\' {
        assert(base.last() == '\\');
    }
}

/// A folder below an extended-length drive.
pub open spec fn extended_folder(drive: char, names: Seq<Seq<char>>) -> Seq<char> {
    extended() + seq![drive, ':', '\\'] + joined_with(names, '\\')
}

proof fn lemma_extended_folder(drive: char, names: Seq<Seq<char>>)
    requires
        is_drive_letter(drive),
        are_names(true, names),
    ensures
        trail_of(true, extended_folder(drive, names)) == (Trail {
            prefix: extended() + seq![drive, ':'],
            root: true,
            names,
        }),
        prefix_len(true, extended_folder(drive, names)) == 6,
        extended_folder(drive, names).take(6) == extended() + seq![drive, ':'],
        is_verbatim(true, extended_folder(drive, names)),
{
    let prefix = extended() + seq![drive, ':'];
    let t = Trail { prefix, root: true, names };
    let s = prefix + seq!['\\'];
    let text = extended_folder(drive, names);
    assert(s[0] == '\\' && s[1] == '\\' && s[2] == '?' && s[3] == '\\' && s[4] == drive && s[5]
        == ':' && s[6] == '\\');
    assert(prefix_len(true, s) == 6);
    assert(s.take(6) =~= prefix);
    assert(other_sep(true, s) == '\\');
    assert(text =~= t.text(true));
    assert forall|i: int| 0 <= i < names.len() implies is_plain_name(
        '\\',
        '\\',
        #[trigger] names[i],
    ) by {
        assert(is_name(true, names[i]));
    }
    lemma_trail_parts(true, s, t);
    assert(text[0] == '\\' && text[1] == '\\' && text[2] == '?' && text[3] == '\\' && text[4]
        == drive && text[5] == ':' && text[6] == '\\');
    assert(text.take(6) =~= prefix);
    let start = Trail { names: Seq::empty(), ..t };
    if names.len() > 0 {
        lemma_walk_again(true, '\\', '\\', t, names.len() as int);
        assert(names.take(names.len() as int) =~= names);
    } else {
        let empty = seq![Seq::<char>::empty()];
        assert(empty.drop_last() =~= Seq::<Seq<char>>::empty());
        reveal_with_fuel(Trail::walk, 2);
        assert(start.walk(true, empty) == start);
        assert(start =~= t);
    }
}

/// Below an extended-length folder a name is one step down and `..` is worked out
/// at once. A path that starts with a separator starts at its drive.
pub proof fn law_names_below_extended_folders(
    drive: char,
    names: Seq<Seq<char>>,
    name: Seq<char>,
)
    requires
        is_drive_letter(drive),
        are_names(true, names),
        name.len() > 0,
        lacks(name, '/') && lacks(name, '\\'),
    ensures
        ({
            let base = extended_folder(drive, names);
            let below = extended_folder(
                drive,
                if name == seq!['.'] {
                    names
                } else if name == seq!['.', '.'] {
                    if names.len() > 0 {
                        names.drop_last()
                    } else {
                        names
                    }
                } else {
                    names.push(name)
                },
            );
            &&& path_below(true, base, name) == below
            &&& !has_drive(name) ==> path_joined(true, base, name) == below
            &&& is_name(true, name) ==> path_joined(true, base, seq!['\\'] + name)
                == extended_folder(drive, seq![name])
        }),
{
    let base = extended_folder(drive, names);
    let prefix = extended() + seq![drive, ':'];
    let t = Trail { prefix, root: true, names };
    lemma_extended_folder(drive, names);
    law_text_without_separator_is_one_piece(name, '/', '\\');
    let one = seq![name];
    assert(one.drop_last() =~= Seq::<Seq<char>>::empty());
    reveal_with_fuel(Trail::walk, 3);
    assert(t.walk(true, one) == t.step(true, name));
    let next = t.step(true, name);
    assert(next.text(true) =~= extended_folder(drive, next.names));
    assert(seq!['.', '.'].len() == 2 && seq!['.'].len() == 1);
    assert(name.skip(0) =~= name);
    assert(name[0] != '/' && name[0] != '\\');
    if is_name(true, name) {
        let rooted = seq!['\\'] + name;
        let none = Seq::<char>::empty();
        assert(rooted[0] == '\\' && rooted[1] == name[0]);
        assert(prefix_len(true, rooted) == 0);
        assert(rooted.skip(0) =~= rooted);
        assert(rooted =~= none.push('\\') + name);
        lemma_fields_join(none, '\\', name, '/', '\\');
        law_text_without_separator_is_one_piece(none, '/', '\\');
        let two = seq![none] + one;
        assert(two.drop_last() =~= seq![none]);
        assert(two.last() == name);
        assert(seq![none].drop_last() =~= Seq::<Seq<char>>::empty());
        let start = Trail { prefix, root: true, names: Seq::empty() };
        assert(start.walk(true, two) == start.step(true, name));
        assert(start.step(true, name).names =~= seq![name]);
        assert(start.step(true, name).text(true) =~= extended_folder(drive, seq![name]));
    }
}

/// What one more name makes of the names that are left.
pub open spec fn one_more(so_far: Seq<Seq<char>>, name: Seq<char>) -> Seq<Seq<char>> {
    if name.len() == 0 || name == seq!['.'] {
        so_far
    } else if name != seq!['.', '.'] {
        so_far.push(name)
    } else if so_far.len() == 0 {
        so_far
    } else {
        so_far.drop_last()
    }
}

/// Behind a prefix and a root, the names of a path are worked out one by one.
proof fn lemma_names_behind(
    prefix: Seq<char>,
    a: char,
    body: Seq<char>,
    sep: char,
    name: Seq<char>,
)
    requires
        sep == a || sep == '\\',
        lacks(name, a) && lacks(name, '\\'),
        ({
            let root = prefix + seq!['\\'];
            let p = parts(true, root + body);
            let q = parts(true, root + (body.push(sep) + name));
            &&& p.prefix == prefix && p.root && p.fields == fields(body, a, '\\')
            &&& q.prefix == prefix && q.root && q.fields == fields(
                body.push(sep) + name,
                a,
                '\\',
            )
        }),
    ensures
        ({
            let root = prefix + seq!['\\'];
            let so_far = trail_of(true, root + body).names;
            &&& normalized(true, root + body) == root + joined_with(so_far, '\\')
            &&& trail_of(true, root + (body.push(sep) + name)).names == one_more(
                so_far,
                name,
            )
        }),
{
    let root = prefix + seq!['\\'];
    let start = Trail { prefix, root: true, names: Seq::empty() };
    lemma_fields_join(body, sep, name, a, '\\');
    law_text_without_separator_is_one_piece(name, a, '\\');
    let before = fields(body, a, '\\');
    let all = before + seq![name];
    assert(all.drop_last() =~= before);
    assert(all.last() == name);
    lemma_walk_keeps_root(true, start, before);
    let t = start.walk(true, before);
    assert(trail_of(true, root + body) == t);
    assert(t.text(true) =~= root + joined_with(t.names, '\\'));
    assert(seq!['.', '.'].len() == 2 && seq!['.'].len() == 1);
}

/// Paths on a network share are worked out like others, and `..` does not lead
/// out of the share.
pub proof fn law_network_names_are_worked_out_in_order(
    server: Seq<char>,
    share: Seq<char>,
    body: Seq<char>,
    sep: char,
    name: Seq<char>,
)
    requires
        server.len() > 0 && lacks(server, '/') && lacks(server, '\\'),
        share.len() > 0 && lacks(share, '/') && lacks(share, '\\'),
        server != seq!['?'] && server != seq!['.'],
        sep == '/' || sep == '\\',
        lacks(name, '/') && lacks(name, '\\'),
    ensures
        ({
            let root = seq!['\\', '\\'] + server + seq!['\\'] + share + seq!['\\'];
            let so_far = trail_of(true, root + body).names;
            &&& normalized(true, root + body) == root + joined_with(so_far, '\\')
            &&& trail_of(true, root + (body.push(sep) + name)).names == one_more(
                so_far,
                name,
            )
        }),
{
    let prefix = seq!['\\', '\\'] + server + seq!['\\'] + share;
    lemma_network_parts(server, share, body);
    lemma_network_parts(server, share, body.push(sep) + name);
    lemma_names_behind(prefix, '/', body, sep, name);
}

proof fn lemma_network_parts(server: Seq<char>, share: Seq<char>, body: Seq<char>)
    requires
        server.len() > 0 && lacks(server, '/') && lacks(server, '\\'),
        share.len() > 0 && lacks(share, '/') && lacks(share, '\\'),
        server != seq!['?'] && server != seq!['.'],
    ensures
        ({
            let prefix = seq!['\\', '\\'] + server + seq!['\\'] + share;
            let p = parts(true, prefix + seq!['\\'] + body);
            p.prefix == prefix && p.root && p.fields == fields(body, '/', '\\')
        }),
{
    let prefix = seq!['\\', '\\'] + server + seq!['\\'] + share;
    let tail = seq!['\\'] + body;
    let s = prefix + seq!['\\'] + body;
    assert(s =~= prefix + tail);
    law_network_prefixes(server, share, tail);
    let n = prefix_len(true, s);
    lemma_prefix_len(true, s);
    assert(parts(true, s).prefix.len() == n);
    assert(s.skip(n) =~= tail);
    assert(tail.skip(1) =~= body);
    assert(!is_verbatim(true, s)) by {
        assert(s[2] == server[0]);
        if server.len() == 1 {
            assert(server =~= seq![server[0]]);
        } else {
            assert(s[3] == server[1]);
        }
    }
}

/// Extended-length paths on a drive are worked out like others, but that only a
/// backslash separates their names.
pub proof fn law_extended_names_are_worked_out_in_order(
    drive: char,
    body: Seq<char>,
    name: Seq<char>,
)
    requires
        is_drive_letter(drive),
        lacks(name, '\\'),
    ensures
        ({
            let root = extended() + seq![drive, ':'] + seq!['\\'];
            let so_far = trail_of(true, root + body).names;
            &&& normalized(true, root + body) == root + joined_with(so_far, '\\')
            &&& trail_of(true, root + (body.push('\\') + name)).names == one_more(
                so_far,
                name,
            )
        }),
{
    let prefix = extended() + seq![drive, ':'];
    lemma_extended_parts(drive, body);
    lemma_extended_parts(drive, body.push('\\') + name);
    lemma_names_behind(prefix, '\\', body, '\\', name);
}

proof fn lemma_extended_parts(drive: char, body: Seq<char>)
    requires
        is_drive_letter(drive),
    ensures
        ({
            let prefix = extended() + seq![drive, ':'];
            let p = parts(true, prefix + seq!['\\'] + body);
            p.prefix == prefix && p.root && p.fields == fields(body, '\\', '\\')
        }),
{
    let prefix = extended() + seq![drive, ':'];
    let tail = seq!['\\'] + body;
    let s = prefix + seq!['\\'] + body;
    assert(s =~= prefix + tail);
    let none = Seq::<char>::empty();
    law_extended_prefixes(drive, none, none, seq!['x'], tail);
    assert(tail.skip(1) =~= body);
    let n = prefix_len(true, s);
    lemma_prefix_len(true, s);
    assert(parts(true, s).prefix.len() == n);
    assert(s.skip(n) =~= tail);
}

/// A folder on a network share.
pub open spec fn network_folder(
    server: Seq<char>,
    share: Seq<char>,
    names: Seq<Seq<char>>,
) -> Seq<char> {
    seq!['\\', '\\'] + server + seq!['\\'] + share + seq!['\\'] + joined_with(names, '\\')
}

proof fn lemma_network_folder(server: Seq<char>, share: Seq<char>, names: Seq<Seq<char>>)
    requires
        server.len() > 0 && lacks(server, '/') && lacks(server, '\\'),
        share.len() > 0 && lacks(share, '/') && lacks(share, '\\'),
        server != seq!['?'] && server != seq!['.'],
        are_names(true, names),
    ensures
        ({
            let p = parts(true, network_folder(server, share, names));
            &&& p.prefix == seq!['\\', '\\'] + server + seq!['\\'] + share
            &&& p.root
            &&& p.names() == names
            &&& names.len() > 0 ==> p.fields == names
            &&& all_plain('/', '\\', names)
        }),
{
    let prefix = seq!['\\', '\\'] + server + seq!['\\'] + share;
    let none = Seq::<char>::empty();
    let s = prefix + seq!['\\'] + none;
    let t = Trail { prefix, root: true, names };
    lemma_network_parts(server, share, none);
    lemma_prefix_len(true, s);
    assert(s.take(prefix_len(true, s)) == prefix);
    assert(!is_verbatim(true, s)) by {
        assert(s[2] == server[0]);
        if server.len() == 1 {
            assert(server =~= seq![server[0]]);
        } else {
            assert(s[3] == server[1]);
        }
    }
    assert forall|i: int| 0 <= i < names.len() implies is_plain_name(
        '/',
        '\\',
        #[trigger] names[i],
    ) by {
        assert(is_name(true, names[i]));
    }
    assert(network_folder(server, share, names) =~= t.text(true));
    lemma_trail_parts(true, s, t);
    lemma_busy_plain('/', '\\', names);
    if names.len() == 0 {
        let empty = seq![none];
        assert(empty.drop_last() =~= Seq::<Seq<char>>::empty());
        reveal_with_fuel(busy, 2);
        assert(busy(empty) =~= names);
    }
}

/// A home folder on a network share is shown as `~` too, and what is below it
/// behind `~/`.
pub proof fn law_network_homes_are_shown_short(
    server: Seq<char>,
    share: Seq<char>,
    names: Seq<Seq<char>>,
    tail: Seq<Seq<char>>,
)
    requires
        server.len() > 0 && lacks(server, '/') && lacks(server, '\\'),
        share.len() > 0 && lacks(share, '/') && lacks(share, '\\'),
        server != seq!['?'] && server != seq!['.'],
        are_names(true, names),
        are_names(true, tail),
        tail.len() > 0,
    ensures
        ({
            let home = network_folder(server, share, names);
            &&& shown_folder(true, Some(home), home) == seq!['~']
            &&& shown_folder(true, Some(home), network_folder(server, share, names + tail)) == seq![
                '~',
                '/',
            ] + replaced(joined_with(tail, '/'), '\\', '/')
        }),
{
    let home = network_folder(server, share, names);
    let all = names + tail;
    let cwd = network_folder(server, share, all);
    assert forall|i: int| 0 <= i < all.len() implies is_name(true, #[trigger] all[i]) by {
        if i < names.len() {
            assert(all[i] == names[i]);
        } else {
            assert(all[i] == tail[i - names.len()]);
        }
    }
    lemma_network_folder(server, share, names);
    lemma_network_folder(server, share, all);
    lemma_network_folder(server, share, tail);
    let path = parts(true, cwd);
    let base = parts(true, home);
    assert(same_path(base, base));
    assert(path.names() != base.names()) by {
        assert(all.len() > names.len());
    }
    assert(base.names() =~= path.names().subrange(0, base.names().len() as int));
    assert(begins_with(path, base));
    lemma_after_plain(names, tail, true);
    assert(!path.dot_first());
    assert(left_over(path, base) == joined_with(tail, '/'));
}

/// A path that starts with a drive but not at its root is taken as it is from
/// any folder, and is worked out behind its drive.
pub proof fn law_paths_on_a_drive_are_worked_out_behind_it(
    drive: char,
    base: Seq<char>,
    body: Seq<char>,
    sep: char,
    name: Seq<char>,
)
    requires
        is_drive_letter(drive),
        body.len() > 0 && body[0] != '/' && body[0] != '\\',
        sep == '/' || sep == '\\',
        lacks(name, '/') && lacks(name, '\\'),
    ensures
        ({
            let on = seq![drive, ':'];
            let so_far = trail_of(true, on + body).names;
            &&& path_joined(true, base, on + body) == on + body
            &&& normalized(true, on + body) == on + joined_with(so_far, '\\')
            &&& trail_of(true, on + (body.push(sep) + name)).names == one_more(so_far, name)
            &&& normalized(true, on) == on
        }),
{
    let on = seq![drive, ':'];
    let start = Trail { prefix: on, root: false, names: Seq::empty() };
    let none = Seq::<char>::empty();
    lemma_drive_parts(drive, body);
    lemma_drive_parts(drive, body.push(sep) + name);
    lemma_drive_parts(drive, none);
    assert((body.push(sep) + name)[0] == body[0]);
    lemma_fields_join(body, sep, name, '/', '\\');
    law_text_without_separator_is_one_piece(name, '/', '\\');
    law_text_without_separator_is_one_piece(none, '/', '\\');
    let before = fields(body, '/', '\\');
    let all = before + seq![name];
    assert(all.drop_last() =~= before);
    assert(all.last() == name);
    lemma_walk_on_drive(start, before);
    let t = start.walk(true, before);
    assert(trail_of(true, on + body) == t);
    assert(t.text(true) =~= on + joined_with(t.names, '\\'));
    let one = seq![none];
    assert(one.drop_last() =~= Seq::<Seq<char>>::empty());
    reveal_with_fuel(Trail::walk, 2);
    assert(start.walk(true, one) == start);
    assert(on + none =~= on);
    assert(start.text(true) =~= on);
    assert(seq!['.', '.'].len() == 2 && seq!['.'].len() == 1);
}

proof fn lemma_drive_parts(drive: char, body: Seq<char>)
    requires
        is_drive_letter(drive),
        body.len() == 0 || (body[0] != '/' && body[0] != '\\'),
    ensures
        ({
            let p = parts(true, seq![drive, ':'] + body);
            p.prefix == seq![drive, ':'] && !p.root && !p.shows_root() && p.fields == fields(
                body,
                '/',
                '\\',
            )
        }),
{
    let s = seq![drive, ':'] + body;
    assert(s[0] == drive && s[1] == ':');
    assert(s.take(2) =~= seq![drive, ':']);
    assert(s.skip(2) =~= body);
}

proof fn lemma_walk_on_drive(start: Trail, fields: Seq<Seq<char>>)
    requires
        start.prefix.len() == 2,
        !start.root,
    ensures
        start.walk(true, fields).prefix == start.prefix,
        !start.walk(true, fields).root,
    decreases fields.len(),
{
    if fields.len() > 0 {
        lemma_walk_on_drive(start, fields.drop_last());
    }
}

} // verus!
