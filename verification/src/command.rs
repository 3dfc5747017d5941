//! What a typed line tells of the working directory.
use vstd::prelude::*;

use crate::path::{
    after_names, begins_with, busy, collapse, home_collapsed, is_absolute, is_absolute_path, is_sep,
    is_verbatim, join_path, left_over, lemma_prefix_len, logical_normalize, main_sep, normalized,
    parts, path_below, path_joined, prefix_len, put_below, same_path, starts_with_drive,
    without_idle_end,
};
use crate::path_laws::{lemma_after_names, lemma_busy_add, lemma_left_over_fields};
use crate::shell::text_in;
use crate::text::{
    chars_of, copy_text, fields, is_space, is_white_space, joined_with, lemma_fields_join, lower,
    part, replaced, string_of, to_lower, trim, trim_start, trimmed, trimmed_start,
};

verus! {

/// The machine a shell runs on: its kind, the user's home folder and the
/// folder for state files, where they are known.
pub struct Platform {
    pub windows: bool,
    pub home: Option<String>,
    pub state_home: Option<String>,
}

/// What a path says behind `~`, if it starts there.
pub open spec fn behind_tilde(windows: bool, value: Seq<char>) -> Option<Seq<char>> {
    if value == seq!['~'] {
        Some(Seq::empty())
    } else if value.len() >= 2 && value[0] == '~' && (value[1] == '/' || (windows && value[1]
        == '\\')) {
        Some(value.skip(2))
    } else {
        None
    }
}

/// A path with a leading `~` replaced by the home folder, if that is known. What
/// follows is always below that folder.
pub open spec fn home_expanded(
    windows: bool,
    home: Option<Seq<char>>,
    value: Seq<char>,
) -> Seq<char> {
    match (behind_tilde(windows, value), home) {
        (Some(rest), Some(home)) => if rest.len() == 0 {
            home
        } else {
            path_below(windows, home, rest)
        },
        _ => value,
    }
}

/// Replaces a leading `~` or `~/` by the home folder (on Windows also `~\`).
/// Any other path stays as it is.
pub fn expand_home(value: &str, platform: &Platform) -> (path: String)
    ensures
        path@ == home_expanded(platform.windows, text_in(platform.home), value@),
{
    string_of(expand(chars_of(value).as_slice(), platform).as_slice())
}

/// Replaces a leading `~` by the home folder.
fn expand(value: &[char], platform: &Platform) -> (path: Vec<char>)
    ensures
        path@ == home_expanded(platform.windows, text_in(platform.home), value@),
{
    let n = value.len();
    let rest: Vec<char> = if n == 1 && value[0] == '~' {
        assert(value@ =~= seq!['~']);
        Vec::new()
    } else if n >= 2 && value[0] == '~' && (value[1] == '/' || (platform.windows && value[1]
        == '\\')) {
        part(value, 2, n)
    } else {
        return part(value, 0, n);
    };
    match &platform.home {
        Some(home) => {
            if rest.len() == 0 {
                chars_of(home.as_str())
            } else {
                put_below(platform.windows, chars_of(home.as_str()).as_slice(), rest.as_slice())
            }
        },
        None => part(value, 0, n),
    }
}

/// A text without a pair of quotes of one kind around it.
pub open spec fn unquoted(s: Seq<char>) -> Seq<char> {
    if s.len() >= 2 && s[0] == s.last() && (s[0] == '"' || s[0] == '\'') {
        s.subrange(1, s.len() - 1)
    } else {
        s
    }
}

/// Removes one pair of quotes of one kind around a text.
pub fn strip_surrounding_quotes(s: &str) -> (inner: String)
    ensures
        inner@ == unquoted(s@),
{
    string_of(strip_quotes(chars_of(s).as_slice()).as_slice())
}

/// Removes one pair of quotes of one kind around a text.
fn strip_quotes(s: &[char]) -> (inner: Vec<char>)
    ensures
        inner@ == unquoted(s@),
{
    let n = s.len();
    if n >= 2 && s[0] == s[n - 1] && (s[0] == '"' || s[0] == '\'') {
        part(s, 1, n - 1)
    } else {
        part(s, 0, n)
    }
}

/// What stands behind a word of two letters, in either case, at the start of a
/// text, without the white space between.
pub open spec fn behind_word(s: Seq<char>, a: char, b: char) -> Option<Seq<char>> {
    if s.len() >= 2 && lower(s[0]) == a && lower(s[1]) == b && (s.len() == 2 || is_space(s[2])) {
        Some(trimmed_start(s.skip(2)))
    } else {
        None
    }
}

/// What stands behind a word of two letters at the start of a text.
fn after_word(s: &[char], a: char, b: char) -> (rest: Option<Vec<char>>)
    ensures
        match rest {
            Some(r) => behind_word(s@, a, b) == Some(r@),
            None => behind_word(s@, a, b) is None,
        },
{
    let n = s.len();
    if n >= 2 && to_lower(s[0]) == a && to_lower(s[1]) == b && (n == 2 || is_white_space(s[2])) {
        Some(trim_start(part(s, 2, n).as_slice()))
    } else {
        None
    }
}

/// What `cd` is asked for in a line, if the line is a `cd` command. On Windows
/// the flag `/d` is left out.
pub open spec fn cd_argument(windows: bool, line: Seq<char>) -> Option<Seq<char>> {
    match behind_word(trimmed(line), 'c', 'd') {
        Some(rest) => match behind_word(rest, '/', 'd') {
            Some(target) if windows => Some(target),
            _ => Some(rest),
        },
        None => None,
    }
}

/// Where a `cd` leads from a folder: home without an argument, else the folder
/// it names.
pub open spec fn cd_target(
    windows: bool,
    home: Option<Seq<char>>,
    argument: Seq<char>,
    base: Seq<char>,
) -> Option<Seq<char>> {
    if argument.len() == 0 {
        home
    } else {
        let named = home_expanded(windows, home, unquoted(argument));
        Some(
            normalized(
                windows,
                if is_absolute_path(windows, named) {
                    named
                } else {
                    path_joined(windows, base, named)
                },
            ),
        )
    }
}

/// The folder a line changes to from `base`, if it is a `cd` command that
/// leads anywhere.
pub open spec fn cd_result(
    windows: bool,
    home: Option<Seq<char>>,
    line: Seq<char>,
    base: Seq<char>,
) -> Option<Seq<char>> {
    match cd_argument(windows, line) {
        Some(argument) => cd_target(windows, home, argument, base),
        None => None,
    }
}

/// If `line` is a `cd` command, the folder it changes to from `base`. `None`
/// for any other command.
///
/// Handles `cd` alone (home), quotes around the path, `~`, and on Windows the
/// flag `/d`. `.` and `..` are worked out without looking at any file, so a
/// folder that does not exist also counts.
pub fn parse_cd(line: &str, base: &str, platform: &Platform) -> (cwd: Option<String>)
    ensures
        text_in(cwd) == cd_result(platform.windows, text_in(platform.home), line@, base@),
{
    let trimmed_line = trim(chars_of(line).as_slice());
    let mut rest = match after_word(trimmed_line.as_slice(), 'c', 'd') {
        Some(rest) => rest,
        None => {
            return None;
        },
    };
    if platform.windows {
        if let Some(target) = after_word(rest.as_slice(), '/', 'd') {
            rest = target;
        }
    }
    if rest.len() == 0 {
        return match &platform.home {
            Some(home) => Some(copy_text(home.as_str())),
            None => None,
        };
    }
    let named = expand(strip_quotes(rest.as_slice()).as_slice(), platform);
    let candidate = if is_absolute(platform.windows, named.as_slice()) {
        named
    } else {
        join_path(platform.windows, chars_of(base).as_slice(), named.as_slice())
    };
    Some(
        string_of(logical_normalize(platform.windows, candidate.as_slice()).as_slice()),
    )
}

/// A folder as a prompt shows it.
pub open spec fn shown_folder(
    windows: bool,
    home: Option<Seq<char>>,
    cwd: Seq<char>,
) -> Seq<char> {
    match home {
        Some(home) => home_collapsed(windows, home, cwd),
        None => cwd,
    }
}

/// A folder as a prompt shows it, with the home folder written `~`.
pub fn collapse_home(cwd: &str, platform: &Platform) -> (shown: String)
    ensures
        shown@ == shown_folder(platform.windows, text_in(platform.home), cwd@),
{
    match &platform.home {
        Some(home) => string_of(
            collapse(
                platform.windows,
                chars_of(home.as_str()).as_slice(),
                chars_of(cwd).as_slice(),
            ).as_slice(),
        ),
        None => copy_text(cwd),
    }
}

/// Whether a path is absolute and, on Windows, on a drive.
pub open spec fn is_absolute_on_drive(windows: bool, s: Seq<char>) -> bool {
    parts(windows, s).root && (windows ==> starts_with_drive(s))
}

/// What a home folder and something below it are made of.
proof fn lemma_below_home(windows: bool, home: Seq<char>, rest: Seq<char>)
    requires
        is_absolute_on_drive(windows, home),
        rest.len() > 0,
    ensures
        ({
            let all = parts(windows, path_below(windows, home, rest));
            let base = parts(windows, home);
            &&& all.prefix == base.prefix
            &&& all.root
            &&& all.names() == base.names() + busy(fields(rest, '/', main_sep(windows)))
        }),
{
    let sep = main_sep(windows);
    let full = path_below(windows, home, rest);
    let n = prefix_len(windows, home);
    let inner = home.skip(n).skip(1);
    assert(!is_verbatim(windows, home));
    lemma_prefix_len(windows, home);
    assert(full[0] == home[0]);
    if windows {
        assert(full[1] == home[1]);
    }
    assert(prefix_len(windows, full) == n);
    assert(!is_verbatim(windows, full));
    assert(full.take(n) =~= home.take(n));
    assert(home.skip(n)[0] == home[n]);
    assert(full.skip(n)[0] == home[n]);
    let body = full.skip(n).skip(1);
    let below = fields(rest, '/', sep);
    if home.len() == n + 1 {
        assert(home.last() == home[n]);
        assert(body =~= rest);
        assert(inner =~= Seq::empty());
        let none = seq![Seq::<char>::empty()];
        assert(fields(inner, '/', sep) =~= none);
        assert(none.drop_last() =~= Seq::<Seq<char>>::empty());
        reveal_with_fuel(busy, 2);
        assert(busy(none) =~= Seq::<Seq<char>>::empty());
        assert(Seq::<Seq<char>>::empty() + busy(below) =~= busy(below));
    } else if is_sep(windows, home.last()) {
        let x = inner.drop_last();
        assert(inner.last() == home.last());
        assert(body =~= x.push(home.last()) + rest);
        lemma_fields_join(x, home.last(), rest, '/', sep);
        lemma_busy_add(fields(x, '/', sep), below);
        assert(fields(inner, '/', sep) == fields(x, '/', sep).push(Seq::empty()));
        assert(fields(x, '/', sep).push(Seq::<char>::empty()).drop_last() =~= fields(x, '/', sep));
    } else {
        assert(!(home.len() == 2 && prefix_len(windows, home) == 2));
        assert(body =~= inner.push(sep) + rest);
        lemma_fields_join(inner, sep, rest, '/', sep);
        lemma_busy_add(fields(inner, '/', sep), below);
    }
}

/// Expanding undoes collapsing: a folder that a prompt shows, typed again,
/// leads to the same folder, whether it is home, below it or elsewhere. On
/// Unix this leaves out names with a backslash, which a prompt shows as a
/// separator; on Windows it is said of homes on a drive.
pub proof fn law_expanding_undoes_collapsing(windows: bool, home: Seq<char>, p: Seq<char>)
    requires
        is_absolute_on_drive(windows, home),
        is_absolute_path(windows, p),
        !windows ==> !p.contains('\\'),
    ensures
        same_path(
            parts(
                windows,
                home_expanded(windows, Some(home), shown_folder(windows, Some(home), p)),
            ),
            parts(windows, p),
        ),
{
    let sep = main_sep(windows);
    let path = parts(windows, p);
    let base = parts(windows, home);
    let shown = shown_folder(windows, Some(home), p);
    lemma_prefix_len(windows, home);
    lemma_prefix_len(windows, p);
    if windows {
        assert(base.prefix.len() == 2);
    } else {
        assert(base.prefix =~= Seq::empty() && path.prefix =~= Seq::empty());
    }
    assert(base.shows_root());
    if same_path(path, base) {
    } else if begins_with(path, base) {
        let n = base.names().len();
        let tail = without_idle_end(after_names(path.fields, n));
        let rest = left_over(path, base);
        assert(rest == joined_with(tail, '/'));
        assert(!is_verbatim(windows, p)) by {
            if is_verbatim(windows, p) {
                let m = prefix_len(windows, p);
                assert(p.take(m)[0] == p[0] && p.take(m)[1] == p[1] && p.take(m)[2] == p[2]
                    && p.take(m)[3] == p[3]);
                assert(is_verbatim(true, path.prefix));
                assert(base.prefix.len() == 2);
            }
        }
        assert(!path.dot_first());
        lemma_after_names(path.fields, n);
        lemma_left_over_fields(windows, p, n);
        assert(base.names() =~= path.names().take(n as int));
        if tail.len() == 0 {
            assert(busy(tail) =~= Seq::<Seq<char>>::empty());
            assert(path.names() =~= base.names());
            assert(false);
        }
        assert forall|i: int| 0 <= i < rest.len() implies rest[i] != '\\' by {
            assert(rest.contains(rest[i]));
        }
        assert(replaced(rest, '\\', '/') =~= rest);
        assert(fields(rest, '/', sep) == tail);
        if rest.len() == 0 {
            let none = seq![Seq::<char>::empty()];
            assert(fields(rest, '/', sep) =~= none);
            assert(none.drop_last() =~= Seq::<Seq<char>>::empty());
            reveal_with_fuel(busy, 2);
            assert(busy(tail) =~= Seq::<Seq<char>>::empty());
            assert(path.names() =~= base.names());
            assert(false);
        }
        let value = seq!['~', '/'] + rest;
        assert(shown == value);
        assert(value[1] == '/');
        assert(value.skip(2) =~= rest);
        assert(value != seq!['~']) by {
            assert(value.len() > 1);
        }
        lemma_below_home(windows, home, rest);
        assert(base.names() + path.names().skip(n as int) =~= path.names());
    } else {
        assert(p[0] != '~');
        assert(shown == p);
        assert(p != seq!['~']);
    }
}

} // verus!
