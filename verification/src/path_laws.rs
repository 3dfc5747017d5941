//! What holds of paths that are worked out, collapsed and expanded.
use vstd::prelude::*;

use crate::path::{
    after_names, begins_with, busy, canonical_prefix, first_of, home_collapsed, is_absolute_path,
    is_idle, is_sep, is_verbatim, is_verbatim_drive, is_verbatim_share, lemma_first_of,
    lemma_prefix_len, main_sep, normalized, other_sep, parts, prefix_len, same_path,
    starts_with_drive, trail_of, without_idle_end, PathParts, Trail,
};
use crate::text::{fields, joined_with, lemma_fields_grow};

verus! {

/// Whether a text holds neither of two separators.
pub open spec fn is_sep_free(a: char, b: char, s: Seq<char>) -> bool {
    forall|i: int| 0 <= i < s.len() ==> #[trigger] s[i] != a && s[i] != b
}

/// Whether a field is the name of a file or folder.
pub open spec fn is_plain_name(a: char, b: char, s: Seq<char>) -> bool {
    &&& !is_idle(s)
    &&& s != seq!['.', '.']
    &&& is_sep_free(a, b, s)
}

/// Whether all fields are plain names.
pub open spec fn all_plain(a: char, b: char, names: Seq<Seq<char>>) -> bool {
    forall|i: int| 0 <= i < names.len() ==> is_plain_name(a, b, #[trigger] names[i])
}

/// Whether a trail consists of plain names, and its first name cannot be taken
/// for a drive.
pub open spec fn is_plain_trail(windows: bool, a: char, b: char, t: Trail) -> bool {
    &&& all_plain(a, b, t.names)
    &&& windows && t.prefix.len() == 0 && !t.root && t.names.len() > 0 ==> !starts_with_drive(
        t.names[0],
    )
}

/// No field holds a separator.
proof fn lemma_fields_sep_free(a: char, b: char, s: Seq<char>)
    ensures
        fields(s, a, b).len() > 0,
        forall|i: int|
            0 <= i < fields(s, a, b).len() ==> is_sep_free(a, b, #[trigger] fields(s, a, b)[i]),
    decreases s.len(),
{
    let all = fields(s, a, b);
    if s.len() > 0 {
        let before = fields(s.drop_last(), a, b);
        lemma_fields_sep_free(a, b, s.drop_last());
        assert forall|i: int| 0 <= i < all.len() implies is_sep_free(a, b, #[trigger] all[i]) by {
            if i < before.len() - 1 {
                assert(all[i] == before[i]);
            } else if i == before.len() - 1 {
                assert(is_sep_free(a, b, before[i]));
                assert(all[i] == before[i] || all[i] == before[i].push(s.last()));
            }
        }
    }
}

/// Names that were joined come apart again.
proof fn lemma_join_then_split(a: char, b: char, sep: char, names: Seq<Seq<char>>)
    requires
        sep == a || sep == b,
        names.len() > 0,
        forall|i: int| 0 <= i < names.len() ==> is_sep_free(a, b, #[trigger] names[i]),
    ensures
        fields(joined_with(names, sep), a, b) == names,
    decreases names.len(),
{
    if names.len() == 1 {
        assert(is_sep_free(a, b, names[0]));
        lemma_fields_grow(Seq::empty(), names[0], a, b);
        assert(Seq::<char>::empty() + names[0] =~= names[0]);
        assert(fields(Seq::empty(), a, b) =~= seq![Seq::<char>::empty()]);
        assert(fields(names[0], a, b) =~= names);
    } else {
        let before = names.drop_last();
        assert forall|i: int| 0 <= i < before.len() implies is_sep_free(
            a,
            b,
            #[trigger] before[i],
        ) by {
            assert(before[i] == names[i]);
        }
        lemma_join_then_split(a, b, sep, before);
        let text = joined_with(before, sep);
        assert(text.push(sep).drop_last() =~= text);
        assert(fields(text.push(sep), a, b) == before.push(Seq::empty()));
        assert(is_sep_free(a, b, names[names.len() - 1]));
        lemma_fields_grow(text.push(sep), names.last(), a, b);
        assert(before.push(Seq::<char>::empty()).drop_last() =~= before);
        assert(Seq::<char>::empty() + names.last() =~= names.last());
        assert(before.push(names.last()) =~= names);
    }
}

/// Joined names begin with the first of them and a separator.
proof fn lemma_join_starts(names: Seq<Seq<char>>, sep: char)
    requires
        names.len() > 0,
    ensures
        joined_with(names, sep).len() >= names[0].len(),
        names.len() == 1 ==> joined_with(names, sep) == names[0],
        names.len() > 1 ==> joined_with(names, sep).len() > names[0].len() && joined_with(
            names,
            sep,
        )[names[0].len() as int] == sep,
        forall|i: int|
            0 <= i < names[0].len() ==> #[trigger] joined_with(names, sep)[i] == names[0][i],
    decreases names.len(),
{
    if names.len() > 1 {
        let before = names.drop_last();
        lemma_join_starts(before, sep);
        let text = joined_with(before, sep);
        let all = joined_with(names, sep);
        assert(all =~= text.push(sep) + names.last());
        assert forall|i: int| 0 <= i < names[0].len() implies #[trigger] all[i] == names[0][i] by {
            assert(all[i] == text[i]);
        }
        if names.len() > 2 {
            assert(all[names[0].len() as int] == text[names[0].len() as int]);
        }
    }
}

/// Where one of two characters first stands, told from what stands there and
/// before.
proof fn lemma_first_of_is(s: Seq<char>, a: char, b: char, from: int, at: int)
    requires
        0 <= from <= at < s.len(),
        s[at] == a || s[at] == b,
        forall|i: int| from <= i < at ==> #[trigger] s[i] != a && s[i] != b,
    ensures
        first_of(s, a, b, from) == at,
    decreases at - from,
{
    if from < at {
        lemma_first_of_is(s, a, b, from + 1, at);
    }
}

/// Walking over fields leaves a plain trail. It keeps the prefix and the root,
/// unless there were none and a drive became the prefix.
proof fn lemma_walk_is_plain(
    windows: bool,
    a: char,
    b: char,
    start: Trail,
    fields: Seq<Seq<char>>,
)
    requires
        is_plain_trail(windows, a, b, start),
        forall|i: int| 0 <= i < fields.len() ==> is_sep_free(a, b, #[trigger] fields[i]),
    ensures
        is_plain_trail(windows, a, b, start.walk(windows, fields)),
        ({
            let end = start.walk(windows, fields);
            ||| end.prefix == start.prefix && end.root == start.root
            ||| windows && start.prefix.len() == 0 && !start.root && !end.root && end.prefix.len()
                == 2 && starts_with_drive(end.prefix)
        }),
    decreases fields.len(),
{
    if fields.len() > 0 {
        let before = fields.drop_last();
        assert forall|i: int| 0 <= i < before.len() implies is_sep_free(
            a,
            b,
            #[trigger] before[i],
        ) by {
            assert(before[i] == fields[i]);
        }
        lemma_walk_is_plain(windows, a, b, start, before);
        let mid = start.walk(windows, before);
        let field = fields.last();
        let end = mid.step(windows, field);
        assert(is_sep_free(a, b, fields[fields.len() - 1]));
        if windows && starts_with_drive(field) && mid.at_start() {
            let rest = field.skip(2);
            assert forall|i: int| 0 <= i < rest.len() implies #[trigger] rest[i] != a && rest[i]
                != b by {
                assert(rest[i] == field[i + 2]);
            }
        }
        assert forall|i: int| 0 <= i < end.names.len() implies is_plain_name(
            a,
            b,
            #[trigger] end.names[i],
        ) by {
            if i < mid.names.len() {
                assert(end.names[i] == mid.names[i]);
            }
        }
    }
}

/// Walking over the names of a plain trail brings it back.
pub proof fn lemma_walk_again(windows: bool, a: char, b: char, t: Trail, n: int)
    requires
        is_plain_trail(windows, a, b, t),
        0 <= n <= t.names.len(),
    ensures
        (Trail { names: Seq::empty(), ..t }).walk(windows, t.names.take(n)) == (Trail {
            names: t.names.take(n),
            ..t
        }),
    decreases n,
{
    let start = Trail { names: Seq::empty(), ..t };
    if n == 0 {
        assert(t.names.take(0) =~= Seq::empty());
    } else {
        lemma_walk_again(windows, a, b, t, n - 1);
        assert(t.names.take(n).drop_last() =~= t.names.take(n - 1));
        assert(is_plain_name(a, b, t.names[n - 1]));
        assert(t.names.take(n - 1).push(t.names[n - 1]) =~= t.names.take(n));
        if n > 1 {
            assert(t.names.take(n - 1).len() > 0);
        }
    }
}

/// All plain names name something.
pub proof fn lemma_busy_plain(a: char, b: char, names: Seq<Seq<char>>)
    requires
        all_plain(a, b, names),
    ensures
        busy(names) == names,
    decreases names.len(),
{
    if names.len() > 0 {
        let before = names.drop_last();
        assert forall|i: int| 0 <= i < before.len() implies is_plain_name(
            a,
            b,
            #[trigger] before[i],
        ) by {
            assert(before[i] == names[i]);
        }
        lemma_busy_plain(a, b, before);
        assert(is_plain_name(a, b, names[names.len() - 1]));
        assert(before.push(names.last()) =~= names);
    }
}

/// A long prefix ends where it ended, as long as a separator follows it.
proof fn lemma_verbatim_prefix_stays(s: Seq<char>, text: Seq<char>)
    requires
        is_verbatim(true, s),
        prefix_len(true, s) < s.len(),
        prefix_len(true, s) < text.len(),
        text[prefix_len(true, s)] == '\\',
        forall|i: int| 0 <= i < prefix_len(true, s) ==> #[trigger] text[i] == s[i],
    ensures
        prefix_len(true, text) == prefix_len(true, s),
        is_verbatim(true, text),
{
    let n = prefix_len(true, s);
    lemma_prefix_len(true, s);
    assert(text[0] == s[0] && text[1] == s[1] && text[2] == s[2] && text[3] == s[3]);
    lemma_first_of(s, '\\', '\\', 4);
    if is_verbatim_share(s) {
        let server_end = first_of(s, '\\', '\\', 8);
        lemma_first_of(s, '\\', '\\', 8);
        lemma_first_of(s, '\\', '\\', server_end + 1);
        assert(text[4] == s[4] && text[5] == s[5] && text[6] == s[6] && text[7] == s[7]);
        lemma_first_of_is(text, '\\', '\\', 8, server_end);
        lemma_first_of_is(text, '\\', '\\', server_end + 1, n);
    } else if is_verbatim_drive(s) {
        assert(text[4] == s[4] && text[5] == s[5]);
    } else {
        if n > 4 {
            assert(text[4] == s[4]);
        }
        if n > 5 {
            assert(text[5] == s[5]);
        }
        if n > 6 {
            assert(text[6] == s[6]);
        }
        if n > 7 {
            assert(text[7] == s[7]);
        }
        lemma_first_of_is(text, '\\', '\\', 4, n);
    }
}

proof fn lemma_network_prefix_stays(s: Seq<char>, text: Seq<char>)
    requires
        !is_verbatim(true, s),
        prefix_len(true, s) > 2,
        prefix_len(true, s) < text.len(),
        text[prefix_len(true, s)] == '\\',
        forall|i: int| 0 <= i < prefix_len(true, s) ==> #[trigger] text[i] == s[i],
    ensures
        prefix_len(true, text) == prefix_len(true, s),
        !is_verbatim(true, text),
{
    let n = prefix_len(true, s);
    lemma_prefix_len(true, s);
    lemma_first_of(s, '/', '\\', 4);
    let server_end = first_of(s, '/', '\\', 2);
    lemma_first_of(s, '/', '\\', 2);
    lemma_first_of(s, '/', '\\', server_end + 1);
    assert(text[0] == s[0] && text[1] == s[1] && text[2] == s[2] && text[3] == s[3]);
    if s[2] == '.' && is_sep(true, s[3]) {
        lemma_first_of_is(text, '/', '\\', 4, n);
    } else {
        lemma_first_of_is(text, '/', '\\', 2, server_end);
        lemma_first_of_is(text, '/', '\\', server_end + 1, n);
    }
}

/// What stands behind the prefix of an extended-length path starts with a
/// separator.
proof fn lemma_verbatim_rest(s: Seq<char>)
    requires
        is_verbatim(true, s),
        prefix_len(true, s) < s.len(),
    ensures
        is_sep(true, s[prefix_len(true, s)]),
{
    lemma_prefix_len(true, s);
    lemma_first_of(s, '\\', '\\', 4);
    lemma_first_of(s, '\\', '\\', 8);
    lemma_first_of(s, '\\', '\\', first_of(s, '\\', '\\', 8) + 1);
}

/// Whether a trail has the prefix of a path, or a drive in place of none.
pub open spec fn has_prefix_of(windows: bool, s: Seq<char>, t: Trail) -> bool {
    ||| {
        &&& t.prefix == s.take(prefix_len(windows, s))
        &&& t.prefix.len() > 2 && !is_verbatim(windows, s) ==> t.root
        &&& is_verbatim(windows, s) && t.root ==> prefix_len(windows, s) < s.len()
        &&& is_verbatim(windows, s) && !t.root ==> prefix_len(windows, s) == s.len()
            && t.names.len() == 0
    }
    ||| {
        &&& windows
        &&& prefix_len(windows, s) == 0
        &&& t.prefix.len() == 2
        &&& starts_with_drive(t.prefix)
    }
}

/// Putting a trail together keeps its prefix apart from the rest.
proof fn lemma_trail_prefix(windows: bool, s: Seq<char>, t: Trail)
    requires
        has_prefix_of(windows, s, t),
        is_plain_trail(windows, other_sep(windows, s), main_sep(windows), t),
    ensures
        prefix_len(windows, t.text(windows)) == t.prefix.len(),
        is_verbatim(windows, t.text(windows)) == is_verbatim(windows, s),
{
    let text = t.text(windows);
    let sep = main_sep(windows);
    let body = joined_with(t.names, sep);
    let n = t.prefix.len() as int;
    lemma_prefix_len(windows, s);
    if t.names.len() > 0 {
        lemma_join_starts(t.names, sep);
        assert(is_plain_name(other_sep(windows, s), sep, t.names[0]));
        assert(body[0] == t.names[0][0]);
    }
    if windows {
        if n == 0 {
            if t.root {
                assert(text[0] == sep);
                if text.len() >= 2 {
                    assert(text[1] == body[0]);
                }
            } else {
                assert(text =~= body);
                if t.names.len() > 0 && text.len() >= 2 {
                    if t.names[0].len() >= 2 {
                        assert(text[1] == t.names[0][1]);
                    } else {
                        assert(text[1] == sep);
                    }
                }
            }
        } else if n == 2 {
            assert(text[0] == t.prefix[0]);
            assert(text[1] == t.prefix[1]);
            if prefix_len(windows, s) == 2 {
                lemma_two_is_drive(s);
            }
        } else {
            assert forall|i: int| 0 <= i < n implies #[trigger] text[i] == s[i] by {
                assert(text[i] == t.prefix[i]);
            }
            if t.root {
                assert(text[n] == sep);
                if is_verbatim(windows, s) {
                    lemma_verbatim_prefix_stays(s, text);
                } else {
                    lemma_network_prefix_stays(s, text);
                }
            } else {
                assert(text =~= s);
            }
        }
    }
}

/// A prefix of two characters is a drive.
proof fn lemma_two_is_drive(s: Seq<char>)
    requires
        prefix_len(true, s) == 2,
    ensures
        starts_with_drive(s),
        !is_verbatim(true, s),
{
    lemma_prefix_len(true, s);
    lemma_first_of(s, '/', '\\', 4);
    lemma_first_of(s, '/', '\\', 2);
}

/// A plain trail, put together and taken apart again.
pub proof fn lemma_trail_parts(windows: bool, s: Seq<char>, t: Trail)
    requires
        has_prefix_of(windows, s, t),
        is_plain_trail(windows, other_sep(windows, s), main_sep(windows), t),
    ensures
        parts(windows, t.text(windows)) == (PathParts {
            prefix: t.prefix,
            root: t.root,
            fields: if t.names.len() > 0 {
                t.names
            } else {
                seq![Seq::empty()]
            },
        }),
{
    let text = t.text(windows);
    let a = other_sep(windows, s);
    let sep = main_sep(windows);
    let body = joined_with(t.names, sep);
    lemma_trail_prefix(windows, s, t);
    let n = t.prefix.len() as int;
    let rest = text.skip(n);
    assert(text.take(n) =~= t.prefix);
    if t.names.len() > 0 {
        assert forall|i: int| 0 <= i < t.names.len() implies is_sep_free(
            a,
            sep,
            #[trigger] t.names[i],
        ) by {
            assert(is_plain_name(a, sep, t.names[i]));
        }
        lemma_join_then_split(a, sep, sep, t.names);
        lemma_join_starts(t.names, sep);
        assert(is_plain_name(a, sep, t.names[0]));
        assert(body[0] == t.names[0][0]);
    }
    if t.root {
        assert(rest[0] == sep);
        assert(rest.skip(1) =~= body);
    } else {
        assert(rest =~= body);
    }
}

/// Where a path leads is a plain trail behind its prefix.
proof fn lemma_trail_of_path(windows: bool, s: Seq<char>)
    ensures
        is_plain_trail(windows, other_sep(windows, s), main_sep(windows), trail_of(windows, s)),
        has_prefix_of(windows, s, trail_of(windows, s)),
        ({
            let p = parts(windows, s);
            let t = trail_of(windows, s);
            ||| t.prefix == p.prefix && t.root == p.shows_root()
            ||| p.prefix.len() == 0 && !p.root && t.prefix.len() == 2 && !t.root
        }),
{
    let p = parts(windows, s);
    let a = other_sep(windows, s);
    let b = main_sep(windows);
    let start = Trail { prefix: p.prefix, root: p.shows_root(), names: Seq::empty() };
    let n = prefix_len(windows, s);
    let rest = s.skip(n);
    lemma_prefix_len(windows, s);
    lemma_fields_sep_free(
        a,
        b,
        if p.root {
            rest.skip(1)
        } else {
            rest
        },
    );
    lemma_walk_is_plain(windows, a, b, start, p.fields);
    if is_verbatim(windows, s) {
        assert(s.take(n)[0] == s[0] && s.take(n)[1] == s[1] && s.take(n)[2] == s[2] && s.take(n)[3]
            == s[3]);
        if n < s.len() {
            lemma_verbatim_rest(s);
            assert(rest[0] == s[n]);
        } else {
            assert(rest =~= Seq::empty());
            let empty = seq![Seq::<char>::empty()];
            assert(p.fields =~= empty);
            assert(empty.drop_last() =~= Seq::<Seq<char>>::empty());
            reveal_with_fuel(Trail::walk, 2);
        }
    } else if p.prefix.len() > 2 {
        assert(!is_verbatim(true, p.prefix)) by {
            if is_verbatim(true, p.prefix) {
                assert(s[0] == p.prefix[0] && s[1] == p.prefix[1] && s[2] == p.prefix[2] && s[3]
                    == p.prefix[3]);
            }
        }
    }
}

/// A path that was worked out holds neither `.` nor `..` nor an empty name, it
/// is absolute exactly if the path was, and working it out again changes
/// nothing.
pub proof fn law_normalized_is_plain(windows: bool, s: Seq<char>)
    ensures
        parts(windows, normalized(windows, s)).names() == trail_of(windows, s).names,
        all_plain(other_sep(windows, s), main_sep(windows), trail_of(windows, s).names),
        is_absolute_path(windows, normalized(windows, s)) == is_absolute_path(windows, s),
        normalized(windows, normalized(windows, s)) == normalized(windows, s),
{
    let t = trail_of(windows, s);
    let a = other_sep(windows, s);
    let b = main_sep(windows);
    lemma_trail_of_path(windows, s);
    lemma_trail_parts(windows, s, t);
    let again = parts(windows, t.text(windows));
    let start = Trail { names: Seq::empty(), ..t };
    lemma_prefix_len(windows, s);
    lemma_busy_plain(a, b, t.names);
    assert(again.shows_root() == t.root) by {
        lemma_shown_root(windows, s, t);
    }
    if t.names.len() > 0 {
        assert(is_plain_name(a, b, t.names[0]));
        lemma_walk_again(windows, a, b, t, t.names.len() as int);
        assert(t.names.take(t.names.len() as int) =~= t.names);
        assert(trail_of(windows, t.text(windows)) =~= t);
    } else {
        let empty = seq![Seq::<char>::empty()];
        assert(empty.drop_last() =~= Seq::<Seq<char>>::empty());
        reveal_with_fuel(busy, 2);
        reveal_with_fuel(Trail::walk, 2);
        assert(busy(empty) =~= t.names);
        assert(start.walk(windows, empty) == start);
        assert(start =~= t);
    }
}

/// The root of a trail that is put together counts exactly if the trail has
/// one.
proof fn lemma_shown_root(windows: bool, s: Seq<char>, t: Trail)
    requires
        has_prefix_of(windows, s, t),
    ensures
        (t.root || (t.prefix.len() > 2 && !is_verbatim(true, t.prefix))) == t.root,
{
    lemma_prefix_len(windows, s);
    if is_verbatim(windows, s) && t.prefix.len() > 2 {
        let n = prefix_len(windows, s);
        assert(s.take(n)[0] == s[0] && s.take(n)[1] == s[1] && s.take(n)[2] == s[2] && s.take(n)[3]
            == s[3]);
    }
}

/// A step up removes the nearest name before it, and is dropped where there is
/// none.
pub proof fn law_step_up_removes_one_name(windows: bool, t: Trail)
    ensures
        t.step(windows, seq!['.', '.']).names == if t.names.len() > 0 {
            t.names.drop_last()
        } else {
            t.names
        },
        t.step(windows, seq!['.', '.']).prefix == t.prefix,
        t.step(windows, seq!['.', '.']).root == t.root,
{
    let up = seq!['.', '.'];
    assert(up.len() == 2 && seq!['.'].len() == 1);
}

/// The fields of two lists that name something.
pub proof fn lemma_busy_add(a: Seq<Seq<char>>, b: Seq<Seq<char>>)
    ensures
        busy(a + b) == busy(a) + busy(b),
    decreases b.len(),
{
    if b.len() == 0 {
        assert(a + b =~= a);
        assert(busy(a) + busy(b) =~= busy(a));
    } else {
        lemma_busy_add(a, b.drop_last());
        assert((a + b).drop_last() =~= a + b.drop_last());
        assert((a + b).last() == b.last());
        assert(busy(a + b) =~= busy(a) + busy(b));
    }
}

/// Dropping fields behind which nothing is named leaves the names.
proof fn lemma_without_idle_end(fields: Seq<Seq<char>>)
    ensures
        busy(without_idle_end(fields)) == busy(fields),
        without_idle_end(fields).is_prefix_of(fields),
    decreases fields.len(),
{
    if fields.len() > 0 && is_idle(fields.last()) {
        lemma_without_idle_end(fields.drop_last());
        let kept = without_idle_end(fields);
        assert(fields.drop_last().subrange(0, kept.len() as int) =~= fields.subrange(
            0,
            kept.len() as int,
        ));
    } else {
        assert(fields.subrange(0, fields.len() as int) =~= fields);
    }
}

/// What is left behind the first names are the names behind them.
pub proof fn lemma_after_names(fields: Seq<Seq<char>>, n: nat)
    requires
        n <= busy(fields).len(),
    ensures
        busy(without_idle_end(after_names(fields, n))) == busy(fields).skip(n as int),
    decreases fields.len(),
{
    lemma_without_idle_end(after_names(fields, n));
    if fields.len() > 0 {
        let first = seq![fields[0]];
        let rest = fields.skip(1);
        assert(first + rest =~= fields);
        lemma_busy_add(first, rest);
        assert(first.drop_last() =~= Seq::<Seq<char>>::empty());
        reveal_with_fuel(busy, 2);
        if is_idle(fields[0]) {
            assert(busy(first) =~= Seq::<Seq<char>>::empty());
            assert(busy(fields) =~= busy(rest));
            lemma_after_names(rest, n);
            lemma_without_idle_end(after_names(rest, n));
        } else if n == 0 {
            assert(busy(fields).skip(0) =~= busy(fields));
        } else {
            assert(busy(first) =~= first);
            lemma_after_names(rest, (n - 1) as nat);
            lemma_without_idle_end(after_names(rest, (n - 1) as nat));
            assert(busy(fields).skip(n as int) =~= busy(rest).skip(n - 1));
        }
    } else {
        assert(busy(fields).skip(0) =~= busy(fields));
    }
}

/// The fields of a list behind the first names are among its fields.
proof fn lemma_after_names_are_fields(fields: Seq<Seq<char>>, n: nat)
    ensures
        forall|i: int|
            0 <= i < after_names(fields, n).len() ==> fields.contains(
                #[trigger] after_names(fields, n)[i],
            ),
    decreases fields.len(),
{
    let left = after_names(fields, n);
    if fields.len() > 0 {
        let rest = fields.skip(1);
        lemma_after_names_are_fields(rest, n);
        if n > 0 {
            lemma_after_names_are_fields(rest, (n - 1) as nat);
        }
        assert forall|i: int| 0 <= i < left.len() implies fields.contains(#[trigger] left[i]) by {
            if !is_idle(fields[0]) && n == 0 {
                assert(fields[i] == left[i]);
            } else {
                let m = if is_idle(fields[0]) {
                    n
                } else {
                    (n - 1) as nat
                };
                assert(left == after_names(rest, m));
                assert(rest.contains(after_names(rest, m)[i]));
                let k = rest.index_of(left[i]);
                assert(fields[k + 1] == left[i]);
            }
        }
    }
}

/// A character that is not in a text is in none of its fields.
proof fn lemma_fields_lack(s: Seq<char>, a: char, b: char, c: char)
    requires
        !s.contains(c),
    ensures
        forall|i: int|
            0 <= i < fields(s, a, b).len() ==> !(#[trigger] fields(s, a, b)[i]).contains(c),
    decreases s.len(),
{
    let all = fields(s, a, b);
    if s.len() > 0 {
        let shorter = s.drop_last();
        assert(!shorter.contains(c)) by {
            if shorter.contains(c) {
                let k = shorter.index_of(c);
                assert(s[k] == c);
            }
        }
        assert(s[s.len() - 1] != c);
        let before = fields(shorter, a, b);
        lemma_fields_lack(shorter, a, b, c);
        lemma_fields_sep_free(a, b, shorter);
        assert forall|i: int| 0 <= i < all.len() implies !(#[trigger] all[i]).contains(c) by {
            if i < before.len() - 1 {
                assert(all[i] == before[i]);
            } else if i == before.len() - 1 {
                assert(!before[i].contains(c));
                if all[i].contains(c) {
                    let k = all[i].index_of(c);
                    assert(all[i] == before[i] || all[i] == before[i].push(s.last()));
                    if k < before[i].len() {
                        assert(before[i][k] == c);
                    }
                }
            }
        }
    }
}

/// A character that is in none of some pieces, and does not separate them, is
/// not in the pieces joined.
proof fn lemma_join_lacks(pieces: Seq<Seq<char>>, sep: char, c: char)
    requires
        sep != c,
        forall|i: int| 0 <= i < pieces.len() ==> !(#[trigger] pieces[i]).contains(c),
    ensures
        !joined_with(pieces, sep).contains(c),
    decreases pieces.len(),
{
    let text = joined_with(pieces, sep);
    if pieces.len() == 1 {
        assert(!pieces[0].contains(c));
    } else if pieces.len() > 1 {
        let before = pieces.drop_last();
        assert forall|i: int| 0 <= i < before.len() implies !(#[trigger] before[i]).contains(c) by {
            assert(before[i] == pieces[i]);
        }
        lemma_join_lacks(before, sep, c);
        let head = joined_with(before, sep);
        let last = pieces[pieces.len() - 1];
        assert(!last.contains(c));
        if text.contains(c) {
            let k = text.index_of(c);
            if k < head.len() {
                assert(head[k] == c);
            } else if k > head.len() {
                assert(last[k - head.len() - 1] == c);
            }
        }
    }
}

/// What a path says behind its first names, joined, holds no backslash and
/// comes apart again.
pub proof fn lemma_left_over_fields(windows: bool, p: Seq<char>, n: nat)
    requires
        !is_verbatim(windows, p),
        !windows ==> !p.contains('\\'),
    ensures
        ({
            let tail = without_idle_end(after_names(parts(windows, p).fields, n));
            let text = joined_with(tail, '/');
            &&& !text.contains('\\')
            &&& tail.len() > 0 ==> fields(text, '/', main_sep(windows)) == tail
        }),
{
    let path = parts(windows, p);
    let b = main_sep(windows);
    let left = after_names(path.fields, n);
    let tail = without_idle_end(left);
    let rest = p.skip(prefix_len(windows, p));
    let body = if path.root {
        rest.skip(1)
    } else {
        rest
    };
    lemma_prefix_len(windows, p);
    lemma_fields_sep_free('/', b, body);
    lemma_after_names_are_fields(path.fields, n);
    lemma_without_idle_end(left);
    if !windows {
        if body.contains('\\') {
            let k = body.index_of('\\');
            assert(p.contains(body[k])) by {
                assert(body[k] == p[if path.root { k + 1 } else { k }]);
            }
        }
        lemma_fields_lack(body, '/', b, '\\');
    }
    assert forall|i: int| 0 <= i < tail.len() implies is_sep_free('/', b, #[trigger] tail[i])
        && !tail[i].contains('\\') by {
        assert(tail[i] == left[i]);
        assert(path.fields.contains(left[i]));
        let k = path.fields.index_of(left[i]);
        assert(is_sep_free('/', b, path.fields[k]));
        if tail[i].contains('\\') {
            let j = tail[i].index_of('\\');
            assert(path.fields[k][j] == '\\');
            assert(windows);
        }
    }
    lemma_join_lacks(tail, '/', '\\');
    if tail.len() > 0 {
        lemma_join_then_split('/', b, '/', tail);
    }
}

/// What is below the home folder is shown with `~`, and what is not is shown
/// as it is.
pub proof fn law_collapse_only_below_home(windows: bool, home: Seq<char>, cwd: Seq<char>)
    ensures
        !begins_with(parts(windows, cwd), parts(windows, home)) ==> home_collapsed(
            windows,
            home,
            cwd,
        ) == cwd,
        begins_with(parts(windows, cwd), parts(windows, home)) ==> home_collapsed(
            windows,
            home,
            cwd,
        )[0] == '~',
        home_collapsed(windows, home, home) == seq!['~'],
{
    let path = parts(windows, cwd);
    let base = parts(windows, home);
    if same_path(path, base) {
        assert(base.names() =~= path.names().subrange(0, base.names().len() as int));
        lemma_canonical_empty(path.prefix);
        lemma_canonical_empty(base.prefix);
    }
}

proof fn lemma_canonical_empty(prefix: Seq<char>)
    ensures
        canonical_prefix(prefix).len() == prefix.len(),
{
}

} // verus!
