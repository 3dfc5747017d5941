//! File paths as text, for Unix and for Windows.
//!
//! A path is an optional prefix, an optional root, and names between
//! separators. On Windows the prefix is a drive (`C:`), a network share
//! (`\\server\share`), a device (`\\.\COM1`) or the start of an
//! extended-length path (`\\?\C:`, `\\?\UNC\server\share`, `\\?\name`), in which
//! only `\` separates names.
use vstd::prelude::*;

use crate::text::{
    append_chars, fields, join_with, joined, joined_with, lower, part, replace_char, replaced,
    same_chars, split_fields, texts_of, to_lower,
};

verus! {

pub open spec fn is_sep(windows: bool, c: char) -> bool {
    c == '/' || (windows && c == '\\')
}

/// The separator put between names.
pub open spec fn main_sep(windows: bool) -> char {
    if windows {
        '\\'
    } else {
        '/'
    }
}

/// Where one of two characters first stands at or after `from`, or the end.
pub open spec fn first_of(s: Seq<char>, a: char, b: char, from: int) -> int
    decreases s.len() - from,
{
    if from >= s.len() {
        s.len() as int
    } else if s[from] == a || s[from] == b {
        from
    } else {
        first_of(s, a, b, from + 1)
    }
}

pub open spec fn is_ascii_letter(c: char) -> bool {
    'a' <= c <= 'z' || 'A' <= c <= 'Z'
}

/// Whether a text begins with a drive.
pub open spec fn starts_with_drive(s: Seq<char>) -> bool {
    s.len() >= 2 && is_ascii_letter(s[0]) && s[1] == ':'
}

/// Whether a path is an extended-length one.
pub open spec fn is_verbatim(windows: bool, s: Seq<char>) -> bool {
    windows && s.len() >= 4 && s[0] == '\\' && s[1] == '\\' && s[2] == '?' && s[3] == '\\'
}

/// Whether an extended-length path names a network share.
pub open spec fn is_verbatim_share(s: Seq<char>) -> bool {
    s.len() >= 8 && s[4] == 'U' && s[5] == 'N' && s[6] == 'C' && is_sep(true, s[7])
}

/// Whether an extended-length path starts with a drive.
pub open spec fn is_verbatim_drive(s: Seq<char>) -> bool {
    s.len() >= 6 && is_ascii_letter(s[4]) && s[5] == ':' && (s.len() == 6 || is_sep(true, s[6]))
}

/// How long the prefix of an extended-length path is: up to and with the
/// share, which may be empty, the drive, or the first name.
pub open spec fn verbatim_prefix_len(s: Seq<char>) -> int {
    if is_verbatim_share(s) {
        first_of(s, '\\', '\\', first_of(s, '\\', '\\', 8) + 1)
    } else if is_verbatim_drive(s) {
        6
    } else {
        first_of(s, '\\', '\\', 4)
    }
}

/// How long the prefix of a path is that starts with two separators: up to and
/// with the device, or the share if neither server nor share is empty.
pub open spec fn network_prefix_len(s: Seq<char>) -> int {
    if s.len() >= 4 && s[2] == '.' && is_sep(true, s[3]) {
        first_of(s, '/', '\\', 4)
    } else {
        let server_end = first_of(s, '/', '\\', 2);
        let share_end = first_of(s, '/', '\\', server_end + 1);
        if 2 < server_end && server_end + 1 < share_end {
            share_end
        } else {
            0
        }
    }
}

/// How long the prefix of a path is.
pub open spec fn prefix_len(windows: bool, s: Seq<char>) -> int {
    if !windows {
        0
    } else if is_verbatim(windows, s) {
        verbatim_prefix_len(s)
    } else if s.len() >= 2 && is_sep(true, s[0]) && is_sep(true, s[1]) {
        network_prefix_len(s)
    } else if starts_with_drive(s) {
        2
    } else {
        0
    }
}

/// The separator of names besides the usual one: there is none in an
/// extended-length path.
pub open spec fn other_sep(windows: bool, s: Seq<char>) -> char {
    if is_verbatim(windows, s) {
        '\\'
    } else {
        '/'
    }
}

/// A path taken apart.
#[verifier::ext_equal]
pub struct PathParts {
    pub prefix: Seq<char>,
    /// Whether a separator stands behind the prefix.
    pub root: bool,
    /// What stands between the separators after that.
    pub fields: Seq<Seq<char>>,
}

/// Takes a path apart.
pub open spec fn parts(windows: bool, s: Seq<char>) -> PathParts {
    let n = prefix_len(windows, s);
    let rest = s.skip(n);
    let root = rest.len() > 0 && is_sep(windows, rest[0]);
    PathParts {
        prefix: s.take(n),
        root,
        fields: fields(
            if root {
                rest.skip(1)
            } else {
                rest
            },
            other_sep(windows, s),
            main_sep(windows),
        ),
    }
}

/// Whether a field names nothing: it is empty, or the folder itself.
pub open spec fn is_idle(field: Seq<char>) -> bool {
    field.len() == 0 || field == seq!['.']
}

/// The fields that name something.
pub open spec fn busy(fields: Seq<Seq<char>>) -> Seq<Seq<char>>
    decreases fields.len(),
{
    if fields.len() == 0 {
        Seq::empty()
    } else if is_idle(fields.last()) {
        busy(fields.drop_last())
    } else {
        busy(fields.drop_last()).push(fields.last())
    }
}

impl PathParts {
    /// Whether the path starts at a root. With any prefix but a drive it does.
    pub open spec fn rooted(self) -> bool {
        self.root || self.prefix.len() > 2
    }

    /// Whether the root counts as a part of the path. In an extended-length
    /// path it does only if it is written.
    pub open spec fn shows_root(self) -> bool {
        self.root || (self.prefix.len() > 2 && !is_verbatim(true, self.prefix))
    }

    /// Whether the path starts with `.`, which then counts as a name.
    pub open spec fn dot_first(self) -> bool {
        self.prefix.len() == 0 && !self.root && self.fields.len() > 0 && self.fields[0] == seq![
            '.',
        ]
    }

    /// The names in the path.
    pub open spec fn names(self) -> Seq<Seq<char>> {
        if self.dot_first() {
            seq![seq!['.']] + busy(self.fields.skip(1))
        } else {
            busy(self.fields)
        }
    }
}

/// A prefix in the form in which two prefixes are compared: drive letters in
/// one case, separators of one kind.
pub open spec fn canonical_prefix(prefix: Seq<char>) -> Seq<char> {
    if prefix.len() == 2 {
        seq![lower(prefix[0]), prefix[1]]
    } else if is_verbatim(true, prefix) {
        if prefix.len() == 6 && is_verbatim_drive(prefix) {
            prefix.update(4, lower(prefix[4]))
        } else {
            prefix
        }
    } else {
        replaced(prefix, '/', '\\')
    }
}

/// Whether two prefixes mean the same.
pub open spec fn same_prefix(a: Seq<char>, b: Seq<char>) -> bool {
    canonical_prefix(a) == canonical_prefix(b) && is_verbatim(true, a) == is_verbatim(true, b)
}

/// Whether two paths are the same name by name.
pub open spec fn same_path(a: PathParts, b: PathParts) -> bool {
    &&& same_prefix(a.prefix, b.prefix)
    &&& a.shows_root() == b.shows_root()
    &&& a.names() == b.names()
}

/// Whether a path begins with all of another, name by name.
pub open spec fn begins_with(path: PathParts, base: PathParts) -> bool {
    &&& base.prefix.len() > 0 ==> same_prefix(path.prefix, base.prefix)
    &&& base.prefix.len() == 0 && path.prefix.len() > 0 ==> !base.root && base.names().len() == 0
    &&& base.shows_root() ==> path.shows_root()
    &&& path.shows_root() && !base.shows_root() ==> base.names().len() == 0
    &&& base.names().is_prefix_of(path.names())
}

/// The fields behind the first `n` that name something.
pub open spec fn after_names(fields: Seq<Seq<char>>, n: nat) -> Seq<Seq<char>>
    decreases fields.len(),
{
    if fields.len() == 0 {
        fields
    } else if is_idle(fields[0]) {
        after_names(fields.skip(1), n)
    } else if n == 0 {
        fields
    } else {
        after_names(fields.skip(1), (n - 1) as nat)
    }
}

/// The fields without those at the end that name nothing.
pub open spec fn without_idle_end(fields: Seq<Seq<char>>) -> Seq<Seq<char>>
    decreases fields.len(),
{
    if fields.len() > 0 && is_idle(fields.last()) {
        without_idle_end(fields.drop_last())
    } else {
        fields
    }
}

/// What a path that begins with `base` says beyond it, with `/` between the
/// fields.
pub open spec fn left_over(path: PathParts, base: PathParts) -> Seq<char> {
    let n = base.names().len();
    if base.shows_root() || n > 0 {
        let rest = if path.dot_first() && n > 0 {
            after_names(path.fields.skip(1), (n - 1) as nat)
        } else {
            after_names(path.fields, n)
        };
        joined_with(without_idle_end(rest), '/')
    } else {
        let prefix = if base.prefix.len() == 0 {
            path.prefix
        } else {
            Seq::empty()
        };
        let root = if path.root {
            seq!['/']
        } else {
            Seq::empty()
        };
        let rest = if path.dot_first() {
            seq![seq!['.']] + without_idle_end(path.fields.skip(1))
        } else {
            without_idle_end(path.fields)
        };
        prefix + root + joined_with(rest, '/')
    }
}

/// Whether a path means the same wherever one is.
pub open spec fn is_absolute_path(windows: bool, s: Seq<char>) -> bool {
    let p = parts(windows, s);
    p.rooted() && (windows ==> p.prefix.len() > 0)
}

/// `rest`, as seen from the folder `base`.
pub open spec fn path_joined(windows: bool, base: Seq<char>, rest: Seq<char>) -> Seq<char> {
    let p = parts(windows, rest);
    let base_prefix = base.take(prefix_len(windows, base));
    if p.prefix.len() > 0 || (p.root && !windows) {
        rest
    } else if p.root {
        if is_verbatim(windows, base) {
            Trail { prefix: base_prefix, root: true, names: Seq::empty() }.walk(
                windows,
                fields(rest, '/', '\\'),
            ).text(windows)
        } else {
            base_prefix + rest
        }
    } else {
        path_below(windows, base, rest)
    }
}

/// `rest`, put below the folder `base`, whatever it looks like. Below an
/// extended-length path it is taken apart at both separators.
pub open spec fn path_below(windows: bool, base: Seq<char>, rest: Seq<char>) -> Seq<char> {
    if is_verbatim(windows, base) && rest.len() > 0 {
        Trail { root: true, ..trail_of(windows, base) }.walk(
            windows,
            fields(rest, '/', '\\'),
        ).text(windows)
    } else if base.len() == 0 || is_sep(windows, base.last()) || (base.len() == 2
        && prefix_len(windows, base) == 2) {
        base + rest
    } else {
        base.push(main_sep(windows)) + rest
    }
}

/// The last name of a path, unless that is no name of a file.
pub open spec fn last_name(windows: bool, s: Seq<char>) -> Option<Seq<char>> {
    let names = parts(windows, s).names();
    if names.len() == 0 || names.last() == seq!['.'] || names.last() == seq!['.', '.'] {
        None
    } else {
        Some(names.last())
    }
}

/// A path being put together: every name is one step down.
#[verifier::ext_equal]
pub struct Trail {
    pub prefix: Seq<char>,
    pub root: bool,
    pub names: Seq<Seq<char>>,
}

impl Trail {
    /// One field further. A drive at the very start of the trail becomes its
    /// prefix.
    pub open spec fn step(self, windows: bool, field: Seq<char>) -> Trail {
        if is_idle(field) {
            self
        } else if field == seq!['.', '.'] {
            Trail {
                names: if self.names.len() > 0 {
                    self.names.drop_last()
                } else {
                    self.names
                },
                ..self
            }
        } else if windows && starts_with_drive(field) && self.at_start() {
            let rest = field.skip(2);
            Trail {
                prefix: field.take(2),
                root: false,
                names: if is_idle(rest) || rest == seq!['.', '.'] {
                    Seq::empty()
                } else {
                    seq![rest]
                },
            }
        } else {
            Trail { names: self.names.push(field), ..self }
        }
    }

    /// Whether nothing was put together yet.
    pub open spec fn at_start(self) -> bool {
        self.prefix.len() == 0 && !self.root && self.names.len() == 0
    }

    /// Several fields further.
    pub open spec fn walk(self, windows: bool, fields: Seq<Seq<char>>) -> Trail
        decreases fields.len(),
    {
        if fields.len() == 0 {
            self
        } else {
            self.walk(windows, fields.drop_last()).step(windows, fields.last())
        }
    }

    pub open spec fn text(self, windows: bool) -> Seq<char> {
        self.prefix + (if self.root {
            seq![main_sep(windows)]
        } else {
            Seq::empty()
        }) + joined_with(self.names, main_sep(windows))
    }
}

/// Where a path leads, by its text alone.
pub open spec fn trail_of(windows: bool, s: Seq<char>) -> Trail {
    let p = parts(windows, s);
    Trail { prefix: p.prefix, root: p.shows_root(), names: Seq::empty() }.walk(windows, p.fields)
}

/// A path with `.` and `..` worked out, by its text alone.
pub open spec fn normalized(windows: bool, s: Seq<char>) -> Seq<char> {
    trail_of(windows, s).text(windows)
}

/// Whether a character separates names.
fn separates(windows: bool, c: char) -> (yes: bool)
    ensures
        yes == is_sep(windows, c),
{
    c == '/' || (windows && c == '\\')
}

/// The separator put between names.
fn separator(windows: bool) -> (c: char)
    ensures
        c == main_sep(windows),
{
    if windows {
        '\\'
    } else {
        '/'
    }
}

/// Where one of two characters first stands at or after `from`, or the end.
fn find_of(s: &[char], a: char, b: char, from: usize) -> (at: usize)
    requires
        from <= s@.len(),
    ensures
        at == first_of(s@, a, b, from as int),
        from <= at <= s@.len(),
{
    let mut i: usize = from;
    while i < s.len()
        invariant
            from <= i <= s@.len(),
            first_of(s@, a, b, i as int) == first_of(s@, a, b, from as int),
        decreases s.len() - i,
    {
        if s[i] == a || s[i] == b {
            return i;
        }
        i += 1;
    }
    i
}

/// Whether a path is an extended-length one.
fn verbatim_first(windows: bool, s: &[char]) -> (yes: bool)
    ensures
        yes == is_verbatim(windows, s@),
{
    windows && s.len() >= 4 && s[0] == '\\' && s[1] == '\\' && s[2] == '?' && s[3] == '\\'
}

/// Whether an extended-length path starts with a drive.
fn verbatim_drive_first(s: &[char]) -> (yes: bool)
    ensures
        yes == is_verbatim_drive(s@),
{
    s.len() >= 6 && (('a' <= s[4] && s[4] <= 'z') || ('A' <= s[4] && s[4] <= 'Z')) && s[5] == ':'
        && (s.len() == 6 || separates(true, s[6]))
}

/// Whether a text begins with a drive.
fn drive_first(s: &[char]) -> (yes: bool)
    ensures
        yes == starts_with_drive(s@),
{
    s.len() >= 2 && (('a' <= s[0] && s[0] <= 'z') || ('A' <= s[0] && s[0] <= 'Z')) && s[1] == ':'
}

/// How long the prefix of an extended-length path is.
fn measure_verbatim(s: &[char]) -> (n: usize)
    requires
        is_verbatim(true, s@),
    ensures
        n == verbatim_prefix_len(s@),
        n <= s@.len(),
{
    let len = s.len();
    if len >= 8 && s[4] == 'U' && s[5] == 'N' && s[6] == 'C' && separates(true, s[7]) {
        let server_end = find_of(s, '\\', '\\', 8);
        if server_end < len {
            find_of(s, '\\', '\\', server_end + 1)
        } else {
            len
        }
    } else if verbatim_drive_first(s) {
        6
    } else {
        find_of(s, '\\', '\\', 4)
    }
}

/// How long the prefix of a path is that starts with two separators.
fn measure_network(s: &[char]) -> (n: usize)
    requires
        s@.len() >= 2,
    ensures
        n == network_prefix_len(s@),
        n <= s@.len(),
{
    let len = s.len();
    if len >= 4 && s[2] == '.' && separates(true, s[3]) {
        return find_of(s, '/', '\\', 4);
    }
    let server_end = find_of(s, '/', '\\', 2);
    if server_end >= len {
        return 0;
    }
    let share_end = find_of(s, '/', '\\', server_end + 1);
    if 2 < server_end && server_end + 1 < share_end {
        share_end
    } else {
        0
    }
}

/// How long the prefix of a path is.
fn measure_prefix(windows: bool, s: &[char]) -> (n: usize)
    ensures
        n == prefix_len(windows, s@),
        n <= s@.len(),
{
    if !windows {
        0
    } else if verbatim_first(windows, s) {
        measure_verbatim(s)
    } else if s.len() >= 2 && separates(true, s[0]) && separates(true, s[1]) {
        measure_network(s)
    } else if drive_first(s) {
        2
    } else {
        0
    }
}

/// A prefix is no longer than the path.
pub proof fn lemma_prefix_len(windows: bool, s: Seq<char>)
    ensures
        0 <= prefix_len(windows, s) <= s.len(),
        prefix_len(windows, s) == 0 || prefix_len(windows, s) >= 2,
        is_verbatim(windows, s) ==> prefix_len(windows, s) >= 4,
{
    lemma_first_of(s, '\\', '\\', 8);
    lemma_first_of(s, '\\', '\\', first_of(s, '\\', '\\', 8) + 1);
    lemma_first_of(s, '\\', '\\', 4);
    lemma_first_of(s, '/', '\\', 4);
    lemma_first_of(s, '/', '\\', 2);
    lemma_first_of(s, '/', '\\', first_of(s, '/', '\\', 2) + 1);
}

/// What stands at the first of two characters is one of them, and none stands
/// before it.
pub proof fn lemma_first_of(s: Seq<char>, a: char, b: char, from: int)
    ensures
        first_of(s, a, b, from) <= s.len(),
        from <= s.len() ==> from <= first_of(s, a, b, from),
        from > s.len() ==> first_of(s, a, b, from) == s.len(),
        0 <= from && first_of(s, a, b, from) < s.len() ==> s[first_of(s, a, b, from)] == a
            || s[first_of(s, a, b, from)] == b,
        forall|i: int|
            from <= i < first_of(s, a, b, from) && 0 <= i ==> #[trigger] s[i] != a && s[i] != b,
    decreases s.len() - from,
{
    if from < s.len() && s[from] != a && s[from] != b {
        lemma_first_of(s, a, b, from + 1);
    }
}

/// A path taken apart.
struct Parts {
    prefix: Vec<char>,
    root: bool,
    fields: Vec<Vec<char>>,
}

impl View for Parts {
    type V = PathParts;

    closed spec fn view(&self) -> PathParts {
        PathParts { prefix: self.prefix@, root: self.root, fields: texts_of(self.fields@) }
    }
}

/// Whether a field names nothing.
fn names_nothing(field: &Vec<char>) -> (yes: bool)
    ensures
        yes == is_idle(field@),
{
    if field.len() == 0 {
        return true;
    }
    let dot = field.len() == 1 && field[0] == '.';
    assert(dot ==> field@ =~= seq!['.']);
    dot
}

/// Whether a field leads one step up.
fn leads_up(field: &Vec<char>) -> (yes: bool)
    ensures
        yes == (field@ == seq!['.', '.']),
{
    let up = field.len() == 2 && field[0] == '.' && field[1] == '.';
    assert(up ==> field@ =~= seq!['.', '.']);
    up
}

/// A copy of a list of texts from `from` on.
fn copy_fields(list: &Vec<Vec<char>>, from: usize) -> (copy: Vec<Vec<char>>)
    requires
        from <= list@.len(),
    ensures
        texts_of(copy@) == texts_of(list@).skip(from as int),
{
    let mut copy: Vec<Vec<char>> = Vec::new();
    let mut i: usize = from;
    while i < list.len()
        invariant
            from <= i <= list@.len(),
            copy@.len() == i - from,
            forall|j: int| 0 <= j < i - from ==> (#[trigger] copy@[j])@ == list@[j + from]@,
        decreases list.len() - i,
    {
        copy.push(part(list[i].as_slice(), 0, list[i].len()));
        i += 1;
    }
    assert(texts_of(copy@) =~= texts_of(list@).skip(from as int));
    copy
}

impl Parts {
    fn of(windows: bool, s: &[char]) -> (p: Parts)
        ensures
            p@ == parts(windows, s@),
    {
        let n = measure_prefix(windows, s);
        let root = n < s.len() && separates(windows, s[n]);
        let start: usize = if root {
            n + 1
        } else {
            n
        };
        let body = part(s, start, s.len());
        proof {
            if root {
                assert(s@.skip(n as int).skip(1) =~= s@.skip(n + 1));
            }
        }
        Parts {
            prefix: part(s, 0, n),
            root,
            fields: split_fields(
                body.as_slice(),
                if verbatim_first(windows, s) {
                    '\\'
                } else {
                    '/'
                },
                separator(windows),
            ),
        }
    }

    fn is_rooted(&self) -> (yes: bool)
        ensures
            yes == self@.rooted(),
    {
        self.root || self.prefix.len() > 2
    }

    fn has_root(&self) -> (yes: bool)
        ensures
            yes == self@.shows_root(),
    {
        self.root || (self.prefix.len() > 2 && !verbatim_first(true, self.prefix.as_slice()))
    }

    fn is_dot_first(&self) -> (yes: bool)
        ensures
            yes == self@.dot_first(),
    {
        if self.prefix.len() > 0 || self.root || self.fields.len() == 0 {
            return false;
        }
        let first = &self.fields[0];
        let dot = first.len() == 1 && first[0] == '.';
        assert(dot ==> first@ =~= seq!['.']);
        dot
    }

    /// The names in the path.
    fn list_names(&self) -> (names: Vec<Vec<char>>)
        ensures
            texts_of(names@) == self@.names(),
    {
        let mut names: Vec<Vec<char>> = Vec::new();
        let ghost all = texts_of(self.fields@);
        let first: usize = if self.is_dot_first() {
            names.push(vec!['.']);
            assert(names@[0]@ =~= seq!['.']);
            1
        } else {
            0
        };
        let ghost head = texts_of(names@);
        let mut i: usize = first;
        assert(all.subrange(first as int, first as int) =~= Seq::empty());
        assert(head + busy(Seq::empty()) =~= head);
        while i < self.fields.len()
            invariant
                first <= i <= self.fields@.len(),
                all == texts_of(self.fields@),
                texts_of(names@) == head + busy(all.subrange(first as int, i as int)),
            decreases self.fields.len() - i,
        {
            let ghost before = texts_of(names@);
            let ghost now = all.subrange(first as int, i + 1);
            assert(now.drop_last() =~= all.subrange(first as int, i as int));
            assert(now.last() == self.fields@[i as int]@);
            if !names_nothing(&self.fields[i]) {
                names.push(part(self.fields[i].as_slice(), 0, self.fields[i].len()));
                assert(names@.last()@ =~= self.fields@[i as int]@);
                assert(texts_of(names@) =~= before.push(now.last()));
                assert(before.push(now.last()) =~= head + busy(now));
            }
            i += 1;
        }
        assert(all.subrange(first as int, i as int) =~= all.skip(first as int));
        assert(all.skip(0) =~= all);
        assert(Seq::<Seq<char>>::empty() + busy(all) =~= busy(all));
        assert(first == 0 ==> head =~= Seq::empty());
        assert(first == 1 ==> head =~= seq![seq!['.']]);
        names
    }
}

/// A prefix in the form in which two prefixes are compared.
fn to_canonical_prefix(prefix: &[char]) -> (form: Vec<char>)
    ensures
        form@ == canonical_prefix(prefix@),
{
    let n = prefix.len();
    if n == 2 {
        let form: Vec<char> = vec![to_lower(prefix[0]), prefix[1]];
        assert(form@ =~= canonical_prefix(prefix@));
        form
    } else if verbatim_first(true, prefix) {
        let mut form = part(prefix, 0, n);
        assert(form@ =~= prefix@);
        if n == 6 && verbatim_drive_first(prefix) {
            form.set(4, to_lower(prefix[4]));
        }
        form
    } else {
        replace_char(prefix, '/', '\\')
    }
}

/// Whether two prefixes mean the same.
fn is_same_prefix(a: &[char], b: &[char]) -> (yes: bool)
    ensures
        yes == same_prefix(a@, b@),
{
    same_chars(to_canonical_prefix(a).as_slice(), to_canonical_prefix(b).as_slice())
        && verbatim_first(true, a) == verbatim_first(true, b)
}

/// Whether one list of texts begins with all of another.
fn list_begins_with(list: &Vec<Vec<char>>, start: &Vec<Vec<char>>) -> (yes: bool)
    ensures
        yes == texts_of(start@).is_prefix_of(texts_of(list@)),
{
    if start.len() > list.len() {
        return false;
    }
    let ghost a = texts_of(start@);
    let ghost b = texts_of(list@);
    let mut i: usize = 0;
    while i < start.len()
        invariant
            i <= start@.len() <= list@.len(),
            a == texts_of(start@),
            b == texts_of(list@),
            forall|j: int| 0 <= j < i ==> a[j] == b[j],
        decreases start.len() - i,
    {
        if !same_chars(start[i].as_slice(), list[i].as_slice()) {
            assert(a[i as int] != b[i as int]);
            assert(b.subrange(0, a.len() as int)[i as int] == b[i as int]);
            return false;
        }
        i += 1;
    }
    assert(a =~= b.subrange(0, a.len() as int));
    true
}

/// Whether two paths are the same name by name.
fn is_same_path(a: &Parts, b: &Parts) -> (yes: bool)
    ensures
        yes == same_path(a@, b@),
{
    let names_a = a.list_names();
    let names_b = b.list_names();
    let ghost ta = texts_of(names_a@);
    let ghost tb = texts_of(names_b@);
    let all_there = list_begins_with(&names_a, &names_b);
    assert(tb.is_prefix_of(ta) && ta.len() == tb.len() ==> ta =~= tb);
    assert(ta == tb ==> tb =~= ta.subrange(0, tb.len() as int));
    is_same_prefix(a.prefix.as_slice(), b.prefix.as_slice()) && a.has_root() == b.has_root()
        && names_a.len() == names_b.len() && all_there
}

/// Whether a path begins with all of another, name by name.
fn path_begins_with(path: &Parts, base: &Parts) -> (yes: bool)
    ensures
        yes == begins_with(path@, base@),
{
    let base_names = base.list_names();
    assert(base@.names().len() == base_names@.len());
    if base.prefix.len() > 0 {
        if !is_same_prefix(path.prefix.as_slice(), base.prefix.as_slice()) {
            return false;
        }
    } else if path.prefix.len() > 0 && (base.root || base_names.len() > 0) {
        return false;
    }
    if base.has_root() && !path.has_root() {
        return false;
    }
    if path.has_root() && !base.has_root() && base_names.len() > 0 {
        return false;
    }
    list_begins_with(&path.list_names(), &base_names)
}

/// The fields from `from` on, behind the first `n` that name something, and
/// without those at the end that name nothing.
fn fields_after(list: &Vec<Vec<char>>, from: usize, n: usize) -> (rest: Vec<Vec<char>>)
    requires
        from <= list@.len(),
    ensures
        texts_of(rest@) == without_idle_end(
            after_names(texts_of(list@).skip(from as int), n as nat),
        ),
{
    let ghost all = texts_of(list@);
    let mut i: usize = from;
    let mut left: usize = n;
    while i < list.len() && (left > 0 || names_nothing(&list[i]))
        invariant
            from <= i <= list@.len(),
            all == texts_of(list@),
            after_names(all.skip(i as int), left as nat) == after_names(
                all.skip(from as int),
                n as nat,
            ),
        decreases list.len() - i,
    {
        assert(all.skip(i as int)[0] == list@[i as int]@);
        assert(all.skip(i as int).skip(1) =~= all.skip(i + 1));
        if !names_nothing(&list[i]) {
            left -= 1;
        }
        i += 1;
    }
    proof {
        if i < list@.len() {
            assert(all.skip(i as int)[0] == list@[i as int]@);
        }
    }
    trim_fields(list, i)
}

/// The fields from `from` on, without those at the end that name nothing.
fn trim_fields(list: &Vec<Vec<char>>, from: usize) -> (rest: Vec<Vec<char>>)
    requires
        from <= list@.len(),
    ensures
        texts_of(rest@) == without_idle_end(texts_of(list@).skip(from as int)),
{
    let mut rest = copy_fields(list, from);
    let ghost all = texts_of(rest@);
    while rest.len() > 0 && names_nothing(&rest[rest.len() - 1])
        invariant
            without_idle_end(texts_of(rest@)) == without_idle_end(all),
        decreases rest.len(),
    {
        let ghost before = texts_of(rest@);
        assert(before.last() == rest@[rest@.len() - 1]@);
        rest.pop();
        assert(texts_of(rest@) =~= before.drop_last());
    }
    proof {
        let now = texts_of(rest@);
        if now.len() > 0 {
            assert(now.last() == rest@[rest@.len() - 1]@);
        }
    }
    rest
}

/// What a path that begins with `base` says beyond it.
fn beyond(path: &Parts, base: &Parts) -> (text: Vec<char>)
    ensures
        text@ == left_over(path@, base@),
{
    let n: usize = base.list_names().len();
    assert(n == base@.names().len());
    let ghost all = texts_of(path.fields@);
    assert(all.skip(0) =~= all);
    if base.has_root() || n > 0 {
        let rest = if n > 0 && path.is_dot_first() {
            fields_after(&path.fields, 1, n - 1)
        } else {
            fields_after(&path.fields, 0, n)
        };
        join_with(&rest, '/')
    } else {
        let mut text: Vec<char> = Vec::new();
        if base.prefix.len() == 0 {
            append_chars(&mut text, path.prefix.as_slice());
            assert(text@ =~= path.prefix@);
        }
        if path.root {
            text.push('/');
        }
        let ghost head = text@;
        let rest = if path.is_dot_first() {
            let mut rest: Vec<Vec<char>> = vec![vec!['.']];
            let ghost dot = texts_of(rest@);
            assert(rest@[0]@ =~= seq!['.']);
            assert(dot =~= seq![seq!['.']]);
            let mut more = trim_fields(&path.fields, 1);
            let ghost tail = texts_of(more@);
            rest.append(&mut more);
            assert(texts_of(rest@) =~= dot + tail);
            rest
        } else {
            trim_fields(&path.fields, 0)
        };
        append_chars(&mut text, join_with(&rest, '/').as_slice());
        assert(text@ =~= left_over(path@, base@));
        text
    }
}

/// Whether a path means the same wherever one is.
pub fn is_absolute(windows: bool, s: &[char]) -> (yes: bool)
    ensures
        yes == is_absolute_path(windows, s@),
{
    let p = Parts::of(windows, s);
    p.is_rooted() && (!windows || p.prefix.len() > 0)
}

/// `rest`, as seen from the folder `base`.
pub fn join_path(windows: bool, base: &[char], rest: &[char]) -> (path: Vec<char>)
    ensures
        path@ == path_joined(windows, base@, rest@),
{
    let p = Parts::of(windows, rest);
    let n = measure_prefix(windows, base);
    if p.prefix.len() > 0 || (p.root && !windows) {
        part(rest, 0, rest.len())
    } else if p.root {
        let prefix = part(base, 0, n);
        if verbatim_first(windows, base) {
            let mut way = Way { prefix, root: true, names: Vec::new() };
            assert(way@.names =~= Seq::empty());
            way.walk(windows, &split_fields(rest, '/', '\\'));
            way.text(windows)
        } else {
            joined(prefix.as_slice(), rest)
        }
    } else {
        put_below(windows, base, rest)
    }
}

/// `rest`, put below the folder `base`, whatever it looks like.
pub fn put_below(windows: bool, base: &[char], rest: &[char]) -> (path: Vec<char>)
    ensures
        path@ == path_below(windows, base@, rest@),
{
    let n = base.len();
    if verbatim_first(windows, base) && rest.len() > 0 {
        let mut way = Way::of(windows, base);
        way.root = true;
        way.walk(windows, &split_fields(rest, '/', '\\'));
        way.text(windows)
    } else if n == 0 || separates(windows, base[n - 1]) || (n == 2 && measure_prefix(windows, base)
        == 2) {
        joined(base, rest)
    } else {
        let mut path = part(base, 0, n);
        path.push(separator(windows));
        append_chars(&mut path, rest);
        path
    }
}

/// The last name of a path, unless that is no name of a file.
pub fn file_name(windows: bool, s: &[char]) -> (name: Option<Vec<char>>)
    ensures
        match name {
            Some(n) => last_name(windows, s@) == Some(n@),
            None => last_name(windows, s@) is None,
        },
{
    let names = Parts::of(windows, s).list_names();
    let ghost all = texts_of(names@);
    if names.len() == 0 {
        return None;
    }
    let last = &names[names.len() - 1];
    assert(all.last() == last@);
    if names_nothing(last) || leads_up(last) {
        proof {
            lemma_names_not_empty(parts(windows, s@));
        }
        return None;
    }
    let copy = part(last.as_slice(), 0, last.len());
    assert(copy@ =~= last@);
    Some(copy)
}

/// No name is empty.
proof fn lemma_names_not_empty(p: PathParts)
    ensures
        forall|i: int| 0 <= i < p.names().len() ==> (#[trigger] p.names()[i]).len() > 0,
{
    lemma_busy(p.fields);
    lemma_busy(p.fields.skip(1));
}

/// The fields that name something do.
proof fn lemma_busy(fields: Seq<Seq<char>>)
    ensures
        forall|i: int| 0 <= i < busy(fields).len() ==> !is_idle(#[trigger] busy(fields)[i]),
    decreases fields.len(),
{
    if fields.len() > 0 {
        let before = busy(fields.drop_last());
        lemma_busy(fields.drop_last());
        assert forall|i: int| 0 <= i < busy(fields).len() implies !is_idle(
            #[trigger] busy(fields)[i],
        ) by {
            if i < before.len() {
                assert(busy(fields)[i] == before[i]);
            }
        }
    }
}

/// A path being put together.
struct Way {
    prefix: Vec<char>,
    root: bool,
    names: Vec<Vec<char>>,
}

impl View for Way {
    type V = Trail;

    closed spec fn view(&self) -> Trail {
        Trail { prefix: self.prefix@, root: self.root, names: texts_of(self.names@) }
    }
}

impl Way {
    /// Where a path leads.
    fn of(windows: bool, s: &[char]) -> (way: Way)
        ensures
            way@ == trail_of(windows, s@),
    {
        let p = Parts::of(windows, s);
        let root = p.has_root();
        let prefix = part(p.prefix.as_slice(), 0, p.prefix.len());
        let mut way = Way { prefix, root, names: Vec::new() };
        assert(way@ =~= Trail { prefix: p@.prefix, root: p@.shows_root(), names: Seq::empty() });
        way.walk(windows, &p.fields);
        way
    }

    /// Several fields further.
    fn walk(&mut self, windows: bool, fields: &Vec<Vec<char>>)
        ensures
            final(self)@ == old(self)@.walk(windows, texts_of(fields@)),
    {
        let ghost all = texts_of(fields@);
        let ghost start = self@;
        let mut i: usize = 0;
        assert(all.take(0) =~= Seq::empty());
        while i < fields.len()
            invariant
                i <= fields@.len(),
                all == texts_of(fields@),
                self@ == start.walk(windows, all.take(i as int)),
            decreases fields.len() - i,
        {
            assert(all.take(i + 1).drop_last() =~= all.take(i as int));
            assert(all.take(i + 1).last() == fields@[i as int]@);
            self.step(windows, &fields[i]);
            i += 1;
        }
        assert(all.take(i as int) =~= all);
    }

    /// One field further.
    fn step(&mut self, windows: bool, field: &Vec<char>)
        ensures
            final(self)@ == old(self)@.step(windows, field@),
    {
        let ghost before = texts_of(self.names@);
        if names_nothing(field) {
        } else if leads_up(field) {
            self.names.pop();
            assert(texts_of(self.names@) =~= if before.len() > 0 {
                before.drop_last()
            } else {
                before
            });
        } else if windows && drive_first(field.as_slice()) && self.prefix.len() == 0 && !self.root
            && self.names.len() == 0 {
            let rest = part(field.as_slice(), 2, field.len());
            self.prefix = part(field.as_slice(), 0, 2);
            let ghost kept = rest@;
            if !names_nothing(&rest) && !leads_up(&rest) {
                self.names.push(rest);
                assert(texts_of(self.names@) =~= seq![kept]);
            } else {
                assert(texts_of(self.names@) =~= Seq::empty());
            }
        } else {
            let copy = part(field.as_slice(), 0, field.len());
            assert(copy@ =~= field@);
            self.names.push(copy);
            assert(texts_of(self.names@) =~= before.push(field@));
        }
    }

    fn text(&self, windows: bool) -> (path: Vec<char>)
        ensures
            path@ == self@.text(windows),
    {
        let mut path = part(self.prefix.as_slice(), 0, self.prefix.len());
        if self.root {
            path.push(separator(windows));
        }
        append_chars(&mut path, join_with(&self.names, separator(windows)).as_slice());
        assert(path@ =~= self@.text(windows));
        path
    }
}

/// Works out `.` and `..` in a path without looking at any file, so that it
/// also works for paths that do not exist.
pub fn logical_normalize(windows: bool, s: &[char]) -> (path: Vec<char>)
    ensures
        path@ == normalized(windows, s@),
{
    Way::of(windows, s).text(windows)
}

/// A folder as a prompt shows it: the home folder is `~`, what is below it
/// begins with `~/`, always with `/` as separator, and any other folder is
/// shown as it is.
pub open spec fn home_collapsed(windows: bool, home: Seq<char>, cwd: Seq<char>) -> Seq<char> {
    let path = parts(windows, cwd);
    let base = parts(windows, home);
    if same_path(path, base) {
        seq!['~']
    } else if begins_with(path, base) {
        seq!['~', '/'] + replaced(left_over(path, base), '\\', '/')
    } else {
        cwd
    }
}

/// A folder as a prompt shows it, with the home folder written `~`.
pub fn collapse(windows: bool, home: &[char], cwd: &[char]) -> (shown: Vec<char>)
    ensures
        shown@ == home_collapsed(windows, home@, cwd@),
{
    let path = Parts::of(windows, cwd);
    let base = Parts::of(windows, home);
    if is_same_path(&path, &base) {
        let shown: Vec<char> = vec!['~'];
        assert(shown@ =~= seq!['~']);
        shown
    } else if path_begins_with(&path, &base) {
        let mut shown: Vec<char> = vec!['~', '/'];
        assert(shown@ =~= seq!['~', '/']);
        let rest = beyond(&path, &base);
        append_chars(&mut shown, replace_char(rest.as_slice(), '\\', '/').as_slice());
        shown
    } else {
        part(cwd, 0, cwd.len())
    }
}

} // verus!
