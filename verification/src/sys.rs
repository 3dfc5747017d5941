//! Who and where the user is: their name, the machine's short name, and their
//! home folder.
use vstd::prelude::*;

use crate::output::{lossy_text, utf8_lossy};
use crate::shell::text_in;
use crate::text::{
    chars_of, copy_text, fields, lines_of, part, split_fields, split_lines, string_of, texts_of,
    trim, trimmed,
};

verus! {

pub struct Identity {
    pub user: String,
    pub host: String,
    pub home: Option<String>,
}

/// The user's name.
pub fn user(identity: &Identity) -> (name: String)
    ensures
        name@ == identity.user@,
{
    copy_text(identity.user.as_str())
}

/// The machine's name up to its first `.`.
pub fn host(identity: &Identity) -> (name: String)
    ensures
        name@ == identity.host@,
{
    copy_text(identity.host.as_str())
}

/// The user's home folder, where it is known.
pub fn home_dir(identity: &Identity) -> (home: Option<String>)
    ensures
        text_in(home) == text_in(identity.home),
{
    match &identity.home {
        Some(home) => Some(copy_text(home.as_str())),
        None => None,
    }
}

/// What stands before the first dot.
pub open spec fn up_to_dot(name: Seq<char>) -> Seq<char> {
    fields(name, '.', '.')[0]
}

/// A name up to its first dot, or `host` if nothing is there.
pub open spec fn host_named(name: Seq<char>) -> Seq<char> {
    if up_to_dot(name).len() == 0 {
        "host"@
    } else {
        up_to_dot(name)
    }
}

/// A machine's name up to its first dot, or `host` if nothing is there.
pub open spec fn short_host(name: Seq<char>) -> Seq<char> {
    host_named(trimmed(name))
}

/// A name up to its first dot, or `host` if nothing is there.
fn name_host(name: &[char]) -> (host: String)
    ensures
        host@ == host_named(name@),
{
    let short = cut_at_dot(name);
    if short.len() == 0 {
        copy_text("host")
    } else {
        string_of(short.as_slice())
    }
}

/// What stands before the first dot.
fn cut_at_dot(name: &[char]) -> (short: Vec<char>)
    ensures
        short@ == up_to_dot(name@),
{
    let pieces = split_fields(name, '.', '.');
    assert(texts_of(pieces@)[0] == pieces@[0]@);
    let short = part(pieces[0].as_slice(), 0, pieces[0].len());
    assert(short@ =~= pieces@[0]@);
    short
}

/// A machine's name up to its first dot, or `host` if nothing is there.
pub fn short(host: &str) -> (name: String)
    ensures
        name@ == short_host(host@),
{
    name_host(trim(chars_of(host).as_slice()).as_slice())
}

/// The user's name in a variable, or `user` if it is not set or empty.
pub open spec fn user_of(variable: Option<Seq<char>>) -> Seq<char> {
    match variable {
        Some(name) if name.len() > 0 => name,
        _ => "user"@,
    }
}

/// The user's name in a variable, or `user` if it is not set or empty.
pub fn name_or_user(variable: Option<String>) -> (name: String)
    ensures
        name@ == user_of(text_in(variable)),
{
    match variable {
        Some(name) => {
            if chars_of(name.as_str()).len() > 0 {
                name
            } else {
                copy_text("user")
            }
        },
        None => copy_text("user"),
    }
}

/// The name a machine reports: what `hostname` printed unless that is blank,
/// else the variable, else nothing.
pub open spec fn reported_host(
    printed: Option<Seq<char>>,
    variable: Option<Seq<char>>,
) -> Seq<char> {
    match printed {
        Some(name) if trimmed(name).len() > 0 => name,
        _ => match variable {
            Some(name) => name,
            None => Seq::empty(),
        },
    }
}

/// The home folder of two variables: the first if it is set, else the second,
/// and none if that is empty.
pub open spec fn home_of(home: Option<Seq<char>>, profile: Option<Seq<char>>) -> Option<Seq<char>> {
    let folder = match home {
        Some(h) => Some(h),
        None => profile,
    };
    match folder {
        Some(h) if h.len() > 0 => Some(h),
        _ => None,
    }
}

/// The identity told by the environment: what `hostname` printed, if it
/// succeeded, and the variables `HOSTNAME`, `USER`, `HOME` and `USERPROFILE`.
pub fn identity_from_env(
    hostname: Option<String>,
    hostname_var: Option<String>,
    user_var: Option<String>,
    home_var: Option<String>,
    profile_var: Option<String>,
) -> (identity: Identity)
    ensures
        identity.user@ == user_of(text_in(user_var)),
        identity.host@ == short_host(reported_host(text_in(hostname), text_in(hostname_var))),
        text_in(identity.home) == home_of(text_in(home_var), text_in(profile_var)),
{
    let variable = match hostname_var {
        Some(name) => name,
        None => String::new(),
    };
    let host = match hostname {
        Some(name) => {
            if trim(chars_of(name.as_str()).as_slice()).len() > 0 {
                name
            } else {
                variable
            }
        },
        None => variable,
    };
    let folder = match home_var {
        Some(home) => Some(home),
        None => profile_var,
    };
    let home = match folder {
        Some(home) => {
            if chars_of(home.as_str()).len() > 0 {
                Some(home)
            } else {
                None
            }
        },
        None => None,
    };
    Identity {
        user: name_or_user(user_var),
        host: short(host.as_str()),
        home,
    }
}

/// The first line of a list, the second and so on, without white space around
/// it; empty if there is none.
pub open spec fn line_at(lines: Seq<Seq<char>>, i: int) -> Seq<char> {
    if i < lines.len() {
        trimmed(lines[i])
    } else {
        Seq::empty()
    }
}

/// The user's name in the first line of a probe, or `user` if that is blank.
pub open spec fn probed_user(lines: Seq<Seq<char>>) -> Seq<char> {
    if line_at(lines, 0).len() == 0 {
        "user"@
    } else {
        line_at(lines, 0)
    }
}

/// The home folder in the second line of a probe, unless that is blank.
pub open spec fn probed_home(lines: Seq<Seq<char>>) -> Option<Seq<char>> {
    if line_at(lines, 1).len() == 0 {
        None
    } else {
        Some(line_at(lines, 1))
    }
}

/// The machine's name in the third line of a probe.
pub open spec fn probed_host(lines: Seq<Seq<char>>) -> Seq<char> {
    short_host(
        if lines.len() > 2 {
            lines[2]
        } else {
            Seq::empty()
        },
    )
}

/// The line at a place in a list, without white space around it.
fn read_line(lines: &Vec<Vec<char>>, i: usize) -> (line: Vec<char>)
    ensures
        line@ == line_at(texts_of(lines@), i as int),
{
    if i < lines.len() {
        assert(texts_of(lines@)[i as int] == lines@[i as int]@);
        trim(lines[i].as_slice())
    } else {
        Vec::new()
    }
}

/// The identity told by a probe that printed the user's name, the home folder
/// and the machine's name, a line each.
pub fn identity_from_probe(printed: &str) -> (identity: Identity)
    ensures
        identity.user@ == probed_user(lines_of(printed@)),
        text_in(identity.home) == probed_home(lines_of(printed@)),
        identity.host@ == probed_host(lines_of(printed@)),
{
    let lines = split_lines(chars_of(printed).as_slice());
    let ghost all = texts_of(lines@);
    let name = read_line(&lines, 0);
    let folder = read_line(&lines, 1);
    let host = if lines.len() > 2 {
        assert(all[2] == lines@[2]@);
        string_of(lines[2].as_slice())
    } else {
        String::new()
    };
    Identity {
        user: if name.len() == 0 {
            copy_text("user")
        } else {
            string_of(name.as_slice())
        },
        host: short(host.as_str()),
        home: if folder.len() == 0 {
            None
        } else {
            Some(string_of(folder.as_slice()))
        },
    }
}

/// The identity told by what a probe printed, as bytes.
pub fn identity_from_output(printed: &[u8]) -> (identity: Identity)
    ensures
        identity.user@ == probed_user(lines_of(utf8_lossy(printed@))),
        text_in(identity.home) == probed_home(lines_of(utf8_lossy(printed@))),
        identity.host@ == probed_host(lines_of(utf8_lossy(printed@))),
{
    identity_from_probe(lossy_text(printed).as_str())
}

/// Whether to stop waiting for a probe: it has ended, or two seconds have
/// passed.
pub fn probe_done(exited: bool, waited_ms: u64) -> (done: bool)
    ensures
        done == (exited || waited_ms > 2000),
{
    exited || waited_ms > 2000
}

/// The name of a machine for a prompt.
pub open spec fn prompt_host(
    printed: Option<Seq<char>>,
    variable: Option<Seq<char>>,
) -> Seq<char> {
    match printed {
        Some(p) if trimmed(p).len() > 0 => host_named(trimmed(p)),
        _ => match variable {
            Some(v) => host_named(v),
            None => "host"@,
        },
    }
}

/// The name of this machine for a prompt: what `hostname` printed, unless that
/// is blank, else the variable `HOSTNAME`; up to its first dot, or `host` if
/// nothing is there.
pub fn hostname_short(printed: Option<String>, variable: Option<String>) -> (name: String)
    ensures
        name@ == prompt_host(text_in(printed), text_in(variable)),
{
    if let Some(p) = &printed {
        let name = trim(chars_of(p.as_str()).as_slice());
        if name.len() > 0 {
            return name_host(name.as_slice());
        }
    }
    match variable {
        Some(v) => name_host(chars_of(v.as_str()).as_slice()),
        None => copy_text("host"),
    }
}

/// A machine always has a short name, whatever it reports.
pub proof fn law_host_is_never_empty(
    name: Seq<char>,
    printed: Option<Seq<char>>,
    variable: Option<Seq<char>>,
)
    ensures
        short_host(name).len() > 0,
        prompt_host(printed, variable).len() > 0,
{
    reveal_strlit("host");
}

/// A user always has a name, whatever a variable holds or a probe printed.
pub proof fn law_user_has_a_name(variable: Option<Seq<char>>, lines: Seq<Seq<char>>)
    ensures
        user_of(variable).len() > 0,
        probed_user(lines).len() > 0,
{
    reveal_strlit("user");
}

/// A short name holds no dot.
pub proof fn law_short_host_has_no_dot(name: Seq<char>, i: int)
    requires
        0 <= i < short_host(name).len(),
    ensures
        short_host(name)[i] != '.',
{
    reveal_strlit("host");
    lemma_no_dot(trimmed(name));
}

proof fn lemma_no_dot(s: Seq<char>)
    ensures
        fields(s, '.', '.').len() > 0,
        forall|i: int, j: int|
            0 <= i < fields(s, '.', '.').len() && 0 <= j < fields(s, '.', '.')[i].len()
                ==> #[trigger] fields(s, '.', '.')[i][j] != '.',
    decreases s.len(),
{
    let all = fields(s, '.', '.');
    if s.len() > 0 {
        lemma_no_dot(s.drop_last());
        let before = fields(s.drop_last(), '.', '.');
        assert forall|i: int, j: int| 0 <= i < all.len() && 0 <= j < all[i].len() implies
            #[trigger] all[i][j] != '.' by {
            if i < before.len() - 1 {
                assert(all[i] == before[i]);
                assert(before[i][j] != '.');
            } else if i == before.len() - 1 && j < before[i].len() {
                assert(all[i] == before[i] || all[i] == before[i].push(s.last()));
                assert(before[i][j] != '.');
            }
        }
    }
}

} // verus!
