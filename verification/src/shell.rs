//! How a shell is started on a pseudo-terminal, and what is read off it.
use vstd::prelude::*;
use vstd::utf8::encode_utf8;

use crate::path::{file_name, last_name};
use crate::text::{
    chars_of, copy_text, is_number, lowered, number_of, parse_number, part, same_chars, same_text,
    split_words, strings_of, texts_of, to_lowered, words_of,
};

verus! {

/// What is needed to start a shell.
#[derive(Debug, Clone)]
pub struct ShellConfig {
    /// A program on `PATH`, a path, or `$SHELL` for the login shell.
    pub program: String,
    pub args: Vec<String>,
    pub cwd: Option<String>,
    /// Variables on top of the user's environment, which the shell inherits.
    pub env: Vec<(String, String)>,
    pub rows: u16,
    pub cols: u16,
}

/// The text of an optional string.
pub open spec fn text_in(s: Option<String>) -> Option<Seq<char>> {
    match s {
        Some(s) => Some(s@),
        None => None,
    }
}

/// The texts in a list of pairs.
pub open spec fn pairs_of(pairs: Seq<(String, String)>) -> Seq<(Seq<char>, Seq<char>)> {
    Seq::new(pairs.len(), |i: int| (pairs[i].0@, pairs[i].1@))
}

impl ShellConfig {
    /// A shell on a grid of 80 columns and 24 rows, with nothing of its own.
    pub fn with_program(program: String) -> (cfg: ShellConfig)
        ensures
            cfg.program@ == program@,
            cfg.args@ == Seq::<String>::empty(),
            cfg.cwd is None,
            cfg.env@ == Seq::<(String, String)>::empty(),
            cfg.rows == 24,
            cfg.cols == 80,
    {
        ShellConfig { program, args: Vec::new(), cwd: None, env: Vec::new(), rows: 24, cols: 80 }
    }
}

/// The flag that makes a shell interactive, by the name of its program.
pub open spec fn flag_of(name: Seq<char>) -> Option<Seq<char>> {
    if name == "bash"@ || name == "zsh"@ || name == "sh"@ || name == "dash"@ || name == "ksh"@
        || name == "fish"@ {
        Some("-i"@)
    } else if name == "pwsh"@ || name == "powershell"@ {
        Some("-NoLogo"@)
    } else {
        None
    }
}

/// A name without `.exe` at its end.
pub open spec fn without_exe(name: Seq<char>) -> Seq<char> {
    if name.len() >= 4 && name.skip(name.len() - 4) == seq!['.', 'e', 'x', 'e'] {
        name.take(name.len() - 4)
    } else {
        name
    }
}

/// The name by which a shell is known: the last name in its path, in lower
/// case and without `.exe`.
pub open spec fn shell_name(windows: bool, program: Seq<char>) -> Seq<char> {
    without_exe(
        lowered(
            match last_name(windows, program) {
                Some(name) => name,
                None => program,
            },
        ),
    )
}

/// The flag that makes the shell `program` interactive.
pub open spec fn interactive_flag_of(windows: bool, program: Seq<char>) -> Option<Seq<char>> {
    if program == "$SHELL"@ {
        Some("-i"@)
    } else {
        flag_of(shell_name(windows, program))
    }
}

/// Removes `.exe` from the end of a name.
fn strip_exe(name: &[char]) -> (rest: Vec<char>)
    ensures
        rest@ == without_exe(name@),
{
    let n = name.len();
    if n >= 4 && name[n - 4] == '.' && name[n - 3] == 'e' && name[n - 2] == 'x' && name[n - 1]
        == 'e' {
        assert(name@.skip(n - 4) =~= seq!['.', 'e', 'x', 'e']);
        part(name, 0, n - 4)
    } else {
        proof {
            if n >= 4 && name@.skip(n - 4) == seq!['.', 'e', 'x', 'e'] {
                let end = name@.skip(n - 4);
                assert(end[0] == '.' && end[1] == 'e' && end[2] == 'x' && end[3] == 'e');
            }
        }
        part(name, 0, n)
    }
}

/// Whether some characters are those of a string.
fn spells(chars: &Vec<char>, text: &str) -> (yes: bool)
    ensures
        yes == (chars@ == text@),
{
    same_chars(chars.as_slice(), chars_of(text).as_slice())
}

/// The flag that makes a known shell show its prompt and complete words on a
/// terminal. `None` for a shell that has no such flag or is not known.
///
/// `$SHELL` stands for the login shell, which nearly always is one that takes
/// `-i`.
pub fn interactive_flag(program: &str, windows: bool) -> (flag: Option<&'static str>)
    ensures
        match flag {
            Some(f) => interactive_flag_of(windows, program@) == Some(f@),
            None => interactive_flag_of(windows, program@) is None,
        },
{
    if same_text(program, "$SHELL") {
        return Some("-i");
    }
    let chars = chars_of(program);
    let base = match file_name(windows, chars.as_slice()) {
        Some(name) => name,
        None => chars,
    };
    let name = strip_exe(to_lowered(base.as_slice()).as_slice());
    if spells(&name, "bash") || spells(&name, "zsh") || spells(&name, "sh") || spells(&name, "dash")
        || spells(&name, "ksh") || spells(&name, "fish") {
        Some("-i")
    } else if spells(&name, "pwsh") || spells(&name, "powershell") {
        Some("-NoLogo")
    } else {
        None
    }
}

/// Whether a variable is among some.
pub open spec fn sets(env: Seq<(Seq<char>, Seq<char>)>, name: Seq<char>) -> bool {
    exists|i: int| 0 <= i < env.len() && (#[trigger] env[i]).0 == name
}

/// The arguments a shell is started with: those asked for, or else the flag
/// that makes it interactive.
pub open spec fn args_of(
    windows: bool,
    program: Seq<char>,
    args: Seq<Seq<char>>,
) -> Seq<Seq<char>> {
    if args.len() > 0 {
        args
    } else {
        match interactive_flag_of(windows, program) {
            Some(flag) => seq![flag],
            None => Seq::empty(),
        }
    }
}

/// The variables a shell is started with: those asked for, after a terminal
/// type unless one is among them.
pub open spec fn env_of(env: Seq<(Seq<char>, Seq<char>)>) -> Seq<(Seq<char>, Seq<char>)> {
    if sets(env, "TERM"@) {
        env
    } else {
        seq![("TERM"@, "xterm-256color"@)] + env
    }
}

/// The arguments and variables a shell is started with.
pub fn command_line(cfg: &ShellConfig, windows: bool) -> (line: (
    Vec<String>,
    Vec<(String, String)>,
))
    ensures
        strings_of(line.0@) == args_of(windows, cfg.program@, strings_of(cfg.args@)),
        pairs_of(line.1@) == env_of(pairs_of(cfg.env@)),
{
    let mut args: Vec<String> = Vec::new();
    let mut i: usize = 0;
    while i < cfg.args.len()
        invariant
            i <= cfg.args@.len(),
            args@.len() == i,
            forall|j: int| 0 <= j < i ==> (#[trigger] args@[j])@ == cfg.args@[j]@,
        decreases cfg.args.len() - i,
    {
        args.push(copy_text(cfg.args[i].as_str()));
        i += 1;
    }
    assert(strings_of(args@) =~= strings_of(cfg.args@));
    if args.len() == 0 {
        if let Some(flag) = interactive_flag(cfg.program.as_str(), windows) {
            args.push(copy_text(flag));
            assert(strings_of(args@) =~= seq![flag@]);
        } else {
            assert(strings_of(args@) =~= Seq::empty());
        }
    }
    let mut env: Vec<(String, String)> = Vec::new();
    if !env_sets(&cfg.env, "TERM") {
        env.push((copy_text("TERM"), copy_text("xterm-256color")));
        assert(pairs_of(env@) =~= seq![("TERM"@, "xterm-256color"@)]);
    }
    let ghost head = pairs_of(env@);
    let ghost own = pairs_of(cfg.env@);
    assert(own.take(0) =~= Seq::empty());
    assert(head + Seq::empty() =~= head);
    let mut k: usize = 0;
    while k < cfg.env.len()
        invariant
            k <= cfg.env@.len(),
            own == pairs_of(cfg.env@),
            pairs_of(env@) == head + own.take(k as int),
        decreases cfg.env.len() - k,
    {
        let ghost before = pairs_of(env@);
        let pair = &cfg.env[k];
        env.push((copy_text(pair.0.as_str()), copy_text(pair.1.as_str())));
        assert(pairs_of(env@) =~= before.push(own[k as int]));
        assert(own.take(k + 1) =~= own.take(k as int).push(own[k as int]));
        assert(before.push(own[k as int]) =~= head + own.take(k + 1));
        k += 1;
    }
    assert(own.take(k as int) =~= own);
    assert(Seq::<(Seq<char>, Seq<char>)>::empty() + own =~= own);
    assert(sets(own, "TERM"@) ==> head =~= Seq::empty());
    (args, env)
}

/// Whether a variable is among some.
fn env_sets(env: &Vec<(String, String)>, name: &str) -> (yes: bool)
    ensures
        yes == sets(pairs_of(env@), name@),
{
    let ghost all = pairs_of(env@);
    let mut i: usize = 0;
    while i < env.len()
        invariant
            i <= env@.len(),
            all == pairs_of(env@),
            forall|j: int| 0 <= j < i ==> (#[trigger] all[j]).0 != name@,
        decreases env.len() - i,
    {
        if same_text(env[i].0.as_str(), name) {
            assert(all[i as int].0 == name@);
            return true;
        }
        i += 1;
    }
    false
}

/// A program in a variable, or another one if it is not set or empty.
pub open spec fn program_or(variable: Option<Seq<char>>, other: Seq<char>) -> Seq<char> {
    match variable {
        Some(program) if program.len() > 0 => program,
        _ => other,
    }
}

/// A program in a variable, or another one if it is not set or empty.
fn pick_program(variable: Option<String>, other: &str) -> (program: String)
    ensures
        program@ == program_or(text_in(variable), other@),
{
    match variable {
        Some(program) => {
            if chars_of(program.as_str()).len() > 0 {
                program
            } else {
                copy_text(other)
            }
        },
        None => copy_text(other),
    }
}

/// The shell to run when the user has not picked one: in the sandbox the login
/// shell, which the host resolves; on Windows `%ComSpec%` or `cmd.exe`;
/// elsewhere `$SHELL` or `/bin/sh`. An empty variable is none.
pub fn default_program(
    sandboxed: bool,
    windows: bool,
    comspec: Option<String>,
    shell: Option<String>,
) -> (program: String)
    ensures
        program@ == if sandboxed {
            "$SHELL"@
        } else if windows {
            program_or(text_in(comspec), "cmd.exe"@)
        } else {
            program_or(text_in(shell), "/bin/sh"@)
        },
        program@.len() > 0,
{
    proof {
        reveal_strlit("$SHELL");
        reveal_strlit("cmd.exe");
        reveal_strlit("/bin/sh");
    }
    if sandboxed {
        copy_text("$SHELL")
    } else if windows {
        pick_program(comspec, "cmd.exe")
    } else {
        pick_program(shell, "/bin/sh")
    }
}

/// The program to start: `$SHELL` stands for the login shell.
pub fn program_to_run(program: &str, login_shell: &str) -> (run: String)
    ensures
        run@ == if program@ == "$SHELL"@ {
            login_shell@
        } else {
            program@
        },
{
    if same_text(program, "$SHELL") {
        copy_text(login_shell)
    } else {
        copy_text(program)
    }
}

/// What a line and the Enter key send. On Windows a bare line feed does not
/// submit the line.
pub fn line_bytes(line: &str, windows: bool) -> (bytes: Vec<u8>)
    ensures
        bytes@ == encode_utf8(line@) + if windows {
            seq![0x0Du8, 0x0A]
        } else {
            seq![0x0Au8]
        },
{
    let mut bytes: Vec<u8> = vstd::slice::slice_to_vec(line.as_bytes());
    if windows {
        bytes.push(0x0D);
    }
    bytes.push(0x0A);
    assert(bytes@ =~= encode_utf8(line@) + if windows {
        seq![0x0Du8, 0x0A]
    } else {
        seq![0x0Au8]
    });
    bytes
}

/// Whether bytes end with `ESC [ 6 n`, the question where the cursor is.
pub open spec fn ends_with_query(s: Seq<u8>) -> bool {
    s.len() >= 4 && s[s.len() - 4] == 0x1B && s[s.len() - 3] == 0x5B && s[s.len() - 2] == 0x36
        && s[s.len() - 1] == 0x6E
}

/// How many such questions bytes hold.
pub open spec fn queries(s: Seq<u8>) -> nat
    decreases s.len(),
{
    if s.len() == 0 {
        0
    } else {
        queries(s.drop_last()) + if ends_with_query(s) {
            1nat
        } else {
            0nat
        }
    }
}

/// Where the last such question ends, or zero.
pub open spec fn last_query_end(s: Seq<u8>) -> int
    decreases s.len(),
{
    if s.len() == 0 {
        0
    } else if ends_with_query(s) {
        s.len() as int
    } else {
        last_query_end(s.drop_last())
    }
}

/// Where the bytes begin that the next chunk may complete to a question: at
/// most three, and none that belongs to a question already.
pub open spec fn open_from(s: Seq<u8>) -> int {
    let three = if s.len() > 3 {
        s.len() - 3
    } else {
        0
    };
    if last_query_end(s) > three {
        last_query_end(s)
    } else {
        three
    }
}

/// The bytes that the next chunk may complete to a question.
pub open spec fn open_end(s: Seq<u8>) -> Seq<u8> {
    s.skip(open_from(s))
}

/// The answer to one question. A real position does not matter: some shells
/// only wait for any valid answer.
pub fn dsr_reply() -> (reply: Vec<u8>)
    ensures
        reply@ == seq![0x1Bu8, 0x5B, 0x31, 0x3B, 0x31, 0x52],
{
    let reply: Vec<u8> = vec![0x1B, 0x5B, 0x31, 0x3B, 0x31, 0x52];
    assert(reply@ =~= seq![0x1Bu8, 0x5B, 0x31, 0x3B, 0x31, 0x52]);
    reply
}

proof fn lemma_last_query_end(s: Seq<u8>)
    ensures
        0 <= last_query_end(s) <= s.len(),
        queries(s) <= s.len(),
        0 <= open_from(s) <= s.len(),
        open_end(s).len() <= 3,
    decreases s.len(),
{
    if s.len() > 0 {
        lemma_last_query_end(s.drop_last());
    }
}

/// How many questions where the cursor is are in `tail` and `chunk` together.
/// Keeps in `tail` what the next chunk may complete.
pub fn count_dsr(tail: &mut Vec<u8>, chunk: &[u8]) -> (hits: usize)
    ensures
        hits == queries(old(tail)@ + chunk@),
        final(tail)@ == open_end(old(tail)@ + chunk@),
{
    let ghost scan = tail@ + chunk@;
    let mut i: usize = 0;
    while i < chunk.len()
        invariant
            i <= chunk@.len(),
            tail@ == old(tail)@ + chunk@.take(i as int),
        decreases chunk.len() - i,
    {
        assert(chunk@.take(i + 1) =~= chunk@.take(i as int).push(chunk@[i as int]));
        tail.push(chunk[i]);
        assert(tail@ =~= old(tail)@ + chunk@.take(i + 1));
        i += 1;
    }
    assert(chunk@.take(i as int) =~= chunk@);
    assert(tail@ == scan);
    let mut hits: usize = 0;
    let mut last_end: usize = 0;
    let mut end: usize = 0;
    while end < tail.len()
        invariant
            end <= tail@.len(),
            tail@ == scan,
            hits <= end,
            hits == queries(scan.take(end as int)),
            last_end == last_query_end(scan.take(end as int)),
        decreases tail.len() - end,
    {
        end += 1;
        let ghost now = scan.take(end as int);
        assert(now.drop_last() =~= scan.take(end - 1));
        if end >= 4 && tail[end - 4] == 0x1B && tail[end - 3] == 0x5B && tail[end - 2] == 0x36
            && tail[end - 1] == 0x6E {
            hits += 1;
            last_end = end;
        }
    }
    assert(scan.take(end as int) =~= scan);
    proof {
        lemma_last_query_end(scan);
    }
    let three: usize = if tail.len() > 3 {
        tail.len() - 3
    } else {
        0
    };
    let from: usize = if last_end > three {
        last_end
    } else {
        three
    };
    let rest = tail.split_off(from);
    *tail = rest;
    assert(tail@ =~= open_end(scan));
    hits
}

/// A question that ends in the new chunk is one for the whole stream exactly if
/// it is one for what was kept of it.
proof fn lemma_query_at_end(seen: Seq<u8>, chunk: Seq<u8>)
    requires
        chunk.len() > 0,
    ensures
        ends_with_query(seen + chunk) == ends_with_query(open_end(seen) + chunk),
{
    lemma_last_query_end(seen);
    let all = seen + chunk;
    let kept = open_end(seen) + chunk;
    let cut = open_from(seen);
    assert forall|i: int| 0 <= i < kept.len() implies kept[i] == all[i + cut] by {}
    if ends_with_query(all) && all.len() - 4 < cut {
        let start = all.len() - 4;
        lemma_query_before(seen);
        let end = last_query_end(seen);
        assert(cut == end);
        assert(seen[start] == all[start]);
    }
}

/// The last question stands right before where it ends.
proof fn lemma_query_before(s: Seq<u8>)
    ensures
        last_query_end(s) > 0 ==> ends_with_query(s.take(last_query_end(s))),
    decreases s.len(),
{
    if s.len() > 0 {
        if ends_with_query(s) {
            assert(s.take(s.len() as int) =~= s);
        } else {
            lemma_query_before(s.drop_last());
            lemma_last_query_end(s.drop_last());
            let n = last_query_end(s);
            assert(s.drop_last().take(n) =~= s.take(n));
        }
    }
}

/// A question is counted once however the stream is cut into chunks: what a
/// chunk adds to the count is what is found in it together with what was kept
/// of the stream before, and what is kept then is what is kept of it all.
pub proof fn law_queries_are_counted_once(seen: Seq<u8>, chunk: Seq<u8>)
    ensures
        queries(seen + chunk) == queries(seen) + queries(open_end(seen) + chunk),
        open_end(seen + chunk) == open_end(open_end(seen) + chunk),
{
    lemma_queries_split(seen, chunk);
    let all = seen + chunk;
    let kept = open_end(seen) + chunk;
    let cut = open_from(seen);
    lemma_last_query_end(seen);
    lemma_last_query_end(all);
    lemma_last_query_end(kept);
    assert(open_from(all) == cut + open_from(kept));
    assert(open_end(all) =~= open_end(kept));
}

proof fn lemma_queries_split(seen: Seq<u8>, chunk: Seq<u8>)
    ensures
        queries(seen + chunk) == queries(seen) + queries(open_end(seen) + chunk),
        ({
            let end = last_query_end(open_end(seen) + chunk);
            last_query_end(seen + chunk) == if end > 0 {
                open_from(seen) + end
            } else {
                last_query_end(seen)
            }
        }),
    decreases chunk.len(),
{
    lemma_last_query_end(seen);
    if chunk.len() == 0 {
        assert(seen + chunk =~= seen);
        assert(open_end(seen) + chunk =~= open_end(seen));
        lemma_short_has_none(open_end(seen));
    } else {
        let before = chunk.drop_last();
        lemma_queries_split(seen, before);
        lemma_query_at_end(seen, chunk);
        assert((seen + chunk).drop_last() =~= seen + before);
        assert((open_end(seen) + chunk).drop_last() =~= open_end(seen) + before);
    }
}

proof fn lemma_short_has_none(s: Seq<u8>)
    requires
        s.len() <= 3,
    ensures
        queries(s) == 0,
        last_query_end(s) == 0,
    decreases s.len(),
{
    if s.len() > 0 {
        lemma_short_has_none(s.drop_last());
    }
}

/// The whole number a text writes, with or without a sign, if it fits.
pub open spec fn whole_number(s: Seq<char>) -> Option<int> {
    if s.len() > 0 && s[0] == '-' {
        if is_number(s.skip(1)) && number_of(s.skip(1)) <= 0x8000_0000 {
            Some(-(number_of(s.skip(1)) as int))
        } else {
            None
        }
    } else {
        let digits = if s.len() > 0 && s[0] == '+' {
            s.skip(1)
        } else {
            s
        };
        if is_number(digits) && number_of(digits) <= 0x7FFF_FFFF {
            Some(number_of(digits) as int)
        } else {
            None
        }
    }
}

/// Reads a whole number.
fn parse_whole(chars: &[char]) -> (number: Option<i64>)
    ensures
        match number {
            Some(n) => whole_number(chars@) == Some(n as int),
            None => whole_number(chars@) is None,
        },
{
    let n = chars.len();
    if n > 0 && chars[0] == '-' {
        return match parse_number(part(chars, 1, n).as_slice(), 0x8000_0000) {
            Some(value) => Some(-(value as i64)),
            None => None,
        };
    }
    let start: usize = if n > 0 && chars[0] == '+' {
        1
    } else {
        0
    };
    assert(chars@.skip(0) =~= chars@);
    match parse_number(part(chars, start, n).as_slice(), 0x7FFF_FFFF) {
        Some(value) => Some(value as i64),
        None => None,
    }
}

/// What stands behind the last `)` of a text.
pub open spec fn behind_paren(s: Seq<char>) -> Option<Seq<char>>
    decreases s.len(),
{
    if s.len() == 0 {
        None
    } else if s.last() == ')' {
        Some(Seq::empty())
    } else {
        match behind_paren(s.drop_last()) {
            Some(rest) => Some(rest.push(s.last())),
            None => None,
        }
    }
}

/// The whole number in a field of a list.
pub open spec fn number_in(words: Seq<Seq<char>>, i: int) -> Option<int> {
    if i < words.len() {
        whole_number(words[i])
    } else {
        None
    }
}

/// Whether a process on a terminal has handed it to another one, by its line
/// in `/proc/<pid>/stat`: the terminal's foreground group is not its own.
pub open spec fn hands_terminal_on(stat: Seq<char>) -> bool {
    match behind_paren(stat) {
        Some(rest) => match (number_in(words_of(rest), 2), number_in(words_of(rest), 5)) {
            (Some(group), Some(foreground)) => foreground >= 0 && foreground != group,
            _ => false,
        },
        None => false,
    }
}

/// Where the last `)` of a text stands.
fn find_paren(chars: &[char]) -> (at: Option<usize>)
    ensures
        match at {
            Some(i) => i < chars@.len() && behind_paren(chars@) == Some(chars@.skip(i + 1)),
            None => behind_paren(chars@) is None,
        },
{
    let mut found: Option<usize> = None;
    let mut i: usize = 0;
    while i < chars.len()
        invariant
            i <= chars@.len(),
            match found {
                Some(at) => at < i && behind_paren(chars@.take(i as int)) == Some(
                    chars@.subrange(at + 1, i as int),
                ),
                None => behind_paren(chars@.take(i as int)) is None,
            },
        decreases chars.len() - i,
    {
        let ghost now = chars@.take(i + 1);
        assert(now.drop_last() =~= chars@.take(i as int));
        assert(now.last() == chars@[i as int]);
        if chars[i] == ')' {
            found = Some(i);
            assert(chars@.subrange(i + 1, i + 1) =~= Seq::empty());
        } else if let Some(at) = found {
            assert(chars@.subrange(at + 1, i as int).push(chars@[i as int]) =~= chars@.subrange(
                at + 1,
                i + 1,
            ));
        }
        i += 1;
    }
    assert(chars@.take(i as int) =~= chars@);
    if let Some(at) = found {
        assert(chars@.subrange(at + 1, i as int) =~= chars@.skip(at + 1));
    }
    found
}

/// Whether a foreground command other than the shell itself runs on the
/// terminal, by the shell's line in `/proc/<pid>/stat`.
pub fn foreground_busy(stat: &str) -> (busy: bool)
    ensures
        busy == hands_terminal_on(stat@),
{
    let chars = chars_of(stat);
    let n: usize = chars.len();
    let at = match find_paren(chars.as_slice()) {
        Some(at) => at,
        None => {
            return false;
        },
    };
    let rest = part(chars.as_slice(), at + 1, n);
    let words = split_words(rest.as_slice());
    let ghost all = texts_of(words@);
    if words.len() <= 5 {
        return false;
    }
    assert(all[2] == words@[2]@ && all[5] == words@[5]@);
    match (parse_whole(words[2].as_slice()), parse_whole(words[5].as_slice())) {
        (Some(group), Some(foreground)) => foreground >= 0 && foreground != group,
        _ => false,
    }
}

} // verus!
