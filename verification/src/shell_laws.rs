//! How a shell is called, and what is told from what it prints and from the
//! state of its process.
use vstd::prelude::*;

use crate::folder_laws::{has_drive, is_drive_letter, is_name};
use crate::path::{busy, is_verbatim, last_name, main_sep, parts, prefix_len};
use crate::path_laws::lemma_busy_add;
use crate::shell::{
    args_of, behind_paren, env_of, flag_of, hands_terminal_on, interactive_flag_of, program_or,
    queries, sets, shell_name, whole_number, without_exe,
};
use crate::text::{
    fields, is_number, lemma_fields_join, lemma_fields_not_empty, lowered, number_of, words_of,
};
use crate::text_laws::{lacks, law_text_without_separator_is_one_piece};

verus! {

/// A question where the cursor is counts when its last byte has come in, and
/// nothing else counts.
pub proof fn law_a_question_is_four_bytes(s: Seq<u8>, b: u8)
    ensures
        queries(Seq::empty()) == 0,
        queries(s + seq!['\x1B' as u8, '[' as u8, '6' as u8, 'n' as u8]) == queries(s)
            + 1,
        queries(s.push(b)) == queries(s) + if b == 'n' as u8 && s.len() >= 3 && s[s.len() - 3]
            == '\x1B' as u8 && s[s.len() - 2] == '[' as u8 && s[s.len() - 1] == '6' as u8 {
            1nat
        } else {
            0nat
        },
{
    let longer = s.push(b);
    assert(longer.drop_last() =~= s);
    let asked = s + seq![0x1Bu8, 0x5B, 0x36, 0x6E];
    let one = s.push(0x1B);
    let two = one.push(0x5B);
    let three = two.push(0x36);
    assert(asked =~= three.push(0x6E));
    assert(three.push(0x6E).drop_last() =~= three);
    reveal_with_fuel(queries, 5);
    assert(three.drop_last() =~= two && two.drop_last() =~= one && one.drop_last() =~= s);
}

/// Arguments that were asked for are used as they are. Without any, a shell that
/// has a flag to be interactive gets it alone.
pub proof fn law_arguments(windows: bool, program: Seq<char>, args: Seq<Seq<char>>)
    ensures
        args.len() > 0 ==> args_of(windows, program, args) == args,
        args.len() == 0 ==> match interactive_flag_of(windows, program) {
            Some(flag) => args_of(windows, program, args) == seq![flag],
            None => args_of(windows, program, args).len() == 0,
        },
{
}

/// A shell gets the variables that were asked for, in their order, and a
/// terminal type in front unless one is among them.
pub proof fn law_variables(env: Seq<(Seq<char>, Seq<char>)>, i: int)
    requires
        0 <= i < env.len(),
    ensures
        env[i].0 == "TERM"@ ==> env_of(env) == env,
        (forall|k: int| 0 <= k < env.len() ==> (#[trigger] env[k]).0 != "TERM"@) ==> env_of(env)
            == seq![("TERM"@, "xterm-256color"@)] + env,
        env_of(Seq::empty()) == seq![("TERM"@, "xterm-256color"@)],
        env_of(env).contains(env[i]),
{
    let none = Seq::<(Seq<char>, Seq<char>)>::empty();
    let first = seq![("TERM"@, "xterm-256color"@)];
    assert(first + none =~= first);
    if !sets(env, "TERM"@) {
        assert(env_of(env)[i + 1] == env[i]);
    } else {
        assert(env_of(env)[i] == env[i]);
    }
}

/// A variable that holds a program names it; one that is not set or empty does
/// not.
pub proof fn law_program_of_a_variable(program: Seq<char>, other: Seq<char>)
    ensures
        program.len() > 0 ==> program_or(Some(program), other) == program,
        program.len() == 0 ==> program_or(Some(program), other) == other,
        program_or(None, other) == other,
{
}

/// The name of a file is what stands behind the last separator of its path, or
/// the whole path if that has none. On Windows this is said of paths on a drive
/// and of bare names.
pub proof fn law_file_name_is_behind_the_last_separator(
    windows: bool,
    dir: Seq<char>,
    sep: char,
    name: Seq<char>,
)
    requires
        sep == '/' || (windows && sep == '\\'),
        windows ==> has_drive(dir) && is_drive_letter(dir[0]),
        is_name(windows, name),
        windows ==> !has_drive(name),
    ensures
        last_name(windows, dir.push(sep) + name) == Some(name),
        last_name(windows, name) == Some(name),
{
    let other = main_sep(windows);
    let one = seq![name];
    law_text_without_separator_is_one_piece(name, '/', other);
    assert(one.drop_last() =~= Seq::<Seq<char>>::empty());
    reveal_with_fuel(busy, 2);
    assert(busy(one) =~= one);
    // The bare name.
    let bare = parts(windows, name);
    assert(name[0] != '/' && (windows ==> name[0] != '\\'));
    assert(prefix_len(windows, name) == 0);
    assert(name.skip(0) =~= name);
    assert(bare.fields == one);
    assert(bare.names().last() == name);
    // The name behind a folder.
    let s = dir.push(sep) + name;
    let n: int = if windows {
        2
    } else {
        0
    };
    if windows {
        assert(s[0] == dir[0] && s[1] == dir[1]);
    }
    assert(prefix_len(windows, s) == n);
    assert(!is_verbatim(windows, s));
    let p = parts(windows, s);
    let rest = s.skip(n);
    let folder = dir.skip(n);
    assert(rest =~= folder.push(sep) + name);
    if folder.len() == 0 {
        assert(rest[0] == sep);
        assert(rest.skip(1) =~= name);
        assert(p.fields == one);
    } else {
        assert(rest[0] == folder[0]);
        let inner = if p.root {
            folder.skip(1)
        } else {
            folder
        };
        assert((if p.root {
            rest.skip(1)
        } else {
            rest
        }) =~= inner.push(sep) + name);
        lemma_fields_join(inner, sep, name, '/', other);
        let before = fields(inner, '/', other);
        assert(p.fields == before + one);
        lemma_busy_add(before, one);
        if p.dot_first() {
            lemma_fields_not_empty(inner, '/', other);
            assert(p.fields.skip(1) =~= before.skip(1) + one);
            lemma_busy_add(before.skip(1), one);
            assert(p.names().last() == name);
        }
    }
    assert(p.names().last() == name);
}

/// `.exe` at the end of a name does not count.
pub proof fn law_exe_does_not_count(name: Seq<char>)
    ensures
        without_exe(name + seq!['.', 'e', 'x', 'e']) == name,
        name.len() < 4 || name.skip(name.len() - 4) != seq!['.', 'e', 'x', 'e'] ==> without_exe(
            name,
        ) == name,
{
    let exe = seq!['.', 'e', 'x', 'e'];
    let full = name + exe;
    assert(full.skip(full.len() - 4) =~= exe);
    assert(full.take(full.len() - 4) =~= name);
}

/// Whether a shell takes `-i` to be interactive.
pub open spec fn takes_i(name: Seq<char>) -> bool {
    name == "sh"@ || name == "bash"@ || name == "dash"@ || name == "fish"@ || name == "ksh"@ || name
        == "zsh"@
}

/// The Unix shells take `-i` to be interactive and PowerShell takes `-NoLogo`;
/// other programs take nothing. It is the name of the program that counts, in
/// either case and with or without `.exe`; a path that names no file counts whole.
/// `$SHELL` stands for a Unix shell.
pub proof fn law_interactive_flags(windows: bool, program: Seq<char>, name: Seq<char>)
    requires
        program != "$SHELL"@,
        name == match last_name(windows, program) {
            Some(last) => last,
            None => program,
        },
    ensures
        ({
            let known = without_exe(lowered(name));
            let flag = interactive_flag_of(windows, program);
            &&& takes_i(known) ==> flag == Some("-i"@)
            &&& known == "pwsh"@ || known == "powershell"@ ==> flag == Some("-NoLogo"@)
            &&& !takes_i(known) && known != "pwsh"@ && known != "powershell"@ ==> flag is None
            &&& interactive_flag_of(windows, "$SHELL"@) == Some("-i"@)
        }),
{
    let known = without_exe(lowered(name));
    assert(shell_name(windows, program) == known);
    assert(flag_of(known) == interactive_flag_of(windows, program));
    reveal_strlit("pwsh");
    reveal_strlit("powershell");
    reveal_strlit("sh");
    reveal_strlit("bash");
    reveal_strlit("dash");
    reveal_strlit("fish");
    reveal_strlit("ksh");
    reveal_strlit("zsh");
    assert("pwsh"@[0] != "bash"@[0] && "pwsh"@[0] != "dash"@[0] && "pwsh"@[0] != "fish"@[0]);
    assert("pwsh"@.len() == 4 && "powershell"@.len() == 10 && "bash"@.len() == 4 && "dash"@.len()
        == 4 && "fish"@.len() == 4 && "ksh"@.len() == 3 && "zsh"@.len() == 3 && "sh"@.len() == 2);
}

/// What stands behind the last closing bracket is found, and only where there is
/// one.
pub proof fn law_last_bracket_counts(a: Seq<char>, b: Seq<char>)
    requires
        lacks(b, ')'),
    ensures
        behind_paren(a.push(')') + b) == Some(b),
        behind_paren(b) is None,
    decreases b.len(),
{
    let all = a.push(')') + b;
    if b.len() == 0 {
        assert(all.last() == ')');
        assert(b =~= Seq::<char>::empty());
    } else {
        let shorter = b.drop_last();
        assert forall|i: int| 0 <= i < shorter.len() implies #[trigger] shorter[i] != ')' by {
            assert(shorter[i] == b[i]);
        }
        law_last_bracket_counts(a, shorter);
        assert(all.drop_last() =~= a.push(')') + shorter);
        assert(all.last() == b[b.len() - 1]);
        assert(shorter.push(b.last()) =~= b);
    }
}

/// A whole number is digits with or without a sign, and small enough for 32
/// bits.
pub proof fn law_whole_numbers(digits: Seq<char>)
    ensures
        ({
            let n = number_of(digits) as int;
            let positive = if is_number(digits) && n < 0x8000_0000 {
                Some(n)
            } else {
                None
            };
            let negative = if is_number(digits) && n <= 0x8000_0000 {
                Some(-n)
            } else {
                None
            };
            &&& whole_number(seq!['+'] + digits) == positive
            &&& whole_number(seq!['-'] + digits) == negative
            &&& digits.len() == 0 || (digits[0] != '+' && digits[0] != '-') ==> whole_number(digits)
                == positive
        }),
{
    assert((seq!['+'] + digits).skip(1) =~= digits);
    assert((seq!['-'] + digits).skip(1) =~= digits);
}

/// A shell has handed its terminal on if the foreground group of the terminal,
/// the sixth field behind the name of the process, is none of its own, which is
/// the third field. Where either is not told it has not.
pub proof fn law_terminal_is_handed_on(head: Seq<char>, rest: Seq<char>)
    requires
        lacks(rest, ')'),
    ensures
        ({
            let words = words_of(rest);
            let handed = hands_terminal_on(head.push(')') + rest);
            &&& words.len() < 6 ==> !handed
            &&& words.len() >= 6 ==> handed == (whole_number(words[2]) is Some && whole_number(
                words[5],
            ) is Some && whole_number(words[5])->0 >= 0 && whole_number(words[5])->0
                != whole_number(words[2])->0)
            &&& !hands_terminal_on(rest)
        }),
{
    law_last_bracket_counts(head, rest);
}

/// Separators at the end of a path do not count, and a path that ends in `..`
/// names no file.
pub proof fn law_ends_of_paths(path: Seq<char>)
    requires
        path.len() > 0,
    ensures
        last_name(false, path.push('/')) == last_name(false, path),
        last_name(false, path + seq!['/', '.', '.']) is None,
{
    let none = Seq::<char>::empty();
    let up = seq!['.', '.'];
    let body = if path[0] == '/' {
        path.skip(1)
    } else {
        path
    };
    let here = parts(false, path);
    assert(path.skip(0) =~= path);
    assert(here.fields == fields(body, '/', '/'));
    lemma_ends_in(path, none);
    lemma_ends_in(path, up);
    assert(path.push('/') + none =~= path.push('/'));
    assert(path.push('/') + up =~= path + seq!['/', '.', '.']);
    lemma_fields_not_empty(body, '/', '/');
    let before = fields(body, '/', '/');
    let nothing = seq![none];
    let one = seq![up];
    assert(nothing.drop_last() =~= Seq::<Seq<char>>::empty());
    assert(one.drop_last() =~= Seq::<Seq<char>>::empty());
    assert(up.len() == 2 && seq!['.'].len() == 1);
    reveal_with_fuel(busy, 2);
    assert(busy(nothing) =~= Seq::<Seq<char>>::empty());
    assert(busy(one) =~= one);
    lemma_busy_add(before, nothing);
    lemma_busy_add(before, one);
    lemma_busy_add(before.skip(1), nothing);
    lemma_busy_add(before.skip(1), one);
    assert((before + nothing).skip(1) =~= before.skip(1) + nothing);
    assert((before + one).skip(1) =~= before.skip(1) + one);
    assert(busy(before) + busy(nothing) =~= busy(before));
    assert(busy(before.skip(1)) + busy(nothing) =~= busy(before.skip(1)));
    let ended = parts(false, path.push('/'));
    let upward = parts(false, path + seq!['/', '.', '.']);
    assert(ended.names() == here.names());
    assert(upward.names().last() == up);
}

proof fn lemma_ends_in(path: Seq<char>, name: Seq<char>)
    requires
        path.len() > 0,
        lacks(name, '/'),
    ensures
        ({
            let all = parts(false, path.push('/') + name);
            let here = parts(false, path);
            &&& all.prefix == here.prefix
            &&& all.root == here.root
            &&& all.fields == here.fields + seq![name]
        }),
{
    let s = path.push('/') + name;
    assert(s[0] == path[0]);
    assert(s.skip(0) =~= s && path.skip(0) =~= path);
    assert(s.take(0) =~= path.take(0));
    let body = if path[0] == '/' {
        path.skip(1)
    } else {
        path
    };
    assert((if path[0] == '/' {
        s.skip(1)
    } else {
        s
    }) =~= body.push('/') + name);
    lemma_fields_join(body, '/', name, '/', '/');
    law_text_without_separator_is_one_piece(name, '/', '/');
}

} // verus!
