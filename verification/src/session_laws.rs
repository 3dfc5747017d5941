//! What each step of a session does: commands, output, settings, the history
//! and the dashboard.
use vstd::prelude::*;

use crate::altscreen_detect::AltScreenEvent;
use crate::command::{home_expanded, shown_folder, Platform};
use crate::dashboard::DashboardRequest;
use crate::emulator::{at_least_one, Emulator};
use crate::folder_laws::{
    are_names, between, folder, is_drive_letter, law_relative_paths_go_below, separator_of,
};
use crate::output::{lines_below, shown_text, utf8_lossy};
use crate::output_laws::with_feeds;
use crate::parser::vte_actions;
use crate::path::{main_sep, path_joined};
use crate::provider::{entries_of, screen_in, write_in, Entry, HistoryWrite, TerminalProvider};
use crate::provider_model::{
    file_text, lemma_watch, newest, not_empty, rows_for, size_in, EntryModel, PlatformModel,
    ProviderModel, ScreenState,
};
use crate::shell::{pairs_of, text_in};
use crate::text::{is_number, lines_of, number_of, replaced, strings_of, texts_of};

verus! {

/// Whether only what the application is asked for changed, and what is
/// remembered of the stream to ask.
pub open spec fn only_asked(m: ProviderModel, after: ProviderModel) -> bool {
    after == (ProviderModel {
        pending_dashboard_request: after.pending_dashboard_request,
        auto_entered_dashboard: after.auto_entered_dashboard,
        alt_detect: after.alt_detect,
        ..m
    })
}

/// What the shell prints goes behind the output of the last entry, as text
/// without escape sequences. Its prompt and its command stay, and so does every
/// entry before it. Before the first command it goes nowhere.
pub proof fn law_output_goes_to_the_last_entry(m: ProviderModel, bytes: Seq<u8>, i: int)
    requires
        m.shell_running,
        !m.in_dashboard,
        bytes.len() > 0,
    ensures
        ({
            let after = m.tick(bytes);
            let last = m.entries.len() - 1;
            &&& after.entries.len() == m.entries.len()
            &&& 0 <= last ==> after.entries[last].output == m.entries[last].output + shown_text(
                utf8_lossy(bytes),
            )
            &&& 0 <= last ==> after.entries[last].prompt == m.entries[last].prompt
            &&& 0 <= last ==> after.entries[last].input == m.entries[last].input
            &&& 0 <= i < last ==> after.entries[i] == m.entries[i]
            &&& only_asked(m, ProviderModel { entries: m.entries, ..after })
        }),
{
    lemma_watch(m, bytes);
}

/// Two pieces of output come one behind the other, in the order in which they
/// were printed.
pub proof fn law_output_comes_in_order(m: ProviderModel, first: Seq<u8>, then: Seq<u8>)
    requires
        m.shell_running,
        !m.in_dashboard,
        m.entries.len() > 0,
        first.len() > 0,
        then.len() > 0,
    ensures
        m.tick(first).tick(then).entries.last().output == m.entries.last().output + shown_text(
            utf8_lossy(first),
        ) + shown_text(utf8_lossy(then)),
{
    law_output_goes_to_the_last_entry(m, first, 0);
    law_output_goes_to_the_last_entry(m.tick(first), then, 0);
}

/// Without a shell, or if it printed nothing, nothing happens.
pub proof fn law_silence_changes_nothing(m: ProviderModel, bytes: Seq<u8>)
    ensures
        !m.shell_running || bytes.len() == 0 ==> m.tick(bytes) == m && !m.tick_shows(bytes),
        bytes.len() == 0 ==> m.catch_up(bytes) == m,
{
}

/// In the dashboard everything the shell prints goes to the grid, and is always
/// worth a new frame. Elsewhere it is only if text comes out of it.
pub proof fn law_dashboard_output_goes_to_the_grid(m: ProviderModel, bytes: Seq<u8>)
    requires
        bytes.len() > 0,
    ensures
        ({
            let fed = match m.emulator {
                Some(screen) => Some(
                    ScreenState {
                        grid: screen.grid.apply_all(vte_actions(screen.fed, bytes)),
                        fed: screen.fed.push(bytes),
                    },
                ),
                None => None,
            };
            let after = m.tick(bytes);
            let caught_up = m.catch_up(bytes);
            &&& m.shell_running && m.in_dashboard ==> after.emulator == fed && only_asked(
                m,
                ProviderModel { emulator: m.emulator, ..after },
            )
            &&& caught_up.emulator == fed && only_asked(
                m,
                ProviderModel { emulator: m.emulator, ..caught_up },
            )
            &&& m.shell_running ==> m.tick_shows(bytes) == (m.in_dashboard || shown_text(
                utf8_lossy(bytes),
            ).len() > 0)
        }),
{
    lemma_watch(m, bytes);
}

/// A program that enters the alternate screen asks for the dashboard, unless it
/// is open. One that leaves it asks to close the dashboard, if a program opened
/// it. Nothing else changes.
pub proof fn law_screen_switches_ask(m: ProviderModel)
    ensures
        ({
            let enter = m.handle(AltScreenEvent::Enter);
            let leave = m.handle(AltScreenEvent::Leave);
            &&& m.in_dashboard ==> enter == m
            &&& !m.in_dashboard ==> enter == (ProviderModel {
                pending_dashboard_request: Some(DashboardRequest::Enter),
                auto_entered_dashboard: true,
                ..m
            })
            &&& m.in_dashboard && m.auto_entered_dashboard ==> leave == (ProviderModel {
                pending_dashboard_request: Some(DashboardRequest::Leave),
                ..m
            })
            &&& !m.in_dashboard || !m.auto_entered_dashboard ==> leave == m
        }),
{
}

/// Opening the dashboard keeps a grid that is there and else makes one of 80
/// columns and 24 rows. The shell is asked for where there is none and none was
/// tried. Closing it keeps the grid, and forgets who opened it.
pub proof fn law_dashboard_opens_and_closes(m: ProviderModel)
    ensures
        ({
            let open = m.enter_dashboard();
            &&& open == (ProviderModel {
                in_dashboard: true,
                init_attempted: m.init_attempted || !m.shell_running,
                emulator: open.emulator,
                ..m
            })
            &&& m.emulator is Some ==> open.emulator == m.emulator
            &&& m.emulator is None ==> open.emulator is Some && open.emulator->0.grid.cols == 80
                && open.emulator->0.grid.rows == 24 && open.emulator->0.fed.len() == 0
            &&& m.leave_dashboard() == (ProviderModel {
                in_dashboard: false,
                auto_entered_dashboard: false,
                ..m
            })
        }),
{
}

/// A grid is never smaller than one column and one row.
pub proof fn law_sizes_are_not_zero(screen: ScreenState, cols: u16, rows: u16)
    ensures
        at_least_one(0) == 1,
        cols > 0 ==> at_least_one(cols) == cols,
        cols > 0 && rows > 0 ==> screen.resize(cols, rows).grid == screen.grid.resize(cols, rows),
        screen.resize(cols, rows).grid.cols >= 1,
        screen.resize(cols, rows).grid.rows >= 1,
        screen.resize(cols, rows).fed == screen.fed,
{
}

/// A shell is asked for once, as long as none runs.
pub proof fn law_shell_is_asked_for_once(m: ProviderModel)
    ensures
        m.wants_shell() == (!m.shell_running && !m.init_attempted),
        !m.ensure_shell().wants_shell(),
        m.wants_shell() ==> m.ensure_shell() == (ProviderModel { init_attempted: true, ..m }),
        !m.wants_shell() ==> m.ensure_shell() == m,
{
}

/// A shell that started runs. One that failed to start leaves an entry that
/// names its program and shows why, behind the others. Either way the scrollback
/// is cut to its size.
pub proof fn law_failed_start_is_shown(m: ProviderModel, message: Seq<char>)
    ensures
        ({
            let failed = m.shell_started(Some(message));
            let entry = EntryModel {
                prompt: Seq::empty(),
                input: "(failed to start `"@ + m.shell_program + "`)"@,
                output: message,
            };
            &&& m.shell_started(None) == (ProviderModel {
                shell_running: true,
                entries: newest(m.entries, m.scrollback_size),
                ..m
            })
            &&& failed == (ProviderModel {
                entries: newest(m.entries.push(entry), m.scrollback_size),
                ..m
            })
        }),
{
}

/// The rows show each command behind its prompt, and below it the lines of its
/// output, entry by entry in the order in which they were typed.
pub proof fn law_rows_show_entries_in_order(first: Seq<EntryModel>, then: Seq<EntryModel>)
    ensures
        rows_for(first + then) == rows_for(first) + rows_for(then),
        rows_for(Seq::empty()) == Seq::<Seq<char>>::empty(),
        then.len() == 1 ==> rows_for(then) == seq![then[0].prompt + then[0].input] + lines_below(
            then[0].input,
            then[0].output,
        ),
    decreases then.len(),
{
    if then.len() == 0 {
        assert(first + then =~= first);
        assert(rows_for(first) + rows_for(then) =~= rows_for(first));
    } else {
        law_rows_show_entries_in_order(first, then.drop_last());
        assert((first + then).drop_last() =~= first + then.drop_last());
        assert((first + then).last() == then.last());
        assert(rows_for(first + then) =~= rows_for(first) + rows_for(then));
        if then.len() == 1 {
            assert(then.drop_last() =~= Seq::<EntryModel>::empty());
            reveal_with_fuel(rows_for, 2);
            assert(rows_for(then) =~= seq![then[0].prompt + then[0].input] + lines_below(
                then[0].input,
                then[0].output,
            ));
        }
    }
}

/// What is shown is the rows of the entries and then the slot for the next
/// command behind the prompt.
pub proof fn law_scrollback_is_rows_and_slot(
    m: ProviderModel,
    platform: PlatformModel,
    live: Option<Seq<char>>,
)
    ensures
        m.fetch(platform, live) == rows_for(m.entries) + seq![
            m.prompt(platform, live) + "<input></input>"@,
        ],
{
    assert(m.fetch(platform, live) =~= rows_for(m.entries) + seq![
        m.prompt(platform, live) + "<input></input>"@,
    ]);
}

/// The shell is where it says it is, else where it was sent, else at home, else
/// at the root.
pub proof fn law_folder_of_the_shell(
    m: ProviderModel,
    platform: PlatformModel,
    live: Option<Seq<char>>,
)
    ensures
        live is Some ==> m.shell_cwd(platform, live) == live->0,
        live is None && m.cwd is Some ==> m.shell_cwd(platform, live) == m.cwd->0,
        live is None && m.cwd is None && platform.home is Some ==> m.shell_cwd(platform, live)
            == platform.home->0,
        live is None && m.cwd is None && platform.home is None ==> m.shell_cwd(platform, live)
            == if platform.windows {
            seq!['\\']
        } else {
            seq!['/']
        },
{
}

/// The prompt is `user@host:folder$ `, with the home folder written `~`. On
/// Windows it is the folder as it is and `> `.
pub proof fn law_prompt(m: ProviderModel, platform: PlatformModel, live: Option<Seq<char>>)
    ensures
        ({
            let cwd = m.shell_cwd(platform, live);
            let shown = shown_folder(false, platform.home, cwd);
            let prompt = m.prompt(platform, live);
            &&& platform.windows ==> prompt == cwd + seq!['>', ' ']
            &&& !platform.windows ==> prompt == m.user + seq!['@'] + m.host + seq![':'] + shown
                + seq!['$', ' ']
        }),
{
    reveal_strlit("> ");
    reveal_strlit("@");
    reveal_strlit(":");
    reveal_strlit("$ ");
    assert("> "@ =~= seq!['>', ' ']);
    assert("@"@ =~= seq!['@']);
    assert(":"@ =~= seq![':']);
    assert("$ "@ =~= seq!['$', ' ']);
}

proof fn lemma_feeds_push(lines: Seq<Seq<char>>, line: Seq<char>)
    ensures
        with_feeds(lines.push(line)) == with_feeds(lines) + line + seq!['\n'],
    decreases lines.len(),
{
    let all = lines.push(line);
    if lines.len() == 0 {
        assert(all.skip(1) =~= Seq::<Seq<char>>::empty());
        reveal_with_fuel(with_feeds, 2);
        assert(with_feeds(all) =~= with_feeds(lines) + line + seq!['\n']);
    } else {
        lemma_feeds_push(lines.skip(1), line);
        assert(all.skip(1) =~= lines.skip(1).push(line));
        assert(with_feeds(all) =~= with_feeds(lines) + line + seq!['\n']);
    }
}

/// A file of lines holds each with a line feed behind it, from the first to the
/// last.
pub proof fn law_files_hold_lines(lines: Seq<Seq<char>>)
    ensures
        file_text(lines) == with_feeds(lines),
    decreases lines.len(),
{
    if lines.len() > 0 {
        let before = lines.drop_last();
        law_files_hold_lines(before);
        lemma_feeds_push(before, lines.last());
        assert(before.push(lines.last()) =~= lines);
        assert(file_text(lines) =~= with_feeds(lines));
    }
}

/// An empty command is not recorded. Any other goes to the end of the history,
/// with spaces for its line feeds, and as many of the oldest leave as there are
/// too many. Nothing else changes but the count of appends.
pub proof fn law_commands_are_recorded(
    m: ProviderModel,
    platform: PlatformModel,
    line: Seq<char>,
)
    ensures
        ({
            let after = m.record(platform, line);
            let flat = replaced(line, '\n', ' ');
            let all = m.command_history.push(flat);
            let cap = m.command_history_size as int;
            &&& line.len() == 0 ==> after == m && m.record_write(platform, line) is None
            &&& line.len() > 0 ==> after == (ProviderModel {
                command_history: after.command_history,
                appends_since_compact: after.appends_since_compact,
                ..m
            })
            &&& line.len() > 0 && (cap == 0 || all.len() <= cap) ==> after.command_history == all
            &&& line.len() > 0 && 0 < cap < all.len() ==> after.command_history == all.skip(
                all.len() - cap,
            )
        }),
{
}

/// Each command that is recorded is to be appended to the history file as one
/// line. Once as many were appended as the history may hold, the whole file is
/// to be written anew, with the lines of the history, and the count starts over.
pub proof fn law_history_file_is_written(
    m: ProviderModel,
    platform: PlatformModel,
    line: Seq<char>,
)
    requires
        line.len() > 0,
    ensures
        ({
            let after = m.record(platform, line);
            let write = m.record_write(platform, line);
            let cap = m.command_history_size as int;
            let count = m.appends_since_compact + 1;
            &&& m.history_path(platform) is None ==> write is None && after.appends_since_compact
                == m.appends_since_compact
            &&& m.history_path(platform) matches Some(path) ==> {
                &&& write is Some
                &&& write->0.path == path
                &&& write->0.append == replaced(line, '\n', ' ') + seq!['\n']
                &&& cap > 0 && count >= cap ==> write->0.rewrite == Some(
                    with_feeds(after.command_history),
                ) && after.appends_since_compact == 0
                &&& cap == 0 || count < cap ==> write->0.rewrite is None
                &&& (cap == 0 || count < cap) && count <= usize::MAX
                    ==> after.appends_since_compact == count
                &&& (cap == 0 || count < cap) && count > usize::MAX
                    ==> after.appends_since_compact == usize::MAX
            }
        }),
{
    law_files_hold_lines(m.record(platform, line).command_history);
    let flat = replaced(line, '\n', ' ');
    assert(flat.push('\n') =~= flat + seq!['\n']);
}

/// Empty lines of a list are left out, and the others keep their order.
pub proof fn law_empty_lines_are_left_out(
    first: Seq<Seq<char>>,
    line: Seq<char>,
    then: Seq<Seq<char>>,
)
    ensures
        line.len() == 0 ==> not_empty(first + seq![line] + then) == not_empty(first) + not_empty(
            then,
        ),
        line.len() > 0 ==> not_empty(first + seq![line] + then) == not_empty(first) + seq![line]
            + not_empty(then),
        not_empty(Seq::empty()) == Seq::<Seq<char>>::empty(),
    decreases then.len(),
{
    let all = first + seq![line] + then;
    if then.len() == 0 {
        assert(all.drop_last() =~= first);
        assert(all.last() == line);
        assert(line.len() == 0 ==> not_empty(all) =~= not_empty(first) + not_empty(then));
        assert(line.len() > 0 ==> not_empty(all) =~= not_empty(first) + seq![line] + not_empty(
            then,
        ));
    } else {
        law_empty_lines_are_left_out(first, line, then.drop_last());
        assert(all.drop_last() =~= first + seq![line] + then.drop_last());
        assert(all.last() == then.last());
        assert(line.len() == 0 ==> not_empty(all) =~= not_empty(first) + not_empty(then));
        assert(line.len() > 0 ==> not_empty(all) =~= not_empty(first) + seq![line] + not_empty(
            then,
        ));
    }
}

/// The history file is read once. Its lines become the history, as many of the
/// last as it may hold; a file that could not be read leaves it as it is.
pub proof fn law_history_is_read_once(m: ProviderModel, content: Option<Seq<char>>)
    ensures
        ({
            let after = m.load_history(content);
            &&& m.command_history_loaded ==> after == m
            &&& after.command_history_loaded
            &&& !m.command_history_loaded && content is None ==> after == (ProviderModel {
                command_history_loaded: true,
                ..m
            })
            &&& !m.command_history_loaded ==> (content matches Some(text) ==> {
                let lines = not_empty(lines_of(text));
                let cap = m.command_history_size as int;
                &&& cap == 0 || lines.len() <= cap ==> after.command_history == lines
                    && after.appends_since_compact == 0
                &&& 0 < cap < lines.len() ==> after.command_history == lines.skip(
                    lines.len() - cap,
                )
                &&& 0 < cap < lines.len() && lines.len() <= usize::MAX
                    ==> after.appends_since_compact == lines.len() - cap
                &&& after == (ProviderModel {
                    command_history_loaded: true,
                    command_history: after.command_history,
                    appends_since_compact: after.appends_since_compact,
                    ..m
                })
            })
        }),
{
}

/// Cutting the scrollback or the history drops the oldest items above its size
/// and changes nothing else; a size of zero cuts nothing.
pub proof fn law_cutting_drops_the_oldest(m: ProviderModel)
    ensures
        ({
            let entries = m.entries.len() as int;
            let size = m.scrollback_size as int;
            let lines = m.command_history.len() as int;
            let cap = m.command_history_size as int;
            &&& size == 0 || entries <= size ==> m.trim_scrollback() == m
            &&& 0 < size < entries ==> m.trim_scrollback() == (ProviderModel {
                entries: m.entries.skip(entries - size),
                ..m
            })
            &&& cap == 0 || lines <= cap ==> m.trim_history() == m
            &&& 0 < cap < lines ==> m.trim_history() == (ProviderModel {
                command_history: m.command_history.skip(lines - cap),
                ..m
            })
        }),
{
}

/// The size a setting writes is a number in decimal digits, with or without a
/// plus sign in front. Anything else is no size.
pub proof fn law_sizes_are_numbers(digits: Seq<char>)
    ensures
        ({
            let fits = is_number(digits) && number_of(digits) <= usize::MAX;
            let size = if fits {
                Some(number_of(digits) as usize)
            } else {
                None
            };
            &&& size_in(seq!['+'] + digits) == size
            &&& digits.len() == 0 || digits[0] != '+' ==> size_in(digits) == size
        }),
{
    assert((seq!['+'] + digits).skip(1) =~= digits);
}

/// The shell to run and the folder to start in are set unless the value is
/// empty; in the folder `~` is the home folder.
pub proof fn law_shell_settings(m: ProviderModel, platform: PlatformModel, value: Seq<char>)
    ensures
        ({
            let program = m.set(platform, "shellProgram"@, value);
            let path = m.set(platform, "initialPath"@, value);
            &&& value.len() == 0 ==> program == m && path == m
            &&& value.len() > 0 ==> program == (ProviderModel { shell_program: value, ..m })
            &&& value.len() > 0 ==> path == (ProviderModel {
                cwd: Some(home_expanded(platform.windows, platform.home, value)),
                ..m
            })
        }),
{
    lemma_settings_differ();
}

/// Sizes are set if they are numbers, and cut at once what is too long.
pub proof fn law_size_settings(m: ProviderModel, platform: PlatformModel, value: Seq<char>)
    ensures
        ({
            let scrollback = m.set(platform, "scrollbackSize"@, value);
            let history = m.set(platform, "commandHistorySize"@, value);
            &&& size_in(value) is None ==> scrollback == m && history == m
            &&& size_in(value) matches Some(n) ==> {
                &&& scrollback == (ProviderModel {
                    scrollback_size: n,
                    entries: newest(m.entries, n),
                    ..m
                })
                &&& history == (ProviderModel {
                    command_history_size: n,
                    command_history: newest(m.command_history, n),
                    ..m
                })
            }
        }),
{
    lemma_settings_differ();
}

/// Whether programs open the dashboard is switched on by `true`, `1` and `on`,
/// and off by anything else. Settings that are not known change nothing.
pub proof fn law_switch_setting(
    m: ProviderModel,
    platform: PlatformModel,
    key: Seq<char>,
    value: Seq<char>,
)
    ensures
        m.set(platform, "autoEnterDashboard"@, value) == (ProviderModel {
            auto_enter_dashboard: value == "true"@ || value == "1"@ || value == "on"@,
            ..m
        }),
        key != "shellProgram"@ && key != "initialPath"@ && key != "scrollbackSize"@ && key
            != "commandHistorySize"@ && key != "autoEnterDashboard"@ ==> m.set(
            platform,
            key,
            value,
        ) == m,
{
    lemma_settings_differ();
}

proof fn lemma_settings_differ()
    ensures
        "shellProgram"@.len() == 12,
        "initialPath"@.len() == 11,
        "scrollbackSize"@.len() == 14,
        "commandHistorySize"@.len() == 18,
        "autoEnterDashboard"@.len() == 18,
        "commandHistorySize"@ != "autoEnterDashboard"@,
{
    reveal_strlit("shellProgram");
    reveal_strlit("initialPath");
    reveal_strlit("scrollbackSize");
    reveal_strlit("commandHistorySize");
    reveal_strlit("autoEnterDashboard");
    assert("commandHistorySize"@[0] != "autoEnterDashboard"@[0]);
}

/// A terminal starts without a shell, entries, history or grid, outside the
/// dashboard, with room for fifty thousand entries and as many commands, and
/// lets programs open the dashboard.
pub proof fn law_terminal_starts_empty(program: Seq<char>, user: Seq<char>, host: Seq<char>)
    ensures
        ({
            let m = ProviderModel::fresh(program, user, host);
            &&& m.shell_program == program && m.user == user && m.host == host
            &&& !m.shell_running && !m.init_attempted && m.wants_shell()
            &&& m.entries.len() == 0 && m.command_history.len() == 0
            &&& m.cwd is None && m.emulator is None && m.command_history_path is None
            &&& !m.in_dashboard && m.pending_dashboard_request is None
            &&& m.scrollback_size == 50_000 && m.command_history_size == 50_000
            &&& !m.command_history_loaded && m.appends_since_compact == 0
            &&& m.auto_enter_dashboard && !m.auto_entered_dashboard
        }),
{
}

/// Sending a command records it, adds its entry and may move the folder of the
/// prompts to come. Nothing else changes.
pub proof fn law_sending_a_command_keeps_the_rest(
    m: ProviderModel,
    platform: PlatformModel,
    live: Option<Seq<char>>,
    line: Seq<char>,
)
    ensures
        ({
            let after = m.submit(platform, live, line);
            let recorded = m.record(platform, line);
            after == (ProviderModel {
                cwd: after.cwd,
                entries: after.entries,
                command_history: recorded.command_history,
                appends_since_compact: recorded.appends_since_compact,
                ..m
            })
        }),
{
}

/// Output is searched for switches of the alternate screen if that is set, and
/// each one that is found is handled, from the first to the last.
pub proof fn law_every_switch_is_handled(
    m: ProviderModel,
    bytes: Seq<u8>,
    first: Seq<AltScreenEvent>,
    event: AltScreenEvent,
)
    ensures
        !m.auto_enter_dashboard ==> m.watch(bytes) == m,
        m.auto_enter_dashboard ==> m.watch(bytes) == (ProviderModel {
            alt_detect: m.alt_detect.after(bytes),
            ..m
        }).handle_all(m.alt_detect.events(bytes)),
        m.handle_all(Seq::empty()) == m,
        m.handle_all(first.push(event)) == m.handle_all(first).handle(event),
{
    assert(first.push(event).drop_last() =~= first);
}

/// The history file is where it was set to be, and else `history` in
/// `sicompass`, `terminal` below the folder for state files, if there is one.
pub proof fn law_place_of_the_history_file(
    m: ProviderModel,
    platform: PlatformModel,
    drive: char,
    names: Seq<Seq<char>>,
)
    requires
        platform.windows ==> is_drive_letter(drive),
        are_names(platform.windows, names),
    ensures
        ({
            let w = platform.windows;
            let state = folder(w, drive, names);
            let sep = seq![separator_of(w)];
            let file = m.history_path(platform);
            &&& m.command_history_path is Some ==> file == m.command_history_path
            &&& m.command_history_path is None && platform.state_home is None ==> file is None
            &&& m.command_history_path is None && platform.state_home == Some(state) ==> file
                == Some(
                state + between(w, names) + "sicompass"@ + sep + "terminal"@ + sep + "history"@,
            )
        }),
{
    let w = platform.windows;
    let state = folder(w, drive, names);
    let app = "sicompass"@;
    let dir = "terminal"@;
    let file = "history"@;
    reveal_strlit("sicompass");
    reveal_strlit("terminal");
    reveal_strlit("history");
    assert(app.len() == 9 && app[0] == 's' && app[1] == 'i' && app.last() == 's');
    assert(dir.len() == 8 && dir[0] == 't' && dir[1] == 'e' && dir.last() == 'l');
    assert(file.len() == 7 && file[0] == 'h' && file[1] == 'i');
    law_relative_paths_go_below(w, drive, names, app, Seq::empty());
    let one = path_joined(w, state, app);
    let two = path_joined(w, one, dir);
    let sep = seq![separator_of(w)];
    lemma_name_joined(w, one, dir);
    lemma_name_joined(w, two, file);
    assert(one[0] == state[0]);
    assert(one.last() == 's');
    assert(two =~= one + sep + dir);
    assert(two[0] == one[0]);
    assert(two.last() == 'l');
}

proof fn lemma_name_joined(windows: bool, base: Seq<char>, name: Seq<char>)
    requires
        base.len() > 3,
        base.last() != '/' && base.last() != '\\',
        windows ==> is_drive_letter(base[0]),
        name.len() > 1,
        name[0] != '/' && name[0] != '\\' && name[1] != ':',
    ensures
        path_joined(windows, base, name) == base + seq![separator_of(windows)] + name,
{
    assert(name.skip(0) =~= name);
    assert(base.push(main_sep(windows)) + name =~= base + seq![separator_of(windows)] + name);
}

/// Texts and lists of texts stand for themselves, item by item.
pub proof fn law_texts_stand_for_themselves(
    text: String,
    strings: Seq<String>,
    lists: Seq<Vec<char>>,
    pairs: Seq<(String, String)>,
    i: int,
)
    ensures
        text_in(Some(text)) == Some(text@),
        text_in(None) is None,
        strings_of(strings).len() == strings.len(),
        0 <= i < strings.len() ==> strings_of(strings)[i] == strings[i]@,
        texts_of(lists).len() == lists.len(),
        0 <= i < lists.len() ==> texts_of(lists)[i] == lists[i]@,
        pairs_of(pairs).len() == pairs.len(),
        0 <= i < pairs.len() ==> pairs_of(pairs)[i] == (pairs[i].0@, pairs[i].1@),
{
}

/// Entries, writes and the machine are seen as what they hold.
pub proof fn law_entries_stand_for_themselves(
    entries: Seq<Entry>,
    write: HistoryWrite,
    platform: Platform,
    emulator: Emulator,
    i: int,
)
    ensures
        entries_of(entries).len() == entries.len(),
        0 <= i < entries.len() ==> entries_of(entries)[i].prompt == entries[i].prompt@
            && entries_of(entries)[i].input == entries[i].input@ && entries_of(entries)[i].output
            == entries[i].output@,
        write_in(Some(write)) is Some && write_in(None) is None,
        write_in(Some(write))->0.path == write.path@,
        write_in(Some(write))->0.append == write.append@,
        write_in(Some(write))->0.rewrite == text_in(write.rewrite),
        platform@.windows == platform.windows,
        platform@.home == text_in(platform.home),
        platform@.state_home == text_in(platform.state_home),
        screen_in(None) is None,
        screen_in(Some(emulator)) == Some(ScreenState { grid: emulator@, fed: emulator.fed() }),
{
}

/// A terminal is seen as what it holds.
pub proof fn law_terminals_stand_for_themselves(p: TerminalProvider)
    ensures
        p@.shell_running == p.shell_running && p@.init_attempted == p.init_attempted,
        p@.entries == entries_of(p.entries@) && p@.scrollback_size == p.scrollback_size,
        p@.shell_program == p.shell_program@ && p@.cwd == text_in(p.cwd),
        p@.user == p.user@ && p@.host == p.host@,
        p@.emulator == screen_in(p.emulator) && p@.in_dashboard == p.in_dashboard,
        p@.command_history == strings_of(p.command_history@),
        p@.command_history_size == p.command_history_size,
        p@.command_history_loaded == p.command_history_loaded,
        p@.command_history_path == text_in(p.command_history_path),
        p@.appends_since_compact == p.appends_since_compact,
        p@.auto_enter_dashboard == p.auto_enter_dashboard,
        p@.auto_entered_dashboard == p.auto_entered_dashboard,
        p@.pending_dashboard_request == p.pending_dashboard_request,
        p@.alt_detect == p.alt_detect@,
{
}

} // verus!
