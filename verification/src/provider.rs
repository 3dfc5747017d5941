//! The terminal: a scrollback of commands and their output, and a dashboard
//! for programs that take over the screen, over the same shell.
//!
//! The provider decides; the application acts. It starts the shell, moves
//! bytes to and from it and writes the history file, as it is told here.
use vstd::prelude::*;
use vstd::slice::slice_to_vec;
use vstd::utf8::encode_utf8;

use crate::altscreen_detect::{AltScreenDetector, AltScreenEvent};
use crate::command::{collapse_home, expand_home, parse_cd, Platform};
use crate::dashboard::{
    unpainted_cell, DashboardFrame, DashboardKey, DashboardKind, DashboardRequest,
};
use crate::emulator::Emulator;
use crate::keys::{encode_dashboard_key, key_bytes};
use crate::output::{decode_terminal_output, entry_lines};
use crate::path::{join_path, main_sep};
use crate::provider_model::{
    file_text, lemma_watch, not_empty, rows_for, size_in, EntryModel,
    HistoryWriteModel, PlatformModel, ProviderModel, ScreenState,
};
use crate::shell::{text_in, ShellConfig};
use crate::sys::{name_or_user, user_of};
use crate::text::{
    append_chars, append_text, chars_of, copy_text, lines_of, parse_number, part, replace_char,
    same_text, split_lines, string_of, strings_of, texts_of,
};

verus! {

/// One entry of the scrollback.
#[derive(Debug, Clone)]
pub struct Entry {
    /// The prompt the command was typed at.
    pub prompt: String,
    pub input: String,
    /// What the shell printed for it so far.
    pub output: String,
}

impl View for Entry {
    type V = EntryModel;

    open spec fn view(&self) -> EntryModel {
        EntryModel { prompt: self.prompt@, input: self.input@, output: self.output@ }
    }
}

/// What each of a list of entries says.
pub open spec fn entries_of(entries: Seq<Entry>) -> Seq<EntryModel> {
    Seq::new(entries.len(), |i: int| entries[i]@)
}

impl View for Platform {
    type V = PlatformModel;

    open spec fn view(&self) -> PlatformModel {
        PlatformModel {
            windows: self.windows,
            home: text_in(self.home),
            state_home: text_in(self.state_home),
        }
    }
}

/// What is to be written to the history file.
pub struct HistoryWrite {
    pub path: String,
    /// The line to append, with its line feed.
    pub append: String,
    /// What the whole file is to hold after that, if it is time to cut it.
    pub rewrite: Option<String>,
}

impl View for HistoryWrite {
    type V = HistoryWriteModel;

    open spec fn view(&self) -> HistoryWriteModel {
        HistoryWriteModel {
            path: self.path@,
            append: self.append@,
            rewrite: text_in(self.rewrite),
        }
    }
}

/// What a write says, if there is one.
pub open spec fn write_in(write: Option<HistoryWrite>) -> Option<HistoryWriteModel> {
    match write {
        Some(w) => Some(w@),
        None => None,
    }
}

/// An emulator as the model sees it, if there is one.
pub open spec fn screen_in(emulator: Option<Emulator>) -> Option<ScreenState> {
    match emulator {
        Some(e) => Some(ScreenState { grid: e@, fed: e.fed() }),
        None => None,
    }
}

pub struct TerminalProvider {
    /// Whether a shell was started.
    pub shell_running: bool,
    pub entries: Vec<Entry>,
    pub shell_program: String,
    pub cwd: Option<String>,
    pub init_attempted: bool,
    pub user: String,
    pub host: String,
    /// Made when the dashboard is first opened, and kept when it is closed, so
    /// that a program in it survives that.
    pub emulator: Option<Emulator>,
    /// Whether output goes to the emulator instead of the scrollback.
    pub in_dashboard: bool,
    /// How many entries are kept; zero for any number.
    pub scrollback_size: usize,
    /// The commands typed so far, also in earlier sessions.
    pub command_history: Vec<String>,
    /// How many of them are kept; zero for any number.
    pub command_history_size: usize,
    pub command_history_loaded: bool,
    /// Where they are kept, unless in the usual place.
    pub command_history_path: Option<String>,
    /// How many were appended to the file since it was last written anew.
    pub appends_since_compact: usize,
    /// Whether programs that take over the screen open the dashboard.
    pub auto_enter_dashboard: bool,
    /// Whether the dashboard was opened by such a program.
    pub auto_entered_dashboard: bool,
    /// What the application is asked to do next.
    pub pending_dashboard_request: Option<DashboardRequest>,
    /// Looks for programs that take over the screen.
    pub alt_detect: AltScreenDetector,
}

impl View for TerminalProvider {
    type V = ProviderModel;

    open spec fn view(&self) -> ProviderModel {
        ProviderModel {
            shell_running: self.shell_running,
            entries: entries_of(self.entries@),
            shell_program: self.shell_program@,
            cwd: text_in(self.cwd),
            init_attempted: self.init_attempted,
            user: self.user@,
            host: self.host@,
            emulator: screen_in(self.emulator),
            in_dashboard: self.in_dashboard,
            scrollback_size: self.scrollback_size,
            command_history: strings_of(self.command_history@),
            command_history_size: self.command_history_size,
            command_history_loaded: self.command_history_loaded,
            command_history_path: text_in(self.command_history_path),
            appends_since_compact: self.appends_since_compact,
            auto_enter_dashboard: self.auto_enter_dashboard,
            auto_entered_dashboard: self.auto_entered_dashboard,
            pending_dashboard_request: self.pending_dashboard_request,
            alt_detect: self.alt_detect@,
        }
    }
}

/// A copy of an optional string.
fn copy_option(text: &Option<String>) -> (copy: Option<String>)
    ensures
        text_in(copy) == text_in(*text),
{
    match text {
        Some(t) => Some(copy_text(t.as_str())),
        None => None,
    }
}

/// Lines as a file holds them.
fn write_lines(lines: &Vec<String>) -> (content: String)
    ensures
        content@ == file_text(strings_of(lines@)),
{
    let mut content: Vec<char> = Vec::new();
    let ghost all = strings_of(lines@);
    let mut i: usize = 0;
    assert(all.take(0) =~= Seq::empty());
    while i < lines.len()
        invariant
            i <= lines@.len(),
            all == strings_of(lines@),
            content@ == file_text(all.take(i as int)),
        decreases lines.len() - i,
    {
        let ghost before = content@;
        append_text(&mut content, lines[i].as_str());
        content.push('\n');
        assert(all.take(i + 1).drop_last() =~= all.take(i as int));
        assert(all.take(i + 1).last() == lines@[i as int]@);
        assert(content@ =~= before + lines@[i as int]@.push('\n'));
        i += 1;
    }
    assert(all.take(i as int) =~= all);
    string_of(content.as_slice())
}

/// The lines of a file that are not empty.
fn read_lines(content: &str) -> (lines: Vec<String>)
    ensures
        strings_of(lines@) == not_empty(lines_of(content@)),
{
    let pieces = split_lines(chars_of(content).as_slice());
    let ghost all = texts_of(pieces@);
    let mut lines: Vec<String> = Vec::new();
    let mut i: usize = 0;
    assert(all.take(0) =~= Seq::empty());
    assert(strings_of(lines@) =~= Seq::empty());
    while i < pieces.len()
        invariant
            i <= pieces@.len(),
            all == texts_of(pieces@),
            strings_of(lines@) == not_empty(all.take(i as int)),
        decreases pieces.len() - i,
    {
        let ghost before = strings_of(lines@);
        assert(all.take(i + 1).drop_last() =~= all.take(i as int));
        assert(all.take(i + 1).last() == pieces@[i as int]@);
        if pieces[i].len() > 0 {
            lines.push(string_of(pieces[i].as_slice()));
            assert(strings_of(lines@) =~= before.push(pieces@[i as int]@));
        }
        i += 1;
    }
    assert(all.take(i as int) =~= all);
    lines
}

/// The size a setting writes.
fn parse_size(value: &str) -> (size: Option<usize>)
    ensures
        size == size_in(value@),
{
    let chars = chars_of(value);
    let n = chars.len();
    let start: usize = if n > 0 && chars[0] == '+' {
        1
    } else {
        0
    };
    assert(chars@.skip(0) =~= chars@);
    match parse_number(part(chars.as_slice(), start, n).as_slice(), usize::MAX as u64) {
        Some(size) => Some(size as usize),
        None => None,
    }
}

impl TerminalProvider {
    /// Whether the emulator, if there is one, is well-formed.
    pub open spec fn wf(&self) -> bool {
        self@.wf()
    }

    /// A terminal that runs `shell_program`. `user` is the variable `USER`, and
    /// `host` the short name of the machine. Without a name the user is `user`.
    pub fn new(shell_program: String, user: Option<String>, host: String) -> (provider: Self)
        ensures
            provider.wf(),
            provider@ == ProviderModel::fresh(
                shell_program@,
                user_of(text_in(user)),
                host@,
            ),
    {
        let provider = TerminalProvider {
            shell_running: false,
            entries: Vec::new(),
            shell_program,
            cwd: None,
            init_attempted: false,
            user: name_or_user(user),
            host,
            emulator: None,
            in_dashboard: false,
            scrollback_size: 50_000,
            command_history: Vec::new(),
            command_history_size: 50_000,
            command_history_loaded: false,
            command_history_path: None,
            appends_since_compact: 0,
            auto_enter_dashboard: true,
            auto_entered_dashboard: false,
            pending_dashboard_request: None,
            alt_detect: AltScreenDetector::new(),
        };
        assert(provider@.entries =~= Seq::empty());
        assert(provider@.command_history =~= Seq::empty());
        provider
    }

    /// Looks for switches of the alternate screen in a chunk of output, and
    /// asks the application for the dashboard accordingly.
    pub fn drive_alt_screen_detector(&mut self, bytes: &[u8])
        ensures
            final(self)@ == old(self)@.watch(bytes@),
            final(self).emulator == old(self).emulator,
    {
        if !self.auto_enter_dashboard {
            return;
        }
        let events = self.alt_detect.feed(bytes);
        let n: usize = events.len();
        let ghost start = self@;
        let ghost counted = events@;
        let mut i: usize = 0;
        assert(counted.take(0) =~= Seq::empty());
        assert(start =~= ProviderModel {
            alt_detect: old(self)@.alt_detect.after(bytes@),
            ..old(self)@
        });
        while i < n
            invariant
                i <= n == events@.len(),
                counted == events@,
                self@ == start.handle_all(counted.take(i as int)),
                self.emulator == old(self).emulator,
            decreases n - i,
        {
            assert(counted.take(i + 1).drop_last() =~= counted.take(i as int));
            assert(counted.take(i + 1).last() == events@[i as int]);
            self.handle_alt_screen_event(events[i]);
            i += 1;
        }
        assert(counted.take(i as int) =~= counted);
    }

    /// Asks for the dashboard when a program enters the alternate screen, and
    /// asks to close it again when the program that opened it leaves. A
    /// dashboard that was opened otherwise stays, and so does one in which a
    /// program enters the alternate screen once more.
    pub fn handle_alt_screen_event(&mut self, event: AltScreenEvent)
        ensures
            final(self)@ == old(self)@.handle(event),
            final(self).emulator == old(self).emulator,
    {
        match event {
            AltScreenEvent::Enter => {
                if !self.in_dashboard {
                    self.pending_dashboard_request = Some(DashboardRequest::Enter);
                    self.auto_entered_dashboard = true;
                }
            },
            AltScreenEvent::Leave => {
                if self.in_dashboard && self.auto_entered_dashboard {
                    self.pending_dashboard_request = Some(DashboardRequest::Leave);
                }
            },
        }
    }

    /// Drops the oldest entries above the size of the scrollback.
    pub fn trim_scrollback(&mut self)
        ensures
            final(self)@ == old(self)@.trim_scrollback(),
            final(self).emulator == old(self).emulator,
    {
        if self.scrollback_size > 0 && self.entries.len() > self.scrollback_size {
            let ghost before = self.entries@;
            let drop: usize = self.entries.len() - self.scrollback_size;
            let kept = self.entries.split_off(drop);
            self.entries = kept;
            assert(entries_of(self.entries@) =~= entries_of(before).skip(drop as int));
        }
    }

    /// Drops the oldest commands above the size of the history.
    pub fn trim_command_history_in_memory(&mut self)
        ensures
            final(self)@ == old(self)@.trim_history(),
            final(self).emulator == old(self).emulator,
    {
        if self.command_history_size > 0 && self.command_history.len() > self.command_history_size {
            let ghost before = self.command_history@;
            let drop: usize = self.command_history.len() - self.command_history_size;
            let kept = self.command_history.split_off(drop);
            self.command_history = kept;
            assert(strings_of(self.command_history@) =~= strings_of(before).skip(drop as int));
        }
    }

    /// Where the history file is: in the place that was set, or else below the
    /// folder for state files, if there is one.
    pub fn resolve_command_history_path(&self, platform: &Platform) -> (path: Option<String>)
        ensures
            text_in(path) == self@.history_path(platform@),
    {
        if let Some(path) = &self.command_history_path {
            return Some(copy_text(path.as_str()));
        }
        match &platform.state_home {
            Some(home) => {
                let w = platform.windows;
                let base = chars_of(home.as_str());
                let app = join_path(w, base.as_slice(), chars_of("sicompass").as_slice());
                let dir = join_path(w, app.as_slice(), chars_of("terminal").as_slice());
                let file = join_path(w, dir.as_slice(), chars_of("history").as_slice());
                Some(string_of(file.as_slice()))
            },
            None => None,
        }
    }

    /// Takes in the history file, or `None` if there is none to read. Only the
    /// first call does anything.
    pub fn load_command_history(&mut self, content: Option<&str>)
        ensures
            final(self)@ == old(self)@.load_history(
                match content {
                    Some(text) => Some(text@),
                    None => None,
                },
            ),
            final(self).emulator == old(self).emulator,
    {
        if self.command_history_loaded {
            return;
        }
        self.command_history_loaded = true;
        if let Some(text) = content {
            self.command_history = read_lines(text);
            let read: usize = self.command_history.len();
            self.trim_command_history_in_memory();
            self.appends_since_compact = read - self.command_history.len();
        }
    }

    /// Adds a command to the history, and tells what to write to its file. An
    /// empty command is left out; line feeds become spaces.
    pub fn record_command(&mut self, line: &str, platform: &Platform) -> (write: Option<
        HistoryWrite,
    >)
        ensures
            final(self)@ == old(self)@.record(platform@, line@),
            write_in(write) == old(self)@.record_write(platform@, line@),
            final(self).emulator == old(self).emulator,
    {
        let flat = replace_char(chars_of(line).as_slice(), '\n', ' ');
        if flat.len() == 0 {
            return None;
        }
        let ghost before = strings_of(self.command_history@);
        self.command_history.push(string_of(flat.as_slice()));
        assert(strings_of(self.command_history@) =~= before.push(flat@));
        assert(self@ =~= ProviderModel {
            command_history: old(self)@.command_history.push(flat@),
            ..old(self)@
        });
        self.trim_command_history_in_memory();
        let path = match self.resolve_command_history_path(platform) {
            Some(path) => path,
            None => {
                return None;
            },
        };
        let mut append = part(flat.as_slice(), 0, flat.len());
        append.push('\n');
        assert(append@ =~= flat@.push('\n'));
        if self.appends_since_compact < usize::MAX {
            self.appends_since_compact = self.appends_since_compact + 1;
        }
        let rewrite = if self.command_history_size > 0 && self.appends_since_compact
            >= self.command_history_size {
            Some(self.compact_command_history_file())
        } else {
            None
        };
        Some(HistoryWrite { path, append: string_of(append.as_slice()), rewrite })
    }

    /// What the history file is to hold when it is written anew.
    pub fn compact_command_history_file(&mut self) -> (content: String)
        ensures
            content@ == file_text(old(self)@.command_history),
            final(self)@ == (ProviderModel { appends_since_compact: 0, ..old(self)@ }),
            final(self).emulator == old(self).emulator,
    {
        self.appends_since_compact = 0;
        write_lines(&self.command_history)
    }

    /// What to start as a shell, unless that was done or tried before.
    pub fn ensure_shell(&mut self) -> (config: Option<ShellConfig>)
        ensures
            final(self)@ == old(self)@.ensure_shell(),
            final(self).emulator == old(self).emulator,
            config is Some == old(self)@.wants_shell(),
            config matches Some(c) ==> c.program@ == old(self)@.shell_program && text_in(c.cwd)
                == old(self)@.cwd && c.args@ == Seq::<String>::empty() && c.env@ == Seq::<
                (String, String),
            >::empty() && c.rows == 24 && c.cols == 80,
    {
        if self.shell_running || self.init_attempted {
            return None;
        }
        self.init_attempted = true;
        let plain = ShellConfig::with_program(copy_text(self.shell_program.as_str()));
        Some(ShellConfig { cwd: copy_option(&self.cwd), ..plain })
    }

    /// Takes in how starting the shell went: `None` if it runs, or what went
    /// wrong, which the scrollback then shows.
    pub fn shell_started(&mut self, error: Option<String>)
        ensures
            final(self)@ == old(self)@.shell_started(text_in(error)),
            final(self).emulator == old(self).emulator,
    {
        match error {
            None => {
                self.shell_running = true;
            },
            Some(message) => {
                let mut input = chars_of("(failed to start `");
                append_text(&mut input, self.shell_program.as_str());
                append_text(&mut input, "`)");
                let ghost before = entries_of(self.entries@);
                let entry = Entry {
                    prompt: String::new(),
                    input: string_of(input.as_slice()),
                    output: message,
                };
                let ghost added = entry@;
                self.entries.push(entry);
                assert(added.prompt =~= Seq::empty());
                assert(entries_of(self.entries@) =~= before.push(added));
            },
        }
        self.trim_scrollback();
    }

    /// The prompt, for the folder the shell says it is in, if it does.
    pub fn current_prompt(&self, platform: &Platform, live_cwd: Option<&str>) -> (prompt: String)
        ensures
            prompt@ == self@.prompt(
                platform@,
                match live_cwd {
                    Some(cwd) => Some(cwd@),
                    None => None,
                },
            ),
    {
        let cwd = self.shell_cwd(platform, live_cwd);
        let mut prompt: Vec<char> = Vec::new();
        if platform.windows {
            append_text(&mut prompt, cwd.as_str());
            append_text(&mut prompt, "> ");
            assert(prompt@ =~= cwd@ + "> "@);
        } else {
            let shown = collapse_home(cwd.as_str(), platform);
            append_text(&mut prompt, self.user.as_str());
            append_text(&mut prompt, "@");
            append_text(&mut prompt, self.host.as_str());
            append_text(&mut prompt, ":");
            append_text(&mut prompt, shown.as_str());
            append_text(&mut prompt, "$ ");
            assert(prompt@ =~= self.user@ + "@"@ + self.host@ + ":"@ + shown@ + "$ "@);
        }
        string_of(prompt.as_slice())
    }

    /// Where the shell is: where it says it is, else where it was started, else
    /// home, else the root.
    pub fn shell_cwd(&self, platform: &Platform, live_cwd: Option<&str>) -> (cwd: String)
        ensures
            cwd@ == self@.shell_cwd(
                platform@,
                match live_cwd {
                    Some(cwd) => Some(cwd@),
                    None => None,
                },
            ),
    {
        if let Some(cwd) = live_cwd {
            return copy_text(cwd);
        }
        if let Some(cwd) = &self.cwd {
            return copy_text(cwd.as_str());
        }
        if let Some(home) = &platform.home {
            return copy_text(home.as_str());
        }
        let root: Vec<char> = vec![if platform.windows { '\\' } else { '/' }];
        assert(root@ =~= seq![main_sep(platform.windows)]);
        string_of(root.as_slice())
    }

    pub fn name(&self) -> (name: &'static str)
        ensures
            name@ == "terminal"@,
    {
        "terminal"
    }

    pub fn display_name(&self) -> (name: &'static str)
        ensures
            name@ == "terminal"@,
    {
        "terminal"
    }

    /// Tells what to start as a shell.
    pub fn init(&mut self) -> (config: Option<ShellConfig>)
        ensures
            final(self)@ == old(self)@.ensure_shell(),
            final(self).emulator == old(self).emulator,
            config is Some == old(self)@.wants_shell(),
            config matches Some(c) ==> c.program@ == old(self)@.shell_program && text_in(c.cwd)
                == old(self)@.cwd && c.args@ == Seq::<String>::empty() && c.env@ == Seq::<
                (String, String),
            >::empty() && c.rows == 24 && c.cols == 80,
    {
        self.ensure_shell()
    }

    /// Forgets the shell, so that another one can be started.
    pub fn cleanup(&mut self)
        ensures
            final(self)@ == (ProviderModel {
                shell_running: false,
                init_attempted: false,
                ..old(self)@
            }),
            final(self).emulator == old(self).emulator,
    {
        self.shell_running = false;
        self.init_attempted = false;
    }

    /// The rows of the scrollback: each command behind the prompt it was typed
    /// at, the lines of its output, and at the end the slot for the next
    /// command behind the present prompt.
    pub fn fetch(&self, platform: &Platform, live_cwd: Option<&str>) -> (rows: Vec<String>)
        ensures
            strings_of(rows@) == self@.fetch(
                platform@,
                match live_cwd {
                    Some(cwd) => Some(cwd@),
                    None => None,
                },
            ),
    {
        let mut slot = chars_of(self.current_prompt(platform, live_cwd).as_str());
        append_text(&mut slot, "<input></input>");
        let mut rows: Vec<String> = Vec::new();
        let ghost all = entries_of(self.entries@);
        let mut i: usize = 0;
        assert(all.take(0) =~= Seq::empty());
        assert(strings_of(rows@) =~= Seq::empty());
        while i < self.entries.len()
            invariant
                i <= self.entries@.len(),
                all == entries_of(self.entries@),
                strings_of(rows@) == rows_for(all.take(i as int)),
            decreases self.entries.len() - i,
        {
            let entry = &self.entries[i];
            let ghost before = strings_of(rows@);
            assert(all.take(i + 1).drop_last() =~= all.take(i as int));
            assert(all.take(i + 1).last() == entry@);
            let mut head = chars_of(entry.prompt.as_str());
            append_text(&mut head, entry.input.as_str());
            rows.push(string_of(head.as_slice()));
            assert(strings_of(rows@) =~= before.push(entry@.prompt + entry@.input));
            let mut lines = entry_lines(entry.input.as_str(), entry.output.as_str());
            let ghost headed = strings_of(rows@);
            let ghost below = strings_of(lines@);
            rows.append(&mut lines);
            assert(strings_of(rows@) =~= headed + below);
            i += 1;
        }
        assert(all.take(i as int) =~= all);
        let ghost before = strings_of(rows@);
        rows.push(string_of(slot.as_slice()));
        assert(strings_of(rows@) =~= before.push(slot@));
        rows
    }

    /// Whether an edit is a new command: only the empty slot can be edited, not
    /// an earlier entry.
    pub fn accepts_edit(&self, old_text: &str) -> (yes: bool)
        ensures
            yes == (old_text@.len() == 0),
    {
        chars_of(old_text).len() == 0
    }

    /// Takes in a command after it was sent to the shell. `line_written` tells
    /// whether it could be. Returns whether the command counts, and what to
    /// write to the history file.
    ///
    /// The entry keeps the prompt of the moment, and a `cd` moves the folder of
    /// the prompts to come.
    pub fn commit_edit(
        &mut self,
        old_text: &str,
        line: &str,
        line_written: bool,
        platform: &Platform,
        live_cwd: Option<&str>,
    ) -> (done: (bool, Option<HistoryWrite>))
        ensures
            done.0 == (old_text@.len() == 0 && old(self)@.shell_running && line_written),
            !done.0 ==> final(self)@ == old(self)@ && done.1 is None,
            done.0 ==> final(self)@ == old(self)@.submit(
                platform@,
                match live_cwd {
                    Some(cwd) => Some(cwd@),
                    None => None,
                },
                line@,
            ) && write_in(done.1) == old(self)@.record_write(platform@, line@),
            final(self).emulator == old(self).emulator,
    {
        if !self.accepts_edit(old_text) || !self.shell_running || !line_written {
            return (false, None);
        }
        let write = self.record_command(line, platform);
        let prompt = self.current_prompt(platform, live_cwd);
        let base = self.shell_cwd(platform, live_cwd);
        if let Some(cwd) = parse_cd(line, base.as_str(), platform) {
            self.cwd = Some(cwd);
        }
        let ghost before = entries_of(self.entries@);
        let entry = Entry { prompt, input: copy_text(line), output: String::new() };
        let ghost added = entry@;
        self.entries.push(entry);
        assert(added.output =~= Seq::empty());
        assert(entries_of(self.entries@) =~= before.push(added));
        self.trim_scrollback();
        (true, write)
    }

    /// Takes in what the shell printed. Returns whether there is anything new
    /// to show.
    ///
    /// In the dashboard the bytes go to the grid. Otherwise the text goes to
    /// the last entry; before the first command it is dropped.
    pub fn tick(&mut self, bytes: &[u8]) -> (shows: bool)
        requires
            old(self).wf(),
        ensures
            final(self).wf(),
            final(self)@ == old(self)@.tick(bytes@),
            shows == old(self)@.tick_shows(bytes@),
    {
        if !self.shell_running || bytes.len() == 0 {
            return false;
        }
        proof {
            lemma_watch(self@, bytes@);
        }
        self.drive_alt_screen_detector(bytes);
        if self.in_dashboard {
            self.feed_emulator(bytes);
            return true;
        }
        let text = decode_terminal_output(bytes);
        let shown = chars_of(text.as_str());
        let ghost watched = self@;
        if shown.len() == 0 {
            proof {
                if watched.entries.len() > 0 {
                    let last = watched.entries.last();
                    assert(last.output + shown@ =~= last.output);
                    assert(watched.entries.drop_last().push(last) =~= watched.entries);
                }
            }
            return false;
        }
        self.add_output(shown.as_slice());
        true
    }

    /// Adds to the output of the last entry.
    fn add_output(&mut self, text: &[char])
        ensures
            final(self)@ == old(self)@.add_output(text@),
            final(self).emulator == old(self).emulator,
    {
        let ghost before = entries_of(self.entries@);
        if let Some(last) = self.entries.pop() {
            let mut output = chars_of(last.output.as_str());
            append_chars(&mut output, text);
            let entry = Entry { output: string_of(output.as_slice()), ..last };
            let ghost changed = entry@;
            self.entries.push(entry);
            assert(entries_of(self.entries@) =~= before.drop_last().push(changed));
        } else {
            assert(entries_of(self.entries@) =~= before);
        }
    }

    /// Feeds the emulator, if there is one.
    fn feed_emulator(&mut self, bytes: &[u8])
        requires
            old(self).wf(),
        ensures
            final(self).wf(),
            final(self)@ == old(self)@.feed_emulator(bytes@),
    {
        if let Some(mut emulator) = self.emulator.take() {
            emulator.feed(bytes);
            self.emulator = Some(emulator);
        }
    }

    /// Takes in a changed setting. Sizes that are no numbers, and empty
    /// programs and paths, are ignored.
    pub fn on_setting_change(&mut self, key: &str, value: &str, platform: &Platform)
        ensures
            final(self)@ == old(self)@.set(platform@, key@, value@),
            final(self).emulator == old(self).emulator,
    {
        proof {
            reveal_strlit("shellProgram");
            reveal_strlit("initialPath");
            reveal_strlit("scrollbackSize");
            reveal_strlit("commandHistorySize");
            reveal_strlit("autoEnterDashboard");
            assert("shellProgram"@.len() == 12);
            assert("initialPath"@.len() == 11);
            assert("scrollbackSize"@.len() == 14);
            assert("commandHistorySize"@.len() == 18);
            assert("autoEnterDashboard"@.len() == 18);
        }
        let empty = chars_of(value).len() == 0;
        if same_text(key, "shellProgram") {
            if !empty {
                self.shell_program = copy_text(value);
            }
        } else if same_text(key, "initialPath") {
            if !empty {
                self.cwd = Some(expand_home(value, platform));
            }
        } else if same_text(key, "scrollbackSize") {
            if let Some(n) = parse_size(value) {
                self.scrollback_size = n;
                self.trim_scrollback();
            }
        } else if same_text(key, "commandHistorySize") {
            if let Some(n) = parse_size(value) {
                self.command_history_size = n;
                self.trim_command_history_in_memory();
            }
        } else if same_text(key, "autoEnterDashboard") {
            self.auto_enter_dashboard = same_text(value, "true") || same_text(value, "1")
                || same_text(value, "on");
        }
    }

    /// Moving through the rows does not change them.
    pub fn refresh_on_navigate(&self) -> (yes: bool)
        ensures
            !yes,
    {
        false
    }

    pub fn dashboard_kind(&self) -> (kind: DashboardKind)
        ensures
            kind == DashboardKind::Interactive,
    {
        DashboardKind::Interactive
    }

    /// Only programs open the dashboard. At a bare prompt there would be no way
    /// out of it, since every key goes to the shell.
    pub fn manual_dashboard_entry_allowed(&self) -> (yes: bool)
        ensures
            !yes,
    {
        false
    }

    /// Opens the dashboard. Tells what to start as a shell.
    pub fn enter_dashboard(&mut self) -> (config: Option<ShellConfig>)
        requires
            old(self).wf(),
        ensures
            final(self).wf(),
            final(self)@ == old(self)@.enter_dashboard(),
            config is Some == old(self)@.wants_shell(),
            config matches Some(c) ==> c.program@ == old(self)@.shell_program && text_in(c.cwd)
                == old(self)@.cwd && c.args@ == Seq::<String>::empty() && c.env@ == Seq::<
                (String, String),
            >::empty() && c.rows == 24 && c.cols == 80,
    {
        let config = self.ensure_shell();
        self.in_dashboard = true;
        if self.emulator.is_none() {
            // The first resize brings the real size.
            self.emulator = Some(Emulator::new(80, 24));
        }
        config
    }

    /// Closes the dashboard.
    pub fn leave_dashboard(&mut self)
        ensures
            final(self)@ == old(self)@.leave_dashboard(),
            final(self).emulator == old(self).emulator,
    {
        self.in_dashboard = false;
        self.auto_entered_dashboard = false;
    }

    /// What the application is asked to do, which is asked once.
    pub fn take_dashboard_request(&mut self) -> (request: Option<DashboardRequest>)
        ensures
            request == old(self)@.pending_dashboard_request,
            final(self)@ == (ProviderModel { pending_dashboard_request: None, ..old(self)@ }),
            final(self).emulator == old(self).emulator,
    {
        let request = self.pending_dashboard_request;
        self.pending_dashboard_request = None;
        request
    }

    /// Fits the grid to a new size.
    pub fn dashboard_resize(&mut self, rows: u16, cols: u16)
        requires
            old(self).wf(),
        ensures
            final(self).wf(),
            final(self)@ == (ProviderModel {
                emulator: match old(self)@.emulator {
                    Some(screen) => Some(screen.resize(cols, rows)),
                    None => None,
                },
                ..old(self)@
            }),
    {
        if let Some(mut emulator) = self.emulator.take() {
            emulator.resize(cols, rows);
            self.emulator = Some(emulator);
        }
    }

    /// What a key press sends to the shell, and whether to draw a frame, which
    /// is always so.
    pub fn dashboard_key(&self, key: &DashboardKey) -> (sent: (Option<Vec<u8>>, bool))
        ensures
            sent.1,
            match sent.0 {
                Some(bytes) => self@.shell_running && key_bytes(*key) == Some(bytes@),
                None => !self@.shell_running || key_bytes(*key) is None,
            },
    {
        if self.shell_running {
            (encode_dashboard_key(key), true)
        } else {
            (None, true)
        }
    }

    /// What typed text sends to the shell.
    pub fn dashboard_text(&self, text: &str) -> (sent: Option<Vec<u8>>)
        ensures
            match sent {
                Some(bytes) => self@.shell_running && text@.len() > 0 && bytes@ == encode_utf8(
                    text@,
                ),
                None => !self@.shell_running || text@.len() == 0,
            },
    {
        if !self.shell_running || chars_of(text).len() == 0 {
            return None;
        }
        Some(slice_to_vec(text.as_bytes()))
    }

    /// The next frame, after what the shell printed in the meantime was taken
    /// in. Before the dashboard was ever opened the frame is empty and has the
    /// size asked for.
    pub fn dashboard_render(&mut self, drained: &[u8], cols: u16, rows: u16) -> (frame:
        DashboardFrame)
        requires
            old(self).wf(),
        ensures
            final(self).wf(),
            final(self)@ == old(self)@.catch_up(drained@),
            frame.wf(),
            match final(self)@.emulator {
                Some(screen) => frame.cols == screen.grid.cols && frame.rows == screen.grid.rows
                    && frame.cells@ == screen.grid.screen().cells && frame.cursor
                    == screen.grid.shown_cursor(),
                None => frame.cols == cols && frame.rows == rows && frame.cells@ == Seq::new(
                    (cols * rows) as nat,
                    |i: int| unpainted_cell(),
                ) && frame.cursor is None,
            },
    {
        if drained.len() > 0 {
            proof {
                lemma_watch(self@, drained@);
            }
            self.drive_alt_screen_detector(drained);
            self.feed_emulator(drained);
        }
        match &self.emulator {
            Some(emulator) => emulator.snapshot(),
            None => DashboardFrame::empty(cols, rows),
        }
    }
}

} // verus!
