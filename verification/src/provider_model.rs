//! What the terminal does with commands, output and settings, as mathematics.
//! The provider's contracts are stated over this model.
use vstd::prelude::*;

use crate::altscreen_detect::{AltScan, AltScreenEvent};
use crate::command::{cd_result, home_expanded, shown_folder};
use crate::dashboard::DashboardRequest;
use crate::emulator::at_least_one;
use crate::output::{lines_below, shown_text, utf8_lossy};
use crate::parser::vte_actions;
use crate::path::{main_sep, path_joined};
use crate::terminal::TerminalModel;
use crate::text::{is_number, lines_of, number_of, replaced};

verus! {

/// One entry of the scrollback: a command, the prompt it was typed at, and
/// what the shell printed for it so far.
pub struct EntryModel {
    pub prompt: Seq<char>,
    pub input: Seq<char>,
    pub output: Seq<char>,
}

/// An emulator: its grid, and the chunks it was fed.
pub struct ScreenState {
    pub grid: TerminalModel,
    pub fed: Seq<Seq<u8>>,
}

impl ScreenState {
    /// After one more chunk.
    pub open spec fn feed(self, bytes: Seq<u8>) -> ScreenState {
        ScreenState {
            grid: self.grid.apply_all(vte_actions(self.fed, bytes)),
            fed: self.fed.push(bytes),
        }
    }

    /// With a grid of another size.
    pub open spec fn resize(self, cols: u16, rows: u16) -> ScreenState {
        ScreenState { grid: self.grid.resize(at_least_one(cols), at_least_one(rows)), ..self }
    }
}

/// The machine, as far as the terminal asks.
pub struct PlatformModel {
    pub windows: bool,
    pub home: Option<Seq<char>>,
    pub state_home: Option<Seq<char>>,
}

/// What is to be written to the history file: a line to append, and then, if
/// it is time, the whole file anew.
pub struct HistoryWriteModel {
    pub path: Seq<char>,
    pub append: Seq<char>,
    pub rewrite: Option<Seq<char>>,
}

/// The last `cap` items of a list; all of them if `cap` is zero.
pub open spec fn newest<T>(list: Seq<T>, cap: usize) -> Seq<T> {
    if cap > 0 && list.len() > cap {
        list.skip(list.len() - cap)
    } else {
        list
    }
}

/// Lines as a file holds them: each ended by a line feed.
pub open spec fn file_text(lines: Seq<Seq<char>>) -> Seq<char>
    decreases lines.len(),
{
    if lines.len() == 0 {
        Seq::empty()
    } else {
        file_text(lines.drop_last()) + lines.last().push('\n')
    }
}

/// The items of a list that are not empty.
pub open spec fn not_empty(lines: Seq<Seq<char>>) -> Seq<Seq<char>>
    decreases lines.len(),
{
    if lines.len() == 0 {
        Seq::empty()
    } else if lines.last().len() == 0 {
        not_empty(lines.drop_last())
    } else {
        not_empty(lines.drop_last()).push(lines.last())
    }
}

/// The rows that show entries: each command behind its prompt, and below it
/// the lines of its output.
pub open spec fn rows_for(entries: Seq<EntryModel>) -> Seq<Seq<char>>
    decreases entries.len(),
{
    if entries.len() == 0 {
        Seq::empty()
    } else {
        let e = entries.last();
        rows_for(entries.drop_last()).push(e.prompt + e.input) + lines_below(e.input, e.output)
    }
}

/// The size a setting writes, if it is a number that fits.
pub open spec fn size_in(value: Seq<char>) -> Option<usize> {
    let digits = if value.len() > 0 && value[0] == '+' {
        value.skip(1)
    } else {
        value
    };
    if is_number(digits) && number_of(digits) <= usize::MAX {
        Some(number_of(digits) as usize)
    } else {
        None
    }
}

/// The terminal.
#[verifier::ext_equal]
pub struct ProviderModel {
    pub shell_running: bool,
    pub entries: Seq<EntryModel>,
    pub shell_program: Seq<char>,
    pub cwd: Option<Seq<char>>,
    pub init_attempted: bool,
    pub user: Seq<char>,
    pub host: Seq<char>,
    pub emulator: Option<ScreenState>,
    pub in_dashboard: bool,
    pub scrollback_size: usize,
    pub command_history: Seq<Seq<char>>,
    pub command_history_size: usize,
    pub command_history_loaded: bool,
    pub command_history_path: Option<Seq<char>>,
    pub appends_since_compact: usize,
    pub auto_enter_dashboard: bool,
    pub auto_entered_dashboard: bool,
    pub pending_dashboard_request: Option<DashboardRequest>,
    pub alt_detect: AltScan,
}

impl ProviderModel {
    /// A terminal before anything happened.
    pub open spec fn fresh(
        shell_program: Seq<char>,
        user: Seq<char>,
        host: Seq<char>,
    ) -> ProviderModel {
        ProviderModel {
            shell_running: false,
            entries: Seq::empty(),
            shell_program,
            cwd: None,
            init_attempted: false,
            user,
            host,
            emulator: None,
            in_dashboard: false,
            scrollback_size: 50_000,
            command_history: Seq::empty(),
            command_history_size: 50_000,
            command_history_loaded: false,
            command_history_path: None,
            appends_since_compact: 0,
            auto_enter_dashboard: true,
            auto_entered_dashboard: false,
            pending_dashboard_request: None,
            alt_detect: AltScan::fresh(),
        }
    }

    /// Whether the emulator's grid, if there is one, is well-formed.
    pub open spec fn wf(self) -> bool {
        match self.emulator {
            Some(screen) => screen.grid.wf(),
            None => true,
        }
    }

    /// After a switch of the alternate screen was seen. Entering it asks for
    /// the dashboard; leaving it asks to close a dashboard that was opened this
    /// way.
    pub open spec fn handle(self, event: AltScreenEvent) -> ProviderModel {
        match event {
            AltScreenEvent::Enter if !self.in_dashboard => ProviderModel {
                pending_dashboard_request: Some(DashboardRequest::Enter),
                auto_entered_dashboard: true,
                ..self
            },
            AltScreenEvent::Leave if self.in_dashboard && self.auto_entered_dashboard => {
                ProviderModel {
                    pending_dashboard_request: Some(DashboardRequest::Leave),
                    ..self
                }
            },
            _ => self,
        }
    }

    /// After several such switches.
    pub open spec fn handle_all(self, events: Seq<AltScreenEvent>) -> ProviderModel
        decreases events.len(),
    {
        if events.len() == 0 {
            self
        } else {
            self.handle_all(events.drop_last()).handle(events.last())
        }
    }

    /// After the shell's output was searched for such switches.
    pub open spec fn watch(self, bytes: Seq<u8>) -> ProviderModel {
        if self.auto_enter_dashboard {
            ProviderModel { alt_detect: self.alt_detect.after(bytes), ..self }.handle_all(
                self.alt_detect.events(bytes),
            )
        } else {
            self
        }
    }

    /// With the scrollback cut to its size.
    pub open spec fn trim_scrollback(self) -> ProviderModel {
        ProviderModel { entries: newest(self.entries, self.scrollback_size), ..self }
    }

    /// With the history cut to its size.
    pub open spec fn trim_history(self) -> ProviderModel {
        ProviderModel {
            command_history: newest(self.command_history, self.command_history_size),
            ..self
        }
    }

    /// Where the history file is.
    pub open spec fn history_path(self, platform: PlatformModel) -> Option<Seq<char>> {
        match self.command_history_path {
            Some(path) => Some(path),
            None => match platform.state_home {
                Some(home) => {
                    let w = platform.windows;
                    Some(
                        path_joined(
                            w,
                            path_joined(w, path_joined(w, home, "sicompass"@), "terminal"@),
                            "history"@,
                        ),
                    )
                },
                None => None,
            },
        }
    }

    /// After the history file was read, if it could be. Only the first time
    /// counts. Lines of the file that are not kept count as appended, so that
    /// the file is soon written anew.
    pub open spec fn load_history(self, content: Option<Seq<char>>) -> ProviderModel {
        if self.command_history_loaded {
            self
        } else {
            match content {
                Some(text) => {
                    let lines = not_empty(lines_of(text));
                    let kept = newest(lines, self.command_history_size);
                    ProviderModel {
                        command_history_loaded: true,
                        command_history: kept,
                        appends_since_compact: (lines.len() - kept.len()) as usize,
                        ..self
                    }
                },
                None => ProviderModel { command_history_loaded: true, ..self },
            }
        }
    }

    /// Whether one more append makes it time to write the history file anew.
    pub open spec fn compacts(self) -> bool {
        self.command_history_size > 0 && self.appends_since_compact + 1 >= self.command_history_size
    }

    /// After a command was added to the history.
    pub open spec fn record(self, platform: PlatformModel, line: Seq<char>) -> ProviderModel {
        let flat = replaced(line, '\n', ' ');
        if flat.len() == 0 {
            self
        } else {
            let added = ProviderModel {
                command_history: self.command_history.push(flat),
                ..self
            }.trim_history();
            if self.history_path(platform) is None {
                added
            } else {
                ProviderModel {
                    appends_since_compact: if self.compacts() {
                        0
                    } else if self.appends_since_compact < usize::MAX {
                        (self.appends_since_compact + 1) as usize
                    } else {
                        usize::MAX
                    },
                    ..added
                }
            }
        }
    }

    /// What is to be written when a command is added to the history.
    pub open spec fn record_write(
        self,
        platform: PlatformModel,
        line: Seq<char>,
    ) -> Option<HistoryWriteModel> {
        let flat = replaced(line, '\n', ' ');
        match self.history_path(platform) {
            Some(path) if flat.len() > 0 => Some(
                HistoryWriteModel {
                    path,
                    append: flat.push('\n'),
                    rewrite: if self.compacts() {
                        Some(file_text(self.record(platform, line).command_history))
                    } else {
                        None
                    },
                },
            ),
            _ => None,
        }
    }

    /// Whether it is time to start the shell.
    pub open spec fn wants_shell(self) -> bool {
        !self.shell_running && !self.init_attempted
    }

    /// After the shell was asked for.
    pub open spec fn ensure_shell(self) -> ProviderModel {
        if self.wants_shell() {
            ProviderModel { init_attempted: true, ..self }
        } else {
            self
        }
    }

    /// After the shell was started, or failed to start.
    pub open spec fn shell_started(self, error: Option<Seq<char>>) -> ProviderModel {
        match error {
            None => ProviderModel { shell_running: true, ..self }.trim_scrollback(),
            Some(message) => ProviderModel {
                entries: self.entries.push(
                    EntryModel {
                        prompt: Seq::empty(),
                        input: "(failed to start `"@ + self.shell_program + "`)"@,
                        output: message,
                    },
                ),
                ..self
            }.trim_scrollback(),
        }
    }

    /// Where the shell is: where it says it is, else where it was started, else
    /// home, else the root.
    pub open spec fn shell_cwd(
        self,
        platform: PlatformModel,
        live: Option<Seq<char>>,
    ) -> Seq<char> {
        match live {
            Some(cwd) => cwd,
            None => match self.cwd {
                Some(cwd) => cwd,
                None => match platform.home {
                    Some(home) => home,
                    None => seq![main_sep(platform.windows)],
                },
            },
        }
    }

    /// The prompt: user, host and folder, or on Windows the folder alone.
    pub open spec fn prompt(self, platform: PlatformModel, live: Option<Seq<char>>) -> Seq<char> {
        let cwd = self.shell_cwd(platform, live);
        if platform.windows {
            cwd + "> "@
        } else {
            self.user + "@"@ + self.host + ":"@ + shown_folder(
                platform.windows,
                platform.home,
                cwd,
            ) + "$ "@
        }
    }

    /// The rows of the scrollback, with the slot for the next command last.
    pub open spec fn fetch(
        self,
        platform: PlatformModel,
        live: Option<Seq<char>>,
    ) -> Seq<Seq<char>> {
        rows_for(self.entries).push(self.prompt(platform, live) + "<input></input>"@)
    }

    /// After a command was sent to the shell.
    pub open spec fn submit(
        self,
        platform: PlatformModel,
        live: Option<Seq<char>>,
        line: Seq<char>,
    ) -> ProviderModel {
        let recorded = self.record(platform, line);
        let cwd = cd_result(
            platform.windows,
            platform.home,
            line,
            self.shell_cwd(platform, live),
        );
        ProviderModel {
            cwd: if cwd is Some {
                cwd
            } else {
                self.cwd
            },
            entries: recorded.entries.push(
                EntryModel {
                    prompt: self.prompt(platform, live),
                    input: line,
                    output: Seq::empty(),
                },
            ),
            ..recorded
        }.trim_scrollback()
    }

    /// The emulator after one more chunk.
    pub open spec fn feed_emulator(self, bytes: Seq<u8>) -> ProviderModel {
        ProviderModel {
            emulator: match self.emulator {
                Some(screen) => Some(screen.feed(bytes)),
                None => None,
            },
            ..self
        }
    }

    /// With more output for the last entry, if there is one.
    pub open spec fn add_output(self, text: Seq<char>) -> ProviderModel {
        if self.entries.len() > 0 {
            let last = self.entries.last();
            ProviderModel {
                entries: self.entries.drop_last().push(
                    EntryModel { output: last.output + text, ..last },
                ),
                ..self
            }
        } else {
            self
        }
    }

    /// After the shell printed something. In the dashboard it goes to the grid,
    /// else to the scrollback.
    pub open spec fn tick(self, bytes: Seq<u8>) -> ProviderModel {
        if !self.shell_running || bytes.len() == 0 {
            self
        } else if self.in_dashboard {
            self.watch(bytes).feed_emulator(bytes)
        } else {
            self.watch(bytes).add_output(shown_text(utf8_lossy(bytes)))
        }
    }

    /// Whether there is anything new to show then.
    pub open spec fn tick_shows(self, bytes: Seq<u8>) -> bool {
        &&& self.shell_running
        &&& bytes.len() > 0
        &&& self.in_dashboard || shown_text(utf8_lossy(bytes)).len() > 0
    }

    /// After what the shell printed in the meantime was taken in for a frame.
    pub open spec fn catch_up(self, bytes: Seq<u8>) -> ProviderModel {
        if bytes.len() == 0 {
            self
        } else {
            self.watch(bytes).feed_emulator(bytes)
        }
    }

    /// After a setting was changed.
    pub open spec fn set(
        self,
        platform: PlatformModel,
        key: Seq<char>,
        value: Seq<char>,
    ) -> ProviderModel {
        if key == "shellProgram"@ && value.len() > 0 {
            ProviderModel { shell_program: value, ..self }
        } else if key == "initialPath"@ && value.len() > 0 {
            ProviderModel {
                cwd: Some(home_expanded(platform.windows, platform.home, value)),
                ..self
            }
        } else if key == "scrollbackSize"@ {
            match size_in(value) {
                Some(n) => ProviderModel { scrollback_size: n, ..self }.trim_scrollback(),
                None => self,
            }
        } else if key == "commandHistorySize"@ {
            match size_in(value) {
                Some(n) => ProviderModel { command_history_size: n, ..self }.trim_history(),
                None => self,
            }
        } else if key == "autoEnterDashboard"@ {
            ProviderModel {
                auto_enter_dashboard: value == "true"@ || value == "1"@ || value == "on"@,
                ..self
            }
        } else {
            self
        }
    }

    /// After the dashboard was opened.
    pub open spec fn enter_dashboard(self) -> ProviderModel {
        let asked = self.ensure_shell();
        ProviderModel {
            in_dashboard: true,
            emulator: match self.emulator {
                Some(screen) => Some(screen),
                None => Some(
                    ScreenState { grid: TerminalModel::fresh(80, 24), fed: Seq::empty() },
                ),
            },
            ..asked
        }
    }

    /// After the dashboard was closed.
    pub open spec fn leave_dashboard(self) -> ProviderModel {
        ProviderModel { in_dashboard: false, auto_entered_dashboard: false, ..self }
    }
}

/// Switches of the alternate screen change nothing but what the application is
/// asked for and whether that opens the dashboard.
pub proof fn lemma_handle_all(m: ProviderModel, events: Seq<AltScreenEvent>)
    ensures
        m.handle_all(events) == (ProviderModel {
            pending_dashboard_request: m.handle_all(events).pending_dashboard_request,
            auto_entered_dashboard: m.handle_all(events).auto_entered_dashboard,
            ..m
        }),
    decreases events.len(),
{
    if events.len() > 0 {
        lemma_handle_all(m, events.drop_last());
    }
}

/// Looking for such switches changes nothing else either.
pub proof fn lemma_watch(m: ProviderModel, bytes: Seq<u8>)
    ensures
        m.watch(bytes) == (ProviderModel {
            pending_dashboard_request: m.watch(bytes).pending_dashboard_request,
            auto_entered_dashboard: m.watch(bytes).auto_entered_dashboard,
            alt_detect: m.watch(bytes).alt_detect,
            ..m
        }),
{
    lemma_handle_all(
        ProviderModel { alt_detect: m.alt_detect.after(bytes), ..m },
        m.alt_detect.events(bytes),
    );
}

} // verus!
