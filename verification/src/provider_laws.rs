//! What holds of the terminal whatever is typed and printed.
use vstd::prelude::*;

use crate::altscreen_detect::{
    law_chunks_do_not_matter, law_mode_sequence_is_reported, private_sequence, AltScan,
    AltScreenEvent,
};
use crate::command::cd_result;
use crate::dashboard::DashboardRequest;
use crate::escape::{all_digits, decimal, Stage};
use crate::provider_model::{
    file_text, lemma_handle_all, lemma_watch, newest, not_empty, EntryModel,
    HistoryWriteModel, PlatformModel, ProviderModel,
};
use crate::text::{fields, lemma_fields_grow, lines_of, replaced, without_return};

verus! {

/// Cutting a list to its newest items keeps an end of it, no longer than the
/// cap, and always with the last item.
pub proof fn law_newest_is_the_end<T>(list: Seq<T>, cap: usize)
    ensures
        cap > 0 ==> newest(list, cap).len() <= cap,
        newest(list, cap).len() <= list.len(),
        newest(list, cap) == list.skip(list.len() - newest(list, cap).len()),
        list.len() > 0 ==> newest(list, cap).len() > 0 && newest(list, cap).last() == list.last(),
        cap == 0 || list.len() <= cap ==> newest(list, cap) == list,
{
    assert(list.skip(0) =~= list);
}

/// The history never outgrows its size, and its last command is the one that
/// was recorded last.
pub proof fn law_history_is_bounded(m: ProviderModel, platform: PlatformModel, line: Seq<char>)
    requires
        line.len() > 0,
    ensures
        ({
            let after = m.record(platform, line).command_history;
            &&& m.command_history_size > 0 ==> after.len() <= m.command_history_size
            &&& after.len() > 0
            &&& after.last() == replaced(line, '\n', ' ')
        }),
{
    let flat = replaced(line, '\n', ' ');
    law_newest_is_the_end(m.command_history.push(flat), m.command_history_size);
}

/// Whether a line comes back from a file as it was written: it is not empty,
/// holds no line feed and does not end in a carriage return.
pub open spec fn is_clean_line(line: Seq<char>) -> bool {
    &&& line.len() > 0
    &&& line.last() != '\r'
    &&& forall|i: int| 0 <= i < line.len() ==> #[trigger] line[i] != '\n'
}

/// Whether all lines come back as they were written.
pub open spec fn all_clean(lines: Seq<Seq<char>>) -> bool {
    forall|i: int| 0 <= i < lines.len() ==> is_clean_line(#[trigger] lines[i])
}

proof fn lemma_file_fields(lines: Seq<Seq<char>>)
    requires
        all_clean(lines),
    ensures
        fields(file_text(lines), '\n', '\n') == lines.push(Seq::empty()),
    decreases lines.len(),
{
    if lines.len() == 0 {
        assert(fields(Seq::empty(), '\n', '\n') =~= lines.push(Seq::empty()));
    } else {
        let before = lines.drop_last();
        let line = lines.last();
        assert forall|i: int| 0 <= i < before.len() implies is_clean_line(#[trigger] before[i]) by {
            assert(before[i] == lines[i]);
        }
        assert(is_clean_line(lines[lines.len() - 1]));
        lemma_file_fields(before);
        let text = file_text(before);
        lemma_fields_grow(text, line, '\n', '\n');
        let so_far = before.push(Seq::<char>::empty());
        assert(so_far.drop_last() =~= before);
        assert(Seq::<char>::empty() + line =~= line);
        assert(before.push(line) =~= lines);
        let all = text + line.push('\n');
        assert(all.drop_last() =~= text + line);
        assert(all.last() == '\n');
    }
}

proof fn lemma_not_empty_clean(lines: Seq<Seq<char>>)
    requires
        all_clean(lines),
    ensures
        not_empty(lines) == lines,
    decreases lines.len(),
{
    if lines.len() > 0 {
        let before = lines.drop_last();
        assert forall|i: int| 0 <= i < before.len() implies is_clean_line(#[trigger] before[i]) by {
            assert(before[i] == lines[i]);
        }
        assert(is_clean_line(lines[lines.len() - 1]));
        lemma_not_empty_clean(before);
        assert(before.push(lines.last()) =~= lines);
    }
}

/// A history that was written to its file comes back from it in the next
/// session, cut to its size.
pub proof fn law_history_comes_back(m: ProviderModel, lines: Seq<Seq<char>>)
    requires
        !m.command_history_loaded,
        all_clean(lines),
    ensures
        m.load_history(Some(file_text(lines))).command_history == newest(
            lines,
            m.command_history_size,
        ),
{
    lemma_file_lines(lines);
}

/// The lines of a file are those that were written to it.
proof fn lemma_file_lines(lines: Seq<Seq<char>>)
    requires
        all_clean(lines),
    ensures
        not_empty(lines_of(file_text(lines))) == lines,
{
    lemma_file_fields(lines);
    let pieces = fields(file_text(lines), '\n', '\n');
    let ended = Seq::new((pieces.len() - 1) as nat, |i: int| without_return(pieces[i]));
    assert(pieces.last().len() == 0);
    assert forall|i: int| 0 <= i < lines.len() implies ended[i] == lines[i] by {
        assert(is_clean_line(lines[i]));
        assert(pieces[i] == lines[i]);
    }
    assert(ended =~= lines);
    assert(lines_of(file_text(lines)) == lines);
    lemma_not_empty_clean(lines);
}

/// The history file after a write.
pub open spec fn written(content: Seq<char>, write: HistoryWriteModel) -> Seq<char> {
    match write.rewrite {
        Some(text) => text,
        None => content + write.append,
    }
}

/// The lines the history file holds after a command was recorded.
pub open spec fn lines_written(
    m: ProviderModel,
    platform: PlatformModel,
    lines: Seq<Seq<char>>,
    line: Seq<char>,
) -> Seq<Seq<char>> {
    if m.compacts() {
        m.record(platform, line).command_history
    } else {
        lines.push(replaced(line, '\n', ' '))
    }
}

/// Recording a command adds it to the file as one line; when the file is
/// written anew it holds exactly the history in memory.
pub proof fn law_file_holds_lines(
    m: ProviderModel,
    platform: PlatformModel,
    lines: Seq<Seq<char>>,
    line: Seq<char>,
)
    requires
        m.record_write(platform, line) is Some,
    ensures
        written(file_text(lines), m.record_write(platform, line)->0) == file_text(
            lines_written(m, platform, lines, line),
        ),
        lines_written(m, platform, lines, line).len() > 0,
        lines_written(m, platform, lines, line).last() == replaced(line, '\n', ' '),
{
    let flat = replaced(line, '\n', ' ');
    assert(lines.push(flat).drop_last() =~= lines);
    law_history_is_bounded(m, platform, line);
}

/// A command that was recorded is in the history of the next session, behind
/// those the file held before, cut to the size of the history. This leaves out
/// lines that end in a carriage return, which reading a file drops.
pub proof fn law_recorded_command_comes_back(
    m: ProviderModel,
    platform: PlatformModel,
    lines: Seq<Seq<char>>,
    line: Seq<char>,
    next: ProviderModel,
)
    requires
        m.record_write(platform, line) is Some,
        line.last() != '\r',
        all_clean(lines),
        all_clean(m.command_history),
        !next.command_history_loaded,
    ensures
        next.load_history(
            Some(written(file_text(lines), m.record_write(platform, line)->0)),
        ).command_history == newest(
            lines_written(m, platform, lines, line),
            next.command_history_size,
        ),
{
    let flat = replaced(line, '\n', ' ');
    assert(is_clean_line(flat));
    law_file_holds_lines(m, platform, lines, line);
    let memory = m.command_history.push(flat);
    law_newest_is_the_end(memory, m.command_history_size);
    let kept = newest(memory, m.command_history_size);
    let now = lines_written(m, platform, lines, line);
    assert forall|i: int| 0 <= i < now.len() implies is_clean_line(#[trigger] now[i]) by {
        if m.compacts() {
            let at = memory.len() - kept.len() + i;
            assert(now[i] == memory[at]);
            if at < m.command_history.len() {
                assert(memory[at] == m.command_history[at]);
            }
        } else if i < lines.len() {
            assert(now[i] == lines[i]);
        }
    }
    law_history_comes_back(next, now);
}

/// Whether a history file holds no more lines than the history may and those
/// counted as appended.
pub open spec fn is_file_bounded(m: ProviderModel, lines: Seq<Seq<char>>) -> bool {
    lines.len() <= m.command_history_size + m.appends_since_compact
}

/// However many lines the history file holds, after it was read it is bounded
/// by what the terminal counts.
pub proof fn law_loading_bounds_the_file(m: ProviderModel, lines: Seq<Seq<char>>)
    requires
        m.command_history_size > 0,
        !m.command_history_loaded,
        all_clean(lines),
        lines.len() <= usize::MAX,
    ensures
        is_file_bounded(m.load_history(Some(file_text(lines))), lines),
{
    lemma_file_lines(lines);
    law_newest_is_the_end(lines, m.command_history_size);
}

/// The history file stays below twice the size of the history, over any number
/// of sessions: once a command was recorded, the file holds fewer lines than
/// that.
pub proof fn law_file_is_bounded(
    m: ProviderModel,
    platform: PlatformModel,
    lines: Seq<Seq<char>>,
    line: Seq<char>,
)
    requires
        m.command_history_size > 0,
        m.record_write(platform, line) is Some,
        is_file_bounded(m, lines),
    ensures
        ({
            let after = m.record(platform, line);
            let now = lines_written(m, platform, lines, line);
            &&& after.command_history_size == m.command_history_size
            &&& is_file_bounded(after, now)
            &&& now.len() < 2 * after.command_history_size
        }),
{
    law_history_is_bounded(m, platform, line);
}

/// A terminal and its history file after a command was recorded.
pub open spec fn recorded(
    m: ProviderModel,
    platform: PlatformModel,
    content: Seq<char>,
    line: Seq<char>,
) -> (ProviderModel, Seq<char>) {
    (
        m.record(platform, line),
        match m.record_write(platform, line) {
            Some(write) => written(content, write),
            None => content,
        },
    )
}

/// A terminal and its history file, empty at first, after commands were
/// recorded.
pub open spec fn recorded_all(
    m: ProviderModel,
    platform: PlatformModel,
    lines: Seq<Seq<char>>,
) -> (ProviderModel, Seq<char>)
    decreases lines.len(),
{
    if lines.len() == 0 {
        (m, Seq::empty())
    } else {
        let before = recorded_all(m, platform, lines.drop_last());
        recorded(before.0, platform, before.1, lines.last())
    }
}

/// What is recorded of commands: each with spaces for its line feeds, without
/// the empty ones.
pub open spec fn flat_lines(lines: Seq<Seq<char>>) -> Seq<Seq<char>> {
    not_empty(Seq::new(lines.len(), |i: int| replaced(lines[i], '\n', ' ')))
}

/// Cutting a list to its newest items after every new one is cutting it once.
proof fn lemma_newest_push<T>(list: Seq<T>, item: T, cap: usize)
    ensures
        newest(newest(list, cap).push(item), cap) == newest(list.push(item), cap),
        newest(newest(list, cap), cap) == newest(list, cap),
{
    assert(newest(newest(list, cap).push(item), cap) =~= newest(list.push(item), cap));
    assert(newest(newest(list, cap), cap) =~= newest(list, cap));
}

/// The lines of the history file after commands were recorded.
proof fn lemma_recorded_all(m: ProviderModel, platform: PlatformModel, lines: Seq<Seq<char>>) -> (
    disk: Seq<Seq<char>>)
    requires
        m.command_history.len() == 0,
        m.history_path(platform) is Some,
        forall|i: int|
            0 <= i < lines.len() && (#[trigger] lines[i]).len() > 0 ==> lines[i].last() != '\r',
    ensures
        ({
            let now = recorded_all(m, platform, lines);
            &&& now.0.command_history == newest(flat_lines(lines), m.command_history_size)
            &&& now.0.command_history_size == m.command_history_size
            &&& now.0.history_path(platform) == m.history_path(platform)
            &&& now.1 == file_text(disk)
            &&& all_clean(disk)
            &&& all_clean(now.0.command_history)
            &&& newest(disk, m.command_history_size) == now.0.command_history
        }),
    decreases lines.len(),
{
    let cap = m.command_history_size;
    let now = recorded_all(m, platform, lines);
    let flats = Seq::new(lines.len(), |i: int| replaced(lines[i], '\n', ' '));
    if lines.len() == 0 {
        assert(flats =~= Seq::empty());
        assert(m.command_history =~= Seq::empty());
        Seq::empty()
    } else {
        let prior = lines.drop_last();
        let line = lines.last();
        assert forall|i: int| 0 <= i < prior.len() && (#[trigger] prior[i]).len() > 0 implies
            prior[i].last() != '\r' by {
            assert(prior[i] == lines[i]);
        }
        let old_disk = lemma_recorded_all(m, platform, prior);
        let was = recorded_all(m, platform, prior);
        let flat = replaced(line, '\n', ' ');
        assert(flats.drop_last() =~= Seq::new(
            prior.len(),
            |i: int| replaced(prior[i], '\n', ' '),
        ));
        assert(flats.last() == flat);
        if line.len() == 0 {
            old_disk
        } else {
            assert(lines[lines.len() - 1].len() > 0);
            assert(is_clean_line(flat));
            assert(flat_lines(lines) == flat_lines(prior).push(flat));
            lemma_newest_push(flat_lines(prior), flat, cap);
            law_file_holds_lines(was.0, platform, old_disk, line);
            let disk = lines_written(was.0, platform, old_disk, line);
            lemma_newest_push(old_disk, flat, cap);
            let memory = was.0.command_history.push(flat);
            law_newest_is_the_end(memory, cap);
            let kept = newest(memory, cap);
            assert(now.0.command_history == kept);
            assert forall|i: int| 0 <= i < kept.len() implies is_clean_line(#[trigger] kept[i]) by {
                let at = memory.len() - kept.len() + i;
                assert(kept[i] == memory[at]);
                if at < was.0.command_history.len() {
                    assert(memory[at] == was.0.command_history[at]);
                }
            }
            assert forall|i: int| 0 <= i < disk.len() implies is_clean_line(#[trigger] disk[i]) by {
                if was.0.compacts() {
                    assert(disk[i] == kept[i]);
                } else if i < old_disk.len() {
                    assert(disk[i] == old_disk[i]);
                }
            }
            lemma_newest_push(memory, flat, cap);
            disk
        }
    }
}

/// After any commands, the next session has the same history as this one: the
/// newest of them, each on one line, without the empty ones. Reading the file
/// again changes nothing, whatever it holds then. This leaves out commands that
/// end in a carriage return, which reading a file drops.
pub proof fn law_next_session_has_the_history(
    m: ProviderModel,
    platform: PlatformModel,
    lines: Seq<Seq<char>>,
    next: ProviderModel,
    other: Option<Seq<char>>,
)
    requires
        m.command_history.len() == 0,
        m.history_path(platform) is Some,
        forall|i: int|
            0 <= i < lines.len() && (#[trigger] lines[i]).len() > 0 ==> lines[i].last() != '\r',
        !next.command_history_loaded,
        next.command_history_size == m.command_history_size,
    ensures
        ({
            let now = recorded_all(m, platform, lines);
            let loaded = next.load_history(Some(now.1));
            &&& now.0.command_history == newest(flat_lines(lines), m.command_history_size)
            &&& loaded.command_history == now.0.command_history
            &&& loaded.load_history(other) == loaded
        }),
{
    let disk = lemma_recorded_all(m, platform, lines);
    law_history_comes_back(next, disk);
}

/// Without the setting, output never opens or closes the dashboard.
pub proof fn law_silent_when_switched_off(m: ProviderModel, bytes: Seq<u8>)
    requires
        !m.auto_enter_dashboard,
    ensures
        m.watch(bytes) == m,
{
}

/// A dashboard that no program opened is not closed by one either, whatever is
/// printed.
pub proof fn law_manual_dashboard_stays(m: ProviderModel, bytes: Seq<u8>)
    requires
        m.in_dashboard,
        !m.auto_entered_dashboard,
    ensures
        m.watch(bytes).pending_dashboard_request == m.pending_dashboard_request,
        !m.watch(bytes).auto_entered_dashboard,
{
    let start = ProviderModel { alt_detect: m.alt_detect.after(bytes), ..m };
    lemma_manual_stays(start, m.alt_detect.events(bytes));
}

proof fn lemma_manual_stays(m: ProviderModel, events: Seq<AltScreenEvent>)
    requires
        m.in_dashboard,
        !m.auto_entered_dashboard,
    ensures
        m.handle_all(events) == m,
    decreases events.len(),
{
    if events.len() > 0 {
        lemma_manual_stays(m, events.drop_last());
    }
}

/// In the dashboard output never asks for it again, and outside it never asks
/// to close it.
pub proof fn law_requests_make_sense(m: ProviderModel, bytes: Seq<u8>)
    ensures
        m.in_dashboard ==> m.watch(bytes).pending_dashboard_request == m.pending_dashboard_request
            || m.watch(bytes).pending_dashboard_request == Some(DashboardRequest::Leave),
        !m.in_dashboard ==> m.watch(bytes).pending_dashboard_request
            == m.pending_dashboard_request || (m.watch(bytes).pending_dashboard_request == Some(
            DashboardRequest::Enter,
        ) && m.watch(bytes).auto_entered_dashboard),
{
    let start = ProviderModel { alt_detect: m.alt_detect.after(bytes), ..m };
    lemma_requests(start, m.alt_detect.events(bytes));
}

proof fn lemma_requests(m: ProviderModel, events: Seq<AltScreenEvent>)
    ensures
        m.in_dashboard ==> m.handle_all(events).pending_dashboard_request
            == m.pending_dashboard_request || m.handle_all(events).pending_dashboard_request
            == Some(DashboardRequest::Leave),
        !m.in_dashboard ==> m.handle_all(events).pending_dashboard_request
            == m.pending_dashboard_request || (m.handle_all(events).pending_dashboard_request
            == Some(DashboardRequest::Enter) && m.handle_all(events).auto_entered_dashboard),
    decreases events.len(),
{
    lemma_handle_all(m, events);
    if events.len() > 0 {
        lemma_requests(m, events.drop_last());
        lemma_handle_all(m, events.drop_last());
    }
}

/// A program that enters the alternate screen opens the dashboard, and one
/// that leaves it closes the dashboard it opened.
pub proof fn law_programs_open_and_close(m: ProviderModel, digits: Seq<u8>, enters: bool)
    requires
        m.auto_enter_dashboard,
        m.alt_detect.stage == Stage::Ground,
        all_digits(digits),
        decimal(digits) == 1049 || decimal(digits) == 47 || decimal(digits) == 1047,
    ensures
        ({
            let after = m.watch(private_sequence(digits, if enters { 0x68 } else { 0x6C }));
            &&& enters && !m.in_dashboard ==> after.pending_dashboard_request == Some(
                DashboardRequest::Enter,
            ) && after.auto_entered_dashboard
            &&& !enters && m.in_dashboard && m.auto_entered_dashboard
                ==> after.pending_dashboard_request == Some(DashboardRequest::Leave)
        }),
{
    law_mode_sequence_is_reported(m.alt_detect, digits, enters);
    let event = if enters {
        AltScreenEvent::Enter
    } else {
        AltScreenEvent::Leave
    };
    let one = seq![event];
    assert(one.drop_last() =~= Seq::<AltScreenEvent>::empty());
    reveal_with_fuel(ProviderModel::handle_all, 2);
}

/// Output may be cut into chunks anywhere.
pub proof fn law_watching_resumes(m: ProviderModel, first: Seq<u8>, then: Seq<u8>)
    ensures
        m.watch(first + then) == m.watch(first).watch(then),
{
    if m.auto_enter_dashboard {
        let a = m.alt_detect.events(first);
        let b = m.alt_detect.after(first).events(then);
        law_chunks_do_not_matter(m.alt_detect, first, then);
        let mid = ProviderModel { alt_detect: m.alt_detect.after(first), ..m };
        let last = ProviderModel { alt_detect: m.alt_detect.after(first + then), ..m };
        lemma_handle_all(mid, a);
        lemma_handle_split(last, a, b);
        lemma_handle_other_scan(mid, a, m.alt_detect.after(first + then));
        assert(m.watch(first) == mid.handle_all(a));
    }
}

proof fn lemma_handle_split(m: ProviderModel, a: Seq<AltScreenEvent>, b: Seq<AltScreenEvent>)
    ensures
        m.handle_all(a + b) == m.handle_all(a).handle_all(b),
    decreases b.len(),
{
    if b.len() == 0 {
        assert(a + b =~= a);
    } else {
        lemma_handle_split(m, a, b.drop_last());
        assert((a + b).drop_last() =~= a + b.drop_last());
        assert((a + b).last() == b.last());
    }
}

proof fn lemma_handle_other_scan(
    m: ProviderModel,
    events: Seq<AltScreenEvent>,
    scan: AltScan,
)
    ensures
        (ProviderModel { alt_detect: scan, ..m }).handle_all(events) == (ProviderModel {
            alt_detect: scan,
            ..m.handle_all(events)
        }),
    decreases events.len(),
{
    if events.len() > 0 {
        lemma_handle_other_scan(m, events.drop_last(), scan);
    }
}

/// A command that was sent is the last entry, with the prompt of the moment
/// and no output yet. The entries before it stay, but for the oldest ones
/// above the size of the scrollback.
pub proof fn law_submitted_command_is_last(
    m: ProviderModel,
    platform: PlatformModel,
    live: Option<Seq<char>>,
    line: Seq<char>,
)
    ensures
        ({
            let after = m.submit(platform, live, line).entries;
            &&& m.scrollback_size > 0 ==> after.len() <= m.scrollback_size
            &&& after.len() > 0
            &&& after.last() == (EntryModel {
                prompt: m.prompt(platform, live),
                input: line,
                output: Seq::empty(),
            })
            &&& after.drop_last() == m.entries.skip(m.entries.len() - (after.len() - 1))
        }),
{
    let entry = EntryModel { prompt: m.prompt(platform, live), input: line, output: Seq::empty() };
    let all = m.entries.push(entry);
    assert(m.record(platform, line).entries == m.entries);
    law_newest_is_the_end(all, m.scrollback_size);
    let after = m.submit(platform, live, line).entries;
    assert(after == newest(all, m.scrollback_size));
    assert(after.drop_last() =~= m.entries.skip(m.entries.len() - (after.len() - 1)));
}

/// A `cd` moves the folder that the next prompt shows where the shell itself
/// does not tell it; any other command leaves it.
pub proof fn law_cd_moves_the_prompt(
    m: ProviderModel,
    platform: PlatformModel,
    live: Option<Seq<char>>,
    line: Seq<char>,
)
    ensures
        ({
            let after = m.submit(platform, live, line);
            match cd_result(platform.windows, platform.home, line, m.shell_cwd(platform, live)) {
                Some(cwd) => after.shell_cwd(platform, None) == cwd,
                None => after.shell_cwd(platform, None) == m.shell_cwd(platform, None),
            }
        }),
{
}

/// The scrollback ends with the slot for the next command, behind the present
/// prompt, and shows nothing else before the first command.
pub proof fn law_slot_is_last(m: ProviderModel, platform: PlatformModel, live: Option<Seq<char>>)
    ensures
        m.fetch(platform, live).len() > 0,
        m.fetch(platform, live).last() == m.prompt(platform, live) + "<input></input>"@,
        m.entries.len() == 0 ==> m.fetch(platform, live).len() == 1,
{
}

/// In the dashboard output leaves the scrollback alone, and outside it leaves
/// the grid alone.
pub proof fn law_output_goes_one_way(m: ProviderModel, bytes: Seq<u8>)
    ensures
        m.in_dashboard ==> m.tick(bytes).entries == m.entries,
        !m.in_dashboard ==> m.tick(bytes).emulator == m.emulator,
        m.tick(bytes).in_dashboard == m.in_dashboard,
{
    lemma_watch(m, bytes);
}

/// The emulator outlives the dashboard: what is on its grid is there again when
/// the dashboard is opened anew.
pub proof fn law_grid_survives_closing(m: ProviderModel)
    requires
        m.emulator is Some,
    ensures
        m.leave_dashboard().enter_dashboard().emulator == m.emulator,
{
}

} // verus!
