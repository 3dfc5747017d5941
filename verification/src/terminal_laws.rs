//! What holds of a terminal whatever a program writes to it.
use vstd::prelude::*;

use crate::dashboard::lemma_place;
use crate::parser::ActionModel;
use crate::sgr::{codes_applied, sgr};
use crate::terminal::{
    count_at, default_pen, is_alt_screen_mode, least, value_or, without_empty_end, Pen,
    TerminalModel,
};
use crate::text::{is_space, trimmed_end};

verus! {

/// A cell stands before the start of a row exactly if its own row is an
/// earlier one.
pub proof fn lemma_before_row(cols: int, col: int, row: int, bound: int)
    requires
        0 <= col < cols,
    ensures
        row < bound <==> row * cols + col < bound * cols,
{
    if row < bound {
        assert(row * cols + col < bound * cols) by (nonlinear_arith)
            requires
                0 <= col < cols,
                row + 1 <= bound,
        ;
    } else {
        assert(row * cols + col >= bound * cols) by (nonlinear_arith)
            requires
                0 <= col < cols,
                row >= bound,
        ;
    }
}

/// Two places of the grid stand at the same index only if they are the same.
pub proof fn lemma_places_differ(cols: int, col1: int, row1: int, col2: int, row2: int)
    requires
        0 <= col1 < cols,
        0 <= col2 < cols,
    ensures
        row1 * cols + col1 == row2 * cols + col2 <==> col1 == col2 && row1 == row2,
{
    lemma_before_row(cols, col1, row1, row2);
    lemma_before_row(cols, col2, row2, row1);
}

/// Whether a terminal is well-formed and has the grid of another one.
spec fn fits(t: TerminalModel, like: TerminalModel) -> bool {
    t.wf() && t.cols == like.cols && t.rows == like.rows
}

proof fn lemma_moves_fit(t: TerminalModel, col: int, row: int)
    requires
        t.wf(),
    ensures
        fits(t.move_by(col, row), t),
        0 <= col && 0 <= row ==> fits(t.move_to(col, row), t),
        fits(t.carriage_return(), t),
        fits(t.backspace(), t),
        fits(t.tab(), t),
        fits(t.save_cursor(), t),
        fits(t.restore_cursor(), t),
{
}

proof fn lemma_scrolls_fit(t: TerminalModel, n: int)
    requires
        t.wf(),
    ensures
        fits(t.scroll_up(n), t),
        fits(t.scroll_down(n), t),
        fits(t.linefeed(), t),
        fits(t.reverse_index(), t),
{
}

proof fn lemma_erasures_fit(t: TerminalModel, mode: u16)
    requires
        t.wf(),
    ensures
        fits(t.erase_in_line(mode), t),
        fits(t.erase_in_display(mode), t),
{
}

proof fn lemma_region_fits(t: TerminalModel, top: int, bot: int)
    requires
        t.wf(),
    ensures
        fits(t.set_scroll_region(top, bot), t),
{
}

proof fn lemma_print_fits(t: TerminalModel, ch: char)
    requires
        t.wf(),
    ensures
        fits(t.put_char(ch), t),
{
    lemma_moves_fit(t, 0, 0);
    lemma_scrolls_fit(t.carriage_return(), 1);
    let w = t.wrapped();
    let s = w.screen();
    assert(fits(w, t));
    lemma_place(w.cols as int, w.rows as int, s.cursor_col as int, s.cursor_row as int);
    let drawn = w.with_cells(s.cells.update(w.cursor_place(), w.pen.cell(ch)));
    assert(drawn.screen().cells.len() == s.cells.len());
    assert(fits(drawn, t));
}

proof fn lemma_esc_fits(t: TerminalModel, byte: u8)
    requires
        t.wf(),
    ensures
        fits(t.esc(byte), t),
{
    lemma_moves_fit(t, 0, 0);
    lemma_scrolls_fit(t, 1);
    lemma_moves_fit(t.linefeed(), 0, 0);
}

#[verifier::spinoff_prover]
#[verifier::rlimit(40)]
proof fn lemma_plain_csi_fits(t: TerminalModel, params: Seq<Seq<u16>>, action: char)
    requires
        t.wf(),
    ensures
        fits(t.plain_csi(params, action), t),
{
    reveal(TerminalModel::plain_csi);
    let n = count_at(params, 0);
    let s = t.screen();
    if action == 'J' || action == 'K' {
        lemma_erasures_fit(t, value_or(params, 0, 0) as u16);
    } else if action == 'S' || action == 'T' {
        lemma_scrolls_fit(t, n);
    } else if action == 'r' {
        lemma_region_fits(t, n, value_or(params, 1, t.rows as int));
    } else if action == 'H' || action == 'f' {
        lemma_moves_fit(t, count_at(params, 1) - 1, n - 1);
    } else if action == 'G' || action == '`' {
        lemma_moves_fit(t, n - 1, s.cursor_row as int);
    } else if action == 'd' {
        lemma_moves_fit(t, s.cursor_col as int, n - 1);
    } else {
        lemma_moves_fit(t, 0, n);
        lemma_moves_fit(t, 0, -n);
        lemma_moves_fit(t, n, 0);
        lemma_moves_fit(t, -n, 0);
        lemma_moves_fit(t.move_by(0, n), 0, 0);
        lemma_moves_fit(t.move_by(0, -n), 0, 0);
    }
}

/// No action changes the size of the grid, and every action leaves exactly
/// one cell for each place of it, with the cursors and the scroll region
/// inside.
pub proof fn law_action_keeps_grid(t: TerminalModel, action: ActionModel)
    requires
        t.wf(),
    ensures
        t.apply(action).wf(),
        t.apply(action).cols == t.cols,
        t.apply(action).rows == t.rows,
{
    match action {
        ActionModel::Print(ch) => lemma_print_fits(t, ch),
        ActionModel::Execute(_) => {
            lemma_moves_fit(t, 0, 0);
            lemma_scrolls_fit(t, 1);
        },
        ActionModel::Esc { byte } => lemma_esc_fits(t, byte),
        ActionModel::Csi { params, intermediates: _, action } => {
            lemma_private_modes_keep_grid(t, params, action == 'h');
            lemma_plain_csi_fits(t, params, action);
        },
    }
}

proof fn lemma_private_modes_keep_grid(t: TerminalModel, params: Seq<Seq<u16>>, on: bool)
    requires
        t.wf(),
    ensures
        t.private_modes(params, on).wf(),
        t.private_modes(params, on).cols == t.cols,
        t.private_modes(params, on).rows == t.rows,
    decreases params.len(),
{
    if params.len() > 0 {
        lemma_private_modes_keep_grid(t, params.drop_last(), on);
    }
}

/// The same of any number of actions.
pub proof fn law_actions_keep_grid(t: TerminalModel, actions: Seq<ActionModel>)
    requires
        t.wf(),
    ensures
        t.apply_all(actions).wf(),
        t.apply_all(actions).cols == t.cols,
        t.apply_all(actions).rows == t.rows,
    decreases actions.len(),
{
    if actions.len() > 0 {
        law_actions_keep_grid(t, actions.drop_last());
        law_action_keeps_grid(t.apply_all(actions.drop_last()), actions.last());
    }
}

/// Actions take effect one after the other: a list of them can be cut
/// anywhere.
pub proof fn law_actions_compose(
    t: TerminalModel,
    first: Seq<ActionModel>,
    then: Seq<ActionModel>,
)
    ensures
        t.apply_all(first + then) == t.apply_all(first).apply_all(then),
    decreases then.len(),
{
    if then.len() == 0 {
        assert(first + then =~= first);
    } else {
        law_actions_compose(t, first, then.drop_last());
        assert((first + then).drop_last() =~= first + then.drop_last());
        assert((first + then).last() == then.last());
    }
}

/// Whether an action neither leaves the alternate screen nor resets the
/// terminal.
pub open spec fn stays_on_alt(action: ActionModel) -> bool {
    match action {
        ActionModel::Esc { byte } => byte != 0x63,
        ActionModel::Csi { params, intermediates, action } => {
            intermediates.len() > 0 && intermediates[0] == 0x3F && action == 'l' ==> forall|i: int|
                0 <= i < params.len() ==> !is_alt_screen_mode(
                    #[trigger] value_or(params, i, 0) as u16,
                )
        },
        _ => true,
    }
}

/// Whether the alternate screen is in use and the primary one is as before.
spec fn primary_kept(t: TerminalModel, before: TerminalModel) -> bool {
    t.on_alt && t.primary == before.primary
}

proof fn lemma_operations_keep_primary(t: TerminalModel, x: int, y: int, mode: u16)
    requires
        t.on_alt,
    ensures
        primary_kept(t.move_by(x, y), t),
        primary_kept(t.move_to(x, y), t),
        primary_kept(t.carriage_return(), t),
        primary_kept(t.backspace(), t),
        primary_kept(t.tab(), t),
        primary_kept(t.save_cursor(), t),
        primary_kept(t.restore_cursor(), t),
        primary_kept(t.scroll_up(x), t),
        primary_kept(t.scroll_down(x), t),
        primary_kept(t.linefeed(), t),
        primary_kept(t.reverse_index(), t),
        primary_kept(t.erase_in_line(mode), t),
        primary_kept(t.erase_in_display(mode), t),
        primary_kept(t.set_scroll_region(x, y), t),
{
}

#[verifier::spinoff_prover]
#[verifier::rlimit(40)]
proof fn lemma_plain_csi_keeps_primary(t: TerminalModel, params: Seq<Seq<u16>>, action: char)
    requires
        t.on_alt,
    ensures
        primary_kept(t.plain_csi(params, action), t),
{
    reveal(TerminalModel::plain_csi);
    let n = count_at(params, 0);
    let s = t.screen();
    let mode = value_or(params, 0, 0) as u16;
    lemma_operations_keep_primary(t, n, value_or(params, 1, t.rows as int), mode);
    if action == 'H' || action == 'f' {
        lemma_operations_keep_primary(t, count_at(params, 1) - 1, n - 1, mode);
    } else if action == 'G' || action == '`' {
        lemma_operations_keep_primary(t, n - 1, s.cursor_row as int, mode);
    } else if action == 'd' {
        lemma_operations_keep_primary(t, s.cursor_col as int, n - 1, mode);
    } else if action == 'A' || action == 'F' {
        lemma_operations_keep_primary(t, 0, -n, mode);
        lemma_operations_keep_primary(t.move_by(0, -n), 0, 0, mode);
    } else if action == 'D' {
        lemma_operations_keep_primary(t, -n, 0, mode);
    } else if action == 'C' || action == 'a' {
        lemma_operations_keep_primary(t, n, 0, mode);
    } else if action == 'B' || action == 'e' || action == 'E' {
        lemma_operations_keep_primary(t, 0, n, mode);
        lemma_operations_keep_primary(t.move_by(0, n), 0, 0, mode);
    }
}

/// What happens on the alternate screen leaves the primary one alone.
pub proof fn law_alt_screen_leaves_primary(t: TerminalModel, action: ActionModel)
    requires
        t.on_alt,
        stays_on_alt(action),
    ensures
        t.apply(action).on_alt,
        t.apply(action).primary == t.primary,
{
    match action {
        ActionModel::Csi { params, intermediates, action } => {
            if intermediates.len() == 0 {
                lemma_plain_csi_keeps_primary(t, params, action);
            } else if intermediates[0] == 0x3F && (action == 'h' || action == 'l') {
                lemma_private_modes_leave_primary(t, params, action == 'h');
            }
        },
        _ => {
            lemma_operations_keep_primary(t, 1, 0, 0);
            lemma_operations_keep_primary(t.linefeed(), 1, 0, 0);
            lemma_operations_keep_primary(t.carriage_return(), 1, 0, 0);
        },
    }
}

proof fn lemma_private_modes_leave_primary(t: TerminalModel, params: Seq<Seq<u16>>, on: bool)
    requires
        t.on_alt,
        !on ==> forall|i: int|
            0 <= i < params.len() ==> !is_alt_screen_mode(#[trigger] value_or(params, i, 0) as u16),
    ensures
        t.private_modes(params, on).on_alt,
        t.private_modes(params, on).primary == t.primary,
    decreases params.len(),
{
    if params.len() > 0 {
        let before = params.drop_last();
        assert forall|i: int| !on && 0 <= i < before.len() implies !is_alt_screen_mode(
            #[trigger] value_or(before, i, 0) as u16,
        ) by {
            assert(value_or(before, i, 0) == value_or(params, i, 0));
        }
        lemma_private_modes_leave_primary(t, before, on);
        assert(!on ==> !is_alt_screen_mode(value_or(params, params.len() - 1, 0) as u16));
    }
}

/// A session on the alternate screen, from entering it to leaving it, leaves
/// the primary screen as it was, with its cursor.
pub proof fn law_alt_screen_session(t: TerminalModel, session: Seq<ActionModel>)
    requires
        !t.on_alt,
        forall|i: int| 0 <= i < session.len() ==> stays_on_alt(#[trigger] session[i]),
    ensures
        t.switch_screen(true).apply_all(session).on_alt,
        t.switch_screen(true).apply_all(session).switch_screen(false).primary == t.primary,
        !t.switch_screen(true).apply_all(session).switch_screen(false).on_alt,
    decreases session.len(),
{
    lemma_session(t.switch_screen(true), session);
}

proof fn lemma_session(t: TerminalModel, session: Seq<ActionModel>)
    requires
        t.on_alt,
        forall|i: int| 0 <= i < session.len() ==> stays_on_alt(#[trigger] session[i]),
    ensures
        t.apply_all(session).on_alt,
        t.apply_all(session).primary == t.primary,
    decreases session.len(),
{
    if session.len() > 0 {
        let before = session.drop_last();
        assert forall|i: int| 0 <= i < before.len() implies stays_on_alt(#[trigger] before[i]) by {
            assert(before[i] == session[i]);
        }
        lemma_session(t, before);
        law_alt_screen_leaves_primary(t.apply_all(before), session.last());
    }
}

/// Restoring the cursor brings it back to where it was saved, wherever it
/// went in between and whatever was drawn, as long as the grid, the screen in
/// use and what was saved are still the same.
pub proof fn law_restore_returns_to_saved_cursor(t: TerminalModel, later: TerminalModel)
    requires
        t.wf(),
        later.cols == t.cols,
        later.rows == t.rows,
        later.screen().saved_cursor == t.save_cursor().screen().saved_cursor,
    ensures
        later.restore_cursor().screen().cursor_col == t.screen().cursor_col,
        later.restore_cursor().screen().cursor_row == t.screen().cursor_row,
        later.restore_cursor().screen().cells == later.screen().cells,
{
}

/// Whether an action neither saves the cursor, nor switches the screen, nor
/// resets the terminal.
pub open spec fn keeps_saved_cursor(action: ActionModel) -> bool {
    match action {
        ActionModel::Esc { byte } => byte != 0x37 && byte != 0x63,
        ActionModel::Csi { params, intermediates, action } => {
            &&& intermediates.len() == 0 ==> action != 's'
            &&& intermediates.len() > 0 && intermediates[0] == 0x3F && (action == 'h' || action
                == 'l') ==> forall|i: int|
                0 <= i < params.len() ==> !is_alt_screen_mode(
                    #[trigger] value_or(params, i, 0) as u16,
                )
        },
        _ => true,
    }
}

/// Whether a terminal has the screen in use and the saved cursor of another
/// one.
pub open spec fn same_saved(t: TerminalModel, before: TerminalModel) -> bool {
    &&& t.on_alt == before.on_alt
    &&& t.screen().saved_cursor == before.screen().saved_cursor
}

proof fn lemma_operations_keep_saved(t: TerminalModel, x: int, y: int, mode: u16)
    ensures
        same_saved(t.move_by(x, y), t),
        same_saved(t.move_to(x, y), t),
        same_saved(t.carriage_return(), t),
        same_saved(t.backspace(), t),
        same_saved(t.tab(), t),
        same_saved(t.restore_cursor(), t),
        same_saved(t.scroll_up(x), t),
        same_saved(t.scroll_down(x), t),
        same_saved(t.linefeed(), t),
        same_saved(t.reverse_index(), t),
        same_saved(t.erase_in_line(mode), t),
        same_saved(t.erase_in_display(mode), t),
        same_saved(t.set_scroll_region(x, y), t),
{
}

#[verifier::spinoff_prover]
#[verifier::rlimit(40)]
proof fn lemma_plain_csi_keeps_saved(t: TerminalModel, params: Seq<Seq<u16>>, action: char)
    requires
        action != 's',
    ensures
        same_saved(t.plain_csi(params, action), t),
{
    reveal(TerminalModel::plain_csi);
    let n = count_at(params, 0);
    let s = t.screen();
    let mode = value_or(params, 0, 0) as u16;
    lemma_operations_keep_saved(t, n, value_or(params, 1, t.rows as int), mode);
    if action == 'H' || action == 'f' {
        lemma_operations_keep_saved(t, count_at(params, 1) - 1, n - 1, mode);
    } else if action == 'G' || action == '`' {
        lemma_operations_keep_saved(t, n - 1, s.cursor_row as int, mode);
    } else if action == 'd' {
        lemma_operations_keep_saved(t, s.cursor_col as int, n - 1, mode);
    } else if action == 'A' || action == 'F' {
        lemma_operations_keep_saved(t, 0, -n, mode);
        lemma_operations_keep_saved(t.move_by(0, -n), 0, 0, mode);
    } else if action == 'D' {
        lemma_operations_keep_saved(t, -n, 0, mode);
    } else if action == 'C' || action == 'a' {
        lemma_operations_keep_saved(t, n, 0, mode);
    } else if action == 'B' || action == 'e' || action == 'E' {
        lemma_operations_keep_saved(t, 0, n, mode);
        lemma_operations_keep_saved(t.move_by(0, n), 0, 0, mode);
    }
}

proof fn lemma_private_modes_keep_saved(t: TerminalModel, params: Seq<Seq<u16>>, on: bool)
    requires
        forall|i: int|
            0 <= i < params.len() ==> !is_alt_screen_mode(#[trigger] value_or(params, i, 0) as u16),
    ensures
        same_saved(t.private_modes(params, on), t),
    decreases params.len(),
{
    if params.len() > 0 {
        let before = params.drop_last();
        assert forall|i: int| 0 <= i < before.len() implies !is_alt_screen_mode(
            #[trigger] value_or(before, i, 0) as u16,
        ) by {
            assert(value_or(before, i, 0) == value_or(params, i, 0));
        }
        lemma_private_modes_keep_saved(t, before, on);
        assert(!is_alt_screen_mode(value_or(params, params.len() - 1, 0) as u16));
    }
}

/// Text, control codes, cursor moves, erasing and scrolling keep what was
/// saved.
pub proof fn law_action_keeps_saved_cursor(t: TerminalModel, action: ActionModel)
    requires
        keeps_saved_cursor(action),
    ensures
        same_saved(t.apply(action), t),
{
    match action {
        ActionModel::Csi { params, intermediates, action } => {
            if intermediates.len() == 0 {
                lemma_plain_csi_keeps_saved(t, params, action);
            } else if intermediates[0] == 0x3F && (action == 'h' || action == 'l') {
                lemma_private_modes_keep_saved(t, params, action == 'h');
            }
        },
        _ => {
            lemma_operations_keep_saved(t, 1, 0, 0);
            lemma_operations_keep_saved(t.linefeed(), 1, 0, 0);
            lemma_operations_keep_saved(t.carriage_return(), 1, 0, 0);
        },
    }
}

proof fn lemma_actions_keep_saved_cursor(t: TerminalModel, actions: Seq<ActionModel>)
    requires
        forall|i: int| 0 <= i < actions.len() ==> keeps_saved_cursor(#[trigger] actions[i]),
    ensures
        same_saved(t.apply_all(actions), t),
    decreases actions.len(),
{
    if actions.len() > 0 {
        let before = actions.drop_last();
        assert forall|i: int| 0 <= i < before.len() implies keeps_saved_cursor(
            #[trigger] before[i],
        ) by {
            assert(before[i] == actions[i]);
        }
        lemma_actions_keep_saved_cursor(t, before);
        assert(keeps_saved_cursor(actions[actions.len() - 1]));
        law_action_keeps_saved_cursor(t.apply_all(before), actions.last());
    }
}

/// `ESC 8` brings the cursor back to where `ESC 7` saved it, whatever was drawn
/// and moved in between, and draws nothing. So does every further `ESC 8`.
pub proof fn law_saved_cursor_comes_back(t: TerminalModel, actions: Seq<ActionModel>)
    requires
        t.wf(),
        forall|i: int| 0 <= i < actions.len() ==> keeps_saved_cursor(#[trigger] actions[i]),
    ensures
        ({
            let later = t.apply(ActionModel::Esc { byte: 0x37 }).apply_all(actions);
            let back = later.apply(ActionModel::Esc { byte: 0x38 });
            let again = back.apply(ActionModel::Esc { byte: 0x38 });
            &&& back.screen().cursor_col == t.screen().cursor_col
            &&& back.screen().cursor_row == t.screen().cursor_row
            &&& back.screen().cells == later.screen().cells
            &&& again.screen() == back.screen()
        }),
{
    let saved = t.apply(ActionModel::Esc { byte: 0x37 });
    law_action_keeps_grid(t, ActionModel::Esc { byte: 0x37 });
    law_actions_keep_grid(saved, actions);
    lemma_actions_keep_saved_cursor(saved, actions);
    law_restore_returns_to_saved_cursor(t, saved.apply_all(actions));
}

/// `ESC 8` with nothing saved changes nothing.
pub proof fn law_restoring_nothing_changes_nothing(t: TerminalModel)
    requires
        t.screen().saved_cursor is None,
    ensures
        t.apply(ActionModel::Esc { byte: 0x38 }) == t,
{
}

/// Drawing a character with no wrap due changes the cell at the cursor and no
/// other, and moves the cursor one column on, or leaves it in the last one.
pub proof fn law_print_draws_one_cell(t: TerminalModel, ch: char, col: int, row: int)
    requires
        t.wf(),
        !(t.pending_wrap && t.autowrap),
        0 <= col < t.cols,
        0 <= row < t.rows,
    ensures
        t.put_char(ch).cell_at(col, row) == if col == t.screen().cursor_col && row
            == t.screen().cursor_row {
            t.pen.cell(ch)
        } else {
            t.cell_at(col, row)
        },
        t.put_char(ch).screen().cursor_row == t.screen().cursor_row,
        t.put_char(ch).screen().cursor_col == least(t.screen().cursor_col + 1, t.cols - 1),
{
    let s = t.screen();
    lemma_place(t.cols as int, t.rows as int, col, row);
    lemma_place(t.cols as int, t.rows as int, s.cursor_col as int, s.cursor_row as int);
    lemma_places_differ(t.cols as int, col, row, s.cursor_col as int, s.cursor_row as int);
}

/// After the last column was filled, the next character goes to the first
/// column of the next row, or of the same row if the region scrolled.
pub proof fn law_next_character_wraps(t: TerminalModel, ch: char)
    requires
        t.wf(),
        t.pending_wrap,
        t.autowrap,
        t.cols > 1,
    ensures
        ({
            let after = t.put_char(ch);
            let row = if t.screen().cursor_row >= t.scroll_bot {
                t.screen().cursor_row as int
            } else {
                t.screen().cursor_row + 1
            };
            &&& after.cell_at(0, row) == t.pen.cell(ch)
            &&& after.screen().cursor_col == 1
            &&& after.screen().cursor_row == row
        }),
{
    let w = t.wrapped();
    assert(w.wf());
    lemma_place(t.cols as int, t.rows as int, 0, w.screen().cursor_row as int);
}

/// Whether `after` is `t` with a text drawn from the cursor on, as far as the
/// cursor and the cell at a column and row tell.
pub open spec fn shows_text(
    after: TerminalModel,
    t: TerminalModel,
    text: Seq<char>,
    col: int,
    row: int,
) -> bool {
    let from = t.screen().cursor_col as int;
    &&& after.wf()
    &&& !after.pending_wrap
    &&& after.cols == t.cols
    &&& after.rows == t.rows
    &&& after.pen == t.pen
    &&& after.screen().cursor_col == from + text.len()
    &&& after.screen().cursor_row == t.screen().cursor_row
    &&& after.cell_at(col, row) == if row == t.screen().cursor_row && from <= col < from
        + text.len() {
        t.pen.cell(text[col - from])
    } else {
        t.cell_at(col, row)
    }
}

proof fn lemma_one_more_drawn(
    mid: TerminalModel,
    t: TerminalModel,
    text: Seq<char>,
    col: int,
    row: int,
)
    requires
        text.len() > 0,
        shows_text(mid, t, text.drop_last(), col, row),
        t.screen().cursor_col + text.len() < t.cols,
        0 <= col < t.cols,
        0 <= row < t.rows,
    ensures
        shows_text(mid.put_char(text.last()), t, text, col, row),
{
    law_print_draws_one_cell(mid, text.last(), col, row);
    lemma_print_fits(mid, text.last());
}

/// A terminal after the characters of a text were drawn one by one.
pub open spec fn with_text(t: TerminalModel, text: Seq<char>) -> TerminalModel
    decreases text.len(),
{
    if text.len() == 0 {
        t
    } else {
        with_text(t, text.drop_last()).put_char(text.last())
    }
}

/// Text that fits in the rest of a row is drawn there from left to right, and
/// the cursor ends up behind it.
pub proof fn law_text_is_drawn_left_to_right(t: TerminalModel, text: Seq<char>, col: int, row: int)
    requires
        t.wf(),
        !t.pending_wrap,
        t.screen().cursor_col + text.len() < t.cols,
        0 <= col < t.cols,
        0 <= row < t.rows,
    ensures
        shows_text(with_text(t, text), t, text, col, row),
    decreases text.len(),
{
    if text.len() > 0 {
        let mid = with_text(t, text.drop_last());
        law_text_is_drawn_left_to_right(t, text.drop_last(), col, row);
        lemma_one_more_drawn(mid, t, text, col, row);
        assert(with_text(t, text) == mid.put_char(text.last()));
    }
}

/// Printing the characters of a text draws it.
pub proof fn law_printing_draws_text(t: TerminalModel, actions: Seq<ActionModel>, text: Seq<char>)
    requires
        actions.len() == text.len(),
        forall|i: int| 0 <= i < text.len() ==> #[trigger] actions[i] == ActionModel::Print(text[i]),
    ensures
        t.apply_all(actions) == with_text(t, text),
    decreases text.len(),
{
    if text.len() > 0 {
        law_printing_draws_text(t, actions.drop_last(), text.drop_last());
        assert(actions.last() == ActionModel::Print(text.last()));
    }
}

/// Scrolling up by `n` rows moves every row of the region up by `n`; the rows
/// that become free are blank, and rows outside the region stay.
pub proof fn law_scroll_up_moves_rows(t: TerminalModel, n: int, col: int, row: int)
    requires
        t.wf(),
        t.scroll_top < t.scroll_bot,
        0 <= n,
        0 <= col < t.cols,
        0 <= row < t.rows,
    ensures
        t.scroll_up(n).cell_at(col, row) == if t.scroll_top <= row <= t.scroll_bot {
            if row + n <= t.scroll_bot {
                t.cell_at(col, row + n)
            } else {
                t.blank()
            }
        } else {
            t.cell_at(col, row)
        },
{
    let cols = t.cols as int;
    lemma_place(cols, t.rows as int, col, row);
    lemma_before_row(cols, col, row, t.scroll_top as int);
    lemma_before_row(cols, col, row, t.scroll_bot + 1);
    lemma_before_row(cols, col, row + n, t.scroll_bot + 1);
    assert((row + n) * cols == row * cols + n * cols) by (nonlinear_arith);
}

/// Scrolling down by `n` rows moves every row of the region down by `n`; the
/// rows that become free are blank, and rows outside the region stay.
pub proof fn law_scroll_down_moves_rows(t: TerminalModel, n: int, col: int, row: int)
    requires
        t.wf(),
        t.scroll_top < t.scroll_bot,
        0 <= n,
        0 <= col < t.cols,
        0 <= row < t.rows,
    ensures
        t.scroll_down(n).cell_at(col, row) == if t.scroll_top <= row <= t.scroll_bot {
            if t.scroll_top <= row - n {
                t.cell_at(col, row - n)
            } else {
                t.blank()
            }
        } else {
            t.cell_at(col, row)
        },
{
    let cols = t.cols as int;
    lemma_place(cols, t.rows as int, col, row);
    lemma_before_row(cols, col, row, t.scroll_top as int);
    lemma_before_row(cols, col, row, t.scroll_bot + 1);
    lemma_before_row(cols, col, row - n, t.scroll_top as int);
    assert((row - n) * cols == row * cols - n * cols) by (nonlinear_arith);
}

/// A line feed at the end of the scroll region moves the region up by one row
/// and leaves the cursor where it is.
pub proof fn law_linefeed_at_bottom_scrolls(t: TerminalModel, col: int, row: int)
    requires
        t.wf(),
        t.screen().cursor_row == t.scroll_bot,
        t.scroll_top <= row < t.scroll_bot,
        0 <= col < t.cols,
    ensures
        t.linefeed().cell_at(col, row) == t.cell_at(col, row + 1),
        t.linefeed().cell_at(col, t.scroll_bot as int) == t.blank(),
        t.linefeed().screen().cursor_row == t.screen().cursor_row,
        t.linefeed().screen().cursor_col == t.screen().cursor_col,
{
    law_scroll_up_moves_rows(t, 1, col, row);
    law_scroll_up_moves_rows(t, 1, col, t.scroll_bot as int);
}

/// Moving the cursor draws nothing.
pub proof fn law_moving_draws_nothing(t: TerminalModel, col: int, row: int)
    ensures
        t.move_to(col, row).screen().cells == t.screen().cells,
        t.move_by(col, row).screen().cells == t.screen().cells,
        t.carriage_return().screen().cells == t.screen().cells,
        t.backspace().screen().cells == t.screen().cells,
        t.tab().screen().cells == t.screen().cells,
        t.save_cursor().screen().cells == t.screen().cells,
        t.restore_cursor().screen().cells == t.screen().cells,
{
}

/// Erasing a line from the cursor on blanks the cells from the cursor to the
/// end of its row and no others, and moves nothing.
pub proof fn law_erase_to_end_of_line(t: TerminalModel, col: int, row: int)
    requires
        t.wf(),
        0 <= col < t.cols,
        0 <= row < t.rows,
    ensures
        t.erase_in_line(0).cell_at(col, row) == if row == t.screen().cursor_row
            && t.screen().cursor_col <= col {
            t.blank()
        } else {
            t.cell_at(col, row)
        },
        t.erase_in_line(0).screen().cursor_col == t.screen().cursor_col,
        t.erase_in_line(0).screen().cursor_row == t.screen().cursor_row,
{
    let cols = t.cols as int;
    let s = t.screen();
    lemma_place(cols, t.rows as int, col, row);
    lemma_before_row(cols, col, row, s.cursor_row as int);
    lemma_before_row(cols, col, row, s.cursor_row + 1);
    assert((s.cursor_row + 1) * cols == s.cursor_row * cols + cols) by (nonlinear_arith);
}

/// Erasing the display blanks every cell and leaves the cursor where it is.
pub proof fn law_erase_display_blanks_everything(t: TerminalModel, col: int, row: int)
    requires
        t.wf(),
        0 <= col < t.cols,
        0 <= row < t.rows,
    ensures
        t.erase_in_display(2).cell_at(col, row) == t.blank(),
        t.erase_in_display(2).screen().cursor_col == t.screen().cursor_col,
        t.erase_in_display(2).screen().cursor_row == t.screen().cursor_row,
{
    lemma_place(t.cols as int, t.rows as int, col, row);
}

/// A cell inside both the old and the new size keeps its column, its row and
/// what it shows; any other cell of the new grid is blank. The cursor stays,
/// or moves to the nearest place inside.
pub proof fn law_resize_keeps_cells(t: TerminalModel, cols: u16, rows: u16, col: int, row: int)
    requires
        t.wf(),
        1 <= cols,
        1 <= rows,
        0 <= col < cols,
        0 <= row < rows,
    ensures
        t.resize(cols, rows).wf(),
        t.resize(cols, rows).cell_at(col, row) == if col < t.cols && row < t.rows {
            t.cell_at(col, row)
        } else {
            t.blank()
        },
        t.resize(cols, rows).screen().cursor_col == least(t.screen().cursor_col as int, cols - 1),
        t.resize(cols, rows).screen().cursor_row == least(t.screen().cursor_row as int, rows - 1),
{
    let width = cols as int;
    lemma_place(width, rows as int, col, row);
    assert((row * width + col) % width == col && (row * width + col) / width == row)
        by (nonlinear_arith)
        requires
            0 <= col < width,
            0 <= row,
    ;
}

/// The text of the primary screen ends in a line that is not empty, and no
/// line of it ends in white space.
pub proof fn law_primary_text_is_trimmed(t: TerminalModel, i: int)
    requires
        0 <= i < t.primary_text().len(),
    ensures
        t.primary_text().len() <= t.rows,
        t.primary_text().last().len() > 0,
        t.primary_text()[i].len() > 0 ==> !is_space(t.primary_text()[i].last()),
        t.primary_text()[i] == trimmed_end(t.primary_row(i)),
{
    let all = Seq::new(t.rows as nat, |row: int| trimmed_end(t.primary_row(row)));
    lemma_without_empty_end(all);
    lemma_trimmed_end(t.primary_row(i));
}

pub proof fn lemma_without_empty_end(lines: Seq<Seq<char>>)
    ensures
        without_empty_end(lines).len() <= lines.len(),
        without_empty_end(lines) == lines.take(without_empty_end(lines).len() as int),
        without_empty_end(lines).len() > 0 ==> without_empty_end(lines).last().len() > 0,
    decreases lines.len(),
{
    if lines.len() > 0 && lines.last().len() == 0 {
        lemma_without_empty_end(lines.drop_last());
        let n = without_empty_end(lines).len() as int;
        assert(lines.take(n) =~= lines.drop_last().take(n));
    } else {
        assert(lines.take(lines.len() as int) =~= lines);
    }
}

proof fn lemma_trimmed_end(s: Seq<char>)
    ensures
        trimmed_end(s).len() > 0 ==> !is_space(trimmed_end(s).last()),
    decreases s.len(),
{
    if s.len() > 0 && is_space(s.last()) {
        lemma_trimmed_end(s.drop_last());
    }
}

/// After the primary screen was blanked it holds no text.
pub proof fn law_reset_primary_has_no_text(t: TerminalModel)
    requires
        t.wf(),
    ensures
        t.reset_primary().primary_text().len() == 0,
{
    let blank = t.reset_primary();
    let all = Seq::new(blank.rows as nat, |row: int| trimmed_end(blank.primary_row(row)));
    assert forall|row: int| 0 <= row < all.len() implies #[trigger] all[row].len() == 0 by {
        assert forall|col: int| 0 <= col < blank.cols implies blank.primary_row(row)[col] == ' ' by {
            lemma_place(t.cols as int, t.rows as int, col, row);
        }
        lemma_blank_row(blank.primary_row(row));
    }
    lemma_all_empty(all);
}

/// After the primary screen was blanked, the next character drawn on it is the
/// first one of its first row.
pub proof fn law_reset_primary_starts_over(t: TerminalModel, ch: char)
    requires
        t.wf(),
        !t.on_alt,
    ensures
        t.reset_primary().put_char(ch).cell_at(0, 0) == t.pen.cell(ch),
        t.reset_primary().screen().cursor_col == 0,
        t.reset_primary().screen().cursor_row == 0,
{
    let blank = t.reset_primary();
    lemma_place(t.cols as int, t.rows as int, 0, 0);
    assert(blank.wf());
    law_print_draws_one_cell(blank, ch, 0, 0);
}

proof fn lemma_blank_row(s: Seq<char>)
    requires
        forall|i: int| 0 <= i < s.len() ==> s[i] == ' ',
    ensures
        trimmed_end(s).len() == 0,
    decreases s.len(),
{
    if s.len() > 0 {
        lemma_blank_row(s.drop_last());
    }
}

proof fn lemma_all_empty(lines: Seq<Seq<char>>)
    requires
        forall|i: int| 0 <= i < lines.len() ==> (#[trigger] lines[i]).len() == 0,
    ensures
        without_empty_end(lines).len() == 0,
    decreases lines.len(),
{
    if lines.len() > 0 {
        lemma_all_empty(lines.drop_last());
    }
}

/// A reset of the colors and attributes, with code zero or with no code,
/// brings back the pen a terminal starts with, whatever came before.
pub proof fn law_sgr_reset(pen: Pen)
    ensures
        sgr(pen, seq![0u16]) == default_pen(),
        sgr(pen, Seq::empty()) == default_pen(),
{
    let codes = seq![0u16];
    assert(codes.skip(1).len() == 0);
    assert(codes_applied(default_pen(), codes.skip(1)) == default_pen());
}

} // verus!
