//! What each action does to a terminal, in columns, rows and cells.
use vstd::prelude::*;

use crate::dashboard::{lemma_place, unpainted_cell, CellAttrs, DashboardCell};
use crate::parser::ActionModel;
use crate::sgr::sgr;
use crate::terminal::{
    value_or, without_empty_end, ScreenModel, TerminalModel, DEFAULT_BG, DEFAULT_FG,
};
use crate::terminal_laws::{lemma_before_row, lemma_places_differ, lemma_without_empty_end};
use crate::text::{is_space, trimmed_end};
use crate::text_laws::law_trimmed_end_is_a_beginning;

verus! {

/// The screen that is shown.
pub open spec fn seen(t: TerminalModel) -> ScreenModel {
    if t.on_alt {
        t.alt
    } else {
        t.primary
    }
}

/// The screen that is not shown.
pub open spec fn unseen(t: TerminalModel) -> ScreenModel {
    if t.on_alt {
        t.primary
    } else {
        t.alt
    }
}

/// The cell that is shown at a column and row.
pub open spec fn cell_of(t: TerminalModel, col: int, row: int) -> DashboardCell {
    seen(t).cells[row * t.cols + col]
}

/// A character in the colors and attributes in use.
pub open spec fn inked(t: TerminalModel, ch: char) -> DashboardCell {
    DashboardCell { ch, fg: t.pen.fg, bg: t.pen.bg, attrs: t.pen.attrs }
}

/// Whether a place is on the grid.
pub open spec fn on_grid(t: TerminalModel, col: int, row: int) -> bool {
    0 <= col < t.cols && 0 <= row < t.rows
}

/// Whether nothing changed but the cells, the cursor and the wrap that is due.
pub open spec fn rest_kept(t: TerminalModel, after: TerminalModel) -> bool {
    &&& after.cols == t.cols
    &&& after.rows == t.rows
    &&& after.on_alt == t.on_alt
    &&& after.pen == t.pen
    &&& after.cursor_visible == t.cursor_visible
    &&& after.autowrap == t.autowrap
    &&& after.bracketed_paste == t.bracketed_paste
    &&& after.scroll_top == t.scroll_top
    &&& after.scroll_bot == t.scroll_bot
    &&& unseen(after) == unseen(t)
    &&& seen(after).saved_cursor == seen(t).saved_cursor
}

/// Whether the cursor went to a place and nothing else changed. A wrap that was
/// due is not any more.
pub open spec fn moved(t: TerminalModel, after: TerminalModel, col: int, row: int) -> bool {
    &&& rest_kept(t, after)
    &&& seen(after).cells == seen(t).cells
    &&& seen(after).cursor_col == col
    &&& seen(after).cursor_row == row
    &&& !after.pending_wrap
}

/// Whether the cursor and the wrap that is due stayed, and nothing but cells
/// changed.
pub open spec fn cursor_kept(t: TerminalModel, after: TerminalModel) -> bool {
    &&& rest_kept(t, after)
    &&& seen(after).cursor_col == seen(t).cursor_col
    &&& seen(after).cursor_row == seen(t).cursor_row
    &&& after.pending_wrap == t.pending_wrap
}

/// Whether a place shows what scrolling up by `n` rows brings there.
pub open spec fn scrolled_up(
    t: TerminalModel,
    after: TerminalModel,
    n: int,
    col: int,
    row: int,
) -> bool {
    cell_of(after, col, row) == if t.scroll_top == t.scroll_bot || row < t.scroll_top || row
        > t.scroll_bot {
        cell_of(t, col, row)
    } else if row + n > t.scroll_bot {
        inked(t, ' ')
    } else {
        cell_of(t, col, row + n)
    }
}

/// Whether a place shows what scrolling down by `n` rows brings there.
pub open spec fn scrolled_down(
    t: TerminalModel,
    after: TerminalModel,
    n: int,
    col: int,
    row: int,
) -> bool {
    cell_of(after, col, row) == if t.scroll_top == t.scroll_bot || row < t.scroll_top || row
        > t.scroll_bot {
        cell_of(t, col, row)
    } else if row - n < t.scroll_top {
        inked(t, ' ')
    } else {
        cell_of(t, col, row - n)
    }
}

/// Whether parameter `i` is missing.
pub open spec fn is_missing(params: Seq<Seq<u16>>, i: int) -> bool {
    params.len() <= i || params[i].len() == 0
}

/// Whether parameter `i` says `n` times: a missing one and zero say once.
pub open spec fn says_times(params: Seq<Seq<u16>>, i: int, n: int) -> bool {
    if is_missing(params, i) {
        n == 1
    } else {
        n >= 1 && (params[i][0] == n || (params[i][0] == 0 && n == 1))
    }
}

/// A control sequence without intermediate bytes.
pub open spec fn plain(params: Seq<Seq<u16>>, action: char) -> ActionModel {
    ActionModel::Csi { params, intermediates: Seq::empty(), action }
}

/// `CSI n A` moves the cursor up by `n` rows and `CSI n B` down, at most to the
/// first or last row. `CSI n E` and `CSI n F` do the same and go to the first
/// column.
pub proof fn law_moves_up_and_down(t: TerminalModel, params: Seq<Seq<u16>>, n: int)
    requires
        t.wf(),
        says_times(params, 0, n),
    ensures
        ({
            let col = seen(t).cursor_col as int;
            let row = seen(t).cursor_row as int;
            let up = if row < n {
                0
            } else {
                row - n
            };
            let down = if row + n < t.rows {
                row + n
            } else {
                t.rows - 1
            };
            &&& moved(t, t.apply(plain(params, 'A')), col, up)
            &&& moved(t, t.apply(plain(params, 'B')), col, down)
            &&& moved(t, t.apply(plain(params, 'e')), col, down)
            &&& moved(t, t.apply(plain(params, 'E')), 0, down)
            &&& moved(t, t.apply(plain(params, 'F')), 0, up)
        }),
{
    reveal(TerminalModel::plain_csi);
}

/// `CSI n C` moves the cursor right by `n` columns and `CSI n D` left, at most
/// to the last or first column.
pub proof fn law_moves_left_and_right(t: TerminalModel, params: Seq<Seq<u16>>, n: int)
    requires
        t.wf(),
        says_times(params, 0, n),
    ensures
        ({
            let col = seen(t).cursor_col as int;
            let row = seen(t).cursor_row as int;
            let left = if col < n {
                0
            } else {
                col - n
            };
            let right = if col + n < t.cols {
                col + n
            } else {
                t.cols - 1
            };
            &&& moved(t, t.apply(plain(params, 'C')), right, row)
            &&& moved(t, t.apply(plain(params, 'a')), right, row)
            &&& moved(t, t.apply(plain(params, 'D')), left, row)
        }),
{
    reveal(TerminalModel::plain_csi);
}

/// `CSI n ; m H` puts the cursor in row `n` and column `m`, `CSI n G` in column
/// `n` of its row and `CSI n d` in row `n` of its column. They count from one;
/// what is outside the grid is its last row or column.
pub proof fn law_places_are_counted_from_one(
    t: TerminalModel,
    params: Seq<Seq<u16>>,
    n: int,
    m: int,
)
    requires
        t.wf(),
        says_times(params, 0, n),
        says_times(params, 1, m),
    ensures
        ({
            let col = seen(t).cursor_col as int;
            let row = seen(t).cursor_row as int;
            let nth_row = if n <= t.rows {
                n - 1
            } else {
                t.rows - 1
            };
            let nth_col = if n <= t.cols {
                n - 1
            } else {
                t.cols - 1
            };
            let mth_col = if m <= t.cols {
                m - 1
            } else {
                t.cols - 1
            };
            &&& moved(t, t.apply(plain(params, 'H')), mth_col, nth_row)
            &&& moved(t, t.apply(plain(params, 'f')), mth_col, nth_row)
            &&& moved(t, t.apply(plain(params, 'G')), nth_col, row)
            &&& moved(t, t.apply(plain(params, '`')), nth_col, row)
            &&& moved(t, t.apply(plain(params, 'd')), col, nth_row)
        }),
{
    reveal(TerminalModel::plain_csi);
}

/// Going down and up again by as many rows, or right and left by as many
/// columns, leads back, unless an edge was in the way.
pub proof fn law_moves_lead_back(t: TerminalModel, params: Seq<Seq<u16>>, n: int)
    requires
        t.wf(),
        says_times(params, 0, n),
    ensures
        seen(t).cursor_row + n < t.rows ==> moved(
            t,
            t.apply(plain(params, 'B')).apply(plain(params, 'A')),
            seen(t).cursor_col as int,
            seen(t).cursor_row as int,
        ),
        seen(t).cursor_col + n < t.cols ==> moved(
            t,
            t.apply(plain(params, 'C')).apply(plain(params, 'D')),
            seen(t).cursor_col as int,
            seen(t).cursor_row as int,
        ),
{
    law_moves_up_and_down(t, params, n);
    law_moves_left_and_right(t, params, n);
    assert(t.apply(plain(params, 'B')).wf() && t.apply(plain(params, 'C')).wf());
    law_moves_up_and_down(t.apply(plain(params, 'B')), params, n);
    law_moves_left_and_right(t.apply(plain(params, 'C')), params, n);
}

/// A carriage return goes to the first column, a backspace one column back, and
/// a tab to the next column that is a multiple of eight, or to the last one.
#[verifier::spinoff_prover]
pub proof fn law_control_codes_move_the_cursor(t: TerminalModel, between: int)
    requires
        t.wf(),
    ensures
        ({
            let col = seen(t).cursor_col as int;
            let row = seen(t).cursor_row as int;
            let tab = t.apply(ActionModel::Execute(0x09));
            let stop = seen(tab).cursor_col as int;
            &&& moved(t, t.apply(ActionModel::Execute(0x0D)), 0, row)
            &&& col > 0 ==> moved(t, t.apply(ActionModel::Execute(0x08)), col - 1, row)
            &&& col == 0 ==> moved(t, t.apply(ActionModel::Execute(0x08)), 0, row)
            &&& moved(t, tab, stop, row)
            &&& stop == t.cols - 1 || (stop % 8 == 0 && stop < t.cols)
            &&& stop < t.cols - 1 ==> col < stop <= col + 8
            &&& col < between < stop ==> between % 8 != 0
        }),
{
    let col = seen(t).cursor_col as int;
    let next = (col / 8 + 1) * 8;
    let stop = seen(t.apply(ActionModel::Execute(0x09))).cursor_col as int;
    assert(stop == if next < t.cols - 1 {
        next
    } else {
        t.cols - 1
    });
    assert(col < between < next ==> between / 8 == col / 8);
}

/// Control codes other than backspace, tab, line feed, vertical tab, form feed
/// and carriage return do nothing.
pub proof fn law_other_control_codes_do_nothing(t: TerminalModel, byte: u8)
    requires
        byte < 0x08 || byte > 0x0D,
    ensures
        t.apply(ActionModel::Execute(byte)) == t,
{
}

proof fn lemma_scrolled(t: TerminalModel, n: int, col: int, row: int)
    requires
        t.wf(),
        0 <= n,
        on_grid(t, col, row),
    ensures
        scrolled_up(t, t.scroll_up(n), n, col, row),
        scrolled_down(t, t.scroll_down(n), n, col, row),
        cursor_kept(t, t.scroll_up(n)),
        cursor_kept(t, t.scroll_down(n)),
{
    let cols = t.cols as int;
    lemma_place(cols, t.rows as int, col, row);
    lemma_before_row(cols, col, row, t.scroll_top as int);
    lemma_before_row(cols, col, row, t.scroll_bot + 1);
    lemma_before_row(cols, col, row + n, t.scroll_bot + 1);
    lemma_before_row(cols, col, row - n, t.scroll_top as int);
    assert((row + n) * cols == row * cols + n * cols) by (nonlinear_arith);
    assert((row - n) * cols == row * cols - n * cols) by (nonlinear_arith);
}

/// `CSI n S` moves the rows of the scroll region up by `n`, `CSI n T` moves them
/// down. What becomes free is blank in the colors in use, and the rest stays.
pub proof fn law_scrolling_moves_rows(
    t: TerminalModel,
    params: Seq<Seq<u16>>,
    n: int,
    col: int,
    row: int,
)
    requires
        t.wf(),
        says_times(params, 0, n),
        on_grid(t, col, row),
    ensures
        scrolled_up(t, t.apply(plain(params, 'S')), n, col, row),
        cursor_kept(t, t.apply(plain(params, 'S'))),
        scrolled_down(t, t.apply(plain(params, 'T')), n, col, row),
        cursor_kept(t, t.apply(plain(params, 'T'))),
{
    reveal(TerminalModel::plain_csi);
    lemma_scrolled(t, n, col, row);
}

/// Whether the cursor went one row down, or the region scrolled up by one where
/// it ends.
pub open spec fn went_down(t: TerminalModel, after: TerminalModel, col: int, row: int) -> bool {
    let at = seen(t).cursor_row;
    &&& rest_kept(t, after)
    &&& !after.pending_wrap
    &&& seen(after).cursor_row == if at < t.scroll_bot {
        at + 1
    } else {
        at as int
    }
    &&& at < t.scroll_bot ==> seen(after).cells == seen(t).cells
    &&& at >= t.scroll_bot ==> scrolled_up(t, after, 1, col, row)
}

/// Line feed, vertical tab, form feed and `ESC D` go one row down in the same
/// column, and `ESC E` goes to the first column of that row. At the end of the
/// scroll region its rows move up instead.
pub proof fn law_line_feeds_go_down(t: TerminalModel, byte: u8, col: int, row: int)
    requires
        t.wf(),
        0x0A <= byte <= 0x0C,
        on_grid(t, col, row),
    ensures
        went_down(t, t.apply(ActionModel::Execute(byte)), col, row),
        seen(t.apply(ActionModel::Execute(byte))).cursor_col == seen(t).cursor_col,
        went_down(t, t.apply(ActionModel::Esc { byte: 0x44 }), col, row),
        seen(t.apply(ActionModel::Esc { byte: 0x44 })).cursor_col == seen(t).cursor_col,
        went_down(t, t.apply(ActionModel::Esc { byte: 0x45 }), col, row),
        seen(t.apply(ActionModel::Esc { byte: 0x45 })).cursor_col == 0,
{
    lemma_scrolled(t, 1, col, row);
}

/// `ESC M` goes one row up in the same column. At the start of the scroll region
/// its rows move down instead.
pub proof fn law_reverse_index_goes_up(t: TerminalModel, col: int, row: int)
    requires
        t.wf(),
        on_grid(t, col, row),
    ensures
        ({
            let at = seen(t).cursor_row;
            let after = t.apply(ActionModel::Esc { byte: 0x4D });
            &&& rest_kept(t, after)
            &&& !after.pending_wrap
            &&& seen(after).cursor_col == seen(t).cursor_col
            &&& seen(after).cursor_row == if at > t.scroll_top {
                at - 1
            } else {
                at as int
            }
            &&& at > t.scroll_top ==> seen(after).cells == seen(t).cells
            &&& at <= t.scroll_top ==> scrolled_down(t, after, 1, col, row)
        }),
{
    lemma_scrolled(t, 1, col, row);
}

/// Whether exactly the places for which `gone` holds became blank in the colors
/// in use, as far as one place tells.
pub open spec fn erased_where(
    t: TerminalModel,
    after: TerminalModel,
    col: int,
    row: int,
    gone: bool,
) -> bool {
    &&& cursor_kept(t, after)
    &&& cell_of(after, col, row) == if gone {
        inked(t, ' ')
    } else {
        cell_of(t, col, row)
    }
}

/// Whether the first parameter is `mode`; a missing one is zero.
pub open spec fn says_mode(params: Seq<Seq<u16>>, mode: u16) -> bool {
    if is_missing(params, 0) {
        mode == 0
    } else {
        params[0][0] == mode
    }
}

/// `CSI J` erases from the cursor to the end of the grid, `CSI 1 J` from its
/// start to the cursor, both with the cursor's place, and `CSI 2 J` and
/// `CSI 3 J` all of it. Another number erases nothing.
pub proof fn law_erasing_the_display(
    t: TerminalModel,
    params: Seq<Seq<u16>>,
    mode: u16,
    col: int,
    row: int,
)
    requires
        t.wf(),
        says_mode(params, mode),
        on_grid(t, col, row),
    ensures
        ({
            let at_col = seen(t).cursor_col;
            let at_row = seen(t).cursor_row;
            let after = t.apply(plain(params, 'J'));
            &&& mode == 0 ==> erased_where(
                t,
                after,
                col,
                row,
                row > at_row || (row == at_row && col >= at_col),
            )
            &&& mode == 1 ==> erased_where(
                t,
                after,
                col,
                row,
                row < at_row || (row == at_row && col <= at_col),
            )
            &&& mode == 2 || mode == 3 ==> erased_where(t, after, col, row, true)
            &&& mode > 3 ==> after == t
        }),
{
    reveal(TerminalModel::plain_csi);
    let cols = t.cols as int;
    let s = seen(t);
    lemma_place(cols, t.rows as int, col, row);
    lemma_place(cols, t.rows as int, s.cursor_col as int, s.cursor_row as int);
    lemma_before_row(cols, col, row, s.cursor_row as int);
    lemma_before_row(cols, s.cursor_col as int, s.cursor_row as int, row);
    lemma_places_differ(cols, col, row, s.cursor_col as int, s.cursor_row as int);
    if row < s.cursor_row {
        assert(row * cols + col < s.cursor_row * cols + s.cursor_col);
    } else if row > s.cursor_row {
        assert(s.cursor_row * cols + s.cursor_col < row * cols + col);
    }
}

/// `CSI K` erases the cursor's row from the cursor on, `CSI 1 K` up to the
/// cursor, both with the cursor's place, and `CSI 2 K` all of it. Another number
/// erases nothing.
pub proof fn law_erasing_a_line(
    t: TerminalModel,
    params: Seq<Seq<u16>>,
    mode: u16,
    col: int,
    row: int,
)
    requires
        t.wf(),
        says_mode(params, mode),
        on_grid(t, col, row),
    ensures
        ({
            let at_col = seen(t).cursor_col;
            let at_row = seen(t).cursor_row;
            let after = t.apply(plain(params, 'K'));
            &&& mode == 0 ==> erased_where(t, after, col, row, row == at_row && col >= at_col)
            &&& mode == 1 ==> erased_where(t, after, col, row, row == at_row && col <= at_col)
            &&& mode == 2 ==> erased_where(t, after, col, row, row == at_row)
            &&& mode > 2 ==> after == t
        }),
{
    reveal(TerminalModel::plain_csi);
    let cols = t.cols as int;
    let s = seen(t);
    let at = s.cursor_row as int;
    lemma_place(cols, t.rows as int, col, row);
    lemma_place(cols, t.rows as int, s.cursor_col as int, at);
    lemma_before_row(cols, col, row, at);
    lemma_before_row(cols, col, row, at + 1);
    assert((at + 1) * cols == at * cols + cols) by (nonlinear_arith);
}

/// `CSI ... m` changes the colors and attributes of what is drawn next, and
/// nothing that was drawn.
pub proof fn law_pen_changes_alone(t: TerminalModel, params: Seq<Seq<u16>>)
    ensures
        t.apply(plain(params, 'm')) == (TerminalModel {
            pen: sgr(t.pen, params.flatten()),
            ..t
        }),
{
    reveal(TerminalModel::plain_csi);
}

/// `CSI n ; m r` confines scrolling to the rows `n` to `m`, counted from one.
/// What is outside the grid is its last row, and a missing `m` too. A region
/// that would end before it starts is the whole grid. The cursor goes to the
/// upper left corner and no cell changes.
pub proof fn law_scroll_region_is_set(
    t: TerminalModel,
    params: Seq<Seq<u16>>,
    n: int,
    m: int,
)
    requires
        t.wf(),
        says_times(params, 0, n),
        m == if is_missing(params, 1) {
            t.rows as int
        } else {
            params[1][0] as int
        },
    ensures
        ({
            let after = t.apply(plain(params, 'r'));
            let top = if n <= t.rows {
                n - 1
            } else {
                t.rows - 1
            };
            let bot = if m == 0 {
                0
            } else if m <= t.rows {
                m - 1
            } else {
                t.rows - 1
            };
            &&& top <= bot ==> after.scroll_top == top && after.scroll_bot == bot
            &&& top > bot ==> after.scroll_top == 0 && after.scroll_bot == t.rows - 1
            &&& moved(
                t,
                TerminalModel { scroll_top: t.scroll_top, scroll_bot: t.scroll_bot, ..after },
                0,
                0,
            )
        }),
{
    reveal(TerminalModel::plain_csi);
}

/// `ESC 7` and `CSI s` remember the cursor's place and change nothing else.
/// `ESC 8` and `CSI u` put the cursor where it was remembered, or as near as
/// the grid allows.
pub proof fn law_cursor_is_remembered(t: TerminalModel, params: Seq<Seq<u16>>)
    requires
        t.wf(),
    ensures
        ({
            let saved = t.apply(ActionModel::Esc { byte: 0x37 });
            let place = (seen(t).cursor_col, seen(t).cursor_row);
            let back = t.apply(ActionModel::Esc { byte: 0x38 });
            &&& seen(saved) == (ScreenModel { saved_cursor: Some(place), ..seen(t) })
            &&& unseen(saved) == unseen(t)
            &&& saved == (TerminalModel { primary: saved.primary, alt: saved.alt, ..t })
            &&& t.apply(plain(params, 's')) == saved
            &&& seen(t).saved_cursor matches Some((c, r)) ==> moved(
                t,
                back,
                if c < t.cols {
                    c as int
                } else {
                    t.cols - 1
                },
                if r < t.rows {
                    r as int
                } else {
                    t.rows - 1
                },
            )
            &&& seen(t).saved_cursor is None ==> back == t
            &&& t.apply(plain(params, 'u')) == back
        }),
{
    reveal(TerminalModel::plain_csi);
}

/// Control sequences with another final character do nothing.
pub proof fn law_other_sequences_do_nothing(
    t: TerminalModel,
    params: Seq<Seq<u16>>,
    action: char,
)
    requires
        action != 'A' && action != 'B' && action != 'C' && action != 'D' && action != 'E',
        action != 'F' && action != 'G' && action != 'H' && action != 'J' && action != 'K',
        action != 'S' && action != 'T' && action != 'a' && action != 'd' && action != 'e',
        action != 'f' && action != 'm' && action != 'r' && action != 's' && action != 'u',
        action != '`',
    ensures
        t.apply(plain(params, action)) == t,
{
    reveal(TerminalModel::plain_csi);
}

/// Escape sequences with another final byte do nothing.
pub proof fn law_other_escapes_do_nothing(t: TerminalModel, byte: u8)
    requires
        byte != 0x37 && byte != 0x38 && byte != 0x44 && byte != 0x45 && byte != 0x4D && byte
            != 0x63,
    ensures
        t.apply(ActionModel::Esc { byte }) == t,
{
}

/// `CSI ? ... h` or, if not `on`, `CSI ? ... l`.
pub open spec fn private(params: Seq<Seq<u16>>, on: bool) -> ActionModel {
    ActionModel::Csi {
        params,
        intermediates: seq![0x3F],
        action: if on {
            'h'
        } else {
            'l'
        },
    }
}

/// Mode 7 switches wrapping, 25 the cursor, 2004 bracketed paste, and nothing
/// but that. Modes that are not known change nothing.
pub proof fn law_private_modes_switch_one_thing(
    t: TerminalModel,
    param: Seq<u16>,
    mode: u16,
    on: bool,
)
    requires
        is_mode(param, mode),
    ensures
        ({
            let after = t.apply(private(seq![param], on));
            &&& mode == 7 ==> after == (TerminalModel { autowrap: on, ..t })
            &&& mode == 25 ==> after == (TerminalModel { cursor_visible: on, ..t })
            &&& mode == 2004 ==> after == (TerminalModel { bracketed_paste: on, ..t })
            &&& mode != 7 && mode != 25 && mode != 2004 && mode != 47 && mode != 1047 && mode
                != 1049 ==> after == t
        }),
{
    lemma_one_private_mode(t, param, mode, on);
}

/// Whether a parameter, of which only the first number counts, is a mode; one
/// without a number is mode zero.
pub open spec fn is_mode(param: Seq<u16>, mode: u16) -> bool {
    mode == if param.len() == 0 {
        0
    } else {
        param[0]
    }
}

proof fn lemma_one_private_mode(t: TerminalModel, param: Seq<u16>, mode: u16, on: bool)
    requires
        is_mode(param, mode),
    ensures
        t.apply(private(seq![param], on)) == t.private_mode(mode, on),
{
    let params = seq![param];
    assert(params.drop_last() =~= Seq::<Seq<u16>>::empty());
    reveal_with_fuel(TerminalModel::private_modes, 2);
    assert(value_or(params, 0, 0) == mode);
}

/// Modes 47, 1047 and 1049 show the alternate screen or the primary one. The
/// alternate one is blank whenever it comes up, in the colors in use, with the
/// cursor in its corner and none remembered; the primary one is as it was left.
/// Asking for the screen that is shown changes nothing.
pub proof fn law_screens_are_switched(
    t: TerminalModel,
    param: Seq<u16>,
    mode: u16,
    on: bool,
    i: int,
)
    requires
        is_mode(param, mode),
        mode == 47 || mode == 1047 || mode == 1049,
    ensures
        ({
            let after = t.apply(private(seq![param], on));
            &&& t.on_alt == on ==> after == t
            &&& t.on_alt != on ==> after == (TerminalModel {
                on_alt: on,
                pending_wrap: false,
                alt: after.alt,
                ..t
            })
            &&& t.on_alt && !on ==> after.alt == t.alt
            &&& !t.on_alt && on ==> after.alt.cursor_col == 0 && after.alt.cursor_row == 0
                && after.alt.saved_cursor is None && after.alt.cells.len() == t.alt.cells.len()
            &&& !t.on_alt && on && 0 <= i < t.alt.cells.len() ==> after.alt.cells[i] == inked(
                t,
                ' ',
            )
        }),
{
    lemma_one_private_mode(t, param, mode, on);
}

/// A list of modes is switched one by one, from the first to the last.
pub proof fn law_modes_are_switched_in_order(
    t: TerminalModel,
    first: Seq<Seq<u16>>,
    then: Seq<Seq<u16>>,
    on: bool,
)
    ensures
        t.apply(private(first + then, on)) == t.apply(private(first, on)).apply(private(then, on)),
        t.apply(private(Seq::empty(), on)) == t,
    decreases then.len(),
{
    if then.len() == 0 {
        assert(first + then =~= first);
    } else {
        law_modes_are_switched_in_order(t, first, then.drop_last(), on);
        let all = first + then;
        assert(all.drop_last() =~= first + then.drop_last());
        assert(value_or(all, all.len() - 1, 0) == value_or(then, then.len() - 1, 0)) by {
            assert(all[all.len() - 1] == then[then.len() - 1]);
        }
    }
}

/// A sequence with intermediate bytes does nothing unless the first one is `?`
/// and the final character `h` or `l`. What stands behind the `?` does not count.
pub proof fn law_other_marks_do_nothing(
    t: TerminalModel,
    params: Seq<Seq<u16>>,
    intermediates: Seq<u8>,
    action: char,
)
    requires
        intermediates.len() > 0,
    ensures
        intermediates[0] != 0x3F || (action != 'h' && action != 'l') ==> t.apply(
            ActionModel::Csi { params, intermediates, action },
        ) == t,
        intermediates[0] == 0x3F && (action == 'h' || action == 'l') ==> t.apply(
            ActionModel::Csi { params, intermediates, action },
        ) == t.apply(private(params, action == 'h')),
{
}

/// A character is drawn where the cursor stands, in the colors in use, and no
/// other cell changes. The cursor goes on by one column; in the last one it
/// stays, and a wrap is due if wrapping is on.
pub proof fn law_character_is_drawn_at_the_cursor(
    t: TerminalModel,
    ch: char,
    col: int,
    row: int,
)
    requires
        t.wf(),
        !t.pending_wrap || !t.autowrap,
        on_grid(t, col, row),
    ensures
        ({
            let after = t.apply(ActionModel::Print(ch));
            let at = seen(t).cursor_col;
            &&& rest_kept(t, after)
            &&& cell_of(after, col, row) == if col == at && row == seen(t).cursor_row {
                inked(t, ch)
            } else {
                cell_of(t, col, row)
            }
            &&& seen(after).cursor_row == seen(t).cursor_row
            &&& at < t.cols - 1 ==> seen(after).cursor_col == at + 1 && !after.pending_wrap
            &&& at == t.cols - 1 ==> seen(after).cursor_col == at && after.pending_wrap
                == t.autowrap
        }),
{
    let s = seen(t);
    lemma_place(t.cols as int, t.rows as int, col, row);
    lemma_place(t.cols as int, t.rows as int, s.cursor_col as int, s.cursor_row as int);
    lemma_places_differ(t.cols as int, col, row, s.cursor_col as int, s.cursor_row as int);
}

/// Where a wrap is due, a character is drawn as if a carriage return and a line
/// feed came before it.
pub proof fn law_wrapping_is_a_new_line(t: TerminalModel, ch: char)
    requires
        t.pending_wrap,
        t.autowrap,
    ensures
        t.apply(ActionModel::Print(ch)) == t.apply(ActionModel::Execute(0x0D)).apply(
            ActionModel::Execute(0x0A),
        ).apply(ActionModel::Print(ch)),
{
}

/// `ESC c` brings back a blank primary screen in the colors a terminal starts
/// with, the cursors in their corners, and the modes but bracketed paste.
pub proof fn law_reset_starts_over(t: TerminalModel, i: int)
    requires
        t.wf(),
        0 <= i < t.cols * t.rows,
    ensures
        ({
            let after = t.apply(ActionModel::Esc { byte: 0x63 });
            let blank = DashboardCell {
                ch: ' ',
                fg: 0xE0E0_E0FF,
                bg: 0x1018_20FF,
                attrs: CellAttrs { bold: false, underline: false, reverse: false },
            };
            &&& after.wf()
            &&& after.cols == t.cols && after.rows == t.rows
            &&& after.primary.cells[i] == blank && after.alt.cells[i] == blank
            &&& after.primary.cursor_col == 0 && after.primary.cursor_row == 0
            &&& after.alt.cursor_col == 0 && after.alt.cursor_row == 0
            &&& after.primary.saved_cursor == t.primary.saved_cursor
            &&& after.alt.saved_cursor == t.alt.saved_cursor
            &&& inked(after, ' ') == blank
            &&& !after.on_alt && after.cursor_visible && after.autowrap && !after.pending_wrap
            &&& after.bracketed_paste == t.bracketed_paste
            &&& after.scroll_top == 0 && after.scroll_bot == t.rows - 1
        }),
{
}

/// A terminal starts with blank screens in the default colors, the cursor
/// visible in the upper left corner of the primary one, wrapping on, bracketed
/// paste off, and the whole grid as scroll region.
pub proof fn law_terminal_starts_blank(cols: u16, rows: u16, i: int)
    requires
        1 <= cols,
        1 <= rows,
        0 <= i < cols * rows,
    ensures
        ({
            let t = TerminalModel::fresh(cols, rows);
            let blank = DashboardCell {
                ch: ' ',
                fg: 0xE0E0_E0FF,
                bg: 0x1018_20FF,
                attrs: CellAttrs { bold: false, underline: false, reverse: false },
            };
            &&& t.wf()
            &&& t.cols == cols && t.rows == rows
            &&& t.primary.cells[i] == blank && t.alt.cells[i] == blank
            &&& t.primary.cursor_col == 0 && t.primary.cursor_row == 0
            &&& t.alt.cursor_col == 0 && t.alt.cursor_row == 0
            &&& t.primary.saved_cursor is None && t.alt.saved_cursor is None
            &&& t.pen.fg == DEFAULT_FG && t.pen.bg == DEFAULT_BG && inked(t, ' ') == blank
            &&& !t.on_alt && t.cursor_visible && t.autowrap && !t.pending_wrap
            &&& !t.bracketed_paste
            &&& t.scroll_top == 0 && t.scroll_bot == rows - 1
        }),
{
}

/// No actions change nothing, and one action does what it does alone.
pub proof fn law_actions_add_up(t: TerminalModel, action: ActionModel)
    ensures
        t.apply_all(Seq::empty()) == t,
        t.apply_all(seq![action]) == t.apply(action),
{
    let one = seq![action];
    assert(one.drop_last() =~= Seq::<ActionModel>::empty());
    reveal_with_fuel(TerminalModel::apply_all, 2);
}

/// Whether a screen kept what fits in a new size, as far as a column and row
/// tell: cells inside both sizes stay at their column and row, others are blank
/// in the colors in use, and the cursor stays or goes to the nearest edge.
pub open spec fn refitted(
    t: TerminalModel,
    old: ScreenModel,
    new: ScreenModel,
    cols: u16,
    rows: u16,
    col: int,
    row: int,
) -> bool {
    &&& new.cells.len() == cols * rows
    &&& new.cells[row * cols + col] == if col < t.cols && row < t.rows {
        old.cells[row * t.cols + col]
    } else {
        inked(t, ' ')
    }
    &&& new.cursor_col == if old.cursor_col < cols {
        old.cursor_col as int
    } else {
        cols - 1
    }
    &&& new.cursor_row == if old.cursor_row < rows {
        old.cursor_row as int
    } else {
        rows - 1
    }
    &&& new.saved_cursor == old.saved_cursor
}

/// A new size refits both screens, makes the whole grid the scroll region, and
/// keeps colors and modes.
pub proof fn law_resizing_refits_both_screens(
    t: TerminalModel,
    cols: u16,
    rows: u16,
    col: int,
    row: int,
)
    requires
        t.wf(),
        0 <= col < cols,
        0 <= row < rows,
    ensures
        ({
            let after = t.resize(cols, rows);
            &&& after == (TerminalModel {
                cols,
                rows,
                scroll_top: 0,
                scroll_bot: (rows - 1) as u16,
                pending_wrap: false,
                primary: after.primary,
                alt: after.alt,
                ..t
            })
            &&& refitted(t, t.primary, after.primary, cols, rows, col, row)
            &&& refitted(t, t.alt, after.alt, cols, rows, col, row)
        }),
{
    let width = cols as int;
    lemma_place(width, rows as int, col, row);
    assert((row * width + col) % width == col && (row * width + col) / width == row)
        by (nonlinear_arith)
        requires
            0 <= col < width,
            0 <= row,
    ;
}

/// A frame shows the cursor where it is, or not at all.
pub proof fn law_cursor_is_shown_where_it_is(t: TerminalModel)
    ensures
        t.cursor_visible ==> t.shown_cursor() == Some(
            (seen(t).cursor_col, seen(t).cursor_row),
        ),
        !t.cursor_visible ==> t.shown_cursor() is None,
        t.screen() == seen(t),
{
}

/// The text of the primary screen is what its rows show, from the first to the
/// last that shows anything, whether it is in use or not. What a line leaves out
/// at its end is white space, and so is every row that is left out.
pub proof fn law_text_is_what_the_rows_show(t: TerminalModel, col: int, row: int)
    requires
        t.wf(),
        on_grid(t, col, row),
    ensures
        ({
            let text = t.primary_text();
            let ch = t.primary.cells[row * t.cols + col].ch;
            &&& text.len() <= t.rows
            &&& text.len() > 0 ==> text.last().len() > 0
            &&& row < text.len() ==> text[row].len() <= t.cols
            &&& row < text.len() && text[row].len() > 0 ==> !is_space(text[row].last())
            &&& row < text.len() && col < text[row].len() ==> text[row][col] == ch
            &&& row < text.len() && col >= text[row].len() ==> is_space(ch)
            &&& row >= text.len() ==> is_space(ch)
        }),
{
    let all = Seq::new(t.rows as nat, |r: int| trimmed_end(t.primary_row(r)));
    let line = t.primary_row(row);
    lemma_without_empty_end(all);
    law_trimmed_end_is_a_beginning(line, col);
    if row >= t.primary_text().len() {
        lemma_left_out_is_empty(all, row);
    }
}

proof fn lemma_left_out_is_empty(lines: Seq<Seq<char>>, i: int)
    requires
        without_empty_end(lines).len() <= i < lines.len(),
    ensures
        lines[i].len() == 0,
    decreases lines.len(),
{
    if i < lines.len() - 1 {
        lemma_left_out_is_empty(lines.drop_last(), i);
    }
}

/// Blanking the primary screen makes it as it was at the start. The alternate
/// one, the colors and the modes stay, and so does a wrap that is due there.
pub proof fn law_blanking_the_primary_screen(t: TerminalModel, i: int)
    requires
        t.wf(),
        0 <= i < t.cols * t.rows,
    ensures
        ({
            let after = t.reset_primary();
            &&& after == (TerminalModel {
                primary: after.primary,
                pending_wrap: t.on_alt && t.pending_wrap,
                ..t
            })
            &&& after.primary.cursor_col == 0 && after.primary.cursor_row == 0
            &&& after.primary.saved_cursor is None
            &&& after.primary.cells.len() == t.cols * t.rows
            &&& after.primary.cells[i] == (DashboardCell {
                ch: ' ',
                fg: 0xE0E0_E0FF,
                bg: 0x1018_20FF,
                attrs: CellAttrs { bold: false, underline: false, reverse: false },
            })
        }),
{
}

/// A place of a frame on which nothing was drawn is a space, white on
/// transparent.
pub proof fn law_unpainted_places()
    ensures
        unpainted_cell() == (DashboardCell {
            ch: ' ',
            fg: 0xFFFF_FFFF,
            bg: 0,
            attrs: CellAttrs { bold: false, underline: false, reverse: false },
        }),
{
}

} // verus!
