//! What a terminal does, as mathematics: a grid of cells with a cursor, and
//! what each action makes of it. The emulator's contracts are stated over
//! this model.
use vstd::prelude::*;

use crate::dashboard::{plain_attrs, CellAttrs, DashboardCell};
use crate::parser::ActionModel;
use crate::sgr::sgr;
use crate::text::trimmed_end;

verus! {

/// The foreground a terminal starts with.
pub const DEFAULT_FG: u32 = 0xE0E0_E0FF;

/// The background a terminal starts with.
pub const DEFAULT_BG: u32 = 0x1018_20FF;

/// The colors and attributes new text gets.
#[derive(Debug, Clone, Copy, PartialEq, Eq, Structural)]
pub struct Pen {
    pub fg: u32,
    pub bg: u32,
    pub attrs: CellAttrs,
}

/// The pen a terminal starts with.
pub open spec fn default_pen() -> Pen {
    Pen { fg: DEFAULT_FG, bg: DEFAULT_BG, attrs: plain_attrs() }
}

/// One of the two screens of a terminal.
#[verifier::ext_equal]
pub struct ScreenModel {
    /// The cells, row by row.
    pub cells: Seq<DashboardCell>,
    pub cursor_col: u16,
    pub cursor_row: u16,
    pub saved_cursor: Option<(u16, u16)>,
}

/// A terminal.
#[verifier::ext_equal]
pub struct TerminalModel {
    pub cols: u16,
    pub rows: u16,
    pub primary: ScreenModel,
    pub alt: ScreenModel,
    /// Whether the alternate screen is the one in use.
    pub on_alt: bool,
    pub pen: Pen,
    pub cursor_visible: bool,
    pub autowrap: bool,
    /// Whether the last character filled the last column, so that the next one
    /// goes to the next line.
    pub pending_wrap: bool,
    pub bracketed_paste: bool,
    /// The first and the last row that scroll.
    pub scroll_top: u16,
    pub scroll_bot: u16,
}

/// `cells` with everything from `from` up to but not including `to` replaced.
pub open spec fn filled(
    cells: Seq<DashboardCell>,
    from: int,
    to: int,
    cell: DashboardCell,
) -> Seq<DashboardCell> {
    Seq::new(
        cells.len(),
        |i: int|
            if from <= i < to {
                cell
            } else {
                cells[i]
            },
    )
}

/// `cells` with the part from `lo` up to `hi` moved towards the front by
/// `shift`; what becomes free is blanked.
pub open spec fn shifted_up(
    cells: Seq<DashboardCell>,
    lo: int,
    hi: int,
    shift: int,
    blank: DashboardCell,
) -> Seq<DashboardCell> {
    Seq::new(
        cells.len(),
        |i: int|
            if lo <= i < hi {
                if i + shift < hi {
                    cells[i + shift]
                } else {
                    blank
                }
            } else {
                cells[i]
            },
    )
}

/// `cells` with the part from `lo` up to `hi` moved towards the end by
/// `shift`; what becomes free is blanked.
pub open spec fn shifted_down(
    cells: Seq<DashboardCell>,
    lo: int,
    hi: int,
    shift: int,
    blank: DashboardCell,
) -> Seq<DashboardCell> {
    Seq::new(
        cells.len(),
        |i: int|
            if lo <= i < hi {
                if lo <= i - shift {
                    cells[i - shift]
                } else {
                    blank
                }
            } else {
                cells[i]
            },
    )
}

/// A grid cut or grown to a new size: a cell that is inside both sizes stays
/// at its column and row, every other cell is blank.
pub open spec fn regridded(
    cells: Seq<DashboardCell>,
    cols: u16,
    rows: u16,
    new_cols: u16,
    new_rows: u16,
    blank: DashboardCell,
) -> Seq<DashboardCell> {
    Seq::new(
        (new_cols * new_rows) as nat,
        |i: int|
            {
                let col = i % (new_cols as int);
                let row = i / (new_cols as int);
                if col < cols && row < rows {
                    cells[row * cols + col]
                } else {
                    blank
                }
            },
    )
}

/// The smaller of two numbers.
pub open spec fn least(a: int, b: int) -> int {
    if a < b {
        a
    } else {
        b
    }
}

/// `x`, moved into the range from zero to `top`.
pub open spec fn clamped(x: int, top: int) -> int {
    if x < 0 {
        0
    } else if x > top {
        top
    } else {
        x
    }
}

impl ScreenModel {
    /// A blank screen with the cursor in its upper left corner.
    pub open spec fn blank(cols: u16, rows: u16) -> ScreenModel {
        ScreenModel {
            cells: Seq::new((cols * rows) as nat, |i: int| default_pen().cell(' ')),
            cursor_col: 0,
            cursor_row: 0,
            saved_cursor: None,
        }
    }

    /// Whether the screen fits a grid of that size.
    pub open spec fn wf(self, cols: u16, rows: u16) -> bool {
        &&& self.cells.len() == cols * rows
        &&& self.cursor_col < cols
        &&& self.cursor_row < rows
    }

    /// The screen with its cursor elsewhere.
    pub open spec fn cursor_at(self, col: int, row: int) -> ScreenModel {
        ScreenModel { cursor_col: col as u16, cursor_row: row as u16, ..self }
    }

    /// The screen after a change of the grid's size.
    pub open spec fn resized(
        self,
        cols: u16,
        rows: u16,
        new_cols: u16,
        new_rows: u16,
        blank: DashboardCell,
    ) -> ScreenModel {
        ScreenModel {
            cells: regridded(self.cells, cols, rows, new_cols, new_rows, blank),
            ..self
        }.cursor_at(
            least(self.cursor_col as int, new_cols - 1),
            least(self.cursor_row as int, new_rows - 1),
        )
    }
}

impl Pen {
    /// A cell this pen draws.
    pub open spec fn cell(self, ch: char) -> DashboardCell {
        DashboardCell { ch, fg: self.fg, bg: self.bg, attrs: self.attrs }
    }
}

impl TerminalModel {
    /// A terminal just switched on.
    pub open spec fn fresh(cols: u16, rows: u16) -> TerminalModel {
        TerminalModel {
            cols,
            rows,
            primary: ScreenModel::blank(cols, rows),
            alt: ScreenModel::blank(cols, rows),
            on_alt: false,
            pen: default_pen(),
            cursor_visible: true,
            autowrap: true,
            pending_wrap: false,
            bracketed_paste: false,
            scroll_top: 0,
            scroll_bot: (rows - 1) as u16,
        }
    }

    /// Whether the grid is exactly as large as it says, on both screens, with
    /// the cursors and the scroll region inside it.
    pub open spec fn wf(self) -> bool {
        &&& 1 <= self.cols
        &&& 1 <= self.rows
        &&& self.primary.wf(self.cols, self.rows)
        &&& self.alt.wf(self.cols, self.rows)
        &&& self.scroll_top <= self.scroll_bot < self.rows
    }

    /// The screen in use.
    pub open spec fn screen(self) -> ScreenModel {
        if self.on_alt {
            self.alt
        } else {
            self.primary
        }
    }

    /// The terminal with the screen in use replaced.
    pub open spec fn with_screen(self, screen: ScreenModel) -> TerminalModel {
        if self.on_alt {
            TerminalModel { alt: screen, ..self }
        } else {
            TerminalModel { primary: screen, ..self }
        }
    }

    /// The terminal with the cells of the screen in use replaced.
    pub open spec fn with_cells(self, cells: Seq<DashboardCell>) -> TerminalModel {
        self.with_screen(ScreenModel { cells, ..self.screen() })
    }

    /// The terminal with the cursor elsewhere. A wrap that was due is not any
    /// more.
    pub open spec fn with_cursor(self, col: int, row: int) -> TerminalModel {
        TerminalModel {
            pending_wrap: false,
            ..self.with_screen(self.screen().cursor_at(col, row))
        }
    }

    /// Where row `row` begins in the list of cells.
    pub open spec fn row_start(self, row: int) -> int {
        row * self.cols
    }

    /// Where the cursor stands in the list of cells.
    pub open spec fn cursor_place(self) -> int {
        self.row_start(self.screen().cursor_row as int) + self.screen().cursor_col
    }

    /// The cell of the screen in use at a column and row.
    pub open spec fn cell_at(self, col: int, row: int) -> DashboardCell {
        self.screen().cells[self.row_start(row) + col]
    }

    /// What erased cells become: a space in the present colors.
    pub open spec fn blank(self) -> DashboardCell {
        self.pen.cell(' ')
    }

    pub open spec fn carriage_return(self) -> TerminalModel {
        self.with_cursor(0, self.screen().cursor_row as int)
    }

    /// Moves the scroll region up by `n` rows.
    pub open spec fn scroll_up(self, n: int) -> TerminalModel {
        if self.scroll_top < self.scroll_bot {
            self.with_cells(
                shifted_up(
                    self.screen().cells,
                    self.row_start(self.scroll_top as int),
                    self.row_start(self.scroll_bot + 1),
                    self.row_start(n),
                    self.blank(),
                ),
            )
        } else {
            self
        }
    }

    /// Moves the scroll region down by `n` rows.
    pub open spec fn scroll_down(self, n: int) -> TerminalModel {
        if self.scroll_top < self.scroll_bot {
            self.with_cells(
                shifted_down(
                    self.screen().cells,
                    self.row_start(self.scroll_top as int),
                    self.row_start(self.scroll_bot + 1),
                    self.row_start(n),
                    self.blank(),
                ),
            )
        } else {
            self
        }
    }

    /// One row down; at the end of the scroll region the region moves up
    /// instead.
    pub open spec fn linefeed(self) -> TerminalModel {
        let s = self.screen();
        if s.cursor_row >= self.scroll_bot {
            TerminalModel { pending_wrap: false, ..self.scroll_up(1) }
        } else {
            self.with_cursor(s.cursor_col as int, s.cursor_row + 1)
        }
    }

    /// One row up; at the start of the scroll region the region moves down
    /// instead.
    pub open spec fn reverse_index(self) -> TerminalModel {
        let s = self.screen();
        if s.cursor_row <= self.scroll_top {
            TerminalModel { pending_wrap: false, ..self.scroll_down(1) }
        } else {
            self.with_cursor(s.cursor_col as int, s.cursor_row - 1)
        }
    }

    /// One column back, but not over the left edge.
    pub open spec fn backspace(self) -> TerminalModel {
        let s = self.screen();
        self.with_cursor(clamped(s.cursor_col - 1, self.cols - 1), s.cursor_row as int)
    }

    /// To the next column that is a multiple of eight, or to the last one.
    pub open spec fn tab(self) -> TerminalModel {
        let s = self.screen();
        self.with_cursor(
            least((s.cursor_col as int / 8 + 1) * 8, self.cols - 1),
            s.cursor_row as int,
        )
    }

    /// To a column and row, or as near to them as the grid allows.
    pub open spec fn move_to(self, col: int, row: int) -> TerminalModel {
        self.with_cursor(least(col, self.cols - 1), least(row, self.rows - 1))
    }

    /// By a number of columns and rows, but not out of the grid.
    pub open spec fn move_by(self, dcol: int, drow: int) -> TerminalModel {
        let s = self.screen();
        self.with_cursor(
            clamped(s.cursor_col + dcol, self.cols - 1),
            clamped(s.cursor_row + drow, self.rows - 1),
        )
    }

    /// The wrap that is due before the next character, if one is.
    pub open spec fn wrapped(self) -> TerminalModel {
        if self.pending_wrap && self.autowrap {
            self.carriage_return().linefeed()
        } else {
            self
        }
    }

    /// Draws a character at the cursor and moves the cursor on. In the last
    /// column the cursor stays, and the next character wraps.
    pub open spec fn put_char(self, ch: char) -> TerminalModel {
        let t = self.wrapped();
        let s = t.screen();
        let drawn = t.with_cells(s.cells.update(t.cursor_place(), t.pen.cell(ch)));
        if s.cursor_col + 1 >= t.cols {
            TerminalModel { pending_wrap: t.autowrap, ..drawn }
        } else {
            drawn.with_cursor(s.cursor_col + 1, s.cursor_row as int)
        }
    }

    /// Blanks the cells from `from` up to but not including `to`.
    pub open spec fn erase(self, from: int, to: int) -> TerminalModel {
        self.with_cells(filled(self.screen().cells, from, to, self.blank()))
    }

    /// Erases the cursor's row: from the cursor on (0), up to and with the
    /// cursor (1), or all of it (2).
    pub open spec fn erase_in_line(self, mode: u16) -> TerminalModel {
        let start = self.row_start(self.screen().cursor_row as int);
        if mode == 0 {
            self.erase(self.cursor_place(), start + self.cols)
        } else if mode == 1 {
            self.erase(start, self.cursor_place() + 1)
        } else if mode == 2 {
            self.erase(start, start + self.cols)
        } else {
            self
        }
    }

    /// Erases the screen: from the cursor on (0), up to and with the cursor
    /// (1), or all of it (2 and 3).
    pub open spec fn erase_in_display(self, mode: u16) -> TerminalModel {
        let end = self.screen().cells.len() as int;
        if mode == 0 {
            self.erase(self.cursor_place(), end)
        } else if mode == 1 {
            self.erase(0, self.cursor_place() + 1)
        } else if mode == 2 || mode == 3 {
            self.erase(0, end)
        } else {
            self
        }
    }

    pub open spec fn save_cursor(self) -> TerminalModel {
        let s = self.screen();
        self.with_screen(
            ScreenModel { saved_cursor: Some((s.cursor_col, s.cursor_row)), ..s },
        )
    }

    /// Back to where the cursor was saved, if it was.
    pub open spec fn restore_cursor(self) -> TerminalModel {
        match self.screen().saved_cursor {
            Some((col, row)) => self.move_to(col as int, row as int),
            None => self,
        }
    }

    /// Goes to the alternate screen, which is blank then, or back to the
    /// primary one, which is as it was left.
    pub open spec fn switch_screen(self, alt: bool) -> TerminalModel {
        if self.on_alt == alt {
            self
        } else if alt {
            TerminalModel {
                on_alt: true,
                pending_wrap: false,
                alt: ScreenModel {
                    cells: filled(self.alt.cells, 0, self.alt.cells.len() as int, self.blank()),
                    cursor_col: 0,
                    cursor_row: 0,
                    saved_cursor: None,
                },
                ..self
            }
        } else {
            TerminalModel { on_alt: false, pending_wrap: false, ..self }
        }
    }

    /// Confines scrolling to the rows `top` to `bot`, counted from one, and
    /// homes the cursor. A region that ends before it starts is the whole
    /// grid.
    pub open spec fn set_scroll_region(self, top: int, bot: int) -> TerminalModel {
        let last = self.rows - 1;
        let t = least(clamped(top - 1, 0xFFFF), last);
        let b = least(clamped(bot - 1, 0xFFFF), last);
        let region = if t > b {
            TerminalModel { scroll_top: 0, scroll_bot: last as u16, ..self }
        } else {
            TerminalModel { scroll_top: t as u16, scroll_bot: b as u16, ..self }
        };
        region.move_to(0, 0)
    }

    /// Back to the state after power-on, but for the saved cursors and
    /// bracketed paste.
    pub open spec fn full_reset(self) -> TerminalModel {
        let blank = default_pen().cell(' ');
        TerminalModel {
            pen: default_pen(),
            scroll_top: 0,
            scroll_bot: (self.rows - 1) as u16,
            primary: ScreenModel {
                cells: filled(self.primary.cells, 0, self.primary.cells.len() as int, blank),
                ..self.primary.cursor_at(0, 0)
            },
            alt: ScreenModel {
                cells: filled(self.alt.cells, 0, self.alt.cells.len() as int, blank),
                ..self.alt.cursor_at(0, 0)
            },
            on_alt: false,
            cursor_visible: true,
            autowrap: true,
            pending_wrap: false,
            ..self
        }
    }

    /// Blanks the primary screen and homes its cursor. A wrap that was due there
    /// is not any more.
    pub open spec fn reset_primary(self) -> TerminalModel {
        TerminalModel {
            primary: ScreenModel::blank(self.cols, self.rows),
            pending_wrap: self.pending_wrap && self.on_alt,
            ..self
        }
    }

    /// The terminal with a grid of another size.
    pub open spec fn resize(self, cols: u16, rows: u16) -> TerminalModel {
        TerminalModel {
            cols,
            rows,
            primary: self.primary.resized(self.cols, self.rows, cols, rows, self.blank()),
            alt: self.alt.resized(self.cols, self.rows, cols, rows, self.blank()),
            pending_wrap: false,
            scroll_top: 0,
            scroll_bot: (rows - 1) as u16,
            ..self
        }
    }

    /// The characters of a row of the primary screen.
    pub open spec fn primary_row(self, row: int) -> Seq<char> {
        Seq::new(
            self.cols as nat,
            |col: int| self.primary.cells[self.row_start(row) + col].ch,
        )
    }

    /// The primary screen as text: its rows without trailing white space, and
    /// without the empty rows at its end.
    pub open spec fn primary_text(self) -> Seq<Seq<char>> {
        without_empty_end(
            Seq::new(self.rows as nat, |row: int| trimmed_end(self.primary_row(row))),
        )
    }

    /// Where a frame shows the cursor.
    pub open spec fn shown_cursor(self) -> Option<(u16, u16)> {
        if self.cursor_visible {
            Some((self.screen().cursor_col, self.screen().cursor_row))
        } else {
            None
        }
    }

    /// What a control code does.
    pub open spec fn execute(self, byte: u8) -> TerminalModel {
        if byte == 0x08 {
            self.backspace()
        } else if byte == 0x09 {
            self.tab()
        } else if 0x0A <= byte <= 0x0C {
            self.linefeed()
        } else if byte == 0x0D {
            self.carriage_return()
        } else {
            self
        }
    }

    /// What an escape sequence does.
    pub open spec fn esc(self, byte: u8) -> TerminalModel {
        if byte == 0x37 {
            self.save_cursor()
        } else if byte == 0x38 {
            self.restore_cursor()
        } else if byte == 0x44 {
            self.linefeed()
        } else if byte == 0x4D {
            self.reverse_index()
        } else if byte == 0x45 {
            self.linefeed().carriage_return()
        } else if byte == 0x63 {
            self.full_reset()
        } else {
            self
        }
    }

    /// Switches one DEC private mode on or off.
    pub open spec fn private_mode(self, mode: u16, on: bool) -> TerminalModel {
        if mode == 7 {
            TerminalModel { autowrap: on, ..self }
        } else if mode == 25 {
            TerminalModel { cursor_visible: on, ..self }
        } else if is_alt_screen_mode(mode) {
            self.switch_screen(on)
        } else if mode == 2004 {
            TerminalModel { bracketed_paste: on, ..self }
        } else {
            self
        }
    }

    /// Switches each DEC private mode of a list on or off, in order.
    pub open spec fn private_modes(self, params: Seq<Seq<u16>>, on: bool) -> TerminalModel
        decreases params.len(),
    {
        if params.len() == 0 {
            self
        } else {
            self.private_modes(params.drop_last(), on).private_mode(
                value_or(params, params.len() - 1, 0) as u16,
                on,
            )
        }
    }

    /// What a control sequence does.
    pub open spec fn csi(
        self,
        params: Seq<Seq<u16>>,
        intermediates: Seq<u8>,
        action: char,
    ) -> TerminalModel {
        if intermediates.len() > 0 {
            if intermediates[0] == 0x3F && (action == 'h' || action == 'l') {
                self.private_modes(params, action == 'h')
            } else {
                self
            }
        } else {
            self.plain_csi(params, action)
        }
    }

    /// What a control sequence without intermediate bytes does.
    #[verifier::opaque]
    pub open spec fn plain_csi(self, params: Seq<Seq<u16>>, action: char) -> TerminalModel {
        let s = self.screen();
        // A count, which is one if it is missing or zero.
        let n = count_at(params, 0);
        if action == 'A' {
            self.move_by(0, -n)
        } else if action == 'B' || action == 'e' {
            self.move_by(0, n)
        } else if action == 'C' || action == 'a' {
            self.move_by(n, 0)
        } else if action == 'D' {
            self.move_by(-n, 0)
        } else if action == 'E' {
            self.move_by(0, n).carriage_return()
        } else if action == 'F' {
            self.move_by(0, -n).carriage_return()
        } else if action == 'G' || action == '`' {
            self.move_to(n - 1, s.cursor_row as int)
        } else if action == 'H' || action == 'f' {
            self.move_to(count_at(params, 1) - 1, n - 1)
        } else if action == 'd' {
            self.move_to(s.cursor_col as int, n - 1)
        } else if action == 'J' {
            self.erase_in_display(value_or(params, 0, 0) as u16)
        } else if action == 'K' {
            self.erase_in_line(value_or(params, 0, 0) as u16)
        } else if action == 'm' {
            TerminalModel { pen: sgr(self.pen, params.flatten()), ..self }
        } else if action == 'r' {
            self.set_scroll_region(n, value_or(params, 1, self.rows as int))
        } else if action == 's' {
            self.save_cursor()
        } else if action == 'u' {
            self.restore_cursor()
        } else if action == 'S' {
            self.scroll_up(n)
        } else if action == 'T' {
            self.scroll_down(n)
        } else {
            self
        }
    }

    /// The terminal after one action.
    pub open spec fn apply(self, action: ActionModel) -> TerminalModel {
        match action {
            ActionModel::Print(c) => self.put_char(c),
            ActionModel::Execute(b) => self.execute(b),
            ActionModel::Csi { params, intermediates, action } => self.csi(
                params,
                intermediates,
                action,
            ),
            ActionModel::Esc { byte } => self.esc(byte),
        }
    }

    /// The terminal after a list of actions.
    pub open spec fn apply_all(self, actions: Seq<ActionModel>) -> TerminalModel
        decreases actions.len(),
    {
        if actions.len() == 0 {
            self
        } else {
            self.apply_all(actions.drop_last()).apply(actions.last())
        }
    }
}

/// Lines without the empty ones at the end.
pub open spec fn without_empty_end(lines: Seq<Seq<char>>) -> Seq<Seq<char>>
    decreases lines.len(),
{
    if lines.len() > 0 && lines.last().len() == 0 {
        without_empty_end(lines.drop_last())
    } else {
        lines
    }
}

/// The DEC private modes that select the alternate screen.
pub open spec fn is_alt_screen_mode(mode: u16) -> bool {
    mode == 1049 || mode == 47 || mode == 1047
}

/// The value of parameter `i` of a control sequence, or `missing`.
pub open spec fn value_or(params: Seq<Seq<u16>>, i: int, missing: int) -> int {
    if 0 <= i < params.len() && params[i].len() > 0 {
        params[i][0] as int
    } else {
        missing
    }
}

/// Parameter `i` of a control sequence as a count: at least one.
pub open spec fn count_at(params: Seq<Seq<u16>>, i: int) -> int {
    let v = value_or(params, i, 1);
    if v == 0 {
        1
    } else {
        v
    }
}

} // verus!
