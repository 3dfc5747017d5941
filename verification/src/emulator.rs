//! A small terminal emulator.
//!
//! Reads the bytes a program writes to its PTY and keeps a grid of cells that
//! can be captured as a [`DashboardFrame`]. It knows enough of xterm to drive
//! `vim`, `less`, `htop`, `cargo build` and the like: printable text, the
//! usual control codes, cursor moves, erasing, scroll regions, saving the
//! cursor, colors and attributes, and the private modes for the alternate
//! screen, the cursor, wrapping and bracketed paste.
//!
//! The grid is always exactly as large as it was asked to be; nothing scrolls
//! off into a back buffer.
use vstd::prelude::*;

use crate::dashboard::{area, lemma_place, place, DashboardCell, DashboardFrame};
use crate::parser::{
    advance, is_plain, models_of, new_parser, parser_chunks, plain_actions, rows_of, vte_actions,
    Action,
};
use crate::sgr::{apply_sgr, initial_pen};
use crate::terminal::{
    clamped, count_at, filled, regridded, shifted_down, shifted_up, value_or, Pen, ScreenModel,
    without_empty_end, TerminalModel,
};
use crate::text::{string_of, strings_of, trim_end, trimmed_end};

verus! {

/// A cell drawn with a pen.
fn pen_cell(pen: Pen, ch: char) -> (cell: DashboardCell)
    ensures
        cell == pen.cell(ch),
{
    DashboardCell { ch, fg: pen.fg, bg: pen.bg, attrs: pen.attrs }
}

/// Replaces the cells from `from` up to but not including `to`.
fn fill_cells(cells: &mut Vec<DashboardCell>, from: usize, to: usize, cell: DashboardCell)
    requires
        from <= to <= old(cells)@.len(),
    ensures
        final(cells)@ == filled(old(cells)@, from as int, to as int, cell),
{
    let ghost before = cells@;
    let mut i: usize = from;
    while i < to
        invariant
            from <= i <= to <= cells@.len(),
            cells@ == filled(before, from as int, i as int, cell),
        decreases to - i,
    {
        cells.set(i, cell);
        i += 1;
        assert(cells@ =~= filled(before, from as int, i as int, cell));
    }
    assert(cells@ =~= filled(before, from as int, to as int, cell));
}

/// Moves the cells from `lo` up to `hi` towards the front by `shift`.
fn shift_cells_up(
    cells: &mut Vec<DashboardCell>,
    lo: usize,
    hi: usize,
    shift: usize,
    blank: DashboardCell,
)
    requires
        lo <= hi <= old(cells)@.len(),
    ensures
        final(cells)@ == shifted_up(old(cells)@, lo as int, hi as int, shift as int, blank),
{
    let ghost before = cells@;
    let mut i: usize = lo;
    while i < hi
        invariant
            lo <= i <= hi <= cells@.len(),
            cells@.len() == before.len(),
            forall|k: int| 0 <= k < i ==> cells@[k] == shifted_up(
                before,
                lo as int,
                hi as int,
                shift as int,
                blank,
            )[k],
            forall|k: int| i <= k < cells@.len() ==> cells@[k] == before[k],
        decreases hi - i,
    {
        if shift < hi - i {
            let cell = cells[i + shift];
            cells.set(i, cell);
        } else {
            cells.set(i, blank);
        }
        i += 1;
    }
    assert(cells@ =~= shifted_up(before, lo as int, hi as int, shift as int, blank));
}

/// Moves the cells from `lo` up to `hi` towards the end by `shift`.
fn shift_cells_down(
    cells: &mut Vec<DashboardCell>,
    lo: usize,
    hi: usize,
    shift: usize,
    blank: DashboardCell,
)
    requires
        lo <= hi <= old(cells)@.len(),
    ensures
        final(cells)@ == shifted_down(old(cells)@, lo as int, hi as int, shift as int, blank),
{
    let ghost before = cells@;
    let mut i: usize = hi;
    while i > lo
        invariant
            lo <= i <= hi <= cells@.len(),
            cells@.len() == before.len(),
            forall|k: int| i <= k < cells@.len() ==> cells@[k] == shifted_down(
                before,
                lo as int,
                hi as int,
                shift as int,
                blank,
            )[k],
            forall|k: int| 0 <= k < i ==> cells@[k] == before[k],
        decreases i,
    {
        i -= 1;
        if shift <= i - lo {
            let cell = cells[i - shift];
            cells.set(i, cell);
        } else {
            cells.set(i, blank);
        }
    }
    assert(cells@ =~= shifted_down(before, lo as int, hi as int, shift as int, blank));
}

/// A column and row from a place in a row-major list.
proof fn lemma_col_row(cols: int, col: int, row: int)
    requires
        0 <= col < cols,
        0 <= row,
    ensures
        (row * cols + col) % cols == col,
        (row * cols + col) / cols == row,
{
    assert((row * cols + col) % cols == col && (row * cols + col) / cols == row)
        by (nonlinear_arith)
        requires
            0 <= col < cols,
            0 <= row,
    ;
}

/// The cells of a grid cut or grown to a new size.
fn regrid(
    cells: &Vec<DashboardCell>,
    cols: u16,
    rows: u16,
    new_cols: u16,
    new_rows: u16,
    blank: DashboardCell,
) -> (new_cells: Vec<DashboardCell>)
    requires
        cells@.len() == cols * rows,
        1 <= new_cols,
    ensures
        new_cells@ == regridded(cells@, cols, rows, new_cols, new_rows, blank),
{
    let mut new_cells: Vec<DashboardCell> = Vec::new();
    let mut row: u16 = 0;
    assert(0 * new_cols == 0) by (nonlinear_arith);
    while row < new_rows
        invariant
            row <= new_rows,
            1 <= new_cols,
            cells@.len() == cols * rows,
            new_cells@.len() == row * new_cols,
            new_cells@.len() <= new_cols * new_rows,
            forall|k: int|
                0 <= k < new_cells@.len() ==> new_cells@[k] == regridded(
                    cells@,
                    cols,
                    rows,
                    new_cols,
                    new_rows,
                    blank,
                )[k],
        decreases new_rows - row,
    {
        let mut col: u16 = 0;
        while col < new_cols
            invariant
                row < new_rows,
                col <= new_cols,
                1 <= new_cols,
                cells@.len() == cols * rows,
                new_cells@.len() == row * new_cols + col,
                forall|k: int|
                    0 <= k < new_cells@.len() ==> new_cells@[k] == regridded(
                        cells@,
                        cols,
                        rows,
                        new_cols,
                        new_rows,
                        blank,
                    )[k],
            decreases new_cols - col,
        {
            proof {
                lemma_place(new_cols as int, new_rows as int, col as int, row as int);
                lemma_col_row(new_cols as int, col as int, row as int);
            }
            if col < cols && row < rows {
                let i: usize = place(cols, rows, col, row);
                new_cells.push(cells[i]);
            } else {
                new_cells.push(blank);
            }
            col += 1;
        }
        proof {
            lemma_place(new_cols as int, new_rows as int, 0, row as int);
            assert((row + 1) * new_cols == row * new_cols + new_cols) by (nonlinear_arith);
        }
        row += 1;
    }
    proof {
        assert(new_rows * new_cols == new_cols * new_rows) by (nonlinear_arith);
        assert(new_cells@ =~= regridded(cells@, cols, rows, new_cols, new_rows, blank));
    }
    new_cells
}

/// One of the two screens.
struct Screen {
    cells: Vec<DashboardCell>,
    cursor_col: u16,
    cursor_row: u16,
    saved_cursor: Option<(u16, u16)>,
}

impl Screen {
    closed spec fn model(self) -> ScreenModel {
        ScreenModel {
            cells: self.cells@,
            cursor_col: self.cursor_col,
            cursor_row: self.cursor_row,
            saved_cursor: self.saved_cursor,
        }
    }

    fn new(cols: u16, rows: u16) -> (screen: Screen)
        ensures
            screen.model() == ScreenModel::blank(cols, rows),
    {
        let blank = pen_cell(initial_pen(), ' ');
        let n: usize = area(cols, rows);
        let screen = Screen {
            cells: vec![blank; n],
            cursor_col: 0,
            cursor_row: 0,
            saved_cursor: None,
        };
        assert(screen.model() =~= ScreenModel::blank(cols, rows));
        screen
    }

    /// Replaces every cell.
    fn fill(&mut self, cell: DashboardCell)
        ensures
            final(self).model() == (ScreenModel {
                cells: filled(
                    old(self).model().cells,
                    0,
                    old(self).model().cells.len() as int,
                    cell,
                ),
                ..old(self).model()
            }),
    {
        let n: usize = self.cells.len();
        fill_cells(&mut self.cells, 0, n, cell);
    }

    fn resize(&mut self, cols: u16, rows: u16, new_cols: u16, new_rows: u16, blank: DashboardCell)
        requires
            old(self).model().wf(cols, rows),
            1 <= new_cols,
            1 <= new_rows,
        ensures
            final(self).model() == old(self).model().resized(cols, rows, new_cols, new_rows, blank),
    {
        self.cells = regrid(&self.cells, cols, rows, new_cols, new_rows, blank);
        if self.cursor_col > new_cols - 1 {
            self.cursor_col = new_cols - 1;
        }
        if self.cursor_row > new_rows - 1 {
            self.cursor_row = new_rows - 1;
        }
    }
}

/// A terminal: two screens, and the state that actions change.
pub struct EmulatorState {
    cols: u16,
    rows: u16,
    primary: Screen,
    alt: Screen,
    on_alt: bool,
    pen: Pen,
    cursor_visible: bool,
    autowrap: bool,
    pending_wrap: bool,
    bracketed_paste: bool,
    scroll_top: u16,
    scroll_bot: u16,
}

impl View for EmulatorState {
    type V = TerminalModel;

    closed spec fn view(&self) -> TerminalModel {
        TerminalModel {
            cols: self.cols,
            rows: self.rows,
            primary: self.primary.model(),
            alt: self.alt.model(),
            on_alt: self.on_alt,
            pen: self.pen,
            cursor_visible: self.cursor_visible,
            autowrap: self.autowrap,
            pending_wrap: self.pending_wrap,
            bracketed_paste: self.bracketed_paste,
            scroll_top: self.scroll_top,
            scroll_bot: self.scroll_bot,
        }
    }
}

impl EmulatorState {
    /// A terminal with a blank grid.
    pub fn new(cols: u16, rows: u16) -> (state: EmulatorState)
        requires
            1 <= cols,
            1 <= rows,
        ensures
            state@ == TerminalModel::fresh(cols, rows),
            state@.wf(),
    {
        EmulatorState {
            cols,
            rows,
            primary: Screen::new(cols, rows),
            alt: Screen::new(cols, rows),
            on_alt: false,
            pen: initial_pen(),
            cursor_visible: true,
            autowrap: true,
            pending_wrap: false,
            bracketed_paste: false,
            scroll_top: 0,
            scroll_bot: rows - 1,
        }
    }

    /// The screen in use.
    fn screen(&mut self) -> (screen: &mut Screen)
        ensures
            screen.model() == old(self)@.screen(),
            final(self)@ == old(self)@.with_screen(final(screen).model()),
    {
        if self.on_alt {
            &mut self.alt
        } else {
            &mut self.primary
        }
    }

    /// The screen in use, to read.
    fn screen_ref(&self) -> (screen: &Screen)
        ensures
            screen.model() == self@.screen(),
    {
        if self.on_alt {
            &self.alt
        } else {
            &self.primary
        }
    }

    /// What erased cells become.
    fn current_cell(&self) -> (cell: DashboardCell)
        ensures
            cell == self@.blank(),
    {
        pen_cell(self.pen, ' ')
    }

    /// Puts the cursor somewhere.
    fn set_cursor(&mut self, col: u16, row: u16)
        ensures
            final(self)@ == old(self)@.with_cursor(col as int, row as int),
    {
        let s = self.screen();
        s.cursor_col = col;
        s.cursor_row = row;
        self.pending_wrap = false;
    }

    fn cursor_carriage_return(&mut self)
        ensures
            final(self)@ == old(self)@.carriage_return(),
    {
        let row: u16 = self.screen_ref().cursor_row;
        self.set_cursor(0, row);
    }

    /// Where row `row` begins in the list of cells.
    fn row_place(&self, row: u16) -> (i: usize)
        requires
            row <= self@.rows,
        ensures
            i == self@.row_start(row as int),
            i <= self@.cols * self@.rows,
    {
        assert(row * self.cols <= self.cols * self.rows <= 0xFFFF * 0xFFFF) by (nonlinear_arith)
            requires
                row <= self.rows <= 0xFFFF,
                self.cols <= 0xFFFF,
        ;
        (row as usize) * (self.cols as usize)
    }

    /// Where the cursor stands in the list of cells.
    fn cursor_index(&self) -> (i: usize)
        requires
            self@.wf(),
        ensures
            i == self@.cursor_place(),
            i < self@.screen().cells.len(),
            i + 1 <= self@.row_start(self@.screen().cursor_row as int) + self@.cols,
            self@.row_start(self@.screen().cursor_row as int) <= i,
    {
        let s = self.screen_ref();
        place(self.cols, self.rows, s.cursor_col, s.cursor_row)
    }

    fn scroll_up(&mut self, n: u16)
        requires
            old(self)@.wf(),
        ensures
            final(self)@ == old(self)@.scroll_up(n as int),
            final(self)@.wf(),
    {
        if self.scroll_top < self.scroll_bot {
            let blank = self.current_cell();
            let lo: usize = self.row_place(self.scroll_top);
            let hi: usize = self.row_place(self.scroll_bot + 1);
            let shift: usize = area(n, self.cols);
            proof {
                lemma_rows_ordered(
                    self.cols as int,
                    self.scroll_top as int,
                    self.scroll_bot + 1,
                );
            }
            let s = self.screen();
            shift_cells_up(&mut s.cells, lo, hi, shift, blank);
        }
    }

    fn scroll_down(&mut self, n: u16)
        requires
            old(self)@.wf(),
        ensures
            final(self)@ == old(self)@.scroll_down(n as int),
            final(self)@.wf(),
    {
        if self.scroll_top < self.scroll_bot {
            let blank = self.current_cell();
            let lo: usize = self.row_place(self.scroll_top);
            let hi: usize = self.row_place(self.scroll_bot + 1);
            let shift: usize = area(n, self.cols);
            proof {
                lemma_rows_ordered(
                    self.cols as int,
                    self.scroll_top as int,
                    self.scroll_bot + 1,
                );
            }
            let s = self.screen();
            shift_cells_down(&mut s.cells, lo, hi, shift, blank);
        }
    }

    /// Moves the cursor down one row, scrolling at the end of the region.
    fn linefeed(&mut self)
        requires
            old(self)@.wf(),
        ensures
            final(self)@ == old(self)@.linefeed(),
            final(self)@.wf(),
    {
        let col: u16 = self.screen_ref().cursor_col;
        let row: u16 = self.screen_ref().cursor_row;
        if row >= self.scroll_bot {
            self.scroll_up(1);
            self.pending_wrap = false;
        } else {
            self.set_cursor(col, row + 1);
        }
    }

    fn reverse_index(&mut self)
        requires
            old(self)@.wf(),
        ensures
            final(self)@ == old(self)@.reverse_index(),
            final(self)@.wf(),
    {
        let col: u16 = self.screen_ref().cursor_col;
        let row: u16 = self.screen_ref().cursor_row;
        if row <= self.scroll_top {
            self.scroll_down(1);
            self.pending_wrap = false;
        } else {
            self.set_cursor(col, row - 1);
        }
    }

    fn backspace(&mut self)
        requires
            old(self)@.wf(),
        ensures
            final(self)@ == old(self)@.backspace(),
            final(self)@.wf(),
    {
        let col: u16 = self.screen_ref().cursor_col;
        let row: u16 = self.screen_ref().cursor_row;
        if col > 0 {
            self.set_cursor(col - 1, row);
        } else {
            self.set_cursor(0, row);
        }
    }

    fn tab(&mut self)
        requires
            old(self)@.wf(),
        ensures
            final(self)@ == old(self)@.tab(),
            final(self)@.wf(),
    {
        let col: u16 = self.screen_ref().cursor_col;
        let row: u16 = self.screen_ref().cursor_row;
        let next: u32 = ((col / 8) as u32 + 1) * 8;
        let last: u16 = self.cols - 1;
        if next < last as u32 {
            self.set_cursor(next as u16, row);
        } else {
            self.set_cursor(last, row);
        }
    }

    /// Moves the cursor to a place, or as near to it as the grid allows.
    fn move_cursor_to(&mut self, col: u16, row: u16)
        requires
            old(self)@.wf(),
        ensures
            final(self)@ == old(self)@.move_to(col as int, row as int),
            final(self)@.wf(),
    {
        let last_col: u16 = self.cols - 1;
        let last_row: u16 = self.rows - 1;
        let c: u16 = if col < last_col {
            col
        } else {
            last_col
        };
        let r: u16 = if row < last_row {
            row
        } else {
            last_row
        };
        self.set_cursor(c, r);
    }

    /// Moves the cursor by a number of columns and rows.
    fn move_cursor_rel(&mut self, dcol: i32, drow: i32)
        requires
            old(self)@.wf(),
            -0xFFFF <= dcol <= 0xFFFF,
            -0xFFFF <= drow <= 0xFFFF,
        ensures
            final(self)@ == old(self)@.move_by(dcol as int, drow as int),
            final(self)@.wf(),
    {
        let s = self.screen_ref();
        let col: i32 = s.cursor_col as i32 + dcol;
        let row: i32 = s.cursor_row as i32 + drow;
        let c: u16 = clamp_to(col, self.cols - 1);
        let r: u16 = clamp_to(row, self.rows - 1);
        self.set_cursor(c, r);
    }

    fn put_char(&mut self, ch: char)
        requires
            old(self)@.wf(),
        ensures
            final(self)@ == old(self)@.put_char(ch),
            final(self)@.wf(),
    {
        // Writing into the last column leaves the cursor there; only the next
        // character goes to the next line.
        if self.pending_wrap && self.autowrap {
            self.cursor_carriage_return();
            self.linefeed();
        }
        assert(self@ == old(self)@.wrapped());
        let cell = pen_cell(self.pen, ch);
        let i: usize = self.cursor_index();
        let col: u16 = self.screen_ref().cursor_col;
        let row: u16 = self.screen_ref().cursor_row;
        let s = self.screen();
        s.cells.set(i, cell);
        if col >= self.cols - 1 {
            self.pending_wrap = self.autowrap;
        } else {
            self.set_cursor(col + 1, row);
        }
    }

    /// Blanks the cells from `from` up to but not including `to`.
    fn erase(&mut self, from: usize, to: usize)
        requires
            old(self)@.wf(),
            from <= to <= old(self)@.screen().cells.len(),
        ensures
            final(self)@ == old(self)@.erase(from as int, to as int),
            final(self)@.wf(),
    {
        let blank = self.current_cell();
        let s = self.screen();
        fill_cells(&mut s.cells, from, to, blank);
    }

    fn erase_in_line(&mut self, mode: u16)
        requires
            old(self)@.wf(),
        ensures
            final(self)@ == old(self)@.erase_in_line(mode),
            final(self)@.wf(),
    {
        let row: u16 = self.screen_ref().cursor_row;
        let at: usize = self.cursor_index();
        let start: usize = self.row_place(row);
        let end: usize = self.row_place(row + 1);
        assert(end == start + self.cols) by {
            assert((row + 1) * self.cols == row * self.cols + self.cols) by (nonlinear_arith);
        }
        if mode == 0 {
            self.erase(at, end);
        } else if mode == 1 {
            self.erase(start, at + 1);
        } else if mode == 2 {
            self.erase(start, end);
        }
    }

    fn erase_in_display(&mut self, mode: u16)
        requires
            old(self)@.wf(),
        ensures
            final(self)@ == old(self)@.erase_in_display(mode),
            final(self)@.wf(),
    {
        let at: usize = self.cursor_index();
        let end: usize = self.screen_ref().cells.len();
        if mode == 0 {
            self.erase(at, end);
        } else if mode == 1 {
            self.erase(0, at + 1);
        } else if mode == 2 || mode == 3 {
            self.erase(0, end);
        }
    }

    fn save_cursor(&mut self)
        requires
            old(self)@.wf(),
        ensures
            final(self)@ == old(self)@.save_cursor(),
            final(self)@.wf(),
    {
        let s = self.screen();
        s.saved_cursor = Some((s.cursor_col, s.cursor_row));
    }

    fn restore_cursor(&mut self)
        requires
            old(self)@.wf(),
        ensures
            final(self)@ == old(self)@.restore_cursor(),
            final(self)@.wf(),
    {
        let saved: Option<(u16, u16)> = self.screen_ref().saved_cursor;
        if let Some((col, row)) = saved {
            self.move_cursor_to(col, row);
        }
    }

    fn switch_screen(&mut self, alt: bool)
        requires
            old(self)@.wf(),
        ensures
            final(self)@ == old(self)@.switch_screen(alt),
            final(self)@.wf(),
    {
        if self.on_alt == alt {
            return;
        }
        self.on_alt = alt;
        self.pending_wrap = false;
        // The alternate screen is blank whenever it is entered. The primary
        // one keeps what it shows.
        if alt {
            let blank = self.current_cell();
            self.alt.fill(blank);
            self.alt.cursor_col = 0;
            self.alt.cursor_row = 0;
            self.alt.saved_cursor = None;
        }
    }

    fn set_scroll_region(&mut self, top: u16, bot: u16)
        requires
            old(self)@.wf(),
        ensures
            final(self)@ == old(self)@.set_scroll_region(top as int, bot as int),
            final(self)@.wf(),
    {
        let last: u16 = self.rows - 1;
        let mut t: u16 = if top == 0 {
            0
        } else {
            top - 1
        };
        let mut b: u16 = if bot == 0 {
            0
        } else {
            bot - 1
        };
        if t > last {
            t = last;
        }
        if b > last {
            b = last;
        }
        if t > b {
            t = 0;
            b = last;
        }
        self.scroll_top = t;
        self.scroll_bot = b;
        self.move_cursor_to(0, 0);
    }

    fn full_reset(&mut self)
        requires
            old(self)@.wf(),
        ensures
            final(self)@ == old(self)@.full_reset(),
            final(self)@.wf(),
    {
        self.pen = initial_pen();
        self.scroll_top = 0;
        self.scroll_bot = self.rows - 1;
        let blank = self.current_cell();
        self.primary.fill(blank);
        self.alt.fill(blank);
        self.primary.cursor_col = 0;
        self.primary.cursor_row = 0;
        self.alt.cursor_col = 0;
        self.alt.cursor_row = 0;
        self.on_alt = false;
        self.cursor_visible = true;
        self.autowrap = true;
        self.pending_wrap = false;
    }

    /// Changes the size of the grid. Cells that fall outside the new size are
    /// dropped, new cells are blank, and the cursor stays inside.
    pub fn resize(&mut self, cols: u16, rows: u16)
        requires
            old(self)@.wf(),
            1 <= cols,
            1 <= rows,
        ensures
            final(self)@ == old(self)@.resize(cols, rows),
            final(self)@.wf(),
    {
        let blank = self.current_cell();
        self.primary.resize(self.cols, self.rows, cols, rows, blank);
        self.alt.resize(self.cols, self.rows, cols, rows, blank);
        self.cols = cols;
        self.rows = rows;
        self.scroll_top = 0;
        self.scroll_bot = rows - 1;
        self.pending_wrap = false;
    }

    /// Blanks the primary screen and homes its cursor. A wrap that was due there
    /// is not any more.
    pub fn reset_primary(&mut self)
        requires
            old(self)@.wf(),
        ensures
            final(self)@ == old(self)@.reset_primary(),
            final(self)@.wf(),
    {
        self.primary = Screen::new(self.cols, self.rows);
        if !self.on_alt {
            self.pending_wrap = false;
        }
    }

    /// The primary screen as text rows, without trailing white space and
    /// without the blank rows at the end.
    pub fn primary_text(&self) -> (text: Vec<String>)
        requires
            self@.wf(),
        ensures
            strings_of(text@) == self@.primary_text(),
    {
        let ghost want = Seq::new(
            self.rows as nat,
            |row: int| trimmed_end(self@.primary_row(row)),
        );
        let mut rows: Vec<String> = Vec::new();
        let mut r: u16 = 0;
        while r < self.rows
            invariant
                r <= self.rows,
                self@.wf(),
                want == Seq::new(
                    self.rows as nat,
                    |row: int| trimmed_end(self@.primary_row(row)),
                ),
                strings_of(rows@) == want.take(r as int),
            decreases self.rows - r,
        {
            let mut line: Vec<char> = Vec::new();
            let mut c: u16 = 0;
            while c < self.cols
                invariant
                    r < self.rows,
                    c <= self.cols,
                    self@.wf(),
                    line@ == self@.primary_row(r as int).take(c as int),
                decreases self.cols - c,
            {
                let i: usize = place(self.cols, self.rows, c, r);
                line.push(self.primary.cells[i].ch);
                c += 1;
                assert(line@ =~= self@.primary_row(r as int).take(c as int));
            }
            assert(self@.primary_row(r as int).take(c as int) =~= self@.primary_row(r as int));
            trim_end(&mut line);
            let ghost before = rows@;
            rows.push(string_of(line.as_slice()));
            assert(strings_of(rows@) =~= strings_of(before).push(want[r as int]));
            assert(want.take(r + 1) =~= want.take(r as int).push(want[r as int]));
            r += 1;
        }
        assert(want.take(r as int) =~= want);
        while rows.len() > 0 && rows[rows.len() - 1].as_str().is_empty()
            invariant
                without_empty_end(strings_of(rows@)) == without_empty_end(want),
            decreases rows.len(),
        {
            let ghost before = rows@;
            rows.pop();
            assert(strings_of(rows@) =~= strings_of(before).drop_last());
        }
        rows
    }

    /// Captures the grid and the cursor.
    pub fn snapshot(&self) -> (frame: DashboardFrame)
        requires
            self@.wf(),
        ensures
            frame.wf(),
            frame.cols == self@.cols,
            frame.rows == self@.rows,
            frame.cells@ == self@.screen().cells,
            frame.cursor == self@.shown_cursor(),
    {
        let s = self.screen_ref();
        let cells = copy_cells(&s.cells);
        let cursor: Option<(u16, u16)> = if self.cursor_visible {
            Some((s.cursor_col, s.cursor_row))
        } else {
            None
        };
        DashboardFrame { cols: self.cols, rows: self.rows, cells, cursor }
    }

    fn execute(&mut self, byte: u8)
        requires
            old(self)@.wf(),
        ensures
            final(self)@ == old(self)@.execute(byte),
            final(self)@.wf(),
    {
        match byte {
            0x08 => self.backspace(),
            0x09 => self.tab(),
            0x0A | 0x0B | 0x0C => self.linefeed(),
            0x0D => self.cursor_carriage_return(),
            _ => {},
        }
    }

    fn esc_dispatch(&mut self, byte: u8)
        requires
            old(self)@.wf(),
        ensures
            final(self)@ == old(self)@.esc(byte),
            final(self)@.wf(),
    {
        match byte {
            0x37 => self.save_cursor(),
            0x38 => self.restore_cursor(),
            0x44 => self.linefeed(),
            0x4D => self.reverse_index(),
            0x45 => {
                self.linefeed();
                self.cursor_carriage_return();
            },
            0x63 => self.full_reset(),
            _ => {},
        }
    }

    fn set_private_mode(&mut self, mode: u16, on: bool)
        requires
            old(self)@.wf(),
        ensures
            final(self)@ == old(self)@.private_mode(mode, on),
            final(self)@.wf(),
    {
        match mode {
            7 => {
                self.autowrap = on;
            },
            25 => {
                self.cursor_visible = on;
            },
            1049 | 47 | 1047 => self.switch_screen(on),
            2004 => {
                self.bracketed_paste = on;
            },
            _ => {},
        }
    }

    fn set_private_modes(&mut self, params: &Vec<Vec<u16>>, on: bool)
        requires
            old(self)@.wf(),
        ensures
            final(self)@ == old(self)@.private_modes(rows_of(params@), on),
            final(self)@.wf(),
    {
        let ghost before = self@;
        let ghost rows = rows_of(params@);
        let mut i: usize = 0;
        while i < params.len()
            invariant
                i <= params.len(),
                rows == rows_of(params@),
                self@ == before.private_modes(rows.take(i as int), on),
                self@.wf(),
            decreases params.len() - i,
        {
            let mode: u16 = param_or(params, i, 0);
            assert(rows.take(i + 1).drop_last() =~= rows.take(i as int));
            self.set_private_mode(mode, on);
            i += 1;
        }
        assert(rows.take(i as int) =~= rows);
    }

    fn csi_dispatch(&mut self, params: &Vec<Vec<u16>>, intermediates: &Vec<u8>, action: char)
        requires
            old(self)@.wf(),
        ensures
            final(self)@ == old(self)@.csi(rows_of(params@), intermediates@, action),
            final(self)@.wf(),
    {
        if intermediates.len() > 0 {
            // DEC private modes are marked with `?`.
            if intermediates[0] == 0x3F && (action == 'h' || action == 'l') {
                self.set_private_modes(params, action == 'h');
            }
            return;
        }
        let ghost rows = rows_of(params@);
        reveal(TerminalModel::plain_csi);
        let n: u16 = count_param(params, 0);
        let col: u16 = self.screen_ref().cursor_col;
        let row: u16 = self.screen_ref().cursor_row;
        match action {
            'A' => self.move_cursor_rel(0, -(n as i32)),
            'B' | 'e' => self.move_cursor_rel(0, n as i32),
            'C' | 'a' => self.move_cursor_rel(n as i32, 0),
            'D' => self.move_cursor_rel(-(n as i32), 0),
            'E' => {
                self.move_cursor_rel(0, n as i32);
                self.cursor_carriage_return();
            },
            'F' => {
                self.move_cursor_rel(0, -(n as i32));
                self.cursor_carriage_return();
            },
            'G' | '`' => self.move_cursor_to(n - 1, row),
            'H' | 'f' => {
                let to: u16 = count_param(params, 1);
                self.move_cursor_to(to - 1, n - 1);
            },
            'd' => self.move_cursor_to(col, n - 1),
            'J' => {
                let mode: u16 = param_or(params, 0, 0);
                self.erase_in_display(mode);
            },
            'K' => {
                let mode: u16 = param_or(params, 0, 0);
                self.erase_in_line(mode);
            },
            'm' => {
                let codes = flat_params(params);
                self.pen = apply_sgr(self.pen, &codes);
            },
            'r' => {
                let bot: u16 = param_or(params, 1, self.rows);
                self.set_scroll_region(n, bot);
            },
            's' => self.save_cursor(),
            'u' => self.restore_cursor(),
            'S' => self.scroll_up(n),
            'T' => self.scroll_down(n),
            _ => {},
        }
    }

    /// Does what one action asks for.
    pub fn perform(&mut self, action: &Action)
        requires
            old(self)@.wf(),
        ensures
            final(self)@ == old(self)@.apply(action@),
            final(self)@.wf(),
    {
        match action {
            Action::Print(c) => self.put_char(*c),
            Action::Execute(b) => self.execute(*b),
            Action::Csi { params, intermediates, action } => self.csi_dispatch(
                params,
                intermediates,
                *action,
            ),
            Action::Esc { byte } => self.esc_dispatch(*byte),
        }
    }

    /// Does what each action of a list asks for, in order.
    pub fn perform_all(&mut self, actions: &Vec<Action>)
        requires
            old(self)@.wf(),
        ensures
            final(self)@ == old(self)@.apply_all(models_of(actions@)),
            final(self)@.wf(),
    {
        let ghost before = self@;
        let ghost models = models_of(actions@);
        let mut i: usize = 0;
        while i < actions.len()
            invariant
                i <= actions.len(),
                models == models_of(actions@),
                self@ == before.apply_all(models.take(i as int)),
                self@.wf(),
            decreases actions.len() - i,
        {
            assert(models.take(i + 1).drop_last() =~= models.take(i as int));
            self.perform(&actions[i]);
            i += 1;
        }
        assert(models.take(i as int) =~= models);
    }
}

/// A copy of a list of cells.
fn copy_cells(cells: &Vec<DashboardCell>) -> (copy: Vec<DashboardCell>)
    ensures
        copy@ == cells@,
{
    vstd::slice::slice_to_vec(cells.as_slice())
}

/// The value of parameter `i`, or `missing`.
fn param_or(params: &Vec<Vec<u16>>, i: usize, missing: u16) -> (value: u16)
    ensures
        value == value_or(rows_of(params@), i as int, missing as int),
{
    if i < params.len() && params[i].len() > 0 {
        params[i][0]
    } else {
        missing
    }
}

/// Parameter `i` as a count: at least one.
fn count_param(params: &Vec<Vec<u16>>, i: usize) -> (count: u16)
    ensures
        count == count_at(rows_of(params@), i as int),
        count >= 1,
{
    let value: u16 = param_or(params, i, 1);
    if value == 0 {
        1
    } else {
        value
    }
}

/// All parameters and subparameters in one list.
fn flat_params(params: &Vec<Vec<u16>>) -> (flat: Vec<u16>)
    ensures
        flat@ == rows_of(params@).flatten(),
{
    let ghost rows = rows_of(params@);
    let mut flat: Vec<u16> = Vec::new();
    let mut i: usize = 0;
    while i < params.len()
        invariant
            i <= params.len(),
            rows == rows_of(params@),
            flat@ == rows.take(i as int).flatten(),
        decreases params.len() - i,
    {
        let ghost before = flat@;
        let mut j: usize = 0;
        while j < params[i].len()
            invariant
                i < params.len(),
                j <= params[i as int].len(),
                flat@ == before + params[i as int]@.take(j as int),
            decreases params[i as int].len() - j,
        {
            assert(params[i as int]@.take(j + 1) =~= params[i as int]@.take(j as int).push(
                params[i as int]@[j as int],
            ));
            flat.push(params[i][j]);
            j += 1;
        }
        proof {
            assert(params[i as int]@.take(j as int) =~= rows[i as int]);
            assert(rows.take(i + 1) =~= rows.take(i as int).push(rows[i as int]));
            rows.take(i as int).lemma_flatten_push(rows[i as int]);
        }
        i += 1;
    }
    assert(rows.take(i as int) =~= rows);
    flat
}

/// A number, moved into the range from zero to `top`.
fn clamp_to(x: i32, top: u16) -> (y: u16)
    ensures
        y == clamped(x as int, top as int),
{
    if x < 0 {
        0
    } else if x > top as i32 {
        top
    } else {
        x as u16
    }
}

/// Rows begin in order.
proof fn lemma_rows_ordered(cols: int, row1: int, row2: int)
    requires
        0 <= cols,
        0 <= row1 <= row2,
    ensures
        0 <= row1 * cols <= row2 * cols,
{
    assert(0 <= row1 * cols <= row2 * cols) by (nonlinear_arith)
        requires
            0 <= cols,
            0 <= row1 <= row2,
    ;
}

/// A live terminal grid driven by the bytes of a PTY.
pub struct Emulator {
    parser: vte::Parser,
    state: EmulatorState,
}

impl View for Emulator {
    type V = TerminalModel;

    closed spec fn view(&self) -> TerminalModel {
        self.state@
    }
}

impl Emulator {
    /// The chunks of bytes it was fed so far.
    pub closed spec fn fed(self) -> Seq<Seq<u8>> {
        parser_chunks(self.parser)
    }

    /// A blank grid. A size of zero becomes one.
    pub fn new(cols: u16, rows: u16) -> (emulator: Emulator)
        ensures
            emulator@ == TerminalModel::fresh(at_least_one(cols), at_least_one(rows)),
            emulator@.wf(),
            emulator.fed() == Seq::<Seq<u8>>::empty(),
    {
        Emulator {
            parser: new_parser(),
            state: EmulatorState::new(one_or_more(cols), one_or_more(rows)),
        }
    }

    /// Feeds bytes from the PTY and updates the grid in place.
    pub fn feed(&mut self, bytes: &[u8])
        requires
            old(self)@.wf(),
        ensures
            final(self)@ == old(self)@.apply_all(vte_actions(old(self).fed(), bytes@)),
            final(self)@.wf(),
            final(self).fed() == old(self).fed().push(bytes@),
            is_plain(old(self).fed().flatten()) && is_plain(bytes@) ==> final(self)@ == old(
                self,
            )@.apply_all(plain_actions(bytes@)),
    {
        let actions = advance(&mut self.parser, bytes);
        self.state.perform_all(&actions);
    }

    /// Changes the size of the grid; a size of zero becomes one. Cells that
    /// fall outside the new size are dropped, new cells are blank, and the
    /// cursor stays inside.
    pub fn resize(&mut self, cols: u16, rows: u16)
        requires
            old(self)@.wf(),
        ensures
            final(self)@ == old(self)@.resize(at_least_one(cols), at_least_one(rows)),
            final(self)@.wf(),
            final(self).fed() == old(self).fed(),
    {
        self.state.resize(one_or_more(cols), one_or_more(rows));
    }

    /// Captures the grid and the cursor.
    pub fn snapshot(&self) -> (frame: DashboardFrame)
        requires
            self@.wf(),
        ensures
            frame.wf(),
            frame.cols == self@.cols,
            frame.rows == self@.rows,
            frame.cells@ == self@.screen().cells,
            frame.cursor == self@.shown_cursor(),
    {
        self.state.snapshot()
    }

    /// Whether the program has switched bracketed paste on.
    pub fn bracketed_paste(&self) -> (on: bool)
        ensures
            on == self@.bracketed_paste,
    {
        self.state.bracketed_paste
    }

    /// The primary screen as text rows, without trailing white space and
    /// without the blank rows at the end. Empty when the screen is blank.
    pub fn primary_text(&self) -> (text: Vec<String>)
        requires
            self@.wf(),
        ensures
            strings_of(text@) == self@.primary_text(),
    {
        self.state.primary_text()
    }

    /// Blanks the primary screen and homes its cursor, so that a later
    /// [`Emulator::primary_text`] holds only what came after.
    pub fn reset_primary(&mut self)
        requires
            old(self)@.wf(),
        ensures
            final(self)@ == old(self)@.reset_primary(),
            final(self)@.wf(),
            final(self).fed() == old(self).fed(),
    {
        self.state.reset_primary();
    }

    /// The number of columns.
    pub fn cols(&self) -> (cols: u16)
        ensures
            cols == self@.cols,
    {
        self.state.cols
    }

    /// The number of rows.
    pub fn rows(&self) -> (rows: u16)
        ensures
            rows == self@.rows,
    {
        self.state.rows
    }
}

/// A size that is not zero.
pub open spec fn at_least_one(n: u16) -> u16 {
    if n == 0 {
        1
    } else {
        n
    }
}

/// A size that is not zero.
fn one_or_more(n: u16) -> (m: u16)
    ensures
        m == at_least_one(n),
{
    if n == 0 {
        1
    } else {
        n
    }
}

} // verus!
