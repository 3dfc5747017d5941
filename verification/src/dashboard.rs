//! The data a full-screen dashboard exchanges with the application: a grid of
//! cells for every frame, and the keys the user presses.
use vstd::prelude::*;

verus! {

/// What kind of full-screen view the terminal offers.
#[derive(Debug, Clone, Copy, PartialEq, Eq, Structural)]
pub enum DashboardKind {
    /// No full-screen view.
    NoView,
    /// A static image.
    Image,
    /// A cell grid that takes raw keys.
    Interactive,
}

/// A request to the application to switch the dashboard on or off.
#[derive(Debug, Clone, Copy, PartialEq, Eq, Structural)]
pub enum DashboardRequest {
    Enter,
    Leave,
}

/// Text attributes of one cell.
#[derive(Debug, Clone, Copy, PartialEq, Eq, Structural)]
pub struct CellAttrs {
    pub bold: bool,
    pub underline: bool,
    pub reverse: bool,
}

/// Attributes with nothing switched on.
pub open spec fn plain_attrs() -> CellAttrs {
    CellAttrs { bold: false, underline: false, reverse: false }
}

impl CellAttrs {
    /// Attributes with nothing switched on.
    pub fn plain() -> (attrs: CellAttrs)
        ensures
            attrs == plain_attrs(),
    {
        CellAttrs { bold: false, underline: false, reverse: false }
    }
}

/// One character cell. Colors are packed `0xRRGGBBAA`.
#[derive(Debug, Clone, Copy, PartialEq, Eq, Structural)]
pub struct DashboardCell {
    pub ch: char,
    pub fg: u32,
    pub bg: u32,
    pub attrs: CellAttrs,
}

/// The cell of a frame nothing was drawn on: a space, white on transparent.
pub open spec fn unpainted_cell() -> DashboardCell {
    DashboardCell { ch: ' ', fg: 0xFFFF_FFFF, bg: 0, attrs: plain_attrs() }
}

/// A snapshot of a terminal grid.
///
/// `cells` is row-major with `cols * rows` items. `cursor` is `(col, row)`,
/// both counted from zero; `None` hides the cursor.
#[derive(Debug, Clone)]
pub struct DashboardFrame {
    pub cols: u16,
    pub rows: u16,
    pub cells: Vec<DashboardCell>,
    pub cursor: Option<(u16, u16)>,
}

impl DashboardFrame {
    /// Whether the frame holds exactly one cell for every place of its grid.
    pub open spec fn wf(self) -> bool {
        self.cells@.len() == self.cols * self.rows
    }

    /// A frame on which nothing was drawn.
    pub fn empty(cols: u16, rows: u16) -> (frame: DashboardFrame)
        ensures
            frame.wf(),
            frame.cols == cols,
            frame.rows == rows,
            frame.cells@ == Seq::new((cols * rows) as nat, |i: int| unpainted_cell()),
            frame.cursor is None,
    {
        let len: usize = area(cols, rows);
        let cell = DashboardCell { ch: ' ', fg: 0xFFFF_FFFF, bg: 0, attrs: CellAttrs::plain() };
        let frame = DashboardFrame { cols, rows, cells: vec![cell; len], cursor: None };
        assert(frame.cells@ =~= Seq::new((cols * rows) as nat, |i: int| unpainted_cell()));
        frame
    }

    /// The cell at a place of the grid.
    pub fn cell(&self, col: u16, row: u16) -> (cell: &DashboardCell)
        requires
            self.wf(),
            col < self.cols,
            row < self.rows,
        ensures
            *cell == self.cells@[row * self.cols + col],
    {
        let i: usize = place(self.cols, self.rows, col, row);
        &self.cells[i]
    }
}

/// How many cells a grid has.
pub fn area(cols: u16, rows: u16) -> (n: usize)
    ensures
        n == cols * rows,
{
    assert(cols * rows <= 0xFFFF * 0xFFFF) by (nonlinear_arith)
        requires
            cols <= 0xFFFF,
            rows <= 0xFFFF,
    ;
    (cols as usize) * (rows as usize)
}

/// Where a cell stands in the row-major list of a grid.
pub fn place(cols: u16, rows: u16, col: u16, row: u16) -> (i: usize)
    requires
        col < cols,
        row < rows,
    ensures
        i == row * cols + col,
        i < cols * rows,
{
    proof {
        lemma_place(cols as int, rows as int, col as int, row as int);
    }
    (row as usize) * (cols as usize) + (col as usize)
}

/// A place inside the grid stands inside its row-major list.
pub proof fn lemma_place(cols: int, rows: int, col: int, row: int)
    requires
        0 <= col < cols <= 0xFFFF,
        0 <= row < rows <= 0xFFFF,
    ensures
        0 <= row * cols <= row * cols + col < cols * rows <= 0xFFFF * 0xFFFF,
        row * cols + cols <= cols * rows,
{
    assert(0 <= row * cols <= row * cols + col < cols * rows <= 0xFFFF * 0xFFFF && row * cols + cols
        <= cols * rows) by (nonlinear_arith)
        requires
            0 <= col < cols <= 0xFFFF,
            0 <= row < rows <= 0xFFFF,
    ;
}

/// A key press forwarded while the dashboard is open. Printable text arrives
/// as text instead.
#[derive(Debug, Clone, Copy, PartialEq, Eq, Structural)]
pub struct DashboardKey {
    pub keysym: DashboardKeysym,
    pub ctrl: bool,
    pub shift: bool,
    pub alt: bool,
}

/// Which key was pressed.
#[derive(Debug, Clone, Copy, PartialEq, Eq, Structural)]
pub enum DashboardKeysym {
    Enter,
    Backspace,
    Tab,
    Escape,
    Up,
    Down,
    Left,
    Right,
    Home,
    End,
    PageUp,
    PageDown,
    Insert,
    Delete,
    F(u8),
    /// A letter or digit whose text event a modifier suppressed.
    Char(char),
    /// Any key this list does not name.
    Unknown,
}

} // verus!
