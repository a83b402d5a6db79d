use vstd::prelude::*;

use unicode_width::UnicodeWidthChar;

use crate::session::Size;
use crate::text::{decimal, push_decimal};

verus! {

/// Longest escape sequence that is parsed; longer ones are discarded.
pub const MAX_CONTROL_SEQUENCE: usize = 4096;

/// Most cells a pane's screen may hold.
pub const MAX_SCREEN_CELLS: usize = 262_144;

/// A cell colour.
#[derive(Clone, Copy, Debug, Eq, PartialEq, Structural)]
pub enum Color {
    Default,
    Indexed(u8),
    Rgb(u8, u8, u8),
}

impl Default for Color {
    fn default() -> (r: Color)
        ensures
            r == Color::Default,
    {
        Color::Default
    }
}

/// How a cell's character is drawn.
#[derive(Clone, Copy, Debug, Eq, PartialEq, Structural)]
pub struct Attributes {
    pub foreground: Color,
    pub background: Color,
    pub underline_color: Color,
    pub bold: bool,
    pub faint: bool,
    pub italic: bool,
    pub underline: bool,
    pub blink: bool,
    pub inverse: bool,
    pub hidden: bool,
    pub strike: bool,
}

/// Default colours and no styles.
pub open spec fn plain() -> Attributes {
    Attributes {
        foreground: Color::Default,
        background: Color::Default,
        underline_color: Color::Default,
        bold: false,
        faint: false,
        italic: false,
        underline: false,
        blink: false,
        inverse: false,
        hidden: false,
        strike: false,
    }
}

impl Default for Attributes {
    fn default() -> (r: Attributes)
        ensures
            r == plain(),
    {
        Attributes {
            foreground: Color::Default,
            background: Color::Default,
            underline_color: Color::Default,
            bold: false,
            faint: false,
            italic: false,
            underline: false,
            blink: false,
            inverse: false,
            hidden: false,
            strike: false,
        }
    }
}

/// A cursor position, zero-based.
#[derive(Clone, Copy, Debug, Eq, PartialEq, Structural)]
pub struct Cursor {
    pub row: usize,
    pub column: usize,
}

impl Default for Cursor {
    fn default() -> (r: Cursor)
        ensures
            r == (Cursor { row: 0, column: 0 }),
    {
        Cursor { row: 0, column: 0 }
    }
}

/// Which mouse events the application asked for.
#[derive(Clone, Copy, Debug, Eq, PartialEq, Structural)]
pub enum MouseMode {
    Off,
    Press,
    Drag,
    Motion,
}

impl Default for MouseMode {
    fn default() -> (r: MouseMode)
        ensures
            r == MouseMode::Off,
    {
        MouseMode::Off
    }
}

/// Input modes that the application set.
#[derive(Clone, Copy, Debug, Eq, PartialEq, Structural)]
pub struct Modes {
    pub application_cursor_keys: bool,
    pub bracketed_paste: bool,
    pub cursor_visible: bool,
    pub mouse: MouseMode,
    pub sgr_mouse: bool,
}

pub open spec fn initial_modes() -> Modes {
    Modes {
        application_cursor_keys: false,
        bracketed_paste: false,
        cursor_visible: true,
        mouse: MouseMode::Off,
        sgr_mouse: false,
    }
}

impl Default for Modes {
    fn default() -> (r: Modes)
        ensures
            r == initial_modes(),
    {
        Modes {
            application_cursor_keys: false,
            bracketed_paste: false,
            cursor_visible: true,
            mouse: MouseMode::Off,
            sgr_mouse: false,
        }
    }
}

/// Why a screen cannot have a size.
#[derive(Clone, Copy, Debug, Eq, PartialEq, Structural)]
pub enum TerminalError {
    InvalidSize,
    ScreenTooLarge,
}

pub open spec fn terminal_error_message(error: TerminalError) -> Seq<char> {
    match error {
        TerminalError::InvalidSize => "terminal dimensions must be non-zero"@,
        TerminalError::ScreenTooLarge => "terminal screen exceeds 262144 cells"@,
    }
}

impl TerminalError {
    /// What the error says.
    pub fn message(self) -> (r: &'static str)
        ensures
            r@ == terminal_error_message(self),
    {
        match self {
            TerminalError::InvalidSize => "terminal dimensions must be non-zero",
            TerminalError::ScreenTooLarge => "terminal screen exceeds 262144 cells",
        }
    }
}

/// One cell of the screen: a character, any combining marks after it, and how many
/// columns it takes (0 for the right half of a wide character).
#[derive(Clone, Debug, Eq, PartialEq)]
pub struct Cell {
    character: char,
    combining: Option<String>,
    width: u8,
    attributes: Attributes,
}

pub struct CellView {
    pub character: char,
    pub combining: Seq<char>,
    pub width: u8,
    pub attributes: Attributes,
}

impl View for Cell {
    type V = CellView;

    closed spec fn view(&self) -> CellView {
        CellView {
            character: self.character,
            combining: match self.combining {
                Some(text) => text@,
                None => Seq::empty(),
            },
            width: self.width,
            attributes: self.attributes,
        }
    }
}

/// An empty cell drawn with `attributes`.
pub open spec fn blank(attributes: Attributes) -> CellView {
    CellView { character: ' ', combining: Seq::empty(), width: 1, attributes }
}

pub open spec fn blank_line(columns: nat, attributes: Attributes) -> Seq<CellView> {
    Seq::new(columns, |i: int| blank(attributes))
}

pub open spec fn blank_lines(count: nat, columns: nat, attributes: Attributes) -> Seq<Seq<CellView>> {
    Seq::new(count, |i: int| blank_line(columns, attributes))
}

pub open spec fn cells(line: Seq<Cell>) -> Seq<CellView> {
    line.map_values(|cell: Cell| cell@)
}

impl Cell {
    fn blank(attributes: Attributes) -> (r: Cell)
        ensures
            r@ == blank(attributes),
    {
        Cell { character: ' ', combining: None, width: 1, attributes }
    }

    pub fn character(&self) -> (r: char)
        ensures
            r == self@.character,
    {
        self.character
    }

    /// The combining marks drawn over the character.
    pub fn combining(&self) -> (r: &str)
        ensures
            r@ == self@.combining,
    {
        match &self.combining {
            Some(text) => text.as_str(),
            None => {
                let empty = "";
                proof {
                    reveal_strlit("");
                }
                empty
            },
        }
    }

    pub fn width(&self) -> (r: u8)
        ensures
            r == self@.width,
    {
        self.width
    }

    pub fn attributes(&self) -> (r: Attributes)
        ensures
            r == self@.attributes,
    {
        self.attributes
    }

    /// The right half of a wide character.
    pub fn is_continuation(&self) -> (r: bool)
        ensures
            r == (self@.width == 0),
    {
        self.width == 0
    }

    /// A copy of the cell.
    pub fn duplicate(&self) -> (r: Cell)
        ensures
            r@ == self@,
    {
        let combining = match &self.combining {
            Some(text) => Some(text.clone()),
            None => None,
        };
        Cell { character: self.character, combining, width: self.width, attributes: self.attributes }
    }

    /// The two cells draw the same.
    pub fn same(&self, other: &Cell) -> (r: bool)
        ensures
            r == (self@ == other@),
    {
        self.character == other.character && self.width == other.width && self.attributes
            == other.attributes && crate::text::str_eq(self.combining(), other.combining())
    }
}

/// A grid of cells with a cursor, a scrolling region and tab stops.
#[derive(Debug)]
pub struct Screen {
    rows: Vec<Vec<Cell>>,
    cursor: Cursor,
    saved_cursor: Cursor,
    scroll_top: usize,
    scroll_bottom: usize,
    tabs: Vec<bool>,
    wrap_pending: bool,
}

pub struct ScreenView {
    pub rows: Seq<Seq<CellView>>,
    pub cursor: Cursor,
    pub saved_cursor: Cursor,
    pub scroll_top: usize,
    pub scroll_bottom: usize,
    pub tabs: Seq<bool>,
    /// The last column was written: the next character goes to the next line.
    pub wrap_pending: bool,
}

impl View for Screen {
    type V = ScreenView;

    closed spec fn view(&self) -> ScreenView {
        ScreenView {
            rows: self.rows@.map_values(|line: Vec<Cell>| cells(line@)),
            cursor: self.cursor,
            saved_cursor: self.saved_cursor,
            scroll_top: self.scroll_top,
            scroll_bottom: self.scroll_bottom,
            tabs: self.tabs@,
            wrap_pending: self.wrap_pending,
        }
    }
}

/// A size that a screen may have: neither side zero, and not too many cells.
pub open spec fn valid_size(size: Size) -> bool {
    size.columns > 0 && size.rows > 0 && size.columns * size.rows <= MAX_SCREEN_CELLS
}

/// The tab stops of a fresh screen: every eighth column but the first.
pub open spec fn default_tabs(columns: nat) -> Seq<bool> {
    Seq::new(columns, |column: int| column != 0 && column % 8 == 0)
}

impl ScreenView {
    pub open spec fn height(self) -> nat {
        self.rows.len()
    }

    pub open spec fn columns(self) -> nat {
        self.rows[0].len()
    }

    /// Rows of equal length, a size that could be asked for, and the cursor, saved
    /// cursor and scrolling region inside the screen.
    pub open spec fn wf(self) -> bool {
        &&& self.rows.len() >= 1
        &&& self.rows[0].len() >= 1
        &&& forall|i: int| 0 <= i < self.rows.len() ==> (#[trigger] self.rows[i]).len() == self.rows[0].len()
        &&& valid_size(Size { columns: self.rows[0].len() as u16, rows: self.rows.len() as u16 })
        &&& self.rows.len() <= u16::MAX
        &&& self.rows[0].len() <= u16::MAX
        &&& self.cursor.row < self.rows.len()
        &&& self.cursor.column < self.rows[0].len()
        &&& self.saved_cursor.row < self.rows.len()
        &&& self.saved_cursor.column < self.rows[0].len()
        &&& self.scroll_top <= self.scroll_bottom < self.rows.len()
        &&& self.tabs.len() == self.rows[0].len()
    }

    pub open spec fn size(self) -> Size {
        Size { columns: self.columns() as u16, rows: self.height() as u16 }
    }

    pub open spec fn with_rows(self, rows: Seq<Seq<CellView>>) -> ScreenView {
        ScreenView { rows, ..self }
    }

    pub open spec fn with_cell(self, row: int, column: int, cell: CellView) -> ScreenView {
        self.with_rows(self.rows.update(row, self.rows[row].update(column, cell)))
    }
}

/// A fresh screen of the size.
pub open spec fn fresh_screen(size: Size) -> ScreenView {
    ScreenView {
        rows: blank_lines(size.rows as nat, size.columns as nat, plain()),
        cursor: Cursor { row: 0, column: 0 },
        saved_cursor: Cursor { row: 0, column: 0 },
        scroll_top: 0,
        scroll_bottom: (size.rows - 1) as usize,
        tabs: default_tabs(size.columns as nat),
        wrap_pending: false,
    }
}

pub open spec fn size_check(size: Size) -> Result<(), TerminalError> {
    if size.columns == 0 || size.rows == 0 {
        Err(TerminalError::InvalidSize)
    } else if size.columns * size.rows > MAX_SCREEN_CELLS {
        Err(TerminalError::ScreenTooLarge)
    } else {
        Ok(())
    }
}

pub fn validate_size(size: Size) -> (r: Result<(), TerminalError>)
    ensures
        r == size_check(size),
        r is Ok <==> valid_size(size),
{
    if size.columns == 0 || size.rows == 0 {
        return Err(TerminalError::InvalidSize);
    }
    let columns = size.columns as u64;
    let rows = size.rows as u64;
    assert(columns * rows <= 65535 * 65535) by (nonlinear_arith)
        requires
            columns <= 65535,
            rows <= 65535,
    ;
    if columns * rows > MAX_SCREEN_CELLS as u64 {
        return Err(TerminalError::ScreenTooLarge);
    }
    Ok(())
}

fn tab_stops(columns: usize) -> (r: Vec<bool>)
    ensures
        r@ == default_tabs(columns as nat),
{
    let mut tabs: Vec<bool> = Vec::new();
    let mut column: usize = 0;
    while column < columns
        invariant
            column <= columns,
            tabs@ == default_tabs(column as nat),
        decreases columns - column,
    {
        tabs.push(column != 0 && column % 8 == 0);
        column += 1;
        proof {
            assert(tabs@ =~= default_tabs(column as nat));
        }
    }
    tabs
}

fn blank_row_of(columns: usize, attributes: Attributes) -> (r: Vec<Cell>)
    ensures
        cells(r@) == blank_line(columns as nat, attributes),
{
    let mut line: Vec<Cell> = Vec::new();
    let mut column: usize = 0;
    while column < columns
        invariant
            column <= columns,
            line@.len() == column,
            cells(line@) == blank_line(column as nat, attributes),
        decreases columns - column,
    {
        let ghost before = line@;
        let cell = Cell::blank(attributes);
        line.push(cell);
        column += 1;
        proof {
            assert forall|i: int| 0 <= i < column implies #[trigger] cells(line@)[i] == blank(
                attributes,
            ) by {
                if i < column - 1 {
                    assert(line@[i] == before[i]);
                    assert(cells(before)[i] == blank_line((column - 1) as nat, attributes)[i]);
                }
            }
            assert(cells(line@) =~= blank_line(column as nat, attributes));
        }
    }
    line
}

impl Screen {
    pub fn new(size: Size) -> (r: Result<Screen, TerminalError>)
        ensures
            r is Ok <==> valid_size(size),
            r matches Err(e) ==> size_check(size) == Err::<(), TerminalError>(e),
            r matches Ok(screen) ==> screen@ == fresh_screen(size) && screen@.wf(),
    {
        validate_size(size)?;
        let columns = size.columns as usize;
        let height = size.rows as usize;
        let mut rows: Vec<Vec<Cell>> = Vec::new();
        let mut row: usize = 0;
        while row < height
            invariant
                row <= height,
                rows@.len() == row,
                rows@.map_values(|line: Vec<Cell>| cells(line@)) == blank_lines(
                    row as nat,
                    columns as nat,
                    plain(),
                ),
            decreases height - row,
        {
            let ghost before = rows@;
            let line = blank_row_of(columns, Attributes::default());
            rows.push(line);
            row += 1;
            proof {
                let lines = |line: Vec<Cell>| cells(line@);
                assert forall|i: int| 0 <= i < row implies #[trigger] rows@.map_values(lines)[i]
                    == blank_line(columns as nat, plain()) by {
                    if i < row - 1 {
                        assert(rows@[i] == before[i]);
                        assert(before.map_values(lines)[i] == blank_lines(
                            (row - 1) as nat,
                            columns as nat,
                            plain(),
                        )[i]);
                    }
                }
                assert(rows@.map_values(|line: Vec<Cell>| cells(line@)) =~= blank_lines(
                    row as nat,
                    columns as nat,
                    plain(),
                ));
            }
        }
        let screen = Screen {
            rows,
            cursor: Cursor { row: 0, column: 0 },
            saved_cursor: Cursor { row: 0, column: 0 },
            scroll_top: 0,
            scroll_bottom: height - 1,
            tabs: tab_stops(columns),
            wrap_pending: false,
        };
        proof {
            let v = screen@;
            assert(v.rows[0] == blank_line(columns as nat, plain()));
            assert(v.rows.len() == height);
            assert(v.size() == size);
        }
        Ok(screen)
    }

    /// The rows of cells, top first.
    pub fn rows(&self) -> (r: &[Vec<Cell>])
        ensures
            r@.map_values(|line: Vec<Cell>| cells(line@)) == self@.rows,
    {
        self.rows.as_slice()
    }

    pub fn cursor(&self) -> (r: Cursor)
        ensures
            r == self@.cursor,
    {
        self.cursor
    }

    pub fn size(&self) -> (r: Size)
        requires
            self@.wf(),
        ensures
            r == self@.size(),
    {
        Size { columns: self.columns() as u16, rows: self.height() as u16 }
    }

    fn columns(&self) -> (r: usize)
        requires
            self@.wf(),
        ensures
            r == self@.columns(),
    {
        proof {
            assert(self@.rows[0] == cells(self.rows@[0]@));
        }
        self.rows[0].len()
    }

    fn height(&self) -> (r: usize)
        ensures
            r == self@.height(),
    {
        self.rows.len()
    }

    fn set_cell(&mut self, row: usize, column: usize, cell: Cell)
        requires
            old(self)@.wf(),
            row < old(self)@.height(),
            column < old(self)@.columns(),
        ensures
            final(self)@ == old(self)@.with_cell(row as int, column as int, cell@),
            final(self)@.wf(),
            final(self)@.size() == old(self)@.size(),
    {
        let ghost before = self@;
        let ghost shown = cell@;
        proof {
            assert(self@.rows[row as int] == cells(self.rows@[row as int]@));
        }
        self.rows[row].set(column, cell);
        proof {
            let lines = |line: Vec<Cell>| cells(line@);
            assert(cells(self.rows@[row as int]@) =~= before.rows[row as int].update(
                column as int,
                shown,
            ));
            assert(self@.rows =~= before.rows.update(
                row as int,
                before.rows[row as int].update(column as int, shown),
            ));
        }
    }

    fn cell_width(&self, row: usize, column: usize) -> (r: u8)
        requires
            self@.wf(),
            row < self@.height(),
            column < self@.columns(),
        ensures
            r == self@.rows[row as int][column as int].width,
    {
        proof {
            assert(self@.rows[row as int] == cells(self.rows@[row as int]@));
        }
        self.rows[row][column].width
    }

    fn blank_row(&self, attributes: Attributes) -> (r: Vec<Cell>)
        requires
            self@.wf(),
        ensures
            cells(r@) == blank_line(self@.columns(), attributes),
    {
        blank_row_of(self.columns(), attributes)
    }

    fn take_row(&mut self, row: usize) -> (line: Vec<Cell>)
        requires
            row < old(self)@.height(),
        ensures
            cells(line@) == old(self)@.rows[row as int],
            final(self)@ == old(self)@.with_rows(old(self)@.rows.remove(row as int)),
    {
        let ghost before = self.rows@;
        let line = self.rows.remove(row);
        proof {
            let lines = |line: Vec<Cell>| cells(line@);
            assert(before.remove(row as int).map_values(lines) =~= before.map_values(lines).remove(
                row as int,
            ));
        }
        line
    }

    fn put_row(&mut self, row: usize, line: Vec<Cell>)
        requires
            row <= old(self)@.height(),
        ensures
            final(self)@ == old(self)@.with_rows(old(self)@.rows.insert(row as int, cells(line@))),
    {
        let ghost before = self.rows@;
        let ghost added = line;
        self.rows.insert(row, line);
        proof {
            let lines = |line: Vec<Cell>| cells(line@);
            assert(before.insert(row as int, added).map_values(lines) =~= before.map_values(
                lines,
            ).insert(row as int, cells(added@)));
        }
    }

    /// Moves the rows of the scrolling region from `from` down its bottom up by up to
    /// `count`, filling the bottom with blank rows.
    fn rows_up(&mut self, from: usize, count: usize, attributes: Attributes)
        requires
            old(self)@.wf(),
            old(self)@.scroll_top <= from <= old(self)@.scroll_bottom,
        ensures
            final(self)@ == lines_up(old(self)@, from as int, count as int, attributes),
            final(self)@.wf(),
            final(self)@.size() == old(self)@.size(),
    {
        let bottom = self.scroll_bottom;
        let limit = bottom - from + 1;
        let k = if count < limit {
            count
        } else {
            limit
        };
        let ghost start = self@;
        proof {
            let r = start.rows;
            assert(blank_lines(0, start.columns(), attributes) =~= Seq::<Seq<CellView>>::empty());
            assert(r =~= r.subrange(0, from as int) + r.subrange(from as int, bottom + 1)
                + blank_lines(0, start.columns(), attributes) + r.subrange(
                bottom + 1,
                r.len() as int,
            ));
            assert(r =~= r.subrange(0, from as int) + blank_lines(0, start.columns(), attributes)
                + r.subrange(from as int, bottom + 1) + r.subrange(bottom + 1, r.len() as int));
            assert(start.with_rows(r) == start);
        }
        let mut i: usize = 0;
        while i < k
            invariant
                start.wf(),
                start.scroll_top <= from <= bottom == start.scroll_bottom,
                k <= bottom - from + 1,
                i <= k,
                self@ == lines_up(start, from as int, i as int, attributes),
                self@.wf(),
            decreases k - i,
        {
            let ghost mid = self@;
            let blank = self.blank_row(attributes);
            let _ = self.take_row(from);
            self.put_row(bottom, blank);
            i += 1;
            proof {
                let r = start.rows;
                let cols = start.columns();
                assert(self@.rows =~= r.subrange(0, from as int) + r.subrange(
                    from + i,
                    bottom + 1,
                ) + blank_lines(i as nat, cols, attributes) + r.subrange(
                    bottom + 1,
                    r.len() as int,
                ));
                lemma_lines_up_wf(start, from as int, i as int, attributes);
            }
        }
    }

    /// Moves the rows of the scrolling region from `from` down by up to `count`,
    /// filling from `from` with blank rows.
    fn rows_down(&mut self, from: usize, count: usize, attributes: Attributes)
        requires
            old(self)@.wf(),
            old(self)@.scroll_top <= from <= old(self)@.scroll_bottom,
        ensures
            final(self)@ == lines_down(old(self)@, from as int, count as int, attributes),
            final(self)@.wf(),
            final(self)@.size() == old(self)@.size(),
    {
        let bottom = self.scroll_bottom;
        let limit = bottom - from + 1;
        let k = if count < limit {
            count
        } else {
            limit
        };
        let ghost start = self@;
        proof {
            let r = start.rows;
            assert(blank_lines(0, start.columns(), attributes) =~= Seq::<Seq<CellView>>::empty());
            assert(r =~= r.subrange(0, from as int) + r.subrange(from as int, bottom + 1)
                + blank_lines(0, start.columns(), attributes) + r.subrange(
                bottom + 1,
                r.len() as int,
            ));
            assert(r =~= r.subrange(0, from as int) + blank_lines(0, start.columns(), attributes)
                + r.subrange(from as int, bottom + 1) + r.subrange(bottom + 1, r.len() as int));
            assert(start.with_rows(r) == start);
        }
        let mut i: usize = 0;
        while i < k
            invariant
                start.wf(),
                start.scroll_top <= from <= bottom == start.scroll_bottom,
                k <= bottom - from + 1,
                i <= k,
                self@ == lines_down(start, from as int, i as int, attributes),
                self@.wf(),
            decreases k - i,
        {
            let blank = self.blank_row(attributes);
            let _ = self.take_row(bottom);
            self.put_row(from, blank);
            i += 1;
            proof {
                let r = start.rows;
                let cols = start.columns();
                assert(self@.rows =~= r.subrange(0, from as int) + blank_lines(
                    i as nat,
                    cols,
                    attributes,
                ) + r.subrange(from as int, bottom + 1 - i) + r.subrange(
                    bottom + 1,
                    r.len() as int,
                ));
                lemma_lines_down_wf(start, from as int, i as int, attributes);
            }
        }
    }

    fn scroll_up(&mut self, count: usize, attributes: Attributes)
        requires
            old(self)@.wf(),
        ensures
            final(self)@ == lines_up(
                old(self)@,
                old(self)@.scroll_top as int,
                count as int,
                attributes,
            ),
            final(self)@.wf(),
            final(self)@.size() == old(self)@.size(),
    {
        let top = self.scroll_top;
        self.rows_up(top, count, attributes);
    }

    fn scroll_down(&mut self, count: usize, attributes: Attributes)
        requires
            old(self)@.wf(),
        ensures
            final(self)@ == lines_down(
                old(self)@,
                old(self)@.scroll_top as int,
                count as int,
                attributes,
            ),
            final(self)@.wf(),
            final(self)@.size() == old(self)@.size(),
    {
        let top = self.scroll_top;
        self.rows_down(top, count, attributes);
    }
}

/// The rows from `from` to the bottom of the scrolling region moved up by up to
/// `count`, with blank rows below them.
pub open spec fn lines_up(s: ScreenView, from: int, count: int, attributes: Attributes) -> ScreenView {
    let bottom = s.scroll_bottom as int;
    let k = if count < bottom - from + 1 {
        count
    } else {
        bottom - from + 1
    };
    s.with_rows(
        s.rows.subrange(0, from) + s.rows.subrange(from + k, bottom + 1) + blank_lines(
            k as nat,
            s.columns(),
            attributes,
        ) + s.rows.subrange(bottom + 1, s.height() as int),
    )
}

/// The rows from `from` to the bottom of the scrolling region moved down by up to
/// `count`, with blank rows above them.
pub open spec fn lines_down(s: ScreenView, from: int, count: int, attributes: Attributes) -> ScreenView {
    let bottom = s.scroll_bottom as int;
    let k = if count < bottom - from + 1 {
        count
    } else {
        bottom - from + 1
    };
    s.with_rows(
        s.rows.subrange(0, from) + blank_lines(k as nat, s.columns(), attributes)
            + s.rows.subrange(from, bottom + 1 - k) + s.rows.subrange(bottom + 1, s.height() as int),
    )
}

/// Scrolling lines up inside the region keeps the screen well formed and its size.
pub proof fn lemma_lines_up_wf(s: ScreenView, from: int, count: int, attributes: Attributes)
    requires
        s.wf(),
        s.scroll_top <= from <= s.scroll_bottom,
        0 <= count,
    ensures
        lines_up(s, from, count, attributes).wf(),
        lines_up(s, from, count, attributes).height() == s.height(),
        lines_up(s, from, count, attributes).columns() == s.columns(),
{
    let t = lines_up(s, from, count, attributes);
    assert(t.rows.len() == s.rows.len());
    assert forall|i: int| 0 <= i < t.rows.len() implies (#[trigger] t.rows[i]).len() == s.columns() by {
    }
    assert(t.columns() == s.columns());
}

/// Scrolling lines down inside the region keeps the screen well formed and its size.
pub proof fn lemma_lines_down_wf(s: ScreenView, from: int, count: int, attributes: Attributes)
    requires
        s.wf(),
        s.scroll_top <= from <= s.scroll_bottom,
        0 <= count,
    ensures
        lines_down(s, from, count, attributes).wf(),
        lines_down(s, from, count, attributes).height() == s.height(),
        lines_down(s, from, count, attributes).columns() == s.columns(),
{
    let t = lines_down(s, from, count, attributes);
    assert(t.rows.len() == s.rows.len());
    assert forall|i: int| 0 <= i < t.rows.len() implies (#[trigger] t.rows[i]).len() == s.columns() by {
    }
    assert(t.columns() == s.columns());
}

/// The columns that an erase from `start` to `end` blanks: clipped to the row, and
/// widened to take in both halves of a wide character at either edge.
pub open spec fn erase_span(line: Seq<CellView>, start: int, end: int) -> (int, int) {
    let columns = line.len() as int;
    let s0 = if start < columns {
        start
    } else {
        columns
    };
    let e0 = if end < columns {
        end
    } else {
        columns
    };
    let s1 = if s0 > 0 && line[s0].width == 0 {
        s0 - 1
    } else {
        s0
    };
    let e1 = if e0 < columns && e0 > 0 && line[e0 - 1].width == 2 {
        e0 + 1
    } else {
        e0
    };
    (s1, e1)
}

pub open spec fn blanked(line: Seq<CellView>, from: int, to: int, attributes: Attributes) -> Seq<CellView> {
    Seq::new(
        line.len(),
        |i: int|
            if from <= i < to {
                blank(attributes)
            } else {
                line[i]
            },
    )
}

/// The screen with columns `start` to `end` of `row` erased.
pub open spec fn erased(s: ScreenView, row: int, start: int, end: int, attributes: Attributes) -> ScreenView {
    if start >= end {
        s
    } else {
        let (from, to) = erase_span(s.rows[row], start, end);
        s.with_rows(s.rows.update(row, blanked(s.rows[row], from, to, attributes)))
    }
}

/// A line feed: down a row, scrolling the region when at its bottom.
pub open spec fn fed(s: ScreenView, attributes: Attributes) -> ScreenView {
    let t = if s.cursor.row == s.scroll_bottom {
        lines_up(s, s.scroll_top as int, 1, attributes)
    } else if s.cursor.row + 1 < s.height() {
        ScreenView { cursor: Cursor { row: (s.cursor.row + 1) as usize, ..s.cursor }, ..s }
    } else {
        s
    };
    ScreenView { wrap_pending: false, ..t }
}

/// Before a cell is overwritten, the other half of a wide character on it is blanked.
pub open spec fn cleared_wide(s: ScreenView, row: int, column: int, attributes: Attributes) -> ScreenView {
    if s.rows[row][column].width == 0 && column > 0 {
        s.with_cell(row, column - 1, blank(attributes))
    } else if s.rows[row][column].width == 2 && column + 1 < s.columns() {
        s.with_cell(row, column + 1, blank(attributes))
    } else {
        s
    }
}

/// A wide character without its right half, or a right half without its wide
/// character, is blanked.
pub open spec fn normalize_at(line: Seq<CellView>, c: int) -> Seq<CellView> {
    let broken_wide = line[c].width == 2 && (c + 1 == line.len() || line[c + 1].width != 0);
    let broken_continuation = line[c].width == 0 && (c == 0 || line[c - 1].width != 2);
    if broken_wide || broken_continuation {
        line.update(c, blank(plain()))
    } else {
        line
    }
}

/// The line with each column from `c` on normalized in turn.
pub open spec fn normalized(line: Seq<CellView>, c: int) -> Seq<CellView>
    decreases line.len() - c,
{
    if c < 0 || c >= line.len() {
        line
    } else {
        normalized(normalize_at(line, c), c + 1)
    }
}

/// Normalizing a line keeps its length.
pub proof fn lemma_normalized_len(line: Seq<CellView>, c: int)
    ensures
        normalized(line, c).len() == line.len(),
    decreases line.len() - c,
{
    if 0 <= c < line.len() {
        lemma_normalized_len(normalize_at(line, c), c + 1);
    }
}

/// Blanks each broken half of a wide character in the row.
fn normalize_row(row: &mut Vec<Cell>)
    ensures
        cells(final(row)@) == normalized(cells(old(row)@), 0),
{
    let ghost goal = normalized(cells(row@), 0);
    let mut column: usize = 0;
    while column < row.len()
        invariant
            column <= row@.len(),
            normalized(cells(row@), column as int) == goal,
        decreases row.len() - column,
    {
        let width = row[column].width;
        let broken_wide = width == 2 && (column + 1 == row.len() || row[column + 1].width != 0);
        let broken_continuation = width == 0 && (column == 0 || row[column - 1].width != 2);
        let ghost before = cells(row@);
        if broken_wide || broken_continuation {
            row.set(column, Cell::blank(Attributes::default()));
        }
        proof {
            assert(cells(row@) =~= normalize_at(before, column as int));
        }
        column += 1;
    }
}

impl Screen {
    fn replace_row(&mut self, row: usize, line: Vec<Cell>) -> (previous: Vec<Cell>)
        requires
            row < old(self)@.height(),
        ensures
            cells(previous@) == old(self)@.rows[row as int],
            final(self)@ == old(self)@.with_rows(old(self)@.rows.update(row as int, cells(line@))),
    {
        let ghost before = self.rows@;
        let ghost added = line;
        let mut line = line;
        std::mem::swap(&mut self.rows[row], &mut line);
        proof {
            let lines = |line: Vec<Cell>| cells(line@);
            assert(self.rows@.map_values(lines) =~= before.map_values(lines).update(
                row as int,
                cells(added@),
            ));
        }
        line
    }

    fn normalize(&mut self, row: usize)
        requires
            old(self)@.wf(),
            row < old(self)@.height(),
        ensures
            final(self)@ == old(self)@.with_rows(
                old(self)@.rows.update(row as int, normalized(old(self)@.rows[row as int], 0)),
            ),
            final(self)@.wf(),
            final(self)@.size() == old(self)@.size(),
    {
        let mut line = self.replace_row(row, Vec::new());
        normalize_row(&mut line);
        proof {
            lemma_normalized_len(old(self)@.rows[row as int], 0);
        }
        let _ = self.replace_row(row, line);
        proof {
            let o = old(self)@;
            assert(self@.rows =~= o.rows.update(row as int, normalized(o.rows[row as int], 0)));
            assert(self@.rows[0].len() == o.rows[0].len());
            assert forall|i: int| 0 <= i < self@.rows.len() implies (#[trigger] self@.rows[i]).len()
                == self@.rows[0].len() by {
                assert(o.rows[i].len() == o.rows[0].len());
            }
        }
    }

    /// Blanks the columns `start` to `end` of `row`, with both halves of any wide
    /// character at either edge.
    fn erase(&mut self, row: usize, start: usize, end: usize, attributes: Attributes)
        requires
            old(self)@.wf(),
            row < old(self)@.height(),
            start < old(self)@.columns(),
        ensures
            final(self)@ == erased(old(self)@, row as int, start as int, end as int, attributes),
            final(self)@.wf(),
            final(self)@.size() == old(self)@.size(),
    {
        if start >= end {
            return;
        }
        let columns = self.columns();
        let mut from = if start < columns {
            start
        } else {
            columns
        };
        let mut to = if end < columns {
            end
        } else {
            columns
        };
        if from > 0 && self.cell_width(row, from) == 0 {
            from -= 1;
        }
        if to < columns && to > 0 && self.cell_width(row, to - 1) == 2 {
            to += 1;
        }
        let ghost start_view = self@;
        let ghost line = self@.rows[row as int];
        proof {
            assert(blanked(line, from as int, from as int, attributes) =~= line);
            assert(start_view.rows.update(row as int, line) =~= start_view.rows);
        }
        let mut column = from;
        while column < to
            invariant
                start_view.wf(),
                row < start_view.height(),
                line == start_view.rows[row as int],
                to <= columns == start_view.columns(),
                from <= column,
                column <= to || from >= to,
                self@ == start_view.with_rows(
                    start_view.rows.update(row as int, blanked(line, from as int, column as int, attributes)),
                ),
                self@.wf(),
            decreases to - column,
        {
            let ghost before = self@;
            self.set_cell(row, column, Cell::blank(attributes));
            column += 1;
            proof {
                assert(self@.rows[row as int] =~= blanked(line, from as int, column as int, attributes));
                assert(self@.rows =~= start_view.rows.update(
                    row as int,
                    blanked(line, from as int, column as int, attributes),
                ));
            }
        }
        proof {
            assert(blanked(line, from as int, column as int, attributes) =~= blanked(
                line,
                from as int,
                to as int,
                attributes,
            ));
        }
    }
}

pub open spec fn with_cursor(s: ScreenView, cursor: Cursor) -> ScreenView {
    ScreenView { cursor, ..s }
}

/// The first tab stop after `from`, or the last column.
pub open spec fn next_stop(tabs: Seq<bool>, from: int, columns: int) -> int
    decreases columns - from,
{
    if from + 1 >= columns {
        columns - 1
    } else if tabs[from + 1] {
        from + 1
    } else {
        next_stop(tabs, from + 1, columns)
    }
}

/// The last tab stop before `from`, or the first column.
pub open spec fn previous_stop(tabs: Seq<bool>, from: int) -> int
    decreases from,
{
    if from <= 0 {
        0
    } else if tabs[from - 1] {
        from - 1
    } else {
        previous_stop(tabs, from - 1)
    }
}

/// The next tab stop lies between the column and the line's end.
pub proof fn lemma_next_stop(tabs: Seq<bool>, from: int, columns: int)
    requires
        0 <= from < columns,
    ensures
        from <= next_stop(tabs, from, columns) < columns,
    decreases columns - from,
{
    if from + 1 < columns && !tabs[from + 1] {
        lemma_next_stop(tabs, from + 1, columns);
    }
}

/// The previous tab stop lies between the line's start and the column.
pub proof fn lemma_previous_stop(tabs: Seq<bool>, from: int)
    requires
        0 <= from,
    ensures
        0 <= previous_stop(tabs, from) <= from,
    decreases from,
{
    if from > 0 && !tabs[from - 1] {
        lemma_previous_stop(tabs, from - 1);
    }
}

/// The cursor moved over `count` tab stops.
pub open spec fn tabbed(s: ScreenView, count: nat, forward: bool) -> ScreenView
    decreases count,
{
    if count == 0 {
        s
    } else {
        let column = if forward {
            next_stop(s.tabs, s.cursor.column as int, s.columns() as int)
        } else {
            previous_stop(s.tabs, s.cursor.column as int)
        };
        tabbed(with_cursor(s, Cursor { column: column as usize, ..s.cursor }), (count - 1) as nat, forward)
    }
}

/// The screen with the cursor's row from `row` on, and its later rows, blanked
/// according to an erase-display `mode`.
pub open spec fn erased_display(s: ScreenView, mode: u16, attributes: Attributes) -> ScreenView {
    let c = s.cursor;
    let columns = s.columns();
    let height = s.height();
    if mode == 0 {
        let t = erased(s, c.row as int, c.column as int, columns as int, attributes);
        t.with_rows(
            Seq::new(
                height,
                |i: int|
                    if i > c.row {
                        blank_line(columns, attributes)
                    } else {
                        t.rows[i]
                    },
            ),
        )
    } else if mode == 1 {
        let t = s.with_rows(
            Seq::new(
                height,
                |i: int|
                    if i < c.row {
                        blank_line(columns, attributes)
                    } else {
                        s.rows[i]
                    },
            ),
        );
        erased(t, c.row as int, 0, c.column + 1, attributes)
    } else if mode == 2 || mode == 3 {
        s.with_rows(blank_lines(height, columns, attributes))
    } else {
        s
    }
}

pub open spec fn erased_line(s: ScreenView, mode: u16, attributes: Attributes) -> ScreenView {
    let c = s.cursor;
    if mode == 0 {
        erased(s, c.row as int, c.column as int, s.columns() as int, attributes)
    } else if mode == 1 {
        erased(s, c.row as int, 0, c.column + 1, attributes)
    } else if mode == 2 {
        erased(s, c.row as int, 0, s.columns() as int, attributes)
    } else {
        s
    }
}

/// Cells inserted at the cursor, pushing the rest of the row right.
pub open spec fn cells_inserted(s: ScreenView, count: int, attributes: Attributes) -> ScreenView {
    let row = s.cursor.row as int;
    let column = s.cursor.column as int;
    let columns = s.columns() as int;
    let k = if count < columns - column {
        count
    } else {
        columns - column
    };
    let line = s.rows[row];
    s.with_rows(
        s.rows.update(
            row,
            normalized(
                line.subrange(0, column) + blank_line(k as nat, attributes) + line.subrange(
                    column,
                    columns - k,
                ),
                0,
            ),
        ),
    )
}

/// Cells deleted at the cursor, pulling the rest of the row left.
pub open spec fn cells_deleted(s: ScreenView, count: int, attributes: Attributes) -> ScreenView {
    let row = s.cursor.row as int;
    let column = s.cursor.column as int;
    let columns = s.columns() as int;
    let k = if count < columns - column {
        count
    } else {
        columns - column
    };
    let line = s.rows[row];
    s.with_rows(
        s.rows.update(
            row,
            normalized(
                line.subrange(0, column) + line.subrange(column + k, columns) + blank_line(
                    k as nat,
                    attributes,
                ),
                0,
            ),
        ),
    )
}

/// The cursor's row lies in the scrolling region.
pub open spec fn in_region(s: ScreenView) -> bool {
    s.scroll_top <= s.cursor.row <= s.scroll_bottom
}

/// Erasing a row from its first to its last column blanks the whole row.
pub proof fn lemma_erase_whole_row(s: ScreenView, row: int, attributes: Attributes)
    requires
        s.wf(),
        0 <= row < s.height(),
    ensures
        erased(s, row, 0, s.columns() as int, attributes) == s.with_rows(
            s.rows.update(row, blank_line(s.columns(), attributes)),
        ),
{
    assert(s.rows[row].len() == s.columns());
    assert(blanked(s.rows[row], 0, s.columns() as int, attributes) =~= blank_line(
        s.columns(),
        attributes,
    ));
}

/// Rows of the screen's width, as many as it has, keep the screen well formed.
pub proof fn lemma_with_rows_wf(s: ScreenView, rows: Seq<Seq<CellView>>)
    requires
        s.wf(),
        rows.len() == s.rows.len(),
        forall|i: int| 0 <= i < rows.len() ==> (#[trigger] rows[i]).len() == s.columns(),
    ensures
        s.with_rows(rows).wf(),
        s.with_rows(rows).columns() == s.columns(),
        s.with_rows(rows).height() == s.height(),
{
    assert(rows[0].len() == s.columns());
}

/// A line feed on the screen.
fn linefeed(screen: &mut Screen, attributes: Attributes)
    requires
        old(screen)@.wf(),
    ensures
        final(screen)@ == fed(old(screen)@, attributes),
        final(screen)@.wf(),
        final(screen)@.size() == old(screen)@.size(),
{
    if screen.cursor.row == screen.scroll_bottom {
        let top = screen.scroll_top;
        proof {
            lemma_lines_up_wf(screen@, top as int, 1, attributes);
        }
        screen.scroll_up(1, attributes);
    } else if screen.cursor.row + 1 < screen.height() {
        screen.cursor.row = screen.cursor.row + 1;
    }
    screen.wrap_pending = false;
}

fn clear_wide_at(screen: &mut Screen, row: usize, column: usize, attributes: Attributes)
    requires
        old(screen)@.wf(),
        row < old(screen)@.height(),
        column < old(screen)@.columns(),
    ensures
        final(screen)@ == cleared_wide(old(screen)@, row as int, column as int, attributes),
        final(screen)@.wf(),
        final(screen)@.size() == old(screen)@.size(),
{
    let width = screen.cell_width(row, column);
    if width == 0 && column > 0 {
        screen.set_cell(row, column - 1, Cell::blank(attributes));
    } else if width == 2 && column + 1 < screen.columns() {
        screen.set_cell(row, column + 1, Cell::blank(attributes));
    }
}

fn erase_display(screen: &mut Screen, mode: u16, attributes: Attributes)
    requires
        old(screen)@.wf(),
    ensures
        final(screen)@ == erased_display(old(screen)@, mode, attributes),
        final(screen)@.wf(),
        final(screen)@.size() == old(screen)@.size(),
{
    let cursor = screen.cursor;
    let columns = screen.columns();
    let height = screen.height();
    let ghost s = screen@;
    if mode == 0 {
        screen.erase(cursor.row, cursor.column, columns, attributes);
        let ghost t = screen@;
        let mut row = cursor.row + 1;
        proof {
            assert(t.rows =~= Seq::new(
                height as nat,
                |i: int|
                    if cursor.row < i < row {
                        blank_line(columns as nat, attributes)
                    } else {
                        t.rows[i]
                    },
            ));
        }
        while row < height
            invariant
                s.wf(),
                t.wf(),
                t.height() == height == s.height(),
                t.columns() == columns == s.columns(),
                cursor == s.cursor,
                cursor.row < row <= height,
                screen@.wf(),
                screen@ == t.with_rows(
                    Seq::new(
                        height as nat,
                        |i: int|
                            if cursor.row < i < row {
                                blank_line(columns as nat, attributes)
                            } else {
                                t.rows[i]
                            },
                    ),
                ),
            decreases height - row,
        {
            let ghost before = screen@;
            proof {
                lemma_erase_whole_row(before, row as int, attributes);
            }
            screen.erase(row, 0, columns, attributes);
            row += 1;
            proof {
                assert(screen@.rows =~= Seq::new(
                    height as nat,
                    |i: int|
                        if cursor.row < i < row {
                            blank_line(columns as nat, attributes)
                        } else {
                            t.rows[i]
                        },
                ));
            }
        }
        proof {
            assert(screen@.rows =~= erased_display(s, mode, attributes).rows);
        }
    } else if mode == 1 {
        let mut row: usize = 0;
        proof {
            assert(s.rows =~= Seq::new(
                height as nat,
                |i: int|
                    if i < row {
                        blank_line(columns as nat, attributes)
                    } else {
                        s.rows[i]
                    },
            ));
        }
        while row < cursor.row
            invariant
                s.wf(),
                cursor == s.cursor,
                height == s.height(),
                columns == s.columns(),
                row <= cursor.row,
                screen@.wf(),
                screen@ == s.with_rows(
                    Seq::new(
                        height as nat,
                        |i: int|
                            if i < row {
                                blank_line(columns as nat, attributes)
                            } else {
                                s.rows[i]
                            },
                    ),
                ),
            decreases cursor.row - row,
        {
            let ghost before = screen@;
            proof {
                lemma_erase_whole_row(before, row as int, attributes);
            }
            screen.erase(row, 0, columns, attributes);
            row += 1;
            proof {
                assert(screen@.rows =~= Seq::new(
                    height as nat,
                    |i: int|
                        if i < row {
                            blank_line(columns as nat, attributes)
                        } else {
                            s.rows[i]
                        },
                ));
            }
        }
        proof {
            assert(screen@.rows =~= Seq::new(
                height as nat,
                |i: int|
                    if i < cursor.row {
                        blank_line(columns as nat, attributes)
                    } else {
                        s.rows[i]
                    },
            ));
        }
        screen.erase(cursor.row, 0, cursor.column + 1, attributes);
    } else if mode == 2 || mode == 3 {
        let mut row: usize = 0;
        proof {
            assert(s.rows =~= Seq::new(
                height as nat,
                |i: int|
                    if i < row {
                        blank_line(columns as nat, attributes)
                    } else {
                        s.rows[i]
                    },
            ));
        }
        while row < height
            invariant
                s.wf(),
                height == s.height(),
                columns == s.columns(),
                row <= height,
                screen@.wf(),
                screen@ == s.with_rows(
                    Seq::new(
                        height as nat,
                        |i: int|
                            if i < row {
                                blank_line(columns as nat, attributes)
                            } else {
                                s.rows[i]
                            },
                    ),
                ),
            decreases height - row,
        {
            let ghost before = screen@;
            proof {
                lemma_erase_whole_row(before, row as int, attributes);
            }
            screen.erase(row, 0, columns, attributes);
            row += 1;
            proof {
                assert(screen@.rows =~= Seq::new(
                    height as nat,
                    |i: int|
                        if i < row {
                            blank_line(columns as nat, attributes)
                        } else {
                            s.rows[i]
                        },
                ));
            }
        }
        proof {
            assert(screen@.rows =~= blank_lines(height as nat, columns as nat, attributes));
        }
    }
}

fn erase_line(screen: &mut Screen, mode: u16, attributes: Attributes)
    requires
        old(screen)@.wf(),
    ensures
        final(screen)@ == erased_line(old(screen)@, mode, attributes),
        final(screen)@.wf(),
        final(screen)@.size() == old(screen)@.size(),
{
    let cursor = screen.cursor;
    let columns = screen.columns();
    if mode == 0 {
        screen.erase(cursor.row, cursor.column, columns, attributes);
    } else if mode == 1 {
        screen.erase(cursor.row, 0, cursor.column + 1, attributes);
    } else if mode == 2 {
        screen.erase(cursor.row, 0, columns, attributes);
    }
}

fn insert_cells(screen: &mut Screen, count: usize, attributes: Attributes)
    requires
        old(screen)@.wf(),
    ensures
        final(screen)@ == cells_inserted(old(screen)@, count as int, attributes),
        final(screen)@.wf(),
        final(screen)@.size() == old(screen)@.size(),
{
    let row = screen.cursor.row;
    let column = screen.cursor.column;
    let columns = screen.columns();
    let limit = columns - column;
    let k = if count < limit {
        count
    } else {
        limit
    };
    let ghost s = screen@;
    let ghost old_line = s.rows[row as int];
    let mut line = screen.replace_row(row, Vec::new());
    proof {
        assert(old_line.subrange(0, column as int) + blank_line(0, attributes) + old_line.subrange(
            column as int,
            columns as int,
        ) =~= old_line);
    }
    let mut i: usize = 0;
    while i < k
        invariant
            column < columns,
            k <= columns - column,
            i <= k,
            old_line.len() == columns,
            line@.len() == columns,
            cells(line@) == old_line.subrange(0, column as int) + blank_line(i as nat, attributes)
                + old_line.subrange(column as int, columns - i),
        decreases k - i,
    {
        let ghost before = line@;
        let cell = Cell::blank(attributes);
        let ghost added = cell;
        line.insert(column, cell);
        let ghost mid = line@;
        let _ = line.pop();
        i += 1;
        proof {
            assert(mid =~= before.insert(column as int, added));
            assert(line@ =~= mid.drop_last());
            assert(cells(mid) =~= cells(before).insert(column as int, blank(attributes)));
            assert(cells(line@) =~= cells(mid).drop_last());
            assert(cells(before).insert(column as int, blank(attributes)).drop_last()
                =~= old_line.subrange(0, column as int) + blank_line(i as nat, attributes)
                + old_line.subrange(column as int, columns - i));
        }
    }
    normalize_row(&mut line);
    proof {
        lemma_normalized_len(
            old_line.subrange(0, column as int) + blank_line(k as nat, attributes)
                + old_line.subrange(column as int, columns - k),
            0,
        );
    }
    let _ = screen.replace_row(row, line);
    proof {
        let t = cells_inserted(s, count as int, attributes);
        assert(screen@.rows =~= t.rows);
        lemma_with_rows_wf(s, t.rows);
    }
}

fn delete_cells(screen: &mut Screen, count: usize, attributes: Attributes)
    requires
        old(screen)@.wf(),
    ensures
        final(screen)@ == cells_deleted(old(screen)@, count as int, attributes),
        final(screen)@.wf(),
        final(screen)@.size() == old(screen)@.size(),
{
    let row = screen.cursor.row;
    let column = screen.cursor.column;
    let columns = screen.columns();
    let limit = columns - column;
    let k = if count < limit {
        count
    } else {
        limit
    };
    let ghost s = screen@;
    let ghost old_line = s.rows[row as int];
    let mut line = screen.replace_row(row, Vec::new());
    proof {
        assert(old_line.subrange(0, column as int) + old_line.subrange(column as int, columns as int)
            + blank_line(0, attributes) =~= old_line);
    }
    let mut i: usize = 0;
    while i < k
        invariant
            column < columns,
            k <= columns - column,
            i <= k,
            old_line.len() == columns,
            line@.len() == columns,
            cells(line@) == old_line.subrange(0, column as int) + old_line.subrange(
                column + i,
                columns as int,
            ) + blank_line(i as nat, attributes),
        decreases k - i,
    {
        let ghost before = line@;
        let _ = line.remove(column);
        let ghost mid = line@;
        let cell = Cell::blank(attributes);
        let ghost added = cell;
        line.push(cell);
        i += 1;
        proof {
            assert(cells(mid) =~= cells(before).remove(column as int));
            assert(cells(line@) =~= cells(mid).push(blank(attributes)));
            assert(cells(line@) =~= old_line.subrange(0, column as int) + old_line.subrange(
                column + i,
                columns as int,
            ) + blank_line(i as nat, attributes));
        }
    }
    normalize_row(&mut line);
    proof {
        lemma_normalized_len(
            old_line.subrange(0, column as int) + old_line.subrange(column + k, columns as int)
                + blank_line(k as nat, attributes),
            0,
        );
    }
    let _ = screen.replace_row(row, line);
    proof {
        let t = cells_deleted(s, count as int, attributes);
        assert(screen@.rows =~= t.rows);
        lemma_with_rows_wf(s, t.rows);
    }
}

fn insert_lines(screen: &mut Screen, count: usize, attributes: Attributes)
    requires
        old(screen)@.wf(),
    ensures
        final(screen)@ == if in_region(old(screen)@) {
            lines_down(old(screen)@, old(screen)@.cursor.row as int, count as int, attributes)
        } else {
            old(screen)@
        },
        final(screen)@.wf(),
        final(screen)@.size() == old(screen)@.size(),
{
    let row = screen.cursor.row;
    if row < screen.scroll_top || row > screen.scroll_bottom {
        return;
    }
    screen.rows_down(row, count, attributes);
}

fn delete_lines(screen: &mut Screen, count: usize, attributes: Attributes)
    requires
        old(screen)@.wf(),
    ensures
        final(screen)@ == if in_region(old(screen)@) {
            lines_up(old(screen)@, old(screen)@.cursor.row as int, count as int, attributes)
        } else {
            old(screen)@
        },
        final(screen)@.wf(),
        final(screen)@.size() == old(screen)@.size(),
{
    let row = screen.cursor.row;
    if row < screen.scroll_top || row > screen.scroll_bottom {
        return;
    }
    screen.rows_up(row, count, attributes);
}

impl Screen {
    fn next_tab_stop(&self, from: usize) -> (r: usize)
        requires
            self@.wf(),
            from < self@.columns(),
        ensures
            r == next_stop(self@.tabs, from as int, self@.columns() as int),
    {
        let columns = self.columns();
        let mut column = from;
        while column + 1 < columns && !self.tabs[column + 1]
            invariant
                self@.wf(),
                columns == self@.columns(),
                from <= column < columns,
                next_stop(self@.tabs, column as int, columns as int) == next_stop(
                    self@.tabs,
                    from as int,
                    columns as int,
                ),
            decreases columns - column,
        {
            column += 1;
        }
        if column + 1 < columns {
            column + 1
        } else {
            columns - 1
        }
    }

    fn previous_tab_stop(&self, from: usize) -> (r: usize)
        requires
            self@.wf(),
            from < self@.columns(),
        ensures
            r == previous_stop(self@.tabs, from as int),
    {
        let mut column = from;
        while column > 0 && !self.tabs[column - 1]
            invariant
                self@.wf(),
                column <= from < self@.columns(),
                previous_stop(self@.tabs, column as int) == previous_stop(self@.tabs, from as int),
            decreases column,
        {
            column -= 1;
        }
        if column > 0 {
            column - 1
        } else {
            0
        }
    }
}

fn move_tabs(screen: &mut Screen, count: usize, forward: bool)
    requires
        old(screen)@.wf(),
    ensures
        final(screen)@ == (ScreenView {
            wrap_pending: false,
            ..tabbed(old(screen)@, count as nat, forward)
        }),
        final(screen)@.wf(),
        final(screen)@.size() == old(screen)@.size(),
{
    let ghost goal = tabbed(screen@, count as nat, forward);
    let mut left = count;
    while left > 0
        invariant
            screen@.wf(),
            screen@.size() == old(screen)@.size(),
            tabbed(screen@, left as nat, forward) == goal,
        decreases left,
    {
        let column = screen.cursor.column;
        proof {
            lemma_next_stop(screen@.tabs, column as int, screen@.columns() as int);
            lemma_previous_stop(screen@.tabs, column as int);
        }
        screen.cursor.column = if forward {
            screen.next_tab_stop(column)
        } else {
            screen.previous_tab_stop(column)
        };
        left -= 1;
    }
    screen.wrap_pending = false;
}

/// The screen blanked, with the cursor home and the scrolling region the whole
/// screen; tab stops stay.
pub open spec fn cleared_screen(s: ScreenView) -> ScreenView {
    ScreenView {
        rows: blank_lines(s.height(), s.columns(), plain()),
        cursor: Cursor { row: 0, column: 0 },
        saved_cursor: Cursor { row: 0, column: 0 },
        scroll_top: 0,
        scroll_bottom: (s.height() - 1) as usize,
        tabs: s.tabs,
        wrap_pending: false,
    }
}

/// A row cut or widened to `columns`, with any wide character it breaks blanked.
pub open spec fn fitted_line(line: Seq<CellView>, columns: nat) -> Seq<CellView> {
    normalized(
        if columns <= line.len() {
            line.subrange(0, columns as int)
        } else {
            line + blank_line((columns - line.len()) as nat, plain())
        },
        0,
    )
}

/// Tab stops kept where the screen still reaches, with every eighth column added.
pub open spec fn resized_tabs(tabs: Seq<bool>, columns: nat) -> Seq<bool> {
    Seq::new(columns, |c: int| (c < tabs.len() && tabs[c]) || (c != 0 && c % 8 == 0))
}

pub open spec fn clamped(value: usize, limit: nat) -> usize {
    if value < limit {
        value
    } else {
        (limit - 1) as usize
    }
}

/// The screen at a new size: rows cut or widened, rows dropped from the bottom or
/// added blank, the cursors kept inside, the scrolling region the whole screen.
pub open spec fn resized_screen(s: ScreenView, size: Size) -> ScreenView {
    let columns = size.columns as nat;
    let height = size.rows as nat;
    let kept = Seq::new(s.height(), |i: int| fitted_line(s.rows[i], columns));
    ScreenView {
        rows: if height <= s.height() {
            kept.subrange(0, height as int)
        } else {
            kept + blank_lines((height - s.height()) as nat, columns, plain())
        },
        cursor: Cursor {
            row: clamped(s.cursor.row, height),
            column: clamped(s.cursor.column, columns),
        },
        saved_cursor: Cursor {
            row: clamped(s.saved_cursor.row, height),
            column: clamped(s.saved_cursor.column, columns),
        },
        scroll_top: 0,
        scroll_bottom: (height - 1) as usize,
        tabs: resized_tabs(s.tabs, columns),
        wrap_pending: false,
    }
}

impl Screen {
    fn clear(&mut self)
        requires
            old(self)@.wf(),
        ensures
            final(self)@ == cleared_screen(old(self)@),
            final(self)@.wf(),
            final(self)@.size() == old(self)@.size(),
    {
        let ghost s = self@;
        let columns = self.columns();
        let height = self.height();
        let mut row: usize = 0;
        proof {
            assert(s.rows =~= Seq::new(
                height as nat,
                |i: int|
                    if i < row {
                        blank_line(columns as nat, plain())
                    } else {
                        s.rows[i]
                    },
            ));
        }
        while row < height
            invariant
                s.wf(),
                height == s.height(),
                columns == s.columns(),
                row <= height,
                self@ == s.with_rows(
                    Seq::new(
                        height as nat,
                        |i: int|
                            if i < row {
                                blank_line(columns as nat, plain())
                            } else {
                                s.rows[i]
                            },
                    ),
                ),
            decreases height - row,
        {
            let line = blank_row_of(columns, Attributes::default());
            let _ = self.replace_row(row, line);
            row += 1;
            proof {
                assert(self@.rows =~= Seq::new(
                    height as nat,
                    |i: int|
                        if i < row {
                            blank_line(columns as nat, plain())
                        } else {
                            s.rows[i]
                        },
                ));
            }
        }
        self.cursor = Cursor { row: 0, column: 0 };
        self.saved_cursor = Cursor { row: 0, column: 0 };
        self.scroll_top = 0;
        self.scroll_bottom = height - 1;
        self.wrap_pending = false;
        proof {
            assert(self@.rows =~= blank_lines(height as nat, columns as nat, plain()));
        }
    }

    fn resize(&mut self, size: Size) -> (r: Result<(), TerminalError>)
        requires
            old(self)@.wf(),
        ensures
            r == size_check(size),
            r is Ok ==> final(self)@ == resized_screen(old(self)@, size) && final(self)@.wf(),
            r is Err ==> final(self)@ == old(self)@,
    {
        validate_size(size)?;
        let columns = size.columns as usize;
        let height = size.rows as usize;
        let ghost s = self@;
        let count = self.height();
        let mut row: usize = 0;
        proof {
            assert(s.rows =~= Seq::new(
                count as nat,
                |i: int|
                    if i < row {
                        fitted_line(s.rows[i], columns as nat)
                    } else {
                        s.rows[i]
                    },
            ));
        }
        while row < count
            invariant
                s.wf(),
                count == s.height(),
                row <= count,
                self@ == s.with_rows(
                    Seq::new(
                        count as nat,
                        |i: int|
                            if i < row {
                                fitted_line(s.rows[i], columns as nat)
                            } else {
                                s.rows[i]
                            },
                    ),
                ),
            decreases count - row,
        {
            let mut line = self.replace_row(row, Vec::new());
            let ghost old_line = cells(line@);
            if columns <= line.len() {
                line.truncate(columns);
                proof {
                    assert(cells(line@) =~= old_line.subrange(0, columns as int));
                }
            } else {
                let ghost start_len = line@.len();
                while line.len() < columns
                    invariant
                        start_len <= line@.len() <= columns,
                        old_line.len() == start_len,
                        cells(line@) == old_line + blank_line((line@.len() - start_len) as nat, plain()),
                    decreases columns - line.len(),
                {
                    let ghost before = line@;
                    let cell = Cell::blank(Attributes::default());
                    let ghost added = cell;
                    line.push(cell);
                    proof {
                        let n = (before.len() - start_len) as nat;
                        assert(line@ =~= before.push(added));
                        assert(cells(line@) =~= cells(before).push(blank(plain())));
                        assert(blank_line(n + 1, plain()) =~= blank_line(n, plain()).push(blank(plain())));
                        assert(cells(line@) =~= old_line + blank_line(
                            (line@.len() - start_len) as nat,
                            plain(),
                        ));
                    }
                }
            }
            normalize_row(&mut line);
            let _ = self.replace_row(row, line);
            row += 1;
            proof {
                assert(self@.rows =~= Seq::new(
                    count as nat,
                    |i: int|
                        if i < row {
                            fitted_line(s.rows[i], columns as nat)
                        } else {
                            s.rows[i]
                        },
                ));
            }
        }
        let ghost kept = self@.rows;
        proof {
            assert(kept =~= Seq::new(count as nat, |i: int| fitted_line(s.rows[i], columns as nat)));
            assert(self.rows@.len() == count);
            assert(blank_lines(0, columns as nat, plain()) =~= Seq::<Seq<CellView>>::empty());
            assert(kept + blank_lines(0, columns as nat, plain()) =~= kept);
        }
        if height <= count {
            self.rows.truncate(height);
            proof {
                let lines = |line: Vec<Cell>| cells(line@);
                assert(self@.rows =~= kept.subrange(0, height as int));
            }
        } else {
            while self.rows.len() < height
                invariant
                    count <= self.rows@.len() <= height,
                    kept.len() == count,
                    self@.cursor == s.cursor,
                    self@.saved_cursor == s.saved_cursor,
                    self@.tabs == s.tabs,
                    self@.rows == kept + blank_lines((self.rows@.len() - count) as nat, columns as nat, plain()),
                decreases height - self.rows.len(),
            {
                let line = blank_row_of(columns, Attributes::default());
                let ghost before = self@.rows;
                let ghost added = line;
                self.rows.push(line);
                proof {
                    assert(self@.rows =~= before.push(cells(added@)));
                    assert(self@.rows =~= kept + blank_lines(
                        (self.rows@.len() - count) as nat,
                        columns as nat,
                        plain(),
                    ));
                }
            }
        }
        proof {
            assert(self@.rows == (if height <= count {
                kept.subrange(0, height as int)
            } else {
                kept + blank_lines((height - count) as nat, columns as nat, plain())
            }));
        }
        let ghost final_rows = self@.rows;
        self.cursor.row = if self.cursor.row < height {
            self.cursor.row
        } else {
            height - 1
        };
        self.cursor.column = if self.cursor.column < columns {
            self.cursor.column
        } else {
            columns - 1
        };
        self.saved_cursor.row = if self.saved_cursor.row < height {
            self.saved_cursor.row
        } else {
            height - 1
        };
        self.saved_cursor.column = if self.saved_cursor.column < columns {
            self.saved_cursor.column
        } else {
            columns - 1
        };
        self.scroll_top = 0;
        self.scroll_bottom = height - 1;
        let mut tabs: Vec<bool> = Vec::new();
        std::mem::swap(&mut tabs, &mut self.tabs);
        let ghost old_tabs = tabs@;
        if columns <= tabs.len() {
            tabs.truncate(columns);
        } else {
            while tabs.len() < columns
                invariant
                    old_tabs.len() <= tabs@.len() <= columns,
                    forall|c: int| 0 <= c < tabs@.len() ==> #[trigger] tabs@[c] == (c
                        < old_tabs.len() && old_tabs[c]),
                decreases columns - tabs.len(),
            {
                tabs.push(false);
            }
        }
        let mut column: usize = 1;
        while column < columns
            invariant
                1 <= column <= columns || columns == 0,
                tabs@.len() == columns,
                forall|c: int|
                    0 <= c < columns ==> #[trigger] tabs@[c] == ((c < old_tabs.len()
                        && old_tabs[c]) || (c != 0 && c < column && c % 8 == 0)),
            decreases columns - column,
        {
            if column % 8 == 0 {
                tabs.set(column, true);
            }
            column += 1;
        }
        self.tabs = tabs;
        self.wrap_pending = false;
        proof {
            assert(self.tabs@ =~= resized_tabs(old_tabs, columns as nat));
            let t = resized_screen(s, size);
            assert forall|i: int| 0 <= i < s.height() implies (#[trigger] kept[i]).len() == columns by {
                lemma_normalized_len(
                    if columns <= s.rows[i].len() {
                        s.rows[i].subrange(0, columns as int)
                    } else {
                        s.rows[i] + blank_line((columns - s.rows[i].len()) as nat, plain())
                    },
                    0,
                );
            }
            assert(self@.rows == final_rows);
            assert(final_rows =~= t.rows);
            assert(self@.rows[0].len() == columns);
            assert(self@.cursor == t.cursor);
            assert(self@.saved_cursor == t.saved_cursor);
            assert(self@.tabs == t.tabs);
            assert(self@ == t);
            assert(self@.rows.len() == height);
            assert forall|i: int| 0 <= i < self@.rows.len() implies (#[trigger] self@.rows[i]).len()
                == self@.rows[0].len() by {
                if i < count && i < height {
                    assert(self@.rows[i] == kept[i]);
                }
            }
            assert(Size { columns: columns as u16, rows: height as u16 } == size);
        }
        Ok(())
    }
}

/// The screens and modes that the pane's output drives.
#[derive(Debug)]
pub struct State {
    primary: Screen,
    alternate: Screen,
    alternate_active: bool,
    attributes: Attributes,
    saved_attributes: Attributes,
    modes: Modes,
    auto_wrap: bool,
    insert: bool,
    origin: bool,
    responses: Vec<u8>,
}

pub struct StateView {
    pub primary: ScreenView,
    pub alternate: ScreenView,
    pub alternate_active: bool,
    pub attributes: Attributes,
    pub saved_attributes: Attributes,
    pub modes: Modes,
    pub auto_wrap: bool,
    pub insert: bool,
    pub origin: bool,
    /// Replies owed to the application, in order.
    pub responses: Seq<u8>,
}

impl View for State {
    type V = StateView;

    closed spec fn view(&self) -> StateView {
        StateView {
            primary: self.primary@,
            alternate: self.alternate@,
            alternate_active: self.alternate_active,
            attributes: self.attributes,
            saved_attributes: self.saved_attributes,
            modes: self.modes,
            auto_wrap: self.auto_wrap,
            insert: self.insert,
            origin: self.origin,
            responses: self.responses@,
        }
    }
}

impl StateView {
    /// Both screens are well formed and of one size.
    pub open spec fn wf(self) -> bool {
        &&& self.primary.wf()
        &&& self.alternate.wf()
        &&& self.primary.size() == self.alternate.size()
    }

    /// The screen being shown.
    pub open spec fn active(self) -> ScreenView {
        if self.alternate_active {
            self.alternate
        } else {
            self.primary
        }
    }

    pub open spec fn with_active(self, screen: ScreenView) -> StateView {
        if self.alternate_active {
            StateView { alternate: screen, ..self }
        } else {
            StateView { primary: screen, ..self }
        }
    }
}

/// A fresh state of the size.
pub open spec fn fresh_state(size: Size) -> StateView {
    StateView {
        primary: fresh_screen(size),
        alternate: fresh_screen(size),
        alternate_active: false,
        attributes: plain(),
        saved_attributes: plain(),
        modes: initial_modes(),
        auto_wrap: true,
        insert: false,
        origin: false,
        responses: Seq::empty(),
    }
}

/// The cursor moved to `row` (within the scrolling region in origin mode) and
/// `column`, kept inside the screen.
pub open spec fn cursor_moved(st: StateView, row: int, column: int) -> StateView {
    let s = st.active();
    let (top, bottom) = if st.origin {
        (s.scroll_top as int, s.scroll_bottom as int)
    } else {
        (0int, s.height() - 1)
    };
    let wanted = row + if st.origin {
        top
    } else {
        0
    };
    let r = if wanted < top {
        top
    } else if wanted > bottom {
        bottom
    } else {
        wanted
    };
    let c = if column < s.columns() - 1 {
        column
    } else {
        s.columns() - 1
    };
    st.with_active(
        ScreenView { cursor: Cursor { row: r as usize, column: c as usize }, wrap_pending: false, ..s },
    )
}

pub open spec fn cursor_saved(st: StateView) -> StateView {
    let s = st.active();
    StateView {
        saved_attributes: st.attributes,
        ..st.with_active(ScreenView { saved_cursor: s.cursor, ..s })
    }
}

pub open spec fn cursor_restored(st: StateView) -> StateView {
    let s = st.active();
    StateView {
        attributes: st.saved_attributes,
        ..st.with_active(ScreenView { cursor: s.saved_cursor, wrap_pending: false, ..s })
    }
}

/// What a private mode set (`enabled`) or reset does.
pub open spec fn private_mode_set(st: StateView, mode: u16, enabled: bool) -> StateView {
    let modes = st.modes;
    if mode == 1 {
        StateView { modes: Modes { application_cursor_keys: enabled, ..modes }, ..st }
    } else if mode == 6 {
        cursor_moved(StateView { origin: enabled, ..st }, 0, 0)
    } else if mode == 7 {
        StateView { auto_wrap: enabled, ..st }
    } else if mode == 25 {
        StateView { modes: Modes { cursor_visible: enabled, ..modes }, ..st }
    } else if mode == 47 {
        StateView { alternate_active: enabled, ..st }
    } else if mode == 1047 {
        StateView {
            alternate_active: enabled,
            alternate: if enabled {
                cleared_screen(st.alternate)
            } else {
                st.alternate
            },
            ..st
        }
    } else if mode == 1048 {
        if enabled {
            cursor_saved(st)
        } else {
            cursor_restored(st)
        }
    } else if mode == 1049 {
        if enabled {
            let saved = cursor_saved(st);
            StateView { alternate: cleared_screen(saved.alternate), alternate_active: true, ..saved }
        } else {
            cursor_restored(StateView { alternate_active: false, ..st })
        }
    } else if mode == 1000 || mode == 1002 || mode == 1003 {
        StateView {
            modes: Modes {
                mouse: if !enabled {
                    MouseMode::Off
                } else if mode == 1000 {
                    MouseMode::Press
                } else if mode == 1002 {
                    MouseMode::Drag
                } else {
                    MouseMode::Motion
                },
                ..modes
            },
            ..st
        }
    } else if mode == 1006 {
        StateView { modes: Modes { sgr_mouse: enabled, ..modes }, ..st }
    } else if mode == 2004 {
        StateView { modes: Modes { bracketed_paste: enabled, ..modes }, ..st }
    } else {
        st
    }
}

/// Clearing a screen keeps it well formed and its size.
pub proof fn lemma_cleared_wf(s: ScreenView)
    requires
        s.wf(),
    ensures
        cleared_screen(s).wf(),
        cleared_screen(s).size() == s.size(),
{
    let t = cleared_screen(s);
    assert(t.rows[0] == blank_line(s.columns(), plain()));
}

impl State {
    pub fn new(size: Size) -> (r: Result<State, TerminalError>)
        ensures
            r is Ok <==> valid_size(size),
            r matches Err(e) ==> size_check(size) == Err::<(), TerminalError>(e),
            r matches Ok(state) ==> state@ == fresh_state(size) && state@.wf(),
    {
        let primary = Screen::new(size)?;
        let alternate = Screen::new(size)?;
        let state = State {
            primary,
            alternate,
            alternate_active: false,
            attributes: Attributes::default(),
            saved_attributes: Attributes::default(),
            modes: Modes::default(),
            auto_wrap: true,
            insert: false,
            origin: false,
            responses: Vec::new(),
        };
        proof {
            assert(state@.responses =~= Seq::<u8>::empty());
        }
        Ok(state)
    }

    /// The screen being shown.
    pub fn screen(&self) -> (r: &Screen)
        ensures
            r@ == self@.active(),
    {
        if self.alternate_active {
            &self.alternate
        } else {
            &self.primary
        }
    }

    pub fn modes(&self) -> (r: Modes)
        ensures
            r == self@.modes,
    {
        self.modes
    }

    pub fn in_alternate_screen(&self) -> (r: bool)
        ensures
            r == self@.alternate_active,
    {
        self.alternate_active
    }

    /// Hands over the replies owed to the application.
    pub fn take_responses(&mut self) -> (r: Vec<u8>)
        ensures
            r@ == old(self)@.responses,
            final(self)@ == (StateView { responses: Seq::empty(), ..old(self)@ }),
    {
        let mut responses = Vec::new();
        std::mem::swap(&mut responses, &mut self.responses);
        proof {
            assert(self@.responses =~= Seq::<u8>::empty());
        }
        responses
    }

    /// Resizes both screens; nothing changes when the size is refused.
    pub fn resize(&mut self, size: Size) -> (r: Result<(), TerminalError>)
        requires
            old(self)@.wf(),
        ensures
            r == size_check(size),
            r is Ok ==> final(self)@ == (StateView {
                primary: resized_screen(old(self)@.primary, size),
                alternate: resized_screen(old(self)@.alternate, size),
                ..old(self)@
            }) && final(self)@.wf(),
            r is Err ==> final(self)@ == old(self)@,
    {
        validate_size(size)?;
        let _ = self.primary.resize(size);
        let _ = self.alternate.resize(size);
        proof {
            assert(self@.primary.size() == size);
            assert(self@.alternate.size() == size);
        }
        Ok(())
    }

    fn move_cursor(&mut self, row: usize, column: usize)
        requires
            old(self)@.wf(),
            row <= u16::MAX,
        ensures
            final(self)@ == cursor_moved(old(self)@, row as int, column as int),
            final(self)@.wf(),
    {
        let origin = self.origin;
        let screen = if self.alternate_active {
            &mut self.alternate
        } else {
            &mut self.primary
        };
        let (top, bottom) = if origin {
            (screen.scroll_top, screen.scroll_bottom)
        } else {
            (0, screen.height() - 1)
        };
        let wanted = row + if origin {
            top
        } else {
            0
        };
        screen.cursor.row = if wanted < top {
            top
        } else if wanted > bottom {
            bottom
        } else {
            wanted
        };
        let columns = screen.columns();
        screen.cursor.column = if column < columns - 1 {
            column
        } else {
            columns - 1
        };
        screen.wrap_pending = false;
    }

    fn save_cursor(&mut self)
        requires
            old(self)@.wf(),
        ensures
            final(self)@ == cursor_saved(old(self)@),
            final(self)@.wf(),
    {
        self.saved_attributes = self.attributes;
        let screen = if self.alternate_active {
            &mut self.alternate
        } else {
            &mut self.primary
        };
        screen.saved_cursor = screen.cursor;
    }

    fn restore_cursor(&mut self)
        requires
            old(self)@.wf(),
        ensures
            final(self)@ == cursor_restored(old(self)@),
            final(self)@.wf(),
    {
        self.attributes = self.saved_attributes;
        let screen = if self.alternate_active {
            &mut self.alternate
        } else {
            &mut self.primary
        };
        screen.cursor = screen.saved_cursor;
        screen.wrap_pending = false;
    }

    /// Back to a fresh state of the same size.
    fn reset(&mut self)
        requires
            old(self)@.wf(),
        ensures
            final(self)@ == fresh_state(old(self)@.active().size()),
            final(self)@.wf(),
    {
        let size = self.screen().size();
        match State::new(size) {
            Ok(fresh) => {
                *self = fresh;
            },
            Err(_) => {},
        }
    }

    #[verifier::rlimit(40)]
    fn set_private_mode(&mut self, mode: u16, enabled: bool)
        requires
            old(self)@.wf(),
        ensures
            final(self)@ == private_mode_set(old(self)@, mode, enabled),
            final(self)@.wf(),
    {
        if mode == 1 {
            self.modes.application_cursor_keys = enabled;
        } else if mode == 6 {
            self.origin = enabled;
            self.move_cursor(0, 0);
        } else if mode == 7 {
            self.auto_wrap = enabled;
        } else if mode == 25 {
            self.modes.cursor_visible = enabled;
        } else if mode == 47 || mode == 1047 || mode == 1048 || mode == 1049 {
            self.set_screen_mode(mode, enabled);
        } else if mode == 1000 {
            self.modes.mouse = if enabled {
                MouseMode::Press
            } else {
                MouseMode::Off
            };
        } else if mode == 1002 {
            self.modes.mouse = if enabled {
                MouseMode::Drag
            } else {
                MouseMode::Off
            };
        } else if mode == 1003 {
            self.modes.mouse = if enabled {
                MouseMode::Motion
            } else {
                MouseMode::Off
            };
        } else if mode == 1006 {
            self.modes.sgr_mouse = enabled;
        } else if mode == 2004 {
            self.modes.bracketed_paste = enabled;
        }
    }

    fn set_screen_mode(&mut self, mode: u16, enabled: bool)
        requires
            old(self)@.wf(),
            mode == 47 || mode == 1047 || mode == 1048 || mode == 1049,
        ensures
            final(self)@ == private_mode_set(old(self)@, mode, enabled),
            final(self)@.wf(),
    {
        if mode == 47 {
            self.alternate_active = enabled;
        } else if mode == 1047 {
            self.alternate_active = enabled;
            if enabled {
                proof {
                    lemma_cleared_wf(self.alternate@);
                }
                self.alternate.clear();
            }
        } else if mode == 1048 {
            if enabled {
                self.save_cursor();
            } else {
                self.restore_cursor();
            }
        } else {
            if enabled {
                self.save_cursor();
                proof {
                    lemma_cleared_wf(self.alternate@);
                }
                self.alternate.clear();
                self.alternate_active = true;
            } else {
                self.alternate_active = false;
                self.restore_cursor();
            }
        }
    }
}

/// The parameters of a control sequence, each with its sub-parameters.
pub open spec fn parameters(params: Seq<Vec<u16>>) -> Seq<Seq<u16>> {
    params.map_values(|p: Vec<u16>| p@)
}

/// Every parameter has its first value.
pub open spec fn complete_parameters(values: Seq<Seq<u16>>) -> bool {
    forall|i: int| 0 <= i < values.len() ==> (#[trigger] values[i]).len() > 0
}

/// An extended colour (`38`, `48` or `58`), given either in sub-parameters or in the
/// parameters after `index`: the colour, and where the next attribute starts.
pub open spec fn extended_color(values: Seq<Seq<u16>>, index: int, color: Color) -> (Color, int) {
    let previous = values[index - 1];
    if previous.len() > 1 {
        let n = previous.len() as int;
        let rgb = previous[1] == 2 && n >= 5;
        (
            if previous[1] == 5 && n > 2 && previous[2] <= 255 {
                Color::Indexed(previous[2] as u8)
            } else if rgb && previous[n - 3] <= 255 && previous[n - 2] <= 255 && previous[n - 1]
                <= 255 {
                Color::Rgb(previous[n - 3] as u8, previous[n - 2] as u8, previous[n - 1] as u8)
            } else {
                color
            },
            index,
        )
    } else if 0 <= index && index + 1 < values.len() && values[index][0] == 5 && values[index
        + 1][0] <= 255 {
        (Color::Indexed(values[index + 1][0] as u8), index + 2)
    } else if 0 <= index && index + 4 <= values.len() && values[index][0] == 2 && values[index
        + 1][0] <= 255 && values[index + 2][0] <= 255 && values[index + 3][0] <= 255 {
        (
            Color::Rgb(
                values[index + 1][0] as u8,
                values[index + 2][0] as u8,
                values[index + 3][0] as u8,
            ),
            index + 4,
        )
    } else {
        (color, index)
    }
}

/// What one plain graphic-rendition value does.
pub open spec fn rendition(a: Attributes, value: u16) -> Attributes {
    if value == 0 {
        plain()
    } else if value == 1 {
        Attributes { bold: true, ..a }
    } else if value == 2 {
        Attributes { faint: true, ..a }
    } else if value == 3 {
        Attributes { italic: true, ..a }
    } else if value == 4 {
        Attributes { underline: true, ..a }
    } else if value == 5 || value == 6 {
        Attributes { blink: true, ..a }
    } else if value == 7 {
        Attributes { inverse: true, ..a }
    } else if value == 8 {
        Attributes { hidden: true, ..a }
    } else if value == 9 {
        Attributes { strike: true, ..a }
    } else if value == 22 {
        Attributes { bold: false, faint: false, ..a }
    } else if value == 23 {
        Attributes { italic: false, ..a }
    } else if value == 24 {
        Attributes { underline: false, ..a }
    } else if value == 25 {
        Attributes { blink: false, ..a }
    } else if value == 27 {
        Attributes { inverse: false, ..a }
    } else if value == 28 {
        Attributes { hidden: false, ..a }
    } else if value == 29 {
        Attributes { strike: false, ..a }
    } else if 30 <= value <= 37 {
        Attributes { foreground: Color::Indexed((value - 30) as u8), ..a }
    } else if value == 39 {
        Attributes { foreground: Color::Default, ..a }
    } else if 40 <= value <= 47 {
        Attributes { background: Color::Indexed((value - 40) as u8), ..a }
    } else if value == 49 {
        Attributes { background: Color::Default, ..a }
    } else if value == 59 {
        Attributes { underline_color: Color::Default, ..a }
    } else if 90 <= value <= 97 {
        Attributes { foreground: Color::Indexed((value - 82) as u8), ..a }
    } else if 100 <= value <= 107 {
        Attributes { background: Color::Indexed((value - 92) as u8), ..a }
    } else {
        a
    }
}

/// The attributes after the graphic-rendition values from `index` on.
pub open spec fn renditions(a: Attributes, values: Seq<Seq<u16>>, index: int) -> Attributes
    decreases values.len() - index,
{
    if index < 0 || index >= values.len() {
        a
    } else {
        let value = values[index][0];
        let next = index + 1;
        if value == 38 {
            let (color, after) = extended_color(values, next, a.foreground);
            renditions(Attributes { foreground: color, ..a }, values, after)
        } else if value == 48 {
            let (color, after) = extended_color(values, next, a.background);
            renditions(Attributes { background: color, ..a }, values, after)
        } else if value == 58 {
            let (color, after) = extended_color(values, next, a.underline_color);
            renditions(Attributes { underline_color: color, ..a }, values, after)
        } else {
            renditions(rendition(a, value), values, next)
        }
    }
}

/// Select graphic rendition: no parameters reset the attributes.
pub open spec fn sgr_applied(a: Attributes, values: Seq<Seq<u16>>) -> Attributes {
    if values.len() == 0 {
        plain()
    } else {
        renditions(a, values, 0)
    }
}

fn set_extended_color(values: &[Vec<u16>], index: &mut usize, color: &mut Color)
    requires
        complete_parameters(parameters(values@)),
        1 <= *old(index) <= values@.len(),
    ensures
        (*final(color), *final(index) as int) == extended_color(
            parameters(values@),
            *old(index) as int,
            *old(color),
        ),
{
    let ghost v = parameters(values@);
    let previous = &values[*index - 1];
    proof {
        assert(previous@ == v[*index - 1]);
    }
    if previous.len() > 1 {
        let n = previous.len();
        let rgb = previous[1] == 2 && n >= 5;
        if previous[1] == 5 && n > 2 && previous[2] <= 255 {
            *color = Color::Indexed(previous[2] as u8);
        } else if rgb && previous[n - 3] <= 255 && previous[n - 2] <= 255 && previous[n - 1] <= 255 {
            *color = Color::Rgb(previous[n - 3] as u8, previous[n - 2] as u8, previous[n - 1] as u8);
        }
        return;
    }
    let i = *index;
    proof {
        if i < values@.len() {
            assert(values@[i as int]@ == v[i as int]);
        }
        if i + 1 < values@.len() {
            assert(values@[i + 1]@ == v[i + 1]);
        }
        if i + 2 < values@.len() {
            assert(values@[i + 2]@ == v[i + 2]);
        }
        if i + 3 < values@.len() {
            assert(values@[i + 3]@ == v[i + 3]);
        }
    }
    if values.len() - i > 1 && values[i][0] == 5 && values[i + 1][0] <= 255 {
        *color = Color::Indexed(values[i + 1][0] as u8);
        *index = i + 2;
    } else if values.len() - i >= 4 && values[i][0] == 2 && values[i + 1][0] <= 255 && values[i
        + 2][0] <= 255 && values[i + 3][0] <= 255 {
        *color = Color::Rgb(values[i + 1][0] as u8, values[i + 2][0] as u8, values[i + 3][0] as u8);
        *index = i + 4;
    }
}

fn rendition_of(a: Attributes, value: u16) -> (r: Attributes)
    ensures
        r == rendition(a, value),
{
    let mut a = a;
    if value == 0 {
        a = Attributes::default();
    } else if value == 1 {
        a.bold = true;
    } else if value == 2 {
        a.faint = true;
    } else if value == 3 {
        a.italic = true;
    } else if value == 4 {
        a.underline = true;
    } else if value == 5 || value == 6 {
        a.blink = true;
    } else if value == 7 {
        a.inverse = true;
    } else if value == 8 {
        a.hidden = true;
    } else if value == 9 {
        a.strike = true;
    } else if value == 22 {
        a.bold = false;
        a.faint = false;
    } else if value == 23 {
        a.italic = false;
    } else if value == 24 {
        a.underline = false;
    } else if value == 25 {
        a.blink = false;
    } else if value == 27 {
        a.inverse = false;
    } else if value == 28 {
        a.hidden = false;
    } else if value == 29 {
        a.strike = false;
    } else if 30 <= value && value <= 37 {
        a.foreground = Color::Indexed((value - 30) as u8);
    } else if value == 39 {
        a.foreground = Color::Default;
    } else if 40 <= value && value <= 47 {
        a.background = Color::Indexed((value - 40) as u8);
    } else if value == 49 {
        a.background = Color::Default;
    } else if value == 59 {
        a.underline_color = Color::Default;
    } else if 90 <= value && value <= 97 {
        a.foreground = Color::Indexed((value - 82) as u8);
    } else if 100 <= value && value <= 107 {
        a.background = Color::Indexed((value - 92) as u8);
    }
    a
}

impl State {
    fn sgr(&mut self, params: &[Vec<u16>])
        requires
            complete_parameters(parameters(params@)),
        ensures
            final(self)@ == (StateView {
                attributes: sgr_applied(old(self)@.attributes, parameters(params@)),
                ..old(self)@
            }),
    {
        let ghost v = parameters(params@);
        if params.len() == 0 {
            self.attributes = Attributes::default();
            return;
        }
        let ghost goal = renditions(self.attributes, v, 0);
        let mut index: usize = 0;
        let mut attributes = self.attributes;
        while index < params.len()
            invariant
                v == parameters(params@),
                complete_parameters(v),
                index <= params@.len(),
                renditions(attributes, v, index as int) == goal,
            decreases params.len() - index,
        {
            proof {
                assert(params@[index as int]@ == v[index as int]);
            }
            let value = params[index][0];
            index += 1;
            if value == 38 {
                set_extended_color(params, &mut index, &mut attributes.foreground);
            } else if value == 48 {
                set_extended_color(params, &mut index, &mut attributes.background);
            } else if value == 58 {
                set_extended_color(params, &mut index, &mut attributes.underline_color);
            } else {
                attributes = rendition_of(attributes, value);
            }
        }
        self.attributes = attributes;
    }
}

/// What `UnicodeWidthChar::width` gives for a character.
pub uninterp spec fn unicode_width(c: char) -> Option<usize>;

/// `UnicodeWidthChar::width`: the columns that the character takes, or `None` for a
/// control character. The crate's source gives one column to each printable ASCII
/// character, none to the C0 and C1 controls, and at most three to any character.
#[verifier::external_body]
pub(crate) fn char_width(c: char) -> (r: Option<usize>)
    ensures
        r == unicode_width(c),
        r matches Some(w) ==> w <= 3,
        (' ' <= c && c < '\u{7f}') ==> r == Some(1usize),
        (c < ' ' || ('\u{7f}' <= c && c < '\u{a0}')) ==> r is None,
{
    c.width()
}

/// The columns a printed character takes: at most two, none when it has no width.
pub open spec fn print_width(c: char) -> nat {
    match unicode_width(c) {
        Some(w) => if w < 2 {
            w as nat
        } else {
            2
        },
        None => 0,
    }
}

/// The column of the character that a cell belongs to.
pub open spec fn base_column(line: Seq<CellView>, c: int) -> int
    decreases c,
{
    if c > 0 && line[c].width == 0 {
        base_column(line, c - 1)
    } else {
        c
    }
}

/// The column a continuation cell belongs to is at or before it.
pub proof fn lemma_base_column(line: Seq<CellView>, c: int)
    requires
        0 <= c,
    ensures
        0 <= base_column(line, c) <= c,
    decreases c,
{
    if c > 0 && line[c].width == 0 {
        lemma_base_column(line, c - 1);
    }
}

/// A character without width joins the character before the cursor as a combining
/// mark.
pub open spec fn combined(s: ScreenView, ch: char) -> ScreenView {
    let column = s.cursor.column as int;
    if s.wrap_pending || column > 0 {
        let start = if s.wrap_pending {
            column
        } else {
            column - 1
        };
        let row = s.cursor.row as int;
        let c = base_column(s.rows[row], start);
        let cell = s.rows[row][c];
        s.with_cell(row, c, CellView { combining: cell.combining.push(ch), ..cell })
    } else {
        s
    }
}

/// The screen once a pending wrap is taken: to the next line when wrapping is on.
pub open spec fn wrap_taken(s: ScreenView, attributes: Attributes, auto_wrap: bool) -> ScreenView {
    if s.wrap_pending {
        let t = if auto_wrap {
            fed(with_cursor(s, Cursor { column: 0, ..s.cursor }), attributes)
        } else {
            s
        };
        ScreenView { wrap_pending: false, ..t }
    } else {
        s
    }
}

/// A character of `width` one or two placed at the cursor, pushing cells right in
/// insert mode, and the cursor moved past it (to a pending wrap at the edge).
pub open spec fn put_char(
    s: ScreenView,
    ch: char,
    width: nat,
    a: Attributes,
    auto_wrap: bool,
    insert: bool,
) -> ScreenView {
    let row = s.cursor.row as int;
    let column = s.cursor.column as int;
    let s3 = cleared_wide(s, row, column, a);
    let s4 = if width == 2 {
        cleared_wide(s3, row, column + 1, a)
    } else {
        s3
    };
    let s5 = if insert {
        cells_inserted(s4, width as int, a)
    } else {
        s4
    };
    let s6 = s5.with_cell(
        row,
        column,
        CellView { character: ch, combining: Seq::empty(), width: width as u8, attributes: a },
    );
    let s7 = if width == 2 {
        s6.with_cell(
            row,
            column + 1,
            CellView { character: ' ', combining: Seq::empty(), width: 0, attributes: a },
        )
    } else {
        s6
    };
    if column + width >= s7.columns() {
        ScreenView {
            cursor: Cursor { column: (s7.columns() - 1) as usize, ..s7.cursor },
            wrap_pending: auto_wrap,
            ..s7
        }
    } else {
        ScreenView { cursor: Cursor { column: (column + width) as usize, ..s7.cursor }, ..s7 }
    }
}

/// A character of `width` printed on a screen: a combining mark when it has no
/// width; otherwise placed at the cursor, moving to the next line first when a wrap
/// is pending or when a wide character would not fit (and dropped there when
/// wrapping is off).
#[verifier::opaque]
pub open spec fn printed_on(
    s: ScreenView,
    ch: char,
    width: nat,
    a: Attributes,
    auto_wrap: bool,
    insert: bool,
) -> ScreenView {
    if width == 0 {
        combined(s, ch)
    } else {
        let s1 = wrap_taken(s, a, auto_wrap);
        let at_edge = width == 2 && s1.cursor.column + 1 == s1.columns();
        if at_edge && !auto_wrap {
            s1
        } else {
            let s2 = if at_edge {
                fed(with_cursor(s1, Cursor { column: 0, ..s1.cursor }), a)
            } else {
                s1
            };
            put_char(s2, ch, width, a, auto_wrap, insert)
        }
    }
}

/// A printed character, on the screen being shown.
pub open spec fn printed(st: StateView, ch: char) -> StateView {
    st.with_active(
        printed_on(st.active(), ch, print_width(ch), st.attributes, st.auto_wrap, st.insert),
    )
}

/// Writing one cell inside the screen keeps it well formed, its size and cursor.
pub proof fn lemma_with_cell_wf(s: ScreenView, row: int, column: int, cell: CellView)
    requires
        s.wf(),
        0 <= row < s.height(),
        0 <= column < s.columns(),
    ensures
        s.with_cell(row, column, cell).wf(),
        s.with_cell(row, column, cell).size() == s.size(),
        s.with_cell(row, column, cell).cursor == s.cursor,
{
    let t = s.with_cell(row, column, cell);
    assert(t.rows[0].len() == s.columns());
}

impl Screen {
    fn add_combining(&mut self, row: usize, column: usize, ch: char)
        requires
            old(self)@.wf(),
            row < old(self)@.height(),
            column < old(self)@.columns(),
        ensures
            final(self)@ == old(self)@.with_cell(
                row as int,
                column as int,
                CellView {
                    combining: old(self)@.rows[row as int][column as int].combining.push(ch),
                    ..old(self)@.rows[row as int][column as int]
                },
            ),
            final(self)@.wf(),
            final(self)@.size() == old(self)@.size(),
    {
        let ghost s = self@;
        let mut line = self.replace_row(row, Vec::new());
        let cell = &line[column];
        let mut text = match &cell.combining {
            Some(existing) => existing.clone(),
            None => String::new(),
        };
        text.push(ch);
        let updated = Cell {
            character: cell.character,
            combining: Some(text),
            width: cell.width,
            attributes: cell.attributes,
        };
        let ghost shown = updated@;
        let ghost before = line@;
        line.set(column, updated);
        proof {
            assert(cells(before) == s.rows[row as int]);
            assert(cells(line@) =~= s.rows[row as int].update(column as int, shown));
            assert(shown == CellView {
                combining: s.rows[row as int][column as int].combining.push(ch),
                ..s.rows[row as int][column as int]
            });
        }
        let _ = self.replace_row(row, line);
        proof {
            assert(self@.rows =~= s.rows.update(row as int, s.rows[row as int].update(column as int, shown)));
            lemma_with_cell_wf(s, row as int, column as int, shown);
        }
    }
}

/// Joins a character without width to the character before the cursor.
fn combine(screen: &mut Screen, character: char)
    requires
        old(screen)@.wf(),
    ensures
        final(screen)@ == combined(old(screen)@, character),
        final(screen)@.wf(),
        final(screen)@.size() == old(screen)@.size(),
{
    let mut column = screen.cursor.column;
    if screen.wrap_pending || column > 0 {
        if !screen.wrap_pending {
            column -= 1;
        }
        let row = screen.cursor.row;
        let ghost start = column;
        while column > 0 && screen.cell_width(row, column) == 0
            invariant
                screen@.wf(),
                row == screen@.cursor.row,
                column <= start < screen@.columns(),
                base_column(screen@.rows[row as int], column as int) == base_column(
                    screen@.rows[row as int],
                    start as int,
                ),
            decreases column,
        {
            column -= 1;
        }
        screen.add_combining(row, column, character);
    }
}

fn put(
    screen: &mut Screen,
    character: char,
    width: usize,
    attributes: Attributes,
    auto_wrap: bool,
    insert: bool,
)
    requires
        old(screen)@.wf(),
        width == 1 || width == 2,
        width == 2 ==> old(screen)@.cursor.column + 1 < old(screen)@.columns(),
    ensures
        final(screen)@ == put_char(old(screen)@, character, width as nat, attributes, auto_wrap, insert),
        final(screen)@.wf(),
        final(screen)@.size() == old(screen)@.size(),
{
    let row = screen.cursor.row;
    let column = screen.cursor.column;
    clear_wide_at(screen, row, column, attributes);
    if width == 2 {
        clear_wide_at(screen, row, column + 1, attributes);
    }
    if insert {
        insert_cells(screen, width, attributes);
    }
    screen.set_cell(row, column, Cell { character, combining: None, width: width as u8, attributes });
    if width == 2 {
        screen.set_cell(row, column + 1, Cell { character: ' ', combining: None, width: 0, attributes });
    }
    let columns = screen.columns();
    if column + width >= columns {
        screen.cursor.column = columns - 1;
        screen.wrap_pending = auto_wrap;
    } else {
        screen.cursor.column = column + width;
    }
}

fn take_wrap(screen: &mut Screen, attributes: Attributes, auto_wrap: bool)
    requires
        old(screen)@.wf(),
    ensures
        final(screen)@ == wrap_taken(old(screen)@, attributes, auto_wrap),
        final(screen)@.wf(),
        final(screen)@.size() == old(screen)@.size(),
{
    if screen.wrap_pending {
        if auto_wrap {
            screen.cursor.column = 0;
            linefeed(screen, attributes);
        }
        screen.wrap_pending = false;
    }
}

fn print_on(
    screen: &mut Screen,
    character: char,
    width: usize,
    attributes: Attributes,
    auto_wrap: bool,
    insert: bool,
)
    requires
        old(screen)@.wf(),
        width <= 2,
        width == 2 ==> old(screen)@.columns() >= 2,
    ensures
        final(screen)@ == printed_on(old(screen)@, character, width as nat, attributes, auto_wrap, insert),
        final(screen)@.wf(),
        final(screen)@.size() == old(screen)@.size(),
{
    reveal(printed_on);
    if width == 0 {
        combine(screen, character);
        return;
    }
    take_wrap(screen, attributes, auto_wrap);
    if width == 2 && screen.cursor.column + 1 == screen.columns() {
        if !auto_wrap {
            return;
        }
        screen.cursor.column = 0;
        linefeed(screen, attributes);
    }
    put(screen, character, width, attributes, auto_wrap, insert);
}

impl State {
    /// Prints a character at the cursor.
    /// Whether `csi_dispatch` can take this sequence here: every parameter has its
    /// first value, and a cursor position report in origin mode is not asked for
    /// while the cursor stands above the scrolling region.
    pub fn can_dispatch(&self, params: &[Vec<u16>], intermediates: &[u8], ignore: bool, action: char) -> (r: bool)
        requires
            self@.wf(),
        ensures
            r == (complete_parameters(parameters(params@)) && csi_defined(
                self@,
                parameters(params@),
                intermediates@,
                ignore,
                action,
            )),
    {
        let ghost v = parameters(params@);
        let mut i: usize = 0;
        while i < params.len()
            invariant
                v == parameters(params@),
                i <= params@.len(),
                forall|j: int| 0 <= j < i ==> (#[trigger] v[j]).len() > 0,
            decreases params.len() - i,
        {
            proof {
                assert(v[i as int] == params@[i as int]@);
            }
            if params[i].len() == 0 {
                return false;
            }
            i = i + 1;
        }
        let screen = self.screen();
        let report = if !ignore && action == 'n' && params.len() > 0 {
            proof {
                assert(v[0] == params@[0]@);
                assert(firsts(v)[0] == v[0][0]);
                if intermediates@.len() == 1 && intermediates@[0] == 63 {
                    assert(intermediates@ =~= seq![63u8]);
                }
            }
            params[0][0] == 6 && intermediates.len() == 1 && intermediates[0] == 63
        } else {
            false
        };
        !(report && self.origin && screen.cursor.row < screen.scroll_top)
    }

    /// Whether `print` can take the character here: a wide character needs a screen
    /// at least two columns wide.
    pub fn can_print(&self, character: char) -> (r: bool)
        requires
            self@.wf(),
        ensures
            r == (print_width(character) == 2 ==> self@.active().columns() >= 2),
    {
        let wide = match char_width(character) {
            Some(w) => w >= 2,
            None => false,
        };
        !wide || self.screen().columns() >= 2
    }

    pub fn print(&mut self, character: char)
        requires
            old(self)@.wf(),
            print_width(character) == 2 ==> old(self)@.active().columns() >= 2,
        ensures
            final(self)@ == printed(old(self)@, character),
            final(self)@.wf(),
    {
        let width = match char_width(character) {
            Some(w) => if w < 2 {
                w
            } else {
                2
            },
            None => 0,
        };
        let attributes = self.attributes;
        let auto_wrap = self.auto_wrap;
        let insert = self.insert;
        if self.alternate_active {
            print_on(&mut self.alternate, character, width, attributes, auto_wrap, insert);
        } else {
            print_on(&mut self.primary, character, width, attributes, auto_wrap, insert);
        }
    }
}

/// A control character: backspace, tab, line feeds and carriage return.
pub open spec fn executed(st: StateView, byte: u8) -> StateView {
    let s = st.active();
    let c = s.cursor;
    if byte == 8 {
        st.with_active(
            ScreenView {
                cursor: Cursor {
                    column: if c.column > 0 {
                        (c.column - 1) as usize
                    } else {
                        0
                    },
                    ..c
                },
                wrap_pending: false,
                ..s
            },
        )
    } else if byte == 9 {
        st.with_active(
            ScreenView {
                cursor: Cursor {
                    column: next_stop(s.tabs, c.column as int, s.columns() as int) as usize,
                    ..c
                },
                wrap_pending: false,
                ..s
            },
        )
    } else if 10 <= byte <= 12 {
        st.with_active(fed(s, st.attributes))
    } else if byte == 13 {
        st.with_active(ScreenView { cursor: Cursor { column: 0, ..c }, wrap_pending: false, ..s })
    } else {
        st
    }
}

/// Reverse index: up a row, scrolling the region down when at its top.
pub open spec fn reverse_indexed(s: ScreenView, attributes: Attributes) -> ScreenView {
    let t = if s.cursor.row == s.scroll_top {
        lines_down(s, s.scroll_top as int, 1, attributes)
    } else {
        with_cursor(
            s,
            Cursor {
                row: if s.cursor.row > 0 {
                    (s.cursor.row - 1) as usize
                } else {
                    0
                },
                ..s.cursor
            },
        )
    };
    ScreenView { wrap_pending: false, ..t }
}

/// An escape sequence without parameters.
pub open spec fn escaped(st: StateView, intermediates: Seq<u8>, ignore: bool, byte: u8) -> StateView {
    let s = st.active();
    let a = st.attributes;
    if ignore || intermediates.len() != 0 {
        st
    } else if byte == 55 {
        cursor_saved(st)
    } else if byte == 56 {
        cursor_restored(st)
    } else if byte == 68 {
        st.with_active(fed(s, a))
    } else if byte == 69 {
        st.with_active(fed(with_cursor(s, Cursor { column: 0, ..s.cursor }), a))
    } else if byte == 77 {
        st.with_active(reverse_indexed(s, a))
    } else if byte == 72 {
        st.with_active(ScreenView { tabs: s.tabs.update(s.cursor.column as int, true), ..s })
    } else if byte == 99 {
        fresh_state(s.size())
    } else {
        st
    }
}

/// A line feed keeps a screen well formed and its size unchanged.
pub proof fn lemma_fed_wf(s: ScreenView, attributes: Attributes)
    requires
        s.wf(),
    ensures
        fed(s, attributes).wf(),
        fed(s, attributes).size() == s.size(),
{
    if s.cursor.row == s.scroll_bottom {
        lemma_lines_up_wf(s, s.scroll_top as int, 1, attributes);
    }
}

impl State {
    pub fn execute(&mut self, byte: u8)
        requires
            old(self)@.wf(),
        ensures
            final(self)@ == executed(old(self)@, byte),
            final(self)@.wf(),
    {
        let attributes = self.attributes;
        let screen = if self.alternate_active {
            &mut self.alternate
        } else {
            &mut self.primary
        };
        if byte == 8 {
            screen.cursor.column = if screen.cursor.column > 0 {
                screen.cursor.column - 1
            } else {
                0
            };
            screen.wrap_pending = false;
        } else if byte == 9 {
            let column = screen.cursor.column;
            proof {
                lemma_next_stop(screen@.tabs, column as int, screen@.columns() as int);
            }
            screen.cursor.column = screen.next_tab_stop(column);
            screen.wrap_pending = false;
        } else if 10 <= byte && byte <= 12 {
            linefeed(screen, attributes);
        } else if byte == 13 {
            screen.cursor.column = 0;
            screen.wrap_pending = false;
        }
    }

    #[verifier::spinoff_prover]
    #[verifier::rlimit(40)]
    pub fn esc_dispatch(&mut self, intermediates: &[u8], ignore: bool, byte: u8)
        requires
            old(self)@.wf(),
        ensures
            final(self)@ == escaped(old(self)@, intermediates@, ignore, byte),
            final(self)@.wf(),
    {
        if ignore || intermediates.len() != 0 {
            return;
        }
        let attributes = self.attributes;
        if byte == 55 {
            self.save_cursor();
        } else if byte == 56 {
            self.restore_cursor();
        } else if byte == 99 {
            self.reset();
        } else {
            let screen = if self.alternate_active {
                &mut self.alternate
            } else {
                &mut self.primary
            };
            if byte == 68 {
                linefeed(screen, attributes);
            } else if byte == 69 {
                screen.cursor.column = 0;
                linefeed(screen, attributes);
            } else if byte == 77 {
                if screen.cursor.row == screen.scroll_top {
                    screen.scroll_down(1, attributes);
                } else {
                    screen.cursor.row = if screen.cursor.row > 0 {
                        screen.cursor.row - 1
                    } else {
                        0
                    };
                }
                screen.wrap_pending = false;
            } else if byte == 72 {
                let column = screen.cursor.column;
                screen.tabs.set(column, true);
            }
        }
    }
}

/// The first value of each parameter.
pub open spec fn firsts(params: Seq<Seq<u16>>) -> Seq<u16> {
    Seq::new(params.len(), |i: int| params[i][0])
}

/// Private modes `values[i..]` set or reset in turn.
pub open spec fn modes_set(st: StateView, values: Seq<u16>, i: int, enabled: bool) -> StateView
    decreases values.len() - i,
{
    if i < 0 || i >= values.len() {
        st
    } else {
        modes_set(private_mode_set(st, values[i], enabled), values, i + 1, enabled)
    }
}

/// Cursor movements by a control sequence, `count` being the first value and at
/// least one.
#[verifier::opaque]
pub open spec fn cursor_csi(st: StateView, values: Seq<u16>, count: int, action: char) -> StateView {
    let s = st.active();
    let c = s.cursor;
    let top = if st.origin {
        s.scroll_top as int
    } else {
        0
    };
    let bottom = if st.origin {
        s.scroll_bottom as int
    } else {
        s.height() - 1
    };
    let up = if c.row - count > top {
        c.row - count
    } else {
        top
    };
    let down = if c.row + count < bottom {
        c.row + count
    } else {
        bottom
    };
    let last = s.columns() - 1;
    if action == 'A' {
        st.with_active(ScreenView { cursor: Cursor { row: up as usize, ..c }, wrap_pending: false, ..s })
    } else if action == 'B' || action == 'e' {
        st.with_active(ScreenView { cursor: Cursor { row: down as usize, ..c }, wrap_pending: false, ..s })
    } else if action == 'C' || action == 'a' {
        st.with_active(
            ScreenView {
                cursor: Cursor {
                    column: (if c.column + count < last {
                        c.column + count
                    } else {
                        last
                    }) as usize,
                    ..c
                },
                wrap_pending: false,
                ..s
            },
        )
    } else if action == 'D' {
        st.with_active(
            ScreenView {
                cursor: Cursor {
                    column: (if c.column - count > 0 {
                        c.column - count
                    } else {
                        0
                    }) as usize,
                    ..c
                },
                wrap_pending: false,
                ..s
            },
        )
    } else if action == 'E' {
        st.with_active(ScreenView { cursor: Cursor { row: down as usize, column: 0 }, wrap_pending: false, ..s })
    } else if action == 'F' {
        st.with_active(ScreenView { cursor: Cursor { row: up as usize, column: 0 }, wrap_pending: false, ..s })
    } else if action == 'G' || action == '`' {
        st.with_active(
            ScreenView {
                cursor: Cursor {
                    column: (if count - 1 < last {
                        count - 1
                    } else {
                        last
                    }) as usize,
                    ..c
                },
                wrap_pending: false,
                ..s
            },
        )
    } else if action == 'H' || action == 'f' {
        let row = if values.len() > 0 && values[0] > 1 {
            values[0] - 1
        } else {
            0
        };
        let column = if values.len() > 1 && values[1] > 1 {
            values[1] - 1
        } else {
            0
        };
        cursor_moved(st, row, column)
    } else {
        cursor_moved(st, count - 1, c.column as int)
    }
}

pub open spec fn is_cursor_action(action: char) -> bool {
    action == 'A' || action == 'B' || action == 'e' || action == 'C' || action == 'a' || action
        == 'D' || action == 'E' || action == 'F' || action == 'G' || action == '`' || action == 'H'
        || action == 'f' || action == 'd'
}

/// Edits by a control sequence.
#[verifier::opaque]
pub open spec fn edit_csi(st: StateView, first: u16, count: int, action: char) -> StateView {
    let s = st.active();
    let a = st.attributes;
    let c = s.cursor;
    if action == 'J' {
        st.with_active(erased_display(s, first, a))
    } else if action == 'K' {
        st.with_active(erased_line(s, first, a))
    } else if action == '@' {
        st.with_active(cells_inserted(s, count, a))
    } else if action == 'P' {
        st.with_active(cells_deleted(s, count, a))
    } else if action == 'X' {
        st.with_active(erased(s, c.row as int, c.column as int, c.column + count, a))
    } else if action == 'L' {
        st.with_active(
            if in_region(s) {
                lines_down(s, c.row as int, count, a)
            } else {
                s
            },
        )
    } else if action == 'M' {
        st.with_active(
            if in_region(s) {
                lines_up(s, c.row as int, count, a)
            } else {
                s
            },
        )
    } else if action == 'S' {
        st.with_active(lines_up(s, s.scroll_top as int, count, a))
    } else if action == 'T' {
        st.with_active(lines_down(s, s.scroll_top as int, count, a))
    } else if action == 'I' || action == 'Z' {
        st.with_active(ScreenView { wrap_pending: false, ..tabbed(s, count as nat, action == 'I') })
    } else if first == 0 {
        st.with_active(ScreenView { tabs: s.tabs.update(c.column as int, false), ..s })
    } else if first == 3 {
        st.with_active(ScreenView { tabs: Seq::new(s.tabs.len(), |i: int| false), ..s })
    } else {
        st
    }
}

pub open spec fn is_edit_action(action: char) -> bool {
    action == 'J' || action == 'K' || action == '@' || action == 'P' || action == 'X' || action
        == 'L' || action == 'M' || action == 'S' || action == 'T' || action == 'I' || action == 'Z'
        || action == 'g'
}

/// The cursor position report: one-based, counted from the region's top for a
/// private request in origin mode.
pub open spec fn position_report(st: StateView, private: bool) -> Seq<u8> {
    let c = st.active().cursor;
    let row = if private && st.origin {
        c.row - st.active().scroll_top + 1
    } else {
        c.row + 1
    };
    seq![27u8, 91u8] + (if private {
        seq![63u8]
    } else {
        Seq::empty()
    }) + decimal(row as nat) + seq![59u8] + decimal((c.column + 1) as nat) + seq![82u8]
}

/// Other control sequences: rendition, scrolling region, cursor saving and reports.
#[verifier::opaque]
pub open spec fn other_csi(
    st: StateView,
    params: Seq<Seq<u16>>,
    values: Seq<u16>,
    private: bool,
    first: u16,
    action: char,
) -> StateView {
    let s = st.active();
    if action == 'm' {
        StateView { attributes: sgr_applied(st.attributes, params), ..st }
    } else if action == 'r' && !private {
        let top = if values.len() > 0 && values[0] > 1 {
            values[0] - 1
        } else {
            0
        };
        let wanted = if values.len() > 1 && values[1] != 0 {
            values[1] as int
        } else {
            s.height() as int
        };
        let bottom = if wanted < s.height() {
            wanted
        } else {
            s.height() as int
        };
        if top < bottom {
            st.with_active(
                ScreenView {
                    scroll_top: top as usize,
                    scroll_bottom: (bottom - 1) as usize,
                    cursor: Cursor {
                        row: if st.origin {
                            top as usize
                        } else {
                            0
                        },
                        column: 0,
                    },
                    wrap_pending: false,
                    ..s
                },
            )
        } else {
            st
        }
    } else if action == 's' {
        cursor_saved(st)
    } else if action == 'u' {
        cursor_restored(st)
    } else if action == 'n' && first == 5 {
        StateView { responses: st.responses + seq![27u8, 91u8, 48u8, 110u8], ..st }
    } else if action == 'n' && first == 6 {
        StateView { responses: st.responses + position_report(st, private), ..st }
    } else if action == 'c' {
        StateView {
            responses: st.responses + seq![27u8, 91u8, 63u8, 49u8, 59u8, 50u8, 99u8],
            ..st
        }
    } else {
        st
    }
}

/// What a control sequence does.
pub open spec fn csi_applied(
    st: StateView,
    params: Seq<Seq<u16>>,
    intermediates: Seq<u8>,
    ignore: bool,
    action: char,
) -> StateView {
    let private = intermediates == seq![63u8];
    let values = firsts(params);
    let first = if values.len() > 0 {
        values[0]
    } else {
        0
    };
    let count = if first > 1 {
        first as int
    } else {
        1
    };
    if ignore {
        st
    } else if action == 'h' || action == 'l' {
        if private {
            modes_set(st, values, 0, action == 'h')
        } else if values.contains(4) {
            StateView { insert: action == 'h', ..st }
        } else {
            st
        }
    } else if is_cursor_action(action) {
        cursor_csi(st, values, count, action)
    } else if is_edit_action(action) {
        edit_csi(st, first, count, action)
    } else {
        other_csi(st, params, values, private, first, action)
    }
}

/// The report of a cursor above the scrolling region in origin mode would count
/// from below zero.
pub open spec fn csi_defined(st: StateView, params: Seq<Seq<u16>>, intermediates: Seq<u8>, ignore: bool, action: char) -> bool {
    let values = firsts(params);
    let private = intermediates == seq![63u8];
    !(!ignore && action == 'n' && values.len() > 0 && values[0] == 6 && private && st.origin
        && st.active().cursor.row < st.active().scroll_top)
}

fn first_values(params: &[Vec<u16>]) -> (r: Vec<u16>)
    requires
        complete_parameters(parameters(params@)),
    ensures
        r@ == firsts(parameters(params@)),
{
    let ghost v = parameters(params@);
    let mut values: Vec<u16> = Vec::new();
    let mut i: usize = 0;
    while i < params.len()
        invariant
            v == parameters(params@),
            complete_parameters(v),
            i <= params@.len(),
            values@ == firsts(v).subrange(0, i as int),
        decreases params.len() - i,
    {
        proof {
            assert(params@[i as int]@ == v[i as int]);
        }
        values.push(params[i][0]);
        i += 1;
        proof {
            assert(values@ =~= firsts(v).subrange(0, i as int));
        }
    }
    proof {
        assert(firsts(v).subrange(0, i as int) =~= firsts(v));
    }
    values
}

fn holds_value(values: &[u16], wanted: u16) -> (r: bool)
    ensures
        r == values@.contains(wanted),
{
    let mut i: usize = 0;
    while i < values.len()
        invariant
            i <= values@.len(),
            forall|j: int| 0 <= j < i ==> values@[j] != wanted,
        decreases values.len() - i,
    {
        if values[i] == wanted {
            proof {
                assert(values@[i as int] == wanted);
            }
            return true;
        }
        i += 1;
    }
    false
}

impl State {
    fn set_private_modes(&mut self, values: &[u16], enabled: bool)
        requires
            old(self)@.wf(),
        ensures
            final(self)@ == modes_set(old(self)@, values@, 0, enabled),
            final(self)@.wf(),
    {
        let ghost goal = modes_set(self@, values@, 0, enabled);
        let mut i: usize = 0;
        while i < values.len()
            invariant
                self@.wf(),
                i <= values@.len(),
                modes_set(self@, values@, i as int, enabled) == goal,
            decreases values.len() - i,
        {
            self.set_private_mode(values[i], enabled);
            i += 1;
        }
    }

    #[verifier::rlimit(60)]
    fn csi_cursor(&mut self, values: &[u16], count: usize, action: char)
        requires
            old(self)@.wf(),
            is_cursor_action(action),
            1 <= count <= u16::MAX,
        ensures
            final(self)@ == cursor_csi(old(self)@, values@, count as int, action),
            final(self)@.wf(),
    {
        reveal(cursor_csi);
        if action == 'H' || action == 'f' {
            let row: usize = if values.len() > 0 && values[0] > 1 {
                (values[0] - 1) as usize
            } else {
                0
            };
            let column: usize = if values.len() > 1 && values[1] > 1 {
                (values[1] - 1) as usize
            } else {
                0
            };
            self.move_cursor(row, column);
            return;
        }
        if action == 'd' {
            let column = self.screen().cursor.column;
            self.move_cursor(count - 1, column);
            return;
        }
        let origin = self.origin;
        let screen = if self.alternate_active {
            &mut self.alternate
        } else {
            &mut self.primary
        };
        let row = screen.cursor.row;
        let column = screen.cursor.column;
        let top = if origin {
            screen.scroll_top
        } else {
            0
        };
        let bottom = if origin {
            screen.scroll_bottom
        } else {
            screen.height() - 1
        };
        let up = if row > count && row - count > top {
            row - count
        } else {
            top
        };
        let down = if row + count < bottom {
            row + count
        } else {
            bottom
        };
        let last = screen.columns() - 1;
        if action == 'A' {
            screen.cursor.row = up;
        } else if action == 'B' || action == 'e' {
            screen.cursor.row = down;
        } else if action == 'C' || action == 'a' {
            screen.cursor.column = if column + count < last {
                column + count
            } else {
                last
            };
        } else if action == 'D' {
            screen.cursor.column = if column > count {
                column - count
            } else {
                0
            };
        } else if action == 'E' {
            screen.cursor.row = down;
            screen.cursor.column = 0;
        } else if action == 'F' {
            screen.cursor.row = up;
            screen.cursor.column = 0;
        } else {
            screen.cursor.column = if count - 1 < last {
                count - 1
            } else {
                last
            };
        }
        screen.wrap_pending = false;
    }

    #[verifier::rlimit(60)]
    fn csi_edit(&mut self, first: u16, count: usize, action: char)
        requires
            old(self)@.wf(),
            is_edit_action(action),
            1 <= count <= u16::MAX,
        ensures
            final(self)@ == edit_csi(old(self)@, first, count as int, action),
            final(self)@.wf(),
    {
        reveal(edit_csi);
        let attributes = self.attributes;
        let screen = if self.alternate_active {
            &mut self.alternate
        } else {
            &mut self.primary
        };
        if action == 'J' {
            erase_display(screen, first, attributes);
        } else if action == 'K' {
            erase_line(screen, first, attributes);
        } else if action == '@' {
            insert_cells(screen, count, attributes);
        } else if action == 'P' {
            delete_cells(screen, count, attributes);
        } else if action == 'X' {
            let row = screen.cursor.row;
            let column = screen.cursor.column;
            screen.erase(row, column, column + count, attributes);
        } else if action == 'L' {
            insert_lines(screen, count, attributes);
        } else if action == 'M' {
            delete_lines(screen, count, attributes);
        } else if action == 'S' {
            screen.scroll_up(count, attributes);
        } else if action == 'T' {
            screen.scroll_down(count, attributes);
        } else if action == 'I' {
            move_tabs(screen, count, true);
        } else if action == 'Z' {
            move_tabs(screen, count, false);
        } else if first == 0 {
            let column = screen.cursor.column;
            screen.tabs.set(column, false);
        } else if first == 3 {
            let length = screen.tabs.len();
            let mut tabs: Vec<bool> = Vec::new();
            let mut i: usize = 0;
            while i < length
                invariant
                    i <= length,
                    tabs@.len() == i,
                    forall|j: int| 0 <= j < i ==> !#[trigger] tabs@[j],
                decreases length - i,
            {
                tabs.push(false);
                i += 1;
            }
            screen.tabs = tabs;
            proof {
                assert(screen.tabs@ =~= Seq::new(length as nat, |j: int| false));
            }
        }
    }

    fn respond(&mut self, bytes: &[u8])
        ensures
            final(self)@ == (StateView { responses: old(self)@.responses + bytes@, ..old(self)@ }),
    {
        let mut i: usize = 0;
        while i < bytes.len()
            invariant
                i <= bytes@.len(),
                self@ == (StateView { responses: old(self)@.responses + bytes@.subrange(0, i as int), ..old(self)@ }),
            decreases bytes.len() - i,
        {
            self.responses.push(bytes[i]);
            i += 1;
            proof {
                assert(self@.responses =~= old(self)@.responses + bytes@.subrange(0, i as int));
            }
        }
        proof {
            assert(bytes@.subrange(0, i as int) =~= bytes@);
        }
    }

    #[verifier::rlimit(60)]
    fn csi_other(&mut self, params: &[Vec<u16>], values: &[u16], private: bool, first: u16, action: char)
        requires
            old(self)@.wf(),
            complete_parameters(parameters(params@)),
            values@ == firsts(parameters(params@)),
            !(action == 'n' && first == 6 && private && old(self)@.origin
                && old(self)@.active().cursor.row < old(self)@.active().scroll_top),
        ensures
            final(self)@ == other_csi(old(self)@, parameters(params@), values@, private, first, action),
            final(self)@.wf(),
    {
        reveal(other_csi);
        if action == 'm' {
            self.sgr(params);
        } else if action == 'r' && !private {
            let origin = self.origin;
            let screen = if self.alternate_active {
                &mut self.alternate
            } else {
                &mut self.primary
            };
            let top: usize = if values.len() > 0 && values[0] > 1 {
                (values[0] - 1) as usize
            } else {
                0
            };
            let height = screen.height();
            let wanted: usize = if values.len() > 1 && values[1] != 0 {
                values[1] as usize
            } else {
                height
            };
            let bottom = if wanted < height {
                wanted
            } else {
                height
            };
            if top < bottom {
                screen.scroll_top = top;
                screen.scroll_bottom = bottom - 1;
                screen.cursor = Cursor {
                    row: if origin {
                        top
                    } else {
                        0
                    },
                    column: 0,
                };
                screen.wrap_pending = false;
            }
        } else if action == 's' {
            self.save_cursor();
        } else if action == 'u' {
            self.restore_cursor();
        } else if action == 'n' && first == 5 {
            let reply: [u8; 4] = [27, 91, 48, 110];
            proof {
                assert(reply@ =~= seq![27u8, 91u8, 48u8, 110u8]);
            }
            self.respond(&reply);
        } else if action == 'n' && first == 6 {
            let cursor = self.screen().cursor;
            let row = if private && self.origin {
                cursor.row - self.screen().scroll_top + 1
            } else {
                cursor.row + 1
            };
            let mut reply: Vec<u8> = Vec::new();
            reply.push(27);
            reply.push(91);
            if private {
                reply.push(63);
            }
            push_decimal(&mut reply, row as u64);
            reply.push(59);
            push_decimal(&mut reply, (cursor.column + 1) as u64);
            reply.push(82);
            proof {
                assert(reply@ =~= position_report(old(self)@, private));
            }
            self.respond(reply.as_slice());
        } else if action == 'c' {
            let reply: [u8; 7] = [27, 91, 63, 49, 59, 50, 99];
            proof {
                assert(reply@ =~= seq![27u8, 91u8, 63u8, 49u8, 59u8, 50u8, 99u8]);
            }
            self.respond(&reply);
        }
    }

    /// Carries out a control sequence.
    pub fn csi_dispatch(&mut self, params: &[Vec<u16>], intermediates: &[u8], ignore: bool, action: char)
        requires
            old(self)@.wf(),
            complete_parameters(parameters(params@)),
            csi_defined(old(self)@, parameters(params@), intermediates@, ignore, action),
        ensures
            final(self)@ == csi_applied(old(self)@, parameters(params@), intermediates@, ignore, action),
            final(self)@.wf(),
    {
        if ignore {
            return;
        }
        let private = intermediates.len() == 1 && intermediates[0] == 63;
        proof {
            assert(private == (intermediates@ == seq![63u8])) by {
                if intermediates@ == seq![63u8] {
                    assert(intermediates@.len() == 1);
                }
                if private {
                    assert(intermediates@ =~= seq![63u8]);
                }
            }
        }
        let values = first_values(params);
        let first = if values.len() > 0 {
            values[0]
        } else {
            0
        };
        let count: usize = if first > 1 {
            first as usize
        } else {
            1
        };
        if action == 'h' || action == 'l' {
            if private {
                self.set_private_modes(values.as_slice(), action == 'h');
            } else if holds_value(values.as_slice(), 4) {
                self.insert = action == 'h';
            }
            return;
        }
        if action == 'A' || action == 'B' || action == 'e' || action == 'C' || action == 'a'
            || action == 'D' || action == 'E' || action == 'F' || action == 'G' || action == '`'
            || action == 'H' || action == 'f' || action == 'd' {
            self.csi_cursor(values.as_slice(), count, action);
        } else if action == 'J' || action == 'K' || action == '@' || action == 'P' || action == 'X'
            || action == 'L' || action == 'M' || action == 'S' || action == 'T' || action == 'I'
            || action == 'Z' || action == 'g' {
            self.csi_edit(first, count, action);
        } else {
            self.csi_other(params, values.as_slice(), private, first, action);
        }
    }
}

/// The kind of escape sequence being read.
#[derive(Clone, Copy, Debug, PartialEq, Eq, Structural)]
pub enum SequenceKind {
    Escape,
    Csi,
    Osc,
    Dcs,
    ControlString,
}

/// Bounds the escape sequences handed to the parser: a sequence that grows past
/// the limit is dropped up to its end.
#[derive(Clone, Copy, Debug, PartialEq, Eq, Structural)]
pub enum SequenceGuard {
    Ground,
    Sequence { kind: SequenceKind, length: usize },
    Discard { kind: SequenceKind, escaped: bool },
}

/// The sequence read so far after one more byte, of `length` bytes with it.
pub open spec fn next_sequence_of(kind: SequenceKind, length: usize, byte: u8) -> SequenceGuard {
    match kind {
        SequenceKind::Escape => if byte == 91 {
            SequenceGuard::Sequence { kind: SequenceKind::Csi, length }
        } else if byte == 93 {
            SequenceGuard::Sequence { kind: SequenceKind::Osc, length }
        } else if byte == 80 {
            SequenceGuard::Sequence { kind: SequenceKind::Dcs, length }
        } else if byte == 88 || byte == 94 || byte == 95 {
            SequenceGuard::Sequence { kind: SequenceKind::ControlString, length }
        } else if 0x20 <= byte <= 0x2f {
            SequenceGuard::Sequence { kind: SequenceKind::Escape, length }
        } else {
            SequenceGuard::Ground
        },
        SequenceKind::Csi => if byte == 0x18 || byte == 0x1a || (0x40 <= byte <= 0x7e) {
            SequenceGuard::Ground
        } else if byte == 0x1b {
            SequenceGuard::Sequence { kind: SequenceKind::Escape, length: 1 }
        } else {
            SequenceGuard::Sequence { kind, length }
        },
        SequenceKind::Osc => if byte == 0x07 {
            SequenceGuard::Ground
        } else if byte == 0x1b {
            SequenceGuard::Sequence { kind: SequenceKind::Escape, length: 1 }
        } else {
            SequenceGuard::Sequence { kind, length }
        },
        _ => if byte == 0x1b {
            SequenceGuard::Sequence { kind: SequenceKind::Escape, length: 1 }
        } else {
            SequenceGuard::Sequence { kind, length }
        },
    }
}

/// The byte ends a sequence being dropped.
pub open spec fn discard_ends(kind: SequenceKind, escaped: bool, byte: u8) -> bool {
    match kind {
        SequenceKind::Escape => 0x30 <= byte <= 0x7e,
        SequenceKind::Csi => (0x40 <= byte <= 0x7e) || byte == 0x18 || byte == 0x1a,
        SequenceKind::Osc => byte == 0x07 || (escaped && byte == 92),
        _ => escaped && byte == 92,
    }
}

/// The guard after a byte, and whether the byte goes on to the parser.
pub open spec fn guarded(g: SequenceGuard, byte: u8) -> (SequenceGuard, bool) {
    match g {
        SequenceGuard::Ground => if byte == 0x1b {
            (SequenceGuard::Sequence { kind: SequenceKind::Escape, length: 1 }, true)
        } else {
            (g, true)
        },
        SequenceGuard::Sequence { kind, length } => if length == MAX_CONTROL_SEQUENCE {
            (
                if discard_ends(kind, false, byte) {
                    SequenceGuard::Ground
                } else {
                    SequenceGuard::Discard { kind, escaped: byte == 0x1b }
                },
                false,
            )
        } else {
            (next_sequence_of(kind, (length + 1) as usize, byte), true)
        },
        SequenceGuard::Discard { kind, escaped } => (
            if discard_ends(kind, escaped, byte) {
                SequenceGuard::Ground
            } else {
                SequenceGuard::Discard { kind, escaped: byte == 0x1b }
            },
            false,
        ),
    }
}

impl SequenceGuard {
    /// A sequence being read holds between one byte and the limit.
    pub open spec fn wf(self) -> bool {
        self matches SequenceGuard::Sequence { length, .. } ==> 1 <= length
            <= MAX_CONTROL_SEQUENCE
    }

    /// Takes a byte; true when it goes on to the parser.
    pub fn accept(&mut self, byte: u8) -> (r: bool)
        requires
            old(self).wf(),
        ensures
            (*final(self), r) == guarded(*old(self), byte),
            final(self).wf(),
    {
        match *self {
            SequenceGuard::Ground => {
                if byte == 0x1b {
                    *self = SequenceGuard::Sequence { kind: SequenceKind::Escape, length: 1 };
                }
                true
            },
            SequenceGuard::Sequence { kind, length } => {
                if length == MAX_CONTROL_SEQUENCE {
                    *self = if discarded_sequence_ended(kind, false, byte) {
                        SequenceGuard::Ground
                    } else {
                        SequenceGuard::Discard { kind, escaped: byte == 0x1b }
                    };
                    false
                } else {
                    *self = next_sequence(kind, length + 1, byte);
                    true
                }
            },
            SequenceGuard::Discard { kind, escaped } => {
                *self = if discarded_sequence_ended(kind, escaped, byte) {
                    SequenceGuard::Ground
                } else {
                    SequenceGuard::Discard { kind, escaped: byte == 0x1b }
                };
                false
            },
        }
    }
}

fn next_sequence(kind: SequenceKind, length: usize, byte: u8) -> (r: SequenceGuard)
    ensures
        r == next_sequence_of(kind, length, byte),
{
    match kind {
        SequenceKind::Escape => if byte == 91 {
            SequenceGuard::Sequence { kind: SequenceKind::Csi, length }
        } else if byte == 93 {
            SequenceGuard::Sequence { kind: SequenceKind::Osc, length }
        } else if byte == 80 {
            SequenceGuard::Sequence { kind: SequenceKind::Dcs, length }
        } else if byte == 88 || byte == 94 || byte == 95 {
            SequenceGuard::Sequence { kind: SequenceKind::ControlString, length }
        } else if 0x20 <= byte && byte <= 0x2f {
            SequenceGuard::Sequence { kind: SequenceKind::Escape, length }
        } else {
            SequenceGuard::Ground
        },
        SequenceKind::Csi => if byte == 0x18 || byte == 0x1a || (0x40 <= byte && byte <= 0x7e) {
            SequenceGuard::Ground
        } else if byte == 0x1b {
            SequenceGuard::Sequence { kind: SequenceKind::Escape, length: 1 }
        } else {
            SequenceGuard::Sequence { kind, length }
        },
        SequenceKind::Osc => if byte == 0x07 {
            SequenceGuard::Ground
        } else if byte == 0x1b {
            SequenceGuard::Sequence { kind: SequenceKind::Escape, length: 1 }
        } else {
            SequenceGuard::Sequence { kind, length }
        },
        _ => if byte == 0x1b {
            SequenceGuard::Sequence { kind: SequenceKind::Escape, length: 1 }
        } else {
            SequenceGuard::Sequence { kind, length }
        },
    }
}

fn discarded_sequence_ended(kind: SequenceKind, escaped: bool, byte: u8) -> (r: bool)
    ensures
        r == discard_ends(kind, escaped, byte),
{
    match kind {
        SequenceKind::Escape => 0x30 <= byte && byte <= 0x7e,
        SequenceKind::Csi => (0x40 <= byte && byte <= 0x7e) || byte == 0x18 || byte == 0x1a,
        SequenceKind::Osc => byte == 0x07 || (escaped && byte == 92),
        _ => escaped && byte == 92,
    }
}

/// What the parser does with one byte of pane output.
#[derive(Clone, Copy, Debug, Eq, PartialEq, Structural)]
pub enum GuardStep {
    /// Parse the byte.
    Feed,
    /// The sequence outgrew the limit: drop the byte and start the parser afresh.
    Reset,
    /// Drop the byte.
    Hold,
}

impl SequenceGuard {
    /// Passes one byte through the guard and says what the parser is to do with it.
    pub fn step(&mut self, byte: u8) -> (r: GuardStep)
        requires
            old(self).wf(),
        ensures
            *final(self) == guarded(*old(self), byte).0,
            final(self).wf(),
            r == (if guarded(*old(self), byte).1 {
                GuardStep::Feed
            } else if (*old(self) matches SequenceGuard::Sequence { length, .. } && length
                == MAX_CONTROL_SEQUENCE) {
                GuardStep::Reset
            } else {
                GuardStep::Hold
            }),
    {
        let overflow = match *self {
            SequenceGuard::Sequence { length, .. } => length == MAX_CONTROL_SEQUENCE,
            _ => false,
        };
        if self.accept(byte) {
            GuardStep::Feed
        } else if overflow {
            GuardStep::Reset
        } else {
            GuardStep::Hold
        }
    }
}

/// No byte of a sequence past the limit reaches the parser: once a sequence has
/// grown to the limit, the next byte is held back.
pub proof fn lemma_guard_bounds_sequences(kind: SequenceKind, byte: u8)
    ensures
        !guarded(SequenceGuard::Sequence { kind, length: MAX_CONTROL_SEQUENCE }, byte).1,
        guarded(SequenceGuard::Sequence { kind, length: MAX_CONTROL_SEQUENCE }, byte).0 != (
        SequenceGuard::Sequence { kind, length: MAX_CONTROL_SEQUENCE }),
{
}

/// Every wide character of the line is followed by its right half, and every right
/// half follows a wide character.
pub open spec fn wide_paired(line: Seq<CellView>) -> bool {
    forall|c: int| 0 <= c < line.len() ==> wide_paired_at(line, c)
}

pub open spec fn wide_paired_at(line: Seq<CellView>, c: int) -> bool {
    &&& (#[trigger] line[c]).width == 2 ==> c + 1 < line.len() && line[c + 1].width == 0
    &&& line[c].width == 0 ==> c > 0 && line[c - 1].width == 2
}

proof fn lemma_normalized_pairs(line: Seq<CellView>, c: int)
    requires
        0 <= c <= line.len(),
        forall|k: int| 0 <= k < c ==> wide_paired_at(line, k),
    ensures
        wide_paired(normalized(line, c)),
    decreases line.len() - c,
{
    if c < line.len() {
        let next = normalize_at(line, c);
        assert forall|k: int| 0 <= k < c + 1 implies wide_paired_at(next, k) by {
            if k < c {
                assert(wide_paired_at(line, k));
                if k == c - 1 && line[k].width == 2 {
                    assert(line[c].width == 0);
                }
            }
        }
        lemma_normalized_pairs(next, c + 1);
    } else {
        assert forall|k: int| 0 <= k < line.len() implies wide_paired_at(normalized(line, c), k) by {
            assert(wide_paired_at(line, k));
        }
    }
}

/// A normalized line pairs every wide character with its right half: a row that
/// `normalize_row` went over holds no broken half.
pub proof fn lemma_normalized_paired(line: Seq<CellView>)
    ensures
        wide_paired(normalized(line, 0)),
{
    lemma_normalized_pairs(line, 0);
}

/// A blank line has no wide character and no right half.
proof fn lemma_blank_line_paired(columns: nat, attributes: Attributes)
    ensures
        wide_paired(blank_line(columns, attributes)),
{
    let line = blank_line(columns, attributes);
    assert forall|c: int| 0 <= c < line.len() implies wide_paired_at(line, c) by {
        assert(line[c].width == 1);
    }
}

/// After a resize every row pairs its wide characters with their right halves: the
/// rows kept are normalized to the new width, and the rows added are blank. A fresh
/// screen is blank throughout.
pub proof fn lemma_resized_rows_paired(s: ScreenView, size: Size)
    ensures
        forall|i: int| 0 <= i < resized_screen(s, size).rows.len()
            ==> wide_paired(#[trigger] resized_screen(s, size).rows[i]),
        forall|i: int| 0 <= i < fresh_screen(size).rows.len()
            ==> wide_paired(#[trigger] fresh_screen(size).rows[i]),
{
    let columns = size.columns as nat;
    let r = resized_screen(s, size);
    lemma_blank_line_paired(columns, plain());
    assert forall|i: int| 0 <= i < r.rows.len() implies wide_paired(#[trigger] r.rows[i]) by {
        if i < s.height() && i < size.rows {
            let line = s.rows[i];
            lemma_normalized_paired(
                if columns <= line.len() {
                    line.subrange(0, columns as int)
                } else {
                    line + blank_line((columns - line.len()) as nat, plain())
                },
            );
        }
    }
    let f = fresh_screen(size);
    assert forall|i: int| 0 <= i < f.rows.len() implies wide_paired(#[trigger] f.rows[i]) by {
        assert(f.rows[i] == blank_line(columns, plain()));
    }
}

/// The count of a cursor movement: its first parameter, at least one.
pub open spec fn movement_count(params: Seq<Seq<u16>>) -> int {
    if params.len() > 0 && params[0].len() > 0 && params[0][0] > 1 {
        params[0][0] as int
    } else {
        1
    }
}

/// Cursor up (`CSI n A`) moves the cursor `n` rows up but not past the top margin,
/// the scrolling region's top in origin mode and the first row otherwise; cursor
/// down (`CSI n B`) moves it `n` rows down but not past the bottom margin. Either
/// keeps the column and the screen's cells. From at or below the top margin, up
/// never moves the cursor down; from at or above the bottom margin, down never
/// moves it up.
pub proof fn lemma_cursor_up_down(st: StateView, params: Seq<Seq<u16>>, intermediates: Seq<u8>)
    requires
        st.wf(),
        complete_parameters(params),
    ensures
        ({
            let s = st.active();
            let n = movement_count(params);
            let top: int = if st.origin { s.scroll_top as int } else { 0 };
            let bottom: int = if st.origin { s.scroll_bottom as int } else { s.height() - 1 };
            let up = csi_applied(st, params, intermediates, false, 'A').active();
            let down = csi_applied(st, params, intermediates, false, 'B').active();
            &&& up.cursor.row == (if s.cursor.row - n > top { s.cursor.row - n } else { top })
            &&& up.cursor.column == s.cursor.column
            &&& up.rows == s.rows
            &&& s.cursor.row >= top ==> up.cursor.row <= s.cursor.row
            &&& s.cursor.row - n >= top ==> up.cursor.row == s.cursor.row - n
            &&& down.cursor.row == (if s.cursor.row + n < bottom { s.cursor.row + n } else { bottom })
            &&& down.cursor.column == s.cursor.column
            &&& down.rows == s.rows
            &&& s.cursor.row <= bottom ==> down.cursor.row >= s.cursor.row
            &&& s.cursor.row + n <= bottom ==> down.cursor.row == s.cursor.row + n
        }),
{
    reveal(cursor_csi);
    let values = firsts(params);
    if params.len() > 0 {
        assert(values[0] == params[0][0]);
    }
}

/// Cursor forward (`CSI n C`) and back (`CSI n D`) move the cursor `n` columns
/// right or left, stopping at the last or the first column, and keep its row.
pub proof fn lemma_cursor_forward_back(st: StateView, params: Seq<Seq<u16>>, intermediates: Seq<u8>)
    requires
        st.wf(),
        complete_parameters(params),
    ensures
        ({
            let s = st.active();
            let n = movement_count(params);
            let last = s.columns() - 1;
            let forward = csi_applied(st, params, intermediates, false, 'C').active();
            let back = csi_applied(st, params, intermediates, false, 'D').active();
            &&& forward.cursor.column == (if s.cursor.column + n < last { s.cursor.column + n } else { last })
            &&& forward.cursor.row == s.cursor.row
            &&& forward.cursor.column >= s.cursor.column
            &&& back.cursor.column == (if s.cursor.column - n > 0 { s.cursor.column - n } else { 0 })
            &&& back.cursor.row == s.cursor.row
            &&& back.cursor.column <= s.cursor.column
        }),
{
    reveal(cursor_csi);
    let values = firsts(params);
    if params.len() > 0 {
        assert(values[0] == params[0][0]);
    }
}

/// Cursor next line (`CSI n E`) and previous line (`CSI n F`) move as down and up
/// do and go to the first column; cursor column (`CSI n G`) goes to column `n`
/// counting from one, at most the last; line position (`CSI n d`) goes to row `n`
/// of the screen, or of the scrolling region in origin mode, keeping the column.
pub proof fn lemma_cursor_lines_and_columns(st: StateView, params: Seq<Seq<u16>>, intermediates: Seq<u8>)
    requires
        st.wf(),
        complete_parameters(params),
    ensures
        ({
            let s = st.active();
            let n = movement_count(params);
            let top: int = if st.origin { s.scroll_top as int } else { 0 };
            let bottom: int = if st.origin { s.scroll_bottom as int } else { s.height() - 1 };
            let last = s.columns() - 1;
            let next = csi_applied(st, params, intermediates, false, 'E').active();
            let previous = csi_applied(st, params, intermediates, false, 'F').active();
            let column = csi_applied(st, params, intermediates, false, 'G').active();
            let line = csi_applied(st, params, intermediates, false, 'd').active();
            &&& next.cursor.column == 0
            &&& next.cursor.row == (if s.cursor.row + n < bottom { s.cursor.row + n } else { bottom })
            &&& previous.cursor.column == 0
            &&& previous.cursor.row == (if s.cursor.row - n > top { s.cursor.row - n } else { top })
            &&& column.cursor.row == s.cursor.row
            &&& column.cursor.column == (if n - 1 < last { n - 1 } else { last })
            &&& line.cursor.column == s.cursor.column
            &&& line.cursor.row == (if top + n - 1 > bottom { bottom } else { top + n - 1 })
        }),
{
    reveal(cursor_csi);
    let values = firsts(params);
    if params.len() > 0 {
        assert(values[0] == params[0][0]);
    }
}

/// Cursor position (`CSI row ; column H`) counts rows and columns from one, a
/// missing or zero value meaning one; outside origin mode it goes to that cell of
/// the screen, stopping at the last row and column.
pub proof fn lemma_cursor_position(st: StateView, params: Seq<Seq<u16>>, intermediates: Seq<u8>)
    requires
        st.wf(),
        complete_parameters(params),
        !st.origin,
    ensures
        ({
            let s = st.active();
            let row: int = if params.len() > 0 && params[0][0] > 1 { params[0][0] - 1 } else { 0 };
            let col: int = if params.len() > 1 && params[1][0] > 1 { params[1][0] - 1 } else { 0 };
            let moved = csi_applied(st, params, intermediates, false, 'H').active();
            &&& moved.cursor.row == (if row < s.height() { row } else { s.height() - 1 })
            &&& moved.cursor.column == (if col < s.columns() { col } else { s.columns() - 1 })
            &&& moved.rows == s.rows
        }),
{
    reveal(cursor_csi);
    let values = firsts(params);
    if params.len() > 0 {
        assert(values[0] == params[0][0]);
    }
    if params.len() > 1 {
        assert(values[1] == params[1][0]);
    }
}

} // verus!
