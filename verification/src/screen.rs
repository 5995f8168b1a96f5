//! The terminal screen of a running script: reading it, freezing it for copy mode
//! and drawing it.

use crate::draw::{draw_views, painted, painted_row, Area, DrawCell, Look};
use crate::grid::{blank_cell, CellView, Grid, GridCell};
use crate::style::{Color, Style};
use vstd::math::min;
use vstd::prelude::*;
use vstd::string::*;
use vt100::Color as ScreenColor;

verus! {

// --- the terminal emulator -------------------------------------------------

/// The screen of a terminal emulator with its scrollback.
#[verifier::external_type_specification]
#[verifier::external_body]
pub struct ExScreen(vt100::Screen);

/// A colour as the emulator keeps it.
#[derive(Clone, Copy, Debug, PartialEq, Eq, Structural)]
pub enum VtColor {
    Default,
    Idx(u8),
    Rgb(u8, u8, u8),
}

/// A cell as the emulator keeps it.
pub struct VtCell {
    pub contents: String,
    pub fg: VtColor,
    pub bg: VtColor,
    pub bold: bool,
    pub dim: bool,
    pub italic: bool,
    pub underline: bool,
    pub inverse: bool,
    pub wide_continuation: bool,
}

/// What a cell of the emulator holds.
#[verifier::ext_equal]
pub ghost struct VtView {
    pub contents: Seq<char>,
    pub fg: VtColor,
    pub bg: VtColor,
    pub bold: bool,
    pub dim: bool,
    pub italic: bool,
    pub underline: bool,
    pub inverse: bool,
    pub wide_continuation: bool,
}

impl View for VtCell {
    type V = VtView;

    open spec fn view(&self) -> VtView {
        VtView {
            contents: self.contents@,
            fg: self.fg,
            bg: self.bg,
            bold: self.bold,
            dim: self.dim,
            italic: self.italic,
            underline: self.underline,
            inverse: self.inverse,
            wide_continuation: self.wide_continuation,
        }
    }
}

/// The lines that a screen keeps, the scrollback first, each with its cells.
pub uninterp spec fn screen_lines(screen: vt100::Screen) -> Seq<Seq<VtView>>;

/// The number of rows and columns that a screen shows.
pub uninterp spec fn screen_size(screen: vt100::Screen) -> (nat, nat);

/// How many lines the window of a screen is scrolled up.
pub uninterp spec fn screen_offset(screen: vt100::Screen) -> nat;

/// The number of lines above the rows that a screen shows when it is not scrolled.
pub open spec fn screen_above(screen: vt100::Screen) -> int {
    screen_lines(screen).len() - screen_size(screen).0
}

/// The cell at a place of the window, if there is one.
pub open spec fn window_cell(screen: vt100::Screen, row: int, col: int) -> Option<VtView> {
    let line = screen_above(screen) - screen_offset(screen) + row;
    if 0 <= row < screen_size(screen).0 && 0 <= col < screen_lines(screen)[line].len() {
        Some(screen_lines(screen)[line][col])
    } else {
        None
    }
}

/// `vt100::Screen::size`: the rows and columns that the screen shows.
pub assume_specification[ vt100::Screen::size ](screen: &vt100::Screen) -> (size: (u16, u16))
    ensures
        (size.0 as nat, size.1 as nat) == screen_size(*screen),
;

/// `vt100::Screen::scrollback`: how far the window is scrolled up, which is never
/// above the oldest line.
pub assume_specification[ vt100::Screen::scrollback ](screen: &vt100::Screen) -> (offset: usize)
    ensures
        offset == screen_offset(*screen),
        offset <= screen_above(*screen),
;

/// `vt100::Screen::set_scrollback`: moves the window up by `rows` lines from the bottom,
/// or to the oldest line where there are fewer. The lines stay. Those above the screen are
/// counted by a `usize`.
pub assume_specification[ vt100::Screen::set_scrollback ](screen: &mut vt100::Screen, rows: usize)
    ensures
        screen_lines(*final(screen)) == screen_lines(*old(screen)),
        screen_size(*final(screen)) == screen_size(*old(screen)),
        0 <= screen_above(*final(screen)) <= usize::MAX,
        screen_offset(*final(screen)) == if rows <= screen_above(*old(screen)) {
            rows as int
        } else {
            screen_above(*old(screen))
        },
;

/// Calls `vt100::Screen::cell` and copies out what the cell holds: the cell of the
/// window at `row` and `col`, if there is one.
#[verifier::external_body]
pub(crate) fn read_cell(screen: &vt100::Screen, row: u16, col: u16) -> (cell: Option<VtCell>)
    ensures
        cell is Some <==> window_cell(*screen, row as int, col as int) is Some,
        cell matches Some(c) ==> window_cell(*screen, row as int, col as int) == Some(c@),
{
    let color = |c: ScreenColor| match c {
        ScreenColor::Default => VtColor::Default,
        ScreenColor::Idx(i) => VtColor::Idx(i),
        ScreenColor::Rgb(r, g, b) => VtColor::Rgb(r, g, b),
    };
    screen.cell(row, col).map(|cell| VtCell {
        contents: cell.contents().to_string(),
        fg: color(cell.fgcolor()), bg: color(cell.bgcolor()),
        bold: cell.bold(), dim: cell.dim(), italic: cell.italic(),
        underline: cell.underline(), inverse: cell.inverse(),
        wide_continuation: cell.is_wide_continuation(),
    })
}

// --- looks -----------------------------------------------------------------

impl VtColor {
    /// The colour to draw.
    pub open spec fn shown(self) -> Color {
        match self {
            VtColor::Default => Color::Reset,
            VtColor::Idx(i) => Color::Indexed(i),
            VtColor::Rgb(r, g, b) => Color::Rgb(r, g, b),
        }
    }

    /// The colour to draw.
    pub fn color(self) -> (color: Color)
        ensures
            color == self.shown(),
    {
        match self {
            VtColor::Default => Color::Reset,
            VtColor::Idx(i) => Color::Indexed(i),
            VtColor::Rgb(r, g, b) => Color::Rgb(r, g, b),
        }
    }
}

impl VtView {
    /// The style to draw the cell in.
    pub open spec fn shown_style(self) -> Style {
        Style {
            fg: Some(self.fg.shown()),
            bg: Some(self.bg.shown()),
            bold: self.bold,
            dim: self.dim,
            italic: self.italic,
            underlined: self.underline,
            reversed: self.inverse,
        }
    }

    /// The text to draw: a space where the cell is empty.
    pub open spec fn shown_symbol(self) -> Seq<char> {
        if self.contents.len() == 0 {
            seq![' ']
        } else {
            self.contents
        }
    }

    /// The cell of a frozen grid.
    pub open spec fn frozen(self) -> CellView {
        CellView {
            symbol: self.shown_symbol(),
            style: self.shown_style(),
            wide_continuation: self.wide_continuation,
        }
    }
}

/// The style to draw a cell of the emulator in.
pub fn vt_style(cell: &VtCell) -> (style: Style)
    ensures
        style == cell@.shown_style(),
{
    Style {
        fg: Some(cell.fg.color()),
        bg: Some(cell.bg.color()),
        bold: cell.bold,
        dim: cell.dim,
        italic: cell.italic,
        underlined: cell.underline,
        reversed: cell.inverse,
    }
}

/// The text to draw for a cell of the emulator.
fn vt_symbol(cell: &VtCell) -> (symbol: String)
    ensures
        symbol@ == cell@.shown_symbol(),
{
    if cell.contents.as_str().is_empty() {
        proof {
            reveal_strlit(" ");
        }
        let space: String = " ".to_string();
        assert(space@ =~= seq![' ']);
        space
    } else {
        cell.contents.clone()
    }
}

// --- freezing --------------------------------------------------------------

/// The cell of the frozen grid that stands for a place of the kept lines.
pub open spec fn frozen_at(screen: vt100::Screen, line: int, col: int) -> CellView {
    if col < screen_lines(screen)[line].len() {
        screen_lines(screen)[line][col].frozen()
    } else {
        blank_cell()
    }
}

/// A row of cells holds kept line `line` of a screen, filled up with blanks.
pub open spec fn holds_line(cells: Seq<GridCell>, screen: vt100::Screen, line: int) -> bool {
    &&& cells.len() == screen_size(screen).1
    &&& forall|c: int| 0 <= c < cells.len() ==> (#[trigger] cells[c])@ == frozen_at(screen, line, c)
}

/// A grid holds every line that a screen keeps, the oldest first.
pub open spec fn holds_screen(grid: Grid, screen: vt100::Screen) -> bool {
    &&& grid.width == screen_size(screen).1
    &&& grid.rows@.len() == screen_lines(screen).len()
    &&& forall|l: int|
        0 <= l < grid.rows@.len() ==> holds_line((#[trigger] grid.rows@[l])@, screen, l)
}

/// The same lines in a window of the same size.
pub open spec fn same_contents(a: vt100::Screen, b: vt100::Screen) -> bool {
    screen_lines(a) == screen_lines(b) && screen_size(a) == screen_size(b)
}

/// One row of the window, filled up with blanks.
fn freeze_row(screen: &vt100::Screen, row: u16, cols: u16) -> (cells: Vec<GridCell>)
    requires
        row < screen_size(*screen).0,
        cols == screen_size(*screen).1,
    ensures
        holds_line(
            cells@,
            *screen,
            screen_above(*screen) - screen_offset(*screen) + row,
        ),
{
    let mut cells: Vec<GridCell> = Vec::new();
    let mut c: u16 = 0;
    let ghost line = screen_above(*screen) - screen_offset(*screen) + row;
    while c < cols
        invariant
            row < screen_size(*screen).0,
            cols == screen_size(*screen).1,
            line == screen_above(*screen) - screen_offset(*screen) + row,
            c <= cols,
            cells@.len() == c,
            forall|i: int|
                0 <= i < c ==> (#[trigger] cells@[i])@ == frozen_at(*screen, line, i),
        decreases cols - c,
    {
        match read_cell(screen, row, c) {
            Some(cell) => {
                let symbol: String = vt_symbol(&cell);
                let style: Style = vt_style(&cell);
                cells.push(GridCell { symbol, style, wide_continuation: cell.wide_continuation });
            },
            None => {
                cells.push(GridCell::blank());
            },
        }
        c += 1;
    }
    cells
}

/// Freezes all lines of a screen, scrollback included, into a grid.
///
/// The emulator shows a window of its lines only, so the window is moved over them from
/// the oldest line down; at the end it stands at the bottom.
pub fn snapshot(screen: &mut vt100::Screen) -> (grid: Grid)
    requires
        screen_size(*old(screen)).0 > 0,
    ensures
        holds_screen(grid, *old(screen)),
        grid.rectangular(),
        same_contents(*final(screen), *old(screen)),
        screen_offset(*final(screen)) == 0,
{
    let ghost start = *screen;
    let size: (u16, u16) = screen.size();
    let screen_rows: usize = size.0 as usize;
    let cols: u16 = size.1;
    screen.set_scrollback(usize::MAX);
    let max_offset: usize = screen.scrollback();
    let mut rows: Vec<Vec<GridCell>> = Vec::new();
    let mut k: usize = max_offset;
    loop
        invariant
            same_contents(*screen, start),
            screen_rows == size.0,
            cols == size.1,
            (size.0 as nat, size.1 as nat) == screen_size(start),
            size.0 > 0,
            max_offset == screen_above(start),
            k <= max_offset,
            rows@.len() >= max_offset - k,
            rows@.len() <= max_offset - k + screen_rows,
            forall|l: int|
                0 <= l < rows@.len() ==> holds_line((#[trigger] rows@[l])@, start, l),
        ensures
            same_contents(*screen, start),
            rows@.len() == screen_lines(start).len(),
            forall|l: int|
                0 <= l < rows@.len() ==> holds_line((#[trigger] rows@[l])@, start, l),
        decreases k,
    {
        screen.set_scrollback(k);
        let base: usize = max_offset - k;
        let mut r: usize = rows.len() - base;
        while r < screen_rows
            invariant
                same_contents(*screen, start),
                screen_offset(*screen) == k,
                screen_rows == size.0,
                cols == size.1,
                (size.0 as nat, size.1 as nat) == screen_size(start),
                base == max_offset - k,
                max_offset == screen_above(start),
                r <= screen_rows,
                rows@.len() == base + r,
                forall|l: int|
                    0 <= l < rows@.len() ==> holds_line((#[trigger] rows@[l])@, start, l),
            decreases screen_rows - r,
        {
            let row: Vec<GridCell> = freeze_row(screen, r as u16, cols);
            assert(holds_line(row@, start, base + r)) by {
                assert forall|c: int| 0 <= c < row@.len() implies (#[trigger] row@[c])@
                    == frozen_at(start, base + r, c) by {
                    assert(row@[c]@ == frozen_at(*screen, base + r, c));
                }
            }
            rows.push(row);
            r += 1;
        }
        if k == 0 {
            break;
        }
        if k >= screen_rows {
            k -= screen_rows;
        } else {
            k = 0;
        }
    }
    screen.set_scrollback(0);
    Grid { rows, width: cols }
}

/// Freezes a screen as `snapshot` does, or gives nothing where the screen has no rows.
pub fn try_snapshot(screen: &mut vt100::Screen) -> (grid: Option<Grid>)
    ensures
        grid is Some <==> screen_size(*old(screen)).0 > 0,
        grid matches Some(g) ==> holds_screen(g, *old(screen)) && g.rectangular()
            && screen_offset(*final(screen)) == 0,
        grid is None ==> *final(screen) == *old(screen),
        same_contents(*final(screen), *old(screen)),
{
    let size: (u16, u16) = screen.size();
    if size.0 == 0 {
        None
    } else {
        Some(snapshot(screen))
    }
}

// --- drawing ---------------------------------------------------------------

/// What the window of a screen shows at a place; the second half of a wide character is
/// left to its first half.
pub open spec fn window_look(screen: vt100::Screen, row: int, col: int) -> Option<Look> {
    match window_cell(screen, row, col) {
        Some(cell) => if cell.wide_continuation {
            None
        } else {
            Some((cell.shown_symbol(), cell.shown_style()))
        },
        None => None,
    }
}

/// The cells to draw for the window of a screen in an area, as far as the area reaches.
pub fn render_screen(screen: &vt100::Screen, area: Area) -> (cells: Vec<DrawCell>)
    requires
        area.fits(),
    ensures
        draw_views(cells@) == painted(
            area,
            |r: int, c: int| window_look(*screen, r, c),
            min(area.width as int, screen_size(*screen).1 as int),
            min(area.height as int, screen_size(*screen).0 as int),
        ),
{
    let size: (u16, u16) = screen.size();
    let max_row: u16 = if area.height < size.0 { area.height } else { size.0 };
    let max_col: u16 = if area.width < size.1 { area.width } else { size.1 };
    let ghost look = |r: int, c: int| window_look(*screen, r, c);
    let mut cells: Vec<DrawCell> = Vec::new();
    let mut row: u16 = 0;
    assert(draw_views(cells@) =~= painted(area, look, max_col as int, 0));
    while row < max_row
        invariant
            area.fits(),
            max_row <= area.height,
            max_col <= area.width,
            row <= max_row,
            look == (|r: int, c: int| window_look(*screen, r, c)),
            draw_views(cells@) == painted(area, look, max_col as int, row as int),
        decreases max_row - row,
    {
        let mut col: u16 = 0;
        assert(painted(area, look, max_col as int, row as int) + painted_row(
            area,
            look,
            row as int,
            0,
        ) =~= draw_views(cells@));
        while col < max_col
            invariant
                area.fits(),
                max_row <= area.height,
                max_col <= area.width,
                row < max_row,
                col <= max_col,
                look == (|r: int, c: int| window_look(*screen, r, c)),
                draw_views(cells@) == painted(area, look, max_col as int, row as int)
                    + painted_row(area, look, row as int, col as int),
            decreases max_col - col,
        {
            let ghost before = cells@;
            assert(look(row as int, col as int) == window_look(*screen, row as int, col as int));
            if let Some(cell) = read_cell(screen, row, col) {
                if !cell.wide_continuation {
                    let symbol: String = vt_symbol(&cell);
                    let style: Style = vt_style(&cell);
                    cells.push(DrawCell { x: area.x + col, y: area.y + row, symbol, style });
                    assert(draw_views(cells@) =~= draw_views(before).push(cells@.last()@));
                }
            }
            col += 1;
            assert(draw_views(cells@) =~= painted(area, look, max_col as int, row as int)
                + painted_row(area, look, row as int, col as int));
        }
        row += 1;
    }
    cells
}

} // verus!
