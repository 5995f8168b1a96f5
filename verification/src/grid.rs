//! The frozen grid of cells that copy mode works on.

use crate::style::{plain_style, Style};
use crate::text::{is_blank, is_blank_text};
use vstd::prelude::*;
use vstd::string::*;

verus! {

/// One cell of a grid.
#[derive(Clone, Debug)]
pub struct GridCell {
    pub symbol: String,
    pub style: Style,
    /// The second half of a wide character.
    pub wide_continuation: bool,
}

/// What a cell holds.
#[verifier::ext_equal]
pub ghost struct CellView {
    pub symbol: Seq<char>,
    pub style: Style,
    pub wide_continuation: bool,
}

impl View for GridCell {
    type V = CellView;

    open spec fn view(&self) -> CellView {
        CellView {
            symbol: self.symbol@,
            style: self.style,
            wide_continuation: self.wide_continuation,
        }
    }
}

/// The blank cell.
pub open spec fn blank_cell() -> CellView {
    CellView { symbol: seq![' '], style: plain_style(), wide_continuation: false }
}

impl CellView {
    /// The cell shows something of its own: it is neither blank nor half a character.
    pub open spec fn inked(self) -> bool {
        !self.wide_continuation && !is_blank_text(self.symbol)
    }

    /// The cell belongs to a word.
    pub open spec fn in_word(self) -> bool {
        self.wide_continuation || !is_blank_text(self.symbol)
    }
}

impl GridCell {
    /// The blank cell.
    pub fn blank() -> (cell: GridCell)
        ensures
            cell@ == blank_cell(),
    {
        proof {
            reveal_strlit(" ");
        }
        let cell: GridCell = GridCell {
            symbol: " ".to_string(),
            style: Style::plain(),
            wide_continuation: false,
        };
        assert(cell.symbol@ =~= seq![' ']);
        cell
    }

    /// Whether the cell shows something of its own.
    pub fn is_inked(&self) -> (inked: bool)
        ensures
            inked == self@.inked(),
    {
        !self.wide_continuation && !is_blank(self.symbol.as_str())
    }
}

/// A place in a grid.
#[derive(Clone, Copy, Debug, PartialEq, Eq, Structural)]
pub struct Pos {
    pub row: usize,
    pub col: usize,
}

impl Pos {
    /// This place comes before `other`: rows first, then columns.
    pub open spec fn before(self, other: Pos) -> bool {
        self.row < other.row || (self.row == other.row && self.col < other.col)
    }

    /// This place comes before `other` or is the same.
    pub open spec fn up_to(self, other: Pos) -> bool {
        self == other || self.before(other)
    }

    /// Whether this place comes before `other`.
    pub fn is_before(self, other: Pos) -> (r: bool)
        ensures
            r == self.before(other),
    {
        self.row < other.row || (self.row == other.row && self.col < other.col)
    }

    /// The two places, the earlier one first.
    pub open spec fn in_order(a: Pos, b: Pos) -> (Pos, Pos) {
        if a.up_to(b) {
            (a, b)
        } else {
            (b, a)
        }
    }

    /// The two places, the earlier one first.
    pub fn ordered(a: Pos, b: Pos) -> (pair: (Pos, Pos))
        ensures
            pair == Pos::in_order(a, b),
    {
        if b.is_before(a) {
            (b, a)
        } else {
            (a, b)
        }
    }
}

/// A grid of cells, the oldest row first.
pub struct Grid {
    pub rows: Vec<Vec<GridCell>>,
    pub width: u16,
}

impl Grid {
    /// Every row is as wide as the grid.
    pub open spec fn rectangular(&self) -> bool {
        forall|r: int| 0 <= r < self.rows@.len() ==> (#[trigger] self.rows@[r])@.len() == self.width
    }

    /// The cell at a place, if there is one.
    pub open spec fn at(&self, row: int, col: int) -> Option<CellView> {
        if 0 <= row < self.rows@.len() && 0 <= col < self.rows@[row]@.len() {
            Some(self.rows@[row]@[col]@)
        } else {
            None
        }
    }

    /// The cell at a place shows something.
    pub open spec fn inked_at(&self, row: int, col: int) -> bool {
        self.at(row, col) matches Some(cell) && cell.inked()
    }

    /// The row shows something.
    pub open spec fn inked_row(&self, row: int) -> bool {
        exists|col: int| #[trigger] self.inked_at(row, col)
    }

    /// `row` is the last row that shows something, or the first where none does.
    pub open spec fn is_last_inked_row(&self, row: int) -> bool {
        if exists|r: int| #[trigger] self.inked_row(r) {
            self.inked_row(row) && forall|r: int| #[trigger] self.inked_row(r) ==> r <= row
        } else {
            row == 0
        }
    }

    /// `col` is the last column of the row that shows something, or the first where
    /// none does.
    pub open spec fn is_last_inked_col(&self, row: int, col: int) -> bool {
        if self.inked_row(row) {
            self.inked_at(row, col) && forall|c: int| #[trigger] self.inked_at(row, c) ==> c <= col
        } else {
            col == 0
        }
    }

    /// The last row that shows something, or the first where none does.
    pub open spec fn last_inked_row(&self) -> int {
        choose|row: int| self.is_last_inked_row(row)
    }

    /// The last column of a row that shows something, or the first where none does.
    pub open spec fn last_inked_col(&self, row: int) -> int {
        choose|col: int| self.is_last_inked_col(row, col)
    }

    /// The number of rows.
    pub fn height(&self) -> (n: usize)
        ensures
            n == self.rows@.len(),
    {
        self.rows.len()
    }

    /// The cell at a place, if there is one.
    pub fn cell(&self, row: usize, col: usize) -> (cell: Option<&GridCell>)
        ensures
            cell is Some <==> self.at(row as int, col as int) is Some,
            cell matches Some(c) ==> self.at(row as int, col as int) == Some(c@),
    {
        if row < self.rows.len() && col < self.rows[row].len() {
            Some(&self.rows[row][col])
        } else {
            None
        }
    }

    /// The last column of a row that shows something, and whether there is one.
    fn find_inked_col(&self, row: usize) -> (col: Option<usize>)
        requires
            row < self.rows@.len(),
        ensures
            col is Some <==> self.inked_row(row as int),
            col matches Some(c) ==> self.is_last_inked_col(row as int, c as int),
    {
        let cells: &Vec<GridCell> = &self.rows[row];
        let mut n: usize = cells.len();
        while n > 0
            invariant
                row < self.rows@.len(),
                *cells == self.rows@[row as int],
                n <= cells@.len(),
                forall|c: int| n <= c ==> !#[trigger] self.inked_at(row as int, c),
            decreases n,
        {
            n -= 1;
            if cells[n].is_inked() {
                assert(self.inked_at(row as int, n as int));
                return Some(n);
            }
            assert(!self.inked_at(row as int, n as int));
        }
        None
    }

    /// The last row that shows something, or the first where none does.
    pub fn last_content_row(&self) -> (row: usize)
        ensures
            row == self.last_inked_row(),
            self.is_last_inked_row(row as int),
            row < self.rows@.len() || row == 0,
    {
        let mut n: usize = self.rows.len();
        while n > 0
            invariant
                n <= self.rows@.len(),
                forall|r: int| n <= r ==> !#[trigger] self.inked_row(r),
            decreases n,
        {
            n -= 1;
            if self.find_inked_col(n).is_some() {
                assert(self.inked_row(n as int));
                assert(self.is_last_inked_row(n as int));
                return n;
            }
        }
        assert forall|r: int| !#[trigger] self.inked_row(r) by {
            if r < 0 {
                assert forall|c: int| !#[trigger] self.inked_at(r, c) by {}
            }
        }
        assert(self.is_last_inked_row(0));
        0
    }

    /// The last column of a row that shows something, or the first where none does.
    pub fn last_content_col(&self, row: usize) -> (col: usize)
        ensures
            col == self.last_inked_col(row as int),
            self.is_last_inked_col(row as int, col as int),
            self.rectangular() ==> col < self.width || col == 0,
    {
        if row >= self.rows.len() {
            assert forall|c: int| !#[trigger] self.inked_at(row as int, c) by {}
            assert(self.is_last_inked_col(row as int, 0));
            return 0;
        }
        match self.find_inked_col(row) {
            Some(col) => {
                assert(self.inked_at(row as int, col as int));
                col
            },
            None => {
                assert(self.is_last_inked_col(row as int, 0));
                0
            },
        }
    }
}

} // verus!
