//! Selections in a grid: which places they cover, and the text they hold.

use crate::grid::{Grid, Pos};
use crate::text::{joined_lines, trim_end, trimmed_end};
use vstd::math::{max, min};
use vstd::prelude::*;
use vstd::string::*;

verus! {

/// What a selection covers between its two ends.
#[derive(Clone, Copy, Debug, PartialEq, Eq, Structural)]
pub enum SelectionKind {
    /// All characters from one end to the other.
    Char,
    /// Whole lines.
    Line,
    /// A rectangle.
    Block,
}

/// A place lies in a selection.
pub open spec fn covers(kind: SelectionKind, a: Pos, b: Pos, p: Pos) -> bool {
    match kind {
        SelectionKind::Char => Pos::in_order(a, b).0.up_to(p) && p.up_to(Pos::in_order(a, b).1),
        SelectionKind::Line => min(a.row as int, b.row as int) <= p.row <= max(
            a.row as int,
            b.row as int,
        ),
        SelectionKind::Block => {
            &&& min(a.row as int, b.row as int) <= p.row <= max(a.row as int, b.row as int)
            &&& min(a.col as int, b.col as int) <= p.col <= max(a.col as int, b.col as int)
        },
    }
}

/// The columns that a selection takes out of a row, the last one too, in a grid whose last
/// column is `last_col`.
pub open spec fn columns(
    kind: SelectionKind,
    a: Pos,
    b: Pos,
    last_col: int,
    row: int,
) -> (int, int) {
    match kind {
        SelectionKind::Char => {
            let (start, end) = Pos::in_order(a, b);
            (
                if row == start.row {
                    start.col as int
                } else {
                    0
                },
                if row == end.row {
                    end.col as int
                } else {
                    last_col
                },
            )
        },
        SelectionKind::Line => (0, last_col),
        SelectionKind::Block => (
            min(a.col as int, b.col as int),
            max(a.col as int, b.col as int),
        ),
    }
}

impl Grid {
    /// The text of columns `from..to` of a row. The second half of a wide character adds
    /// nothing.
    pub open spec fn row_text(&self, row: int, from: int, to: int) -> Seq<char>
        decreases to - from,
    {
        if to <= from {
            Seq::empty()
        } else {
            let before = self.row_text(row, from, to - 1);
            match self.at(row, to - 1) {
                Some(cell) => if cell.wide_continuation {
                    before
                } else {
                    before + cell.symbol
                },
                None => before,
            }
        }
    }

    /// The text that a selection takes out of a row, without white space at its end.
    pub open spec fn selected_line(
        &self,
        kind: SelectionKind,
        a: Pos,
        b: Pos,
        row: int,
    ) -> Seq<char> {
        let (from, to) = columns(kind, a, b, self.width - 1, row);
        trimmed_end(self.row_text(row, from, to + 1))
    }

    /// The lines that a selection takes out of the first `n` of its rows.
    pub open spec fn selected_lines(
        &self,
        kind: SelectionKind,
        a: Pos,
        b: Pos,
        n: int,
    ) -> Seq<Seq<char>> {
        Seq::new(
            n as nat,
            |i: int| self.selected_line(kind, a, b, min(a.row as int, b.row as int) + i),
        )
    }

    /// The text of a selection.
    pub open spec fn selected_text(&self, kind: SelectionKind, a: Pos, b: Pos) -> Seq<char> {
        if self.width == 0 {
            Seq::empty()
        } else {
            joined_lines(
                self.selected_lines(
                    kind,
                    a,
                    b,
                    max(a.row as int, b.row as int) - min(a.row as int, b.row as int) + 1,
                ),
            )
        }
    }

    /// Columns behind the end of a row add no text.
    pub(crate) proof fn lemma_row_text_past_end(&self, row: int, from: int, to: int, end: int)
        requires
            forall|c: int| end <= c ==> #[trigger] self.at(row, c) is None,
            end <= to,
        ensures
            self.row_text(row, from, to) == self.row_text(row, from, if from < end {
                end
            } else {
                from
            }),
        decreases to - end,
    {
        if to > end && to > from {
            assert(self.at(row, to - 1) is None);
            self.lemma_row_text_past_end(row, from, to - 1, end);
        }
    }

    /// The text of columns `from..=to` of a row.
    pub fn row_slice(&self, row: usize, from: usize, to: usize) -> (s: String)
        ensures
            s@ == self.row_text(row as int, from as int, to + 1),
    {
        let mut s: String = String::new();
        let len: usize = if row < self.rows.len() { self.rows[row].len() } else { 0 };
        let end: usize = if to < len { to + 1 } else { len };
        let mut col: usize = from;
        while col < end
            invariant
                from <= col,
                col <= end || col == from,
                s@ == self.row_text(row as int, from as int, col as int),
            decreases end - col,
        {
            if let Some(cell) = self.cell(row, col) {
                if !cell.wide_continuation {
                    s.append(cell.symbol.as_str());
                }
            }
            col += 1;
        }
        proof {
            assert forall|c: int| len <= c implies #[trigger] self.at(row as int, c) is None by {}
            if to >= len {
                self.lemma_row_text_past_end(row as int, from as int, to + 1, len as int);
            }
        }
        s
    }

    /// The text of a selection.
    pub fn selection_text(&self, kind: SelectionKind, a: Pos, b: Pos) -> (text: String)
        ensures
            text@ == self.selected_text(kind, a, b),
    {
        let mut out: String = String::new();
        if self.width == 0 {
            assert(out@ =~= Seq::empty());
            return out;
        }
        let last_col: usize = self.width as usize - 1;
        let (start, end): (Pos, Pos) = Pos::ordered(a, b);
        let r0: usize = start.row;
        let r1: usize = end.row;
        let c0: usize = if a.col < b.col { a.col } else { b.col };
        let c1: usize = if a.col < b.col { b.col } else { a.col };
        let mut row: usize = r0;
        assert(self.selected_lines(kind, a, b, 0) =~= Seq::empty());
        loop
            invariant_except_break
                row == r0 ==> out@ == Seq::<char>::empty(),
                row > r0 ==> out@ == joined_lines(self.selected_lines(kind, a, b, row - r0)).push(
                    '\n',
                ),
            invariant
                r0 == min(a.row as int, b.row as int),
                r1 == max(a.row as int, b.row as int),
                c0 == min(a.col as int, b.col as int),
                c1 == max(a.col as int, b.col as int),
                last_col == self.width - 1,
                (start, end) == Pos::in_order(a, b),
                start.row == r0,
                end.row == r1,
                r0 <= row <= r1,
            ensures
                out@ == joined_lines(self.selected_lines(kind, a, b, r1 - r0 + 1)),
            decreases r1 - row,
        {
            let (from, to): (usize, usize) = match kind {
                SelectionKind::Char => (
                    if row == start.row { start.col } else { 0 },
                    if row == end.row { end.col } else { last_col },
                ),
                SelectionKind::Line => (0, last_col),
                SelectionKind::Block => (c0, c1),
            };
            let line: String = trim_end(self.row_slice(row, from, to).as_str());
            out.append(line.as_str());
            proof {
                let lines = self.selected_lines(kind, a, b, row - r0 + 1);
                assert(lines.drop_last() =~= self.selected_lines(kind, a, b, row - r0));
                assert(lines.last() == line@);
                if row == r0 {
                    assert(out@ =~= lines[0]);
                }
                assert(out@ == joined_lines(lines));
            }
            if row == r1 {
                break;
            }
            out.push('\n');
            row += 1;
        }
        out
    }
}

/// Which end of a selection is the cursor's makes no difference to what it covers and holds.
pub proof fn law_selection_ends_swap(grid: Grid, kind: SelectionKind, a: Pos, b: Pos)
    ensures
        forall|p: Pos| covers(kind, a, b, p) == covers(kind, b, a, p),
        grid.selected_text(kind, a, b) == grid.selected_text(kind, b, a),
{
    let n = max(a.row as int, b.row as int) - min(a.row as int, b.row as int) + 1;
    assert(Pos::in_order(a, b) == Pos::in_order(b, a));
    assert(grid.selected_lines(kind, a, b, n) =~= grid.selected_lines(kind, b, a, n));
}

} // verus!
