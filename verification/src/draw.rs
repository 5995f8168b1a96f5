//! Cells to be drawn at places of the terminal.

use crate::style::Style;
use vstd::prelude::*;

verus! {

/// A rectangle of the terminal.
#[derive(Clone, Copy, Debug, PartialEq, Eq, Structural)]
pub struct Area {
    pub x: u16,
    pub y: u16,
    pub width: u16,
    pub height: u16,
}

impl Area {
    /// Every cell of the rectangle has coordinates.
    pub open spec fn fits(self) -> bool {
        self.x + self.width <= 65536 && self.y + self.height <= 65536
    }
}

/// A cell to be drawn.
pub struct DrawCell {
    pub x: u16,
    pub y: u16,
    pub symbol: String,
    pub style: Style,
}

/// What a cell to be drawn holds.
#[verifier::ext_equal]
pub ghost struct DrawView {
    pub x: int,
    pub y: int,
    pub symbol: Seq<char>,
    pub style: Style,
}

impl View for DrawCell {
    type V = DrawView;

    open spec fn view(&self) -> DrawView {
        DrawView { x: self.x as int, y: self.y as int, symbol: self.symbol@, style: self.style }
    }
}

/// The views of a sequence of cells.
pub open spec fn draw_views(cells: Seq<DrawCell>) -> Seq<DrawView> {
    Seq::new(cells.len(), |i: int| cells[i]@)
}

/// What stands at a place: a text and its style.
pub type Look = (Seq<char>, Style);

/// The first `n` cells of row `r` of an area, as `look` gives them; where it gives
/// nothing, nothing is drawn.
pub open spec fn painted_row(
    area: Area,
    look: spec_fn(int, int) -> Option<Look>,
    r: int,
    n: int,
) -> Seq<DrawView>
    decreases n,
{
    if n <= 0 {
        Seq::empty()
    } else {
        let before = painted_row(area, look, r, n - 1);
        match look(r, n - 1) {
            Some((symbol, style)) => before.push(
                DrawView { x: area.x + n - 1, y: area.y + r, symbol, style },
            ),
            None => before,
        }
    }
}

/// The first `n` rows of an area, each `width` cells wide, from the top.
pub open spec fn painted(
    area: Area,
    look: spec_fn(int, int) -> Option<Look>,
    width: int,
    n: int,
) -> Seq<DrawView>
    decreases n,
{
    if n <= 0 {
        Seq::empty()
    } else {
        painted(area, look, width, n - 1) + painted_row(area, look, n - 1, width)
    }
}

} // verus!
