//! What copy mode is for: moving about, selecting text, copying it, and searching.

use vstd::math::{max, min};
use vstd::prelude::*;

use crate::app::{AppView, ModeView};
use crate::copy_laws::law_matches_are_the_hits;
use crate::copy_mode::{CopyView, SearchInputView, SearchView};
use crate::event_laws::types;
use crate::events::ActionView;
use crate::grid::{Grid, Pos};
use crate::keys::{KeyCode, KeyModifiers};
use crate::number::{all_digits, digits_of, digits_value, is_digit};
use crate::search::{first_behind, from_col, hit_at, last_in_front, match_from, Direction};
use crate::selection::{columns, covers, SelectionKind};
use crate::text::{
    is_blank_text, is_space, joined_lines, lemma_trimmed_end, lower_char, lower_chars, trimmed_end,
};

verus! {

// --- the text of a selection ----------------------------------------------------------

/// One place stands in front of another in reading order, or is the same.
pub open spec fn read_first(r1: int, c1: int, r2: int, c2: int) -> bool {
    r1 < r2 || r1 == r2 && c1 <= c2
}

/// A number lies between two others, whichever is the larger.
pub open spec fn between(a: int, x: int, b: int) -> bool {
    a <= x <= b || b <= x <= a
}

/// A place lies in a selection from one place to another: by characters, what is read
/// from the one to the other; by lines, the lines of both and those between; as a block,
/// the rectangle that they are corners of.
pub open spec fn lies_in(kind: SelectionKind, a: Pos, b: Pos, row: int, col: int) -> bool {
    let (ar, ac, br, bc) = (a.row as int, a.col as int, b.row as int, b.col as int);
    match kind {
        SelectionKind::Char => {
            ||| read_first(ar, ac, row, col) && read_first(row, col, br, bc)
            ||| read_first(br, bc, row, col) && read_first(row, col, ar, ac)
        },
        SelectionKind::Line => between(ar, row, br),
        SelectionKind::Block => between(ar, row, br) && between(ac, col, bc),
    }
}

/// What a selection covers.
pub proof fn law_what_a_selection_covers(kind: SelectionKind, a: Pos, b: Pos, p: Pos)
    ensures
        covers(kind, a, b, p) == lies_in(kind, a, b, p.row as int, p.col as int),
{
}

/// The symbols of those of the first `n` cells of a row that lie in a selection, in
/// order. The second half of a wide character has none of its own.
pub open spec fn covered_text(
    grid: Grid,
    kind: SelectionKind,
    a: Pos,
    b: Pos,
    row: int,
    n: int,
) -> Seq<char>
    decreases n,
{
    if n <= 0 {
        Seq::empty()
    } else {
        let before = covered_text(grid, kind, a, b, row, n - 1);
        if lies_in(kind, a, b, row, n - 1) && 0 <= row < grid.rows@.len() && n - 1
            < grid.rows@[row]@.len() && !grid.rows@[row]@[n - 1].wide_continuation {
            before + grid.rows@[row]@[n - 1].symbol@
        } else {
            before
        }
    }
}

/// `line` is a text without the white space at its end.
pub open spec fn cut_to(text: Seq<char>, line: Seq<char>) -> bool {
    &&& line.len() <= text.len()
    &&& line == text.take(line.len() as int)
    &&& is_blank_text(text.skip(line.len() as int))
    &&& line.len() > 0 ==> !is_space(line.last())
}

/// Each line holds what the selection covers of its row.
pub open spec fn lines_of(
    grid: Grid,
    kind: SelectionKind,
    a: Pos,
    b: Pos,
    lines: Seq<Seq<char>>,
) -> bool {
    let top = min(a.row as int, b.row as int);
    &&& lines.len() == max(a.row as int, b.row as int) - top + 1
    &&& forall|i: int|
        0 <= i < lines.len() ==> cut_to(
            covered_text(grid, kind, a, b, top + i, grid.width as int),
            #[trigger] lines[i],
        )
}

/// The text holds, row by row, what the selection covers, with a line feed between each
/// two rows.
pub open spec fn is_text_of(
    grid: Grid,
    kind: SelectionKind,
    a: Pos,
    b: Pos,
    text: Seq<char>,
) -> bool {
    exists|lines: Seq<Seq<char>>| #[trigger]
        lines_of(grid, kind, a, b, lines) && text == joined_lines(lines)
}

/// Lines are joined with a line feed between each two, and nothing else.
pub proof fn law_joining_lines(lines: Seq<Seq<char>>, line: Seq<char>)
    ensures
        joined_lines(seq![line]) == line,
        lines.len() > 0 ==> joined_lines(lines.push(line)) == joined_lines(lines) + seq!['\n']
            + line,
{
    if lines.len() > 0 {
        assert(lines.push(line).drop_last() =~= lines);
        assert(joined_lines(lines).push('\n') =~= joined_lines(lines) + seq!['\n']);
    }
}

proof fn lemma_cut(text: Seq<char>)
    ensures
        cut_to(text, trimmed_end(text)),
    decreases text.len(),
{
    lemma_trimmed_end(text);
    let n = trimmed_end(text).len() as int;
    let rest = text.skip(n);
    if text.len() > 0 && is_space(text.last()) {
        lemma_cut(text.drop_last());
        let shorter = text.drop_last().skip(n);
        assert forall|i: int| 0 <= i < rest.len() implies is_space(#[trigger] rest[i]) by {
            if i < rest.len() - 1 {
                assert(rest[i] == shorter[i]);
            }
        }
    }
}

/// Where the covered columns of a row are those from one column to another, the covered
/// text is that of these columns.
proof fn lemma_covered_columns(
    grid: Grid,
    kind: SelectionKind,
    a: Pos,
    b: Pos,
    row: int,
    from: int,
    to: int,
    n: int,
)
    requires
        0 <= from,
        0 <= n,
        forall|c: int| 0 <= c < n ==> #[trigger] lies_in(kind, a, b, row, c) == (from <= c < to),
    ensures
        covered_text(grid, kind, a, b, row, n) == grid.row_text(row, from, min(n, to)),
    decreases n,
{
    if n > 0 {
        lemma_covered_columns(grid, kind, a, b, row, from, to, n - 1);
        assert(lies_in(kind, a, b, row, n - 1) == (from <= n - 1 < to));
        assert(grid.at(row, n - 1) is Some <==> 0 <= row < grid.rows@.len() && n - 1
            < grid.rows@[row]@.len());
    }
}

proof fn lemma_selected_line(
    grid: Grid,
    kind: SelectionKind,
    a: Pos,
    b: Pos,
    row: int,
)
    requires
        grid.rectangular(),
        grid.width > 0,
        between(a.row as int, row, b.row as int),
    ensures
        cut_to(
            covered_text(grid, kind, a, b, row, grid.width as int),
            grid.selected_line(kind, a, b, row),
        ),
{
    let width = grid.width as int;
    let (from, to) = columns(kind, a, b, width - 1, row);
    assert forall|c: int| 0 <= c < width implies #[trigger] lies_in(kind, a, b, row, c) == (from
        <= c < to + 1) by {}
    lemma_covered_columns(grid, kind, a, b, row, from, to + 1, width);
    let text = grid.row_text(row, from, to + 1);
    assert(text == grid.row_text(row, from, min(width, to + 1))) by {
        if to + 1 > width {
            assert forall|c: int| width <= c implies #[trigger] grid.at(row, c) is None by {
                if 0 <= row < grid.rows@.len() {
                    assert(grid.rows@[row]@.len() == grid.width);
                }
            }
            grid.lemma_row_text_past_end(row, from, to + 1, width);
        }
    }
    lemma_cut(text);
}

/// The text of a selection holds, row by row, the symbols of exactly the cells that the
/// selection covers, without the white space at the end of each row.
pub proof fn law_selection_text_is_what_it_covers(grid: Grid, kind: SelectionKind, a: Pos, b: Pos)
    requires
        grid.rectangular(),
        grid.width > 0,
    ensures
        is_text_of(grid, kind, a, b, grid.selected_text(kind, a, b)),
{
    let top = min(a.row as int, b.row as int);
    let n = max(a.row as int, b.row as int) - top + 1;
    let lines = grid.selected_lines(kind, a, b, n);
    assert forall|i: int| 0 <= i < lines.len() implies cut_to(
        covered_text(grid, kind, a, b, top + i, grid.width as int),
        #[trigger] lines[i],
    ) by {
        lemma_selected_line(grid, kind, a, b, top + i);
    }
    assert(lines_of(grid, kind, a, b, lines));
}

/// `y` or Enter copies the text of the selection and leaves copy mode; without a
/// selection they leave it and copy nothing. No other key copies anything.
pub proof fn law_what_is_copied(app: AppView, v: CopyView, code: KeyCode, mods: KeyModifiers)
    requires
        app.mode == ModeView::Copy(v),
        v.grid.rectangular(),
        v.grid.width > 0,
    ensures
        ({
            let (after, action) = app.key(code, mods);
            let ends = v.search_input is None && (code == KeyCode::Char('y') || code
                == KeyCode::Enter);
            &&& action is Copy <==> ends && v.anchor is Some
            &&& action matches ActionView::Copy(text) ==> is_text_of(
                v.grid,
                v.selection,
                v.anchor->0,
                v.cursor,
                text,
            )
            &&& ends ==> after == (AppView { mode: ModeView::Normal, ..app })
            &&& ends && v.anchor is None ==> action == ActionView::Nothing
            &&& v.search_input is None && code == KeyCode::Char('q') ==> after == (AppView {
                mode: ModeView::Normal,
                ..app
            }) && action == ActionView::Nothing
        }),
{
    if v.anchor is Some {
        law_selection_text_is_what_it_covers(v.grid, v.selection, v.anchor->0, v.cursor);
    }
}

/// Only these keys begin, change or end a selection: `v`, `V`, `o` and Esc. `v`, `V` and
/// control with `v` begin one at the cursor; the same key again ends it, another one
/// changes its kind. `o` goes to the other end.
pub proof fn law_keys_of_a_selection(
    v: CopyView,
    code: KeyCode,
    mods: KeyModifiers,
    viewport: int,
)
    requires
        v.search_input is None,
    ensures
        ({
            let after = v.key(code, mods, viewport);
            let wanted = if code == KeyCode::Char('V') {
                SelectionKind::Line
            } else if mods.control {
                SelectionKind::Block
            } else {
                SelectionKind::Char
            };
            let selects = code == KeyCode::Char('v') || code == KeyCode::Char('V');
            &&& selects ==> after.cursor == v.cursor
            &&& selects && v.anchor is None ==> after.anchor == Some(v.cursor) && after.selection
                == wanted
            &&& selects && v.anchor is Some && v.selection == wanted ==> after.anchor is None
            &&& selects && v.anchor is Some && v.selection != wanted ==> after.anchor == v.anchor
                && after.selection == wanted
            &&& code == KeyCode::Char('o') && v.anchor is Some ==> after.cursor == v.anchor->0
                && after.anchor == Some(v.cursor) && after.selection == v.selection
            &&& code == KeyCode::Esc ==> after.anchor is None && after.cursor == v.cursor
            &&& !selects && code != KeyCode::Char('o') && code != KeyCode::Esc ==> after.anchor
                == v.anchor && after.selection == v.selection
            &&& after.grid == v.grid
        }),
{
}

// --- moving about ---------------------------------------------------------------------

/// Nothing differs but where the cursor stands, what is in view, and what was typed in
/// front of a motion.
pub open spec fn only_moved(v: CopyView, after: CopyView) -> bool {
    after == (CopyView {
        cursor: after.cursor,
        view_offset: after.view_offset,
        pending: Seq::empty(),
        awaiting_g: false,
        ..v
    })
}

/// The number `n` was typed in front of a motion, or none was, which counts as 1.
pub open spec fn typed_count(v: CopyView, n: int) -> bool {
    ||| v.pending.len() == 0 && n == 1
    ||| 1 <= n <= usize::MAX && v.pending == digits_of(n)
}

proof fn lemma_digits(n: int)
    requires
        0 <= n,
    ensures
        all_digits(digits_of(n)),
        digits_of(n).len() > 0,
        digits_value(digits_of(n)) == n,
        1 <= n ==> digits_of(n)[0] != '0',
        digits_of(n)[0] != '+',
    decreases n,
{
    let s = digits_of(n);
    if n < 10 {
        lemma_digit(n);
        assert(s.drop_last() =~= Seq::empty());
        assert(digits_value(s.drop_last()) == 0);
    } else {
        lemma_digits(n / 10);
        lemma_digit(n % 10);
        let front = digits_of(n / 10);
        assert(s.drop_last() =~= front);
        assert forall|i: int| 0 <= i < s.len() implies is_digit(#[trigger] s[i]) by {
            if i < front.len() {
                assert(s[i] == front[i]);
            }
        }
        assert(s[0] == front[0]);
    }
}

proof fn lemma_digit(d: int)
    requires
        0 <= d < 10,
    ensures
        is_digit(('0' as int + d) as char),
        (('0' as int + d) as char) as int == '0' as int + d,
{
}

proof fn lemma_count(v: CopyView, n: int)
    requires
        typed_count(v, n),
    ensures
        v.count() == n,
        n >= 1,
{
    if v.pending.len() > 0 {
        lemma_digits(n);
    }
}

/// The motions of one step, and by a number typed in front: `h`, `l`, `j` and `k` go so
/// many columns or rows, as far as there are any. The arrows do the same.
pub proof fn law_steps(v: CopyView, n: int, mods: KeyModifiers, viewport: int)
    requires
        v.inside(),
        v.search_input is None,
        typed_count(v, n),
    ensures
        ({
            let (row, col) = (v.cursor.row as int, v.cursor.col as int);
            let left = v.key(KeyCode::Char('h'), mods, viewport);
            let right = v.key(KeyCode::Char('l'), mods, viewport);
            let down = v.key(KeyCode::Char('j'), mods, viewport);
            let up = v.key(KeyCode::Char('k'), mods, viewport);
            &&& left.cursor.row == row && left.cursor.col == if n <= col {
                col - n
            } else {
                0
            }
            &&& right.cursor.row == row && right.cursor.col == if col + n < v.grid.width {
                col + n
            } else {
                v.last_col()
            }
            &&& down.cursor.col == col && down.cursor.row == if row + n < v.grid.rows@.len() {
                row + n
            } else {
                v.last_row()
            }
            &&& up.cursor.col == col && up.cursor.row == if n <= row {
                row - n
            } else {
                0
            }
            &&& only_moved(v, left) && only_moved(v, right) && only_moved(v, down) && only_moved(
                v,
                up,
            )
            &&& v.key(KeyCode::Left, mods, viewport) == left
            &&& v.key(KeyCode::Right, mods, viewport) == right
            &&& v.key(KeyCode::Down, mods, viewport) == down
            &&& v.key(KeyCode::Up, mods, viewport) == up
        }),
{
    lemma_count(v, n);
    assert(v.grid.rows.len() == v.grid.rows@.len());
}

/// The motions to the ends: `0` and `^` go to the first column, `$` to the last that shows
/// something, `G` to the last row, and `g` twice to the first.
pub proof fn law_ends(v: CopyView, mods: KeyModifiers, viewport: int)
    requires
        v.inside(),
        v.search_input is None,
    ensures
        ({
            let (row, col) = (v.cursor.row as int, v.cursor.col as int);
            let first = v.key(KeyCode::Char('^'), mods, viewport);
            let last = v.key(KeyCode::Char('$'), mods, viewport);
            let bottom = v.key(KeyCode::Char('G'), mods, viewport);
            let top = v.key(KeyCode::Char('g'), mods, viewport).key(
                KeyCode::Char('g'),
                mods,
                viewport,
            );
            &&& first.cursor == (Pos { row: v.cursor.row, col: 0 })
            &&& v.pending.len() == 0 ==> v.key(KeyCode::Char('0'), mods, viewport) == first
            &&& last.cursor.row == row && v.grid.is_last_inked_col(row, last.cursor.col as int)
            &&& bottom.cursor.row == v.last_row() && bottom.cursor.col == col
            &&& !v.awaiting_g ==> top.cursor.row == 0 && top.cursor.col == col && only_moved(v, top)
            &&& v.key(KeyCode::Char('g'), mods, viewport).cursor == if v.awaiting_g {
                Pos { row: 0, col: v.cursor.col }
            } else {
                v.cursor
            }
            &&& only_moved(v, first) && only_moved(v, last) && only_moved(v, bottom)
        }),
{
    assert(v.grid.rows.len() == v.grid.rows@.len());
    let row = v.cursor.row as int;
    v.grid.lemma_last_inked_col(row);
}

/// The motions by pages: control with `d` and `u` goes half a viewport down and up, with
/// `f` and `b` a whole one, as far as there are rows.
pub proof fn law_pages(v: CopyView, viewport: int)
    requires
        v.inside(),
        v.search_input is None,
        0 <= viewport,
    ensures
        ({
            let ctrl = KeyModifiers { control: true };
            let (row, col) = (v.cursor.row as int, v.cursor.col as int);
            let page = if viewport >= 1 {
                viewport
            } else {
                1
            };
            let half = if viewport >= 2 {
                viewport / 2
            } else {
                1
            };
            let d = v.key(KeyCode::Char('d'), ctrl, viewport);
            let u = v.key(KeyCode::Char('u'), ctrl, viewport);
            let f = v.key(KeyCode::Char('f'), ctrl, viewport);
            let b = v.key(KeyCode::Char('b'), ctrl, viewport);
            &&& d.cursor.row == min(row + half, v.last_row()) && u.cursor.row == max(row - half, 0)
            &&& f.cursor.row == min(row + page, v.last_row()) && b.cursor.row == max(row - page, 0)
            &&& d.cursor.col == col && u.cursor.col == col && f.cursor.col == col && b.cursor.col
                == col
            &&& only_moved(v, d) && only_moved(v, u) && only_moved(v, f) && only_moved(v, b)
        }),
{
    assert(v.grid.rows.len() == v.grid.rows@.len());
}

/// The digits of a number are typed in front of a motion: once they are typed, that
/// number counts.
pub proof fn law_typed_digits_count(
    v: CopyView,
    n: int,
    keys: Seq<KeyCode>,
    viewport: int,
)
    requires
        v.search_input is None,
        v.pending.len() == 0,
        1 <= n <= usize::MAX,
        types(keys, digits_of(n)),
    ensures
        typed_count(copy_after(v, keys, viewport), n),
        copy_after(v, keys, viewport).cursor == v.cursor,
        copy_after(v, keys, viewport).search_input is None,
        copy_after(v, keys, viewport).grid == v.grid,
{
    lemma_digits(n);
    lemma_digit_keys(v, keys, digits_of(n), viewport);
}

/// The state after some keys with nothing held down.
pub open spec fn copy_after(v: CopyView, keys: Seq<KeyCode>, viewport: int) -> CopyView
    decreases keys.len(),
{
    if keys.len() == 0 {
        v
    } else {
        copy_after(v, keys.drop_last(), viewport).key(
            keys.last(),
            KeyModifiers { control: false },
            viewport,
        )
    }
}

proof fn lemma_digit_keys(v: CopyView, keys: Seq<KeyCode>, digits: Seq<char>, viewport: int)
    requires
        v.search_input is None,
        v.pending.len() == 0,
        types(keys, digits),
        all_digits(digits),
        digits.len() > 0 ==> digits[0] != '0',
    ensures
        ({
            let after = copy_after(v, keys, viewport);
            &&& after.pending == digits
            &&& after.cursor == v.cursor
            &&& after.search_input is None
            &&& after.grid == v.grid
        }),
    decreases keys.len(),
{
    if keys.len() > 0 {
        let fewer = keys.drop_last();
        let front = digits.drop_last();
        assert forall|i: int| 0 <= i < fewer.len() implies #[trigger] fewer[i] == KeyCode::Char(
            front[i],
        ) by {
            assert(keys[i] == KeyCode::Char(digits[i]));
        }
        assert forall|i: int| 0 <= i < front.len() implies is_digit(#[trigger] front[i]) by {
            assert(is_digit(digits[i]));
        }
        lemma_digit_keys(v, fewer, front, viewport);
        let last = digits.len() - 1;
        assert(keys[last] == KeyCode::Char(digits[last]));
        assert(is_digit(digits[last]));
        let before = copy_after(v, fewer, viewport);
        lemma_digit_key(before, digits[last], viewport);
        assert(front.push(digits[last]) =~= digits);
    } else {
        assert(v.pending =~= digits);
    }
}

proof fn lemma_digit_key(v: CopyView, d: char, viewport: int)
    requires
        v.search_input is None,
        is_digit(d),
        d == '0' ==> v.pending.len() > 0,
    ensures
        v.key(KeyCode::Char(d), KeyModifiers { control: false }, viewport) == (CopyView {
            pending: v.pending.push(d),
            awaiting_g: false,
            ..v
        }),
{
}

// --- searching ------------------------------------------------------------------------

/// One place comes before another: rows first, and columns in a row.
pub open spec fn comes_before(a: Pos, b: Pos) -> bool {
    a.row < b.row || a.row == b.row && a.col < b.col
}

/// `p` is where a search goes from a place among some matches. Forward it is the first
/// match behind the place, or the first of all where none is behind it; backward the last
/// in front of it, or the last of all.
pub open spec fn is_next(matches: Seq<Pos>, from: Pos, forward: bool, p: Pos) -> bool {
    &&& matches.contains(p)
    &&& if forward {
        if exists|m: Pos| #[trigger] matches.contains(m) && comes_before(from, m) {
            comes_before(from, p) && forall|m: Pos| #[trigger]
                matches.contains(m) && comes_before(from, m) ==> !comes_before(m, p)
        } else {
            forall|m: Pos| #[trigger] matches.contains(m) ==> !comes_before(m, p)
        }
    } else {
        if exists|m: Pos| #[trigger] matches.contains(m) && comes_before(m, from) {
            comes_before(p, from) && forall|m: Pos| #[trigger]
                matches.contains(m) && comes_before(m, from) ==> !comes_before(p, m)
        } else {
            forall|m: Pos| #[trigger] matches.contains(m) ==> !comes_before(p, m)
        }
    }
}

/// No match comes before an earlier one of the list.
pub open spec fn in_order(matches: Seq<Pos>) -> bool {
    forall|j: int, k: int|
        0 <= j <= k < matches.len() ==> !comes_before(
            #[trigger] matches[k],
            #[trigger] matches[j],
        )
}

proof fn lemma_first(places: Seq<Pos>, from: Pos)
    requires
        in_order(places),
    ensures
        match first_behind(places, from) {
            Some(p) => places.contains(p) && comes_before(from, p) && forall|m: Pos| #[trigger]
                places.contains(m) && comes_before(from, m) ==> !comes_before(m, p),
            None => forall|m: Pos| #[trigger] places.contains(m) ==> !comes_before(from, m),
        },
    decreases places.len(),
{
    if places.len() > 0 {
        let rest = places.drop_first();
        assert(in_order(rest)) by {
            assert forall|j: int, k: int| 0 <= j <= k < rest.len() implies !comes_before(
                #[trigger] rest[k],
                #[trigger] rest[j],
            ) by {
                assert(!comes_before(places[k + 1], places[j + 1]));
            }
        }
        lemma_first(rest, from);
        assert forall|m: Pos| #[trigger] places.contains(m) implies m == places[0]
            || rest.contains(m) by {
            let i = choose|i: int| 0 <= i < places.len() && places[i] == m;
            if i > 0 {
                assert(rest[i - 1] == m);
            }
        }
        assert forall|m: Pos| #[trigger] rest.contains(m) implies places.contains(m) by {
            let i = choose|i: int| 0 <= i < rest.len() && rest[i] == m;
            assert(places[i + 1] == m);
        }
        assert(places.contains(places[0]));
        if from.before(places[0]) {
            assert forall|m: Pos| #[trigger] places.contains(m) implies !comes_before(
                m,
                places[0],
            ) by {
                let i = choose|i: int| 0 <= i < places.len() && places[i] == m;
                assert(!comes_before(places[i], places[0]));
            }
        }
    }
}

proof fn lemma_last(places: Seq<Pos>, from: Pos)
    requires
        in_order(places),
    ensures
        match last_in_front(places, from) {
            Some(p) => places.contains(p) && comes_before(p, from) && forall|m: Pos| #[trigger]
                places.contains(m) && comes_before(m, from) ==> !comes_before(p, m),
            None => forall|m: Pos| #[trigger] places.contains(m) ==> !comes_before(m, from),
        },
    decreases places.len(),
{
    if places.len() > 0 {
        let rest = places.drop_last();
        let last = places.len() - 1;
        assert(in_order(rest)) by {
            assert forall|j: int, k: int| 0 <= j <= k < rest.len() implies !comes_before(
                #[trigger] rest[k],
                #[trigger] rest[j],
            ) by {
                assert(!comes_before(places[k], places[j]));
            }
        }
        lemma_last(rest, from);
        assert forall|m: Pos| #[trigger] places.contains(m) implies m == places[last]
            || rest.contains(m) by {
            let i = choose|i: int| 0 <= i < places.len() && places[i] == m;
            if i < last {
                assert(rest[i] == m);
            }
        }
        assert forall|m: Pos| #[trigger] rest.contains(m) implies places.contains(m) by {
            let i = choose|i: int| 0 <= i < rest.len() && rest[i] == m;
            assert(places[i] == m);
        }
        assert(places.contains(places[last]));
        if places[last].before(from) {
            assert forall|m: Pos| #[trigger] places.contains(m) implies !comes_before(
                places[last],
                m,
            ) by {
                let i = choose|i: int| 0 <= i < places.len() && places[i] == m;
                assert(!comes_before(places[last], places[i]));
            }
        }
    }
}

/// A search goes to the next match the way it goes, and round from the end.
pub proof fn law_where_a_search_goes(matches: Seq<Pos>, from: Pos, forward: bool)
    requires
        in_order(matches),
    ensures
        match match_from(matches, from, forward) {
            Some(p) => is_next(matches, from, forward, p),
            None => matches.len() == 0,
        },
{
    lemma_first(matches, from);
    lemma_last(matches, from);
    if matches.len() > 0 {
        let last = matches.len() - 1;
        assert(matches.contains(matches[0]) && matches.contains(matches[last]));
        assert forall|m: Pos| #[trigger] matches.contains(m) implies !comes_before(m, matches[0])
            && !comes_before(matches[last], m) by {
            let i = choose|i: int| 0 <= i < matches.len() && matches[i] == m;
            assert(!comes_before(matches[i], matches[0]));
            assert(!comes_before(matches[last], matches[i]));
        }
    }
}

/// What a search says it found is what there is to be found in the grid.
pub open spec fn true_search(v: CopyView) -> bool {
    v.search matches Some(s) ==> s.matches == v.grid.matches(s.query) && s.query.len() > 0
}

proof fn lemma_char_keeps_search(v: CopyView, c: char, ctrl: bool, gg: bool, viewport: int)
    ensures
        v.char_key(c, ctrl, gg, viewport).search == v.search,
        v.char_key(c, ctrl, gg, viewport).grid == v.grid,
{
}

/// Keys keep a search true to the grid.
pub proof fn law_searches_stay_true(
    v: CopyView,
    code: KeyCode,
    mods: KeyModifiers,
    viewport: int,
)
    requires
        true_search(v),
    ensures
        true_search(v.key(code, mods, viewport)),
        v.key(code, mods, viewport).grid == v.grid,
{
    let s = CopyView { awaiting_g: false, ..v };
    let after = v.key(code, mods, viewport);
    if v.search_input is Some {
        let input = v.search_input->0;
        assert(after == v.input_key(input, code, viewport));
    } else {
        match code {
            KeyCode::Left => lemma_char_keeps_search(s, 'h', mods.control, v.awaiting_g, viewport),
            KeyCode::Right => lemma_char_keeps_search(s, 'l', mods.control, v.awaiting_g, viewport),
            KeyCode::Down => lemma_char_keeps_search(s, 'j', mods.control, v.awaiting_g, viewport),
            KeyCode::Up => lemma_char_keeps_search(s, 'k', mods.control, v.awaiting_g, viewport),
            KeyCode::Char(c) => lemma_char_keeps_search(
                s,
                c,
                mods.control,
                v.awaiting_g,
                viewport,
            ),
            _ => {},
        }
    }
}

proof fn lemma_in_order(grid: Grid, query: Seq<char>)
    ensures
        in_order(grid.matches(query)),
{
    law_matches_are_the_hits(grid, query);
    let matches = grid.matches(query);
    assert forall|j: int, k: int| 0 <= j <= k < matches.len() implies !comes_before(
        #[trigger] matches[k],
        #[trigger] matches[j],
    ) by {
        assert(matches[j].up_to(matches[k]));
    }
}

/// `n` goes on the way the search goes: after `/` to the next match behind the cursor,
/// after `?` to the last in front of it. `N` goes the other way. Both go round from the
/// end, and stay where there is no match.
pub proof fn law_n_goes_on_the_way_of_the_search(
    v: CopyView,
    s: SearchView,
    mods: KeyModifiers,
    viewport: int,
)
    requires
        true_search(v),
        v.search == Some(s),
        v.search_input is None,
    ensures
        ({
            let n = v.key(KeyCode::Char('n'), mods, viewport);
            let other = v.key(KeyCode::Char('N'), mods, viewport);
            let found = v.grid.matches(s.query);
            &&& found.len() > 0 ==> is_next(
                found,
                v.cursor,
                s.direction == Direction::Forward,
                n.cursor,
            )
            &&& found.len() > 0 ==> is_next(
                found,
                v.cursor,
                s.direction == Direction::Backward,
                other.cursor,
            )
            &&& found.len() == 0 ==> n.cursor == v.cursor && other.cursor == v.cursor
            &&& n == (CopyView {
                cursor: n.cursor,
                view_offset: n.view_offset,
                awaiting_g: false,
                ..v
            })
            &&& other == (CopyView {
                cursor: other.cursor,
                view_offset: other.view_offset,
                awaiting_g: false,
                ..v
            })
        }),
{
    lemma_in_order(v.grid, s.query);
    law_where_a_search_goes(s.matches, v.cursor, true);
    law_where_a_search_goes(s.matches, v.cursor, false);
}

/// Enter on a query searches the way that was asked for: the cursor goes to the next match
/// behind it after `/`, and to the last in front of it after `?`.
pub proof fn law_enter_searches(
    v: CopyView,
    input: SearchInputView,
    mods: KeyModifiers,
    viewport: int,
)
    requires
        v.search_input == Some(input),
    ensures
        ({
            let after = v.key(KeyCode::Enter, mods, viewport);
            let found = v.grid.matches(input.query);
            &&& after.search_input is None
            &&& input.query.len() == 0 ==> after.search is None && after.cursor == v.cursor
            &&& input.query.len() > 0 ==> after.search == Some(
                SearchView { query: input.query, direction: input.direction, matches: found },
            )
            &&& input.query.len() > 0 && found.len() > 0 ==> is_next(
                found,
                v.cursor,
                input.direction == Direction::Forward,
                after.cursor,
            )
            &&& found.len() == 0 ==> after.cursor == v.cursor
        }),
{
    lemma_in_order(v.grid, input.query);
    law_where_a_search_goes(
        v.grid.matches(input.query),
        v.cursor,
        input.direction == Direction::Forward,
    );
}

/// A query is typed behind `/` to search forward, behind `?` to search backward. What it
/// matches is known at once, while the cursor stays. Esc gives the search up.
pub proof fn law_typing_a_query(
    v: CopyView,
    keys: Seq<KeyCode>,
    query: Seq<char>,
    mods: KeyModifiers,
    viewport: int,
)
    requires
        v.search_input is None,
        types(keys, query),
    ensures
        ({
            let slash = copy_after(v.key(KeyCode::Char('/'), mods, viewport), keys, viewport);
            let mark = copy_after(v.key(KeyCode::Char('?'), mods, viewport), keys, viewport);
            &&& slash.search_input == Some(
                SearchInputView { query, direction: Direction::Forward },
            )
            &&& mark.search_input == Some(SearchInputView { query, direction: Direction::Backward })
            &&& slash.cursor == v.cursor && mark.cursor == v.cursor
            &&& slash.grid == v.grid && mark.grid == v.grid
            &&& query.len() > 0 ==> slash.search == Some(
                SearchView {
                    query,
                    direction: Direction::Forward,
                    matches: v.grid.matches(query),
                },
            )
            &&& slash.key(KeyCode::Esc, mods, viewport).search is None && slash.key(
                KeyCode::Esc,
                mods,
                viewport,
            ).search_input is None
        }),
{
    let slash = v.key(KeyCode::Char('/'), mods, viewport);
    let mark = v.key(KeyCode::Char('?'), mods, viewport);
    assert(Seq::<char>::empty() + query =~= query);
    lemma_query_keys(
        slash,
        SearchInputView { query: Seq::empty(), direction: Direction::Forward },
        keys,
        query,
        viewport,
    );
    lemma_query_keys(
        mark,
        SearchInputView { query: Seq::empty(), direction: Direction::Backward },
        keys,
        query,
        viewport,
    );
}

proof fn lemma_query_keys(
    v: CopyView,
    input: SearchInputView,
    keys: Seq<KeyCode>,
    chars: Seq<char>,
    viewport: int,
)
    requires
        v.search_input == Some(input),
        types(keys, chars),
    ensures
        ({
            let after = copy_after(v, keys, viewport);
            &&& after.search_input == Some(
                SearchInputView { query: input.query + chars, ..input },
            )
            &&& after.cursor == v.cursor
            &&& after.grid == v.grid
            &&& after.view_offset == v.view_offset
            &&& chars.len() > 0 ==> after.search == Some(
                SearchView {
                    query: input.query + chars,
                    direction: input.direction,
                    matches: v.grid.matches(input.query + chars),
                },
            )
        }),
    decreases keys.len(),
{
    if keys.len() == 0 {
        assert(input.query + chars =~= input.query);
    } else {
        let fewer = keys.drop_last();
        let front = chars.drop_last();
        assert forall|i: int| 0 <= i < fewer.len() implies #[trigger] fewer[i] == KeyCode::Char(
            front[i],
        ) by {
            assert(keys[i] == KeyCode::Char(chars[i]));
        }
        lemma_query_keys(v, input, fewer, front, viewport);
        let last = chars.len() - 1;
        assert(keys[last] == KeyCode::Char(chars[last]));
        assert((input.query + front).push(chars[last]) =~= input.query + chars);
    }
}

/// `n` leads to where typing the same search again would lead.
pub proof fn law_n_is_the_same_search_again(
    v: CopyView,
    s: SearchView,
    keys: Seq<KeyCode>,
    viewport: int,
)
    requires
        true_search(v),
        v.search == Some(s),
        v.search_input is None,
        types(keys, s.query),
    ensures
        ({
            let none = KeyModifiers { control: false };
            let sign = if s.direction == Direction::Forward {
                '/'
            } else {
                '?'
            };
            let typed = copy_after(v.key(KeyCode::Char(sign), none, viewport), keys, viewport);
            let again = typed.key(KeyCode::Enter, none, viewport);
            let on = v.key(KeyCode::Char('n'), none, viewport);
            &&& again.cursor == on.cursor
            &&& again.view_offset == on.view_offset
            &&& again.search == on.search
        }),
{
    let none = KeyModifiers { control: false };
    let sign = if s.direction == Direction::Forward {
        '/'
    } else {
        '?'
    };
    let asked = v.key(KeyCode::Char(sign), none, viewport);
    assert(Seq::<char>::empty() + s.query =~= s.query);
    lemma_query_keys(
        asked,
        SearchInputView { query: Seq::empty(), direction: s.direction },
        keys,
        s.query,
        viewport,
    );
}

/// A row of plain letters: each cell holds one character, whose lower case is one
/// character too.
pub open spec fn plain_row(grid: Grid, row: int) -> bool {
    &&& 0 <= row < grid.rows@.len()
    &&& grid.rows@[row]@.len() == grid.width
    &&& forall|c: int|
        0 <= c < grid.width ==> !(#[trigger] grid.rows@[row]@[c]).wide_continuation
            && grid.rows@[row]@[c].symbol@.len() == 1 && lower_char(
            grid.rows@[row]@[c].symbol@[0],
        ).len() == 1
}

proof fn lemma_plain_chars(grid: Grid, row: int, n: int)
    requires
        plain_row(grid, row),
        0 <= n <= grid.width,
    ensures
        grid.row_chars(row, n).len() == n,
        forall|c: int|
            0 <= c < n ==> #[trigger] grid.row_chars(row, n)[c] == (
                lower_char(grid.rows@[row]@[c].symbol@[0])[0],
                c as usize,
            ),
    decreases n,
{
    if n > 0 {
        lemma_plain_chars(grid, row, n - 1);
        let cell = grid.rows@[row]@[n - 1];
        assert(!cell.wide_continuation);
        assert(grid.at(row, n - 1) == Some(cell@));
        let symbol = cell.symbol@;
        assert(symbol.drop_last() =~= Seq::empty());
        assert(lower_chars(symbol.drop_last()) =~= Seq::empty());
        assert(lower_chars(symbol) =~= lower_char(symbol[0]));
        let more = from_col(lower_chars(symbol), n - 1);
        assert(more.len() == 1);
        assert(grid.row_chars(row, n) == grid.row_chars(row, n - 1) + more);
        assert forall|c: int| 0 <= c < n implies #[trigger] grid.row_chars(row, n)[c] == (
            lower_char(grid.rows@[row]@[c].symbol@[0])[0],
            c as usize,
        ) by {
            if c < n - 1 {
                assert(grid.row_chars(row, n)[c] == grid.row_chars(row, n - 1)[c]);
            } else {
                assert(grid.row_chars(row, n)[c] == more[0]);
            }
        }
    }
}

/// In a row of plain letters a query matches at a column exactly where its characters
/// stand from that column on, letter case aside.
pub proof fn law_matches_in_a_plain_row(grid: Grid, query: Seq<char>, p: Pos)
    requires
        plain_row(grid, p.row as int),
        lower_chars(query).len() > 0,
    ensures
        ({
            let needle = lower_chars(query);
            let cells = grid.rows@[p.row as int]@;
            grid.matches(query).contains(p) <==> p.col + needle.len() <= grid.width && forall|
                k: int,
            |
                0 <= k < needle.len() ==> lower_char((#[trigger] cells[p.col + k]).symbol@[0])[0]
                    == needle[k]
        }),
{
    let needle = lower_chars(query);
    let row = p.row as int;
    let cells = grid.rows@[row]@;
    let chars = grid.row_chars(row, grid.width as int);
    law_matches_are_the_hits(grid, query);
    lemma_plain_chars(grid, row, grid.width as int);
    assert(grid.matches(query).contains(p) <==> grid.is_hit(needle, p));
    if grid.is_hit(needle, p) {
        let i = choose|i: int| #[trigger]
            hit_at(chars, needle, i) && i < chars.len() && chars[i].1 == p.col;
        assert(chars[i].1 == i as usize);
        assert(i == p.col);
        assert forall|k: int| 0 <= k < needle.len() implies lower_char(
            (#[trigger] cells[p.col + k]).symbol@[0],
        )[0] == needle[k] by {
            assert(chars[i + k].0 == needle[k]);
        }
    }
    if p.col + needle.len() <= grid.width && forall|k: int|
        0 <= k < needle.len() ==> lower_char((#[trigger] cells[p.col + k]).symbol@[0])[0]
            == needle[k] {
        assert forall|k: int| 0 <= k < needle.len() implies (#[trigger] chars[p.col + k]).0
            == needle[k] by {
            assert(lower_char(cells[p.col + k].symbol@[0])[0] == needle[k]);
        }
        assert(hit_at(chars, needle, p.col as int));
        assert(chars[p.col as int].1 == p.col);
    }
}

/// Backspace takes the last character of a query away; what is left of it is searched for
/// at once. Any other key that types nothing changes nothing.
pub proof fn law_correcting_a_query(
    v: CopyView,
    input: SearchInputView,
    mods: KeyModifiers,
    viewport: int,
)
    requires
        v.search_input == Some(input),
    ensures
        ({
            let after = v.key(KeyCode::Backspace, mods, viewport);
            let left = if input.query.len() > 0 {
                input.query.take(input.query.len() - 1)
            } else {
                Seq::empty()
            };
            &&& after.search_input == Some(SearchInputView { query: left, ..input })
            &&& left.len() > 0 ==> after.search == Some(
                SearchView {
                    query: left,
                    direction: input.direction,
                    matches: v.grid.matches(left),
                },
            )
            &&& left.len() == 0 ==> after.search is None
            &&& after == (CopyView {
                search_input: after.search_input,
                search: after.search,
                ..v
            })
            &&& v.key(KeyCode::Left, mods, viewport) == v
            &&& v.key(KeyCode::Tab, mods, viewport) == v
        }),
{
    if input.query.len() > 0 {
        assert(input.query.drop_last() =~= input.query.take(input.query.len() - 1));
    } else {
        assert(input.query =~= Seq::empty());
    }
}

/// A character that means something in copy mode.
pub open spec fn is_copy_key(c: char, ctrl: bool) -> bool {
    ||| c == 'h' || c == 'l' || c == 'j' || c == 'k' || is_digit(c) || c == '^' || c == '$'
    ||| c == 'G' || c == 'g' || c == 'w' || c == 'b' || c == 'e' || c == 'v' || c == 'V'
    ||| c == 'o' || c == '/' || c == '?' || c == 'n' || c == 'N'
    ||| ctrl && (c == 'd' || c == 'u' || c == 'f')
}

/// Keys that mean nothing in copy mode do nothing.
pub proof fn law_other_keys_of_copy_mode(
    v: CopyView,
    code: KeyCode,
    mods: KeyModifiers,
    viewport: int,
)
    requires
        v.search_input is None,
        code is Tab || code is Backspace || code is Delete || code is Home || code is End || code
            is Other || (code matches KeyCode::Char(c) && !is_copy_key(c, mods.control)),
    ensures
        v.key(code, mods, viewport) == (CopyView { awaiting_g: false, ..v }),
{
}

/// A text in lower case is made character by character.
pub proof fn law_lower_case(s: Seq<char>, c: char)
    ensures
        lower_chars(Seq::empty()) == Seq::<char>::empty(),
        lower_chars(s.push(c)) == lower_chars(s) + lower_char(c),
{
    assert(s.push(c).drop_last() =~= s);
}

/// The digits of a number write that number.
pub proof fn law_digits_write_the_number(n: int)
    requires
        0 <= n,
    ensures
        all_digits(digits_of(n)),
        digits_of(n).len() > 0,
        digits_value(digits_of(n)) == n,
{
    lemma_digits(n);
}

// --- what shows something -------------------------------------------------------------

/// The cell at a place shows something of its own.
pub open spec fn shows(grid: Grid, row: int, col: int) -> bool {
    &&& 0 <= row < grid.rows@.len()
    &&& 0 <= col < grid.rows@[row]@.len()
    &&& !grid.rows@[row]@[col].wide_continuation
    &&& exists|i: int|
        0 <= i < grid.rows@[row]@[col].symbol@.len() && !is_space(
            #[trigger] grid.rows@[row]@[col].symbol@[i],
        )
}

proof fn lemma_shows(grid: Grid)
    ensures
        forall|row: int, col: int| #[trigger] shows(grid, row, col) == grid.inked_at(row, col),
{
    assert forall|row: int, col: int| #[trigger] shows(grid, row, col) == grid.inked_at(
        row,
        col,
    ) by {
        if 0 <= row < grid.rows@.len() && 0 <= col < grid.rows@[row]@.len() {
            assert(grid.at(row, col) == Some(grid.rows@[row]@[col]@));
        }
    }
}

/// `$` goes to the last column of the row that shows something, and to the first where
/// none does.
pub proof fn law_dollar(v: CopyView, mods: KeyModifiers, viewport: int)
    requires
        v.inside(),
        v.search_input is None,
    ensures
        ({
            let after = v.key(KeyCode::Char('$'), mods, viewport).cursor;
            let row = v.cursor.row as int;
            &&& after.row == row
            &&& forall|c: int| #[trigger] shows(v.grid, row, c) ==> c <= after.col
            &&& shows(v.grid, row, after.col as int) || after.col == 0 && forall|c: int|
                !#[trigger] shows(v.grid, row, c)
        }),
{
    assert(v.grid.rows.len() == v.grid.rows@.len());
    let row = v.cursor.row as int;
    v.grid.lemma_last_inked_col(row);
    lemma_shows(v.grid);
    assert forall|c: int| #[trigger] shows(v.grid, row, c) implies v.grid.inked_row(row) by {
        assert(v.grid.inked_at(row, c));
    }
    if v.grid.inked_row(row) {
        let c = choose|c: int| #[trigger] v.grid.inked_at(row, c);
        assert(shows(v.grid, row, c));
        assert(shows(v.grid, row, v.grid.last_inked_col(row)));
    }
}

/// Copy mode starts in the last row that shows something, and in the first where none
/// does.
pub proof fn law_first_row_of_copy_mode(grid: Grid, viewport: int)
    requires
        grid.rectangular(),
        0 <= viewport,
    ensures
        ({
            let row = CopyView::opened(grid, viewport).cursor.row as int;
            &&& forall|r: int, c: int| #[trigger] shows(grid, r, c) ==> r <= row
            &&& (exists|c: int| #[trigger] shows(grid, row, c)) || row == 0 && forall|
                r: int,
                c: int,
            | !#[trigger] shows(grid, r, c)
        }),
{
    assert(grid.rows.len() == grid.rows@.len());
    grid.lemma_last_inked_row();
    lemma_shows(grid);
    assert forall|r: int, c: int| #[trigger] shows(grid, r, c) implies grid.inked_row(r) by {
        assert(grid.inked_at(r, c));
    }
    let row = grid.last_inked_row();
    if exists|r: int| #[trigger] grid.inked_row(r) {
        let c = choose|c: int| #[trigger] grid.inked_at(row, c);
        assert(shows(grid, row, c));
    }
}

/// While text is copied the keys go to copy mode, whose viewport is as high as the output.
pub proof fn law_keys_go_to_copy_mode(
    app: AppView,
    v: CopyView,
    code: KeyCode,
    mods: KeyModifiers,
)
    requires
        app.mode == ModeView::Copy(v),
        v.search_input is Some || code != KeyCode::Char('q') && code != KeyCode::Char('y') && code
            != KeyCode::Enter,
        !(code == KeyCode::Char('c') && mods.control),
    ensures
        app.key(code, mods) == (
            AppView { mode: ModeView::Copy(v.key(code, mods, app.out_rows as int)), ..app },
            ActionView::Nothing,
        ),
{
}

} // verus!
