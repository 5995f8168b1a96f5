//! What holds of copy mode as a whole.

use crate::copy_mode::{CopyView, SearchInputView};
use crate::grid::{Grid, Pos};
use crate::keys::{KeyCode, KeyModifiers};
use crate::search::{first_behind, hit_at, hits_in, last_in_front, match_from, Direction};
use crate::selection::law_selection_ends_swap;
use crate::text::lower_chars;
use vstd::math::{max, min};
use vstd::prelude::*;

verus! {

// --- the last cells that show something ------------------------------------

impl Grid {
    proof fn lemma_last_inked_row_below(&self, n: int)
        requires
            0 <= n <= self.rows@.len(),
            forall|r: int| n <= r ==> !#[trigger] self.inked_row(r),
        ensures
            exists|row: int| self.is_last_inked_row(row),
        decreases n,
    {
        if n == 0 {
            assert forall|r: int| !#[trigger] self.inked_row(r) by {
                if r < 0 {
                    assert forall|c: int| !#[trigger] self.inked_at(r, c) by {}
                }
            }
            assert(self.is_last_inked_row(0));
        } else if self.inked_row(n - 1) {
            assert(self.is_last_inked_row(n - 1));
        } else {
            self.lemma_last_inked_row_below(n - 1);
        }
    }

    /// The last row that shows something is a row of the grid.
    pub proof fn lemma_last_inked_row(&self)
        ensures
            self.is_last_inked_row(self.last_inked_row()),
            0 <= self.last_inked_row() <= max(self.rows@.len() - 1, 0),
    {
        assert forall|r: int| self.rows@.len() <= r implies !#[trigger] self.inked_row(r) by {
            assert forall|c: int| !#[trigger] self.inked_at(r, c) by {}
        }
        self.lemma_last_inked_row_below(self.rows@.len() as int);
        let row = self.last_inked_row();
        assert(self.is_last_inked_row(row));
        if self.inked_row(row) {
            let c = choose|c: int| self.inked_at(row, c);
            assert(self.inked_at(row, c));
        }
    }

    proof fn lemma_last_inked_col_below(&self, row: int, n: int)
        requires
            0 <= n,
            forall|c: int| n <= c ==> !#[trigger] self.inked_at(row, c),
        ensures
            exists|col: int| self.is_last_inked_col(row, col),
        decreases n,
    {
        if n == 0 {
            assert forall|c: int| !#[trigger] self.inked_at(row, c) by {}
            assert(self.is_last_inked_col(row, 0));
        } else if self.inked_at(row, n - 1) {
            assert(self.is_last_inked_col(row, n - 1));
        } else {
            self.lemma_last_inked_col_below(row, n - 1);
        }
    }

    /// The last column that shows something is a column of a rectangular grid.
    pub proof fn lemma_last_inked_col(&self, row: int)
        requires
            self.rectangular(),
        ensures
            self.is_last_inked_col(row, self.last_inked_col(row)),
            0 <= self.last_inked_col(row) <= max(self.width - 1, 0),
    {
        assert forall|c: int| self.width <= c implies !#[trigger] self.inked_at(row, c) by {}
        self.lemma_last_inked_col_below(row, self.width as int);
        let col = self.last_inked_col(row);
        assert(self.is_last_inked_col(row, col));
        if self.inked_row(row) {
            assert(self.inked_at(row, col));
        }
    }

    // --- words ---------------------------------------------------------------

    pub(crate) proof fn lemma_next_begin_exists(&self, cur: Pos, p: Pos)
        requires
            self.word_begins(p),
            cur.before(p),
        ensures
            exists|q: Pos| self.is_next_begin(cur, q),
        decreases p.row, p.col,
    {
        if exists|q: Pos| #[trigger] self.word_begins(q) && cur.before(q) && q.before(p) {
            let q = choose|q: Pos| #[trigger]
                self.word_begins(q) && cur.before(q) && q.before(p);
            self.lemma_next_begin_exists(cur, q);
        } else {
            assert(self.is_next_begin(cur, p));
        }
    }

    pub(crate) proof fn lemma_next_stop_exists(&self, cur: Pos, p: Pos)
        requires
            self.word_stops(p),
            cur.before(p),
        ensures
            exists|q: Pos| self.is_next_stop(cur, q),
        decreases p.row, p.col,
    {
        if exists|q: Pos| #[trigger] self.word_stops(q) && cur.before(q) && q.before(p) {
            let q = choose|q: Pos| #[trigger]
                self.word_stops(q) && cur.before(q) && q.before(p);
            self.lemma_next_stop_exists(cur, q);
        } else {
            assert(self.is_next_stop(cur, p));
        }
    }

    pub(crate) proof fn lemma_prev_begin_exists(&self, cur: Pos, p: Pos)
        requires
            self.word_begins(p),
            p.before(cur),
        ensures
            exists|q: Pos| self.is_prev_begin(cur, q),
        decreases cur.row - p.row, self.width - p.col,
    {
        if exists|q: Pos| #[trigger] self.word_begins(q) && q.before(cur) && p.before(q) {
            let q = choose|q: Pos| #[trigger]
                self.word_begins(q) && q.before(cur) && p.before(q);
            self.lemma_prev_begin_exists(cur, q);
        } else {
            assert(self.is_prev_begin(cur, p));
        }
    }

    /// A word motion leads to a place of the grid.
    proof fn lemma_word_motions_inside(&self, cur: Pos)
        ensures
            self.next_begin(cur) matches Some(p) ==> self.word_begins(p) && p.row < self.rows@.len()
                && p.col < self.width,
            self.prev_begin(cur) matches Some(p) ==> self.word_begins(p) && p.row < self.rows@.len()
                && p.col < self.width,
            self.next_stop(cur) matches Some(p) ==> self.word_stops(p) && p.row < self.rows@.len()
                && p.col < self.width,
    {
        if self.next_begin(cur) is Some {
            let p = choose|p: Pos| #[trigger] self.word_begins(p) && cur.before(p);
            self.lemma_next_begin_exists(cur, p);
        }
        if self.prev_begin(cur) is Some {
            let p = choose|p: Pos| #[trigger] self.word_begins(p) && p.before(cur);
            self.lemma_prev_begin_exists(cur, p);
        }
        if self.next_stop(cur) is Some {
            let p = choose|p: Pos| #[trigger] self.word_stops(p) && cur.before(p);
            self.lemma_next_stop_exists(cur, p);
        }
    }

    // --- matches -------------------------------------------------------------

    proof fn lemma_row_chars(&self, row: int, n: int)
        requires
            0 <= n <= self.width,
        ensures
            forall|i: int|
                0 <= i < self.row_chars(row, n).len() ==> (#[trigger] self.row_chars(row, n)[i]).1 < n,
            forall|i: int, j: int|
                0 <= i <= j < self.row_chars(row, n).len() ==> (#[trigger] self.row_chars(
                    row,
                    n,
                )[i]).1 <= (#[trigger] self.row_chars(row, n)[j]).1,
        decreases n,
    {
        if n > 0 {
            self.lemma_row_chars(row, n - 1);
            let before = self.row_chars(row, n - 1);
            let chars = self.row_chars(row, n);
            assert forall|i: int| 0 <= i < chars.len() implies (#[trigger] chars[i]).1 < n by {
                if i < before.len() {
                    assert(chars[i] == before[i]);
                }
            }
            assert forall|i: int, j: int| 0 <= i <= j < chars.len() implies (#[trigger] chars[i]).1
                <= (#[trigger] chars[j]).1 by {
                if j < before.len() {
                    assert(chars[i] == before[i] && chars[j] == before[j]);
                } else if i < before.len() {
                    assert(chars[i] == before[i]);
                }
            }
        }
    }

    /// The places of a row's matches: where they come from, that each hit has one, and their
    /// order.
    proof fn lemma_hits_in(&self, needle: Seq<char>, row: int, n: int)
        requires
            0 <= row < self.rows@.len(),
            0 <= n <= self.row_chars(row, self.width as int).len(),
        ensures
            ({
                let chars = self.row_chars(row, self.width as int);
                let hits = hits_in(chars, needle, row, n);
                &&& forall|k: int|
                    0 <= k < hits.len() ==> (#[trigger] hits[k]).row == row && exists|i: int|
                        0 <= i < n && #[trigger] hit_at(chars, needle, i) && chars[i].1 == hits[k].col
                &&& forall|i: int|
                    0 <= i < n && #[trigger] hit_at(chars, needle, i) ==> hits.contains(
                        Pos { row: row as usize, col: chars[i].1 },
                    )
                &&& forall|j: int, k: int|
                    0 <= j <= k < hits.len() ==> (#[trigger] hits[j]).up_to(#[trigger] hits[k])
            }),
        decreases n,
    {
        let chars = self.row_chars(row, self.width as int);
        let hits = hits_in(chars, needle, row, n);
        self.lemma_row_chars(row, self.width as int);
        assert(self.rows.len() == self.rows@.len());
        if n > 0 {
            self.lemma_hits_in(needle, row, n - 1);
            let before = hits_in(chars, needle, row, n - 1);
            if hit_at(chars, needle, n - 1) {
                let p = Pos { row: row as usize, col: chars[n - 1].1 };
                assert(hits == before.push(p));
                assert(hits[before.len() as int] == p);
                assert forall|k: int| 0 <= k < hits.len() implies (#[trigger] hits[k]).row == row
                    && exists|i: int|
                    0 <= i < n && #[trigger] hit_at(chars, needle, i) && chars[i].1 == hits[k].col by {
                    if k < before.len() {
                        assert(hits[k] == before[k]);
                        let i = choose|i: int|
                            0 <= i < n - 1 && #[trigger] hit_at(chars, needle, i) && chars[i].1
                                == before[k].col;
                        assert(hit_at(chars, needle, i));
                    }
                }
                assert forall|i: int| 0 <= i < n && #[trigger] hit_at(chars, needle, i) implies hits.contains(
                    Pos { row: row as usize, col: chars[i].1 },
                ) by {
                    if i < n - 1 {
                        let q = Pos { row: row as usize, col: chars[i].1 };
                        let k = choose|k: int| 0 <= k < before.len() && before[k] == q;
                        assert(hits[k] == q);
                    }
                }
                assert forall|j: int, k: int| 0 <= j <= k < hits.len() implies (
                #[trigger] hits[j]).up_to(#[trigger] hits[k]) by {
                    if k < before.len() {
                        assert(hits[j] == before[j] && hits[k] == before[k]);
                    } else if j < before.len() {
                        assert(hits[j] == before[j]);
                        let i = choose|i: int|
                            0 <= i < n - 1 && #[trigger] hit_at(chars, needle, i) && chars[i].1
                                == before[j].col;
                        assert(chars[i].1 <= chars[n - 1].1);
                    }
                }
            }
        }
    }

    /// `p` is a place where `needle` stands in the grid.
    pub open spec fn is_hit(&self, needle: Seq<char>, p: Pos) -> bool {
        let chars = self.row_chars(p.row as int, self.width as int);
        p.row < self.rows@.len() && exists|i: int| #[trigger]
            hit_at(chars, needle, i) && i < chars.len() && chars[i].1 == p.col
    }

    proof fn lemma_hits(&self, needle: Seq<char>, n: int)
        requires
            needle.len() > 0,
            0 <= n <= self.rows@.len(),
        ensures
            forall|k: int|
                0 <= k < self.hits(needle, n).len() ==> self.is_hit(
                    needle,
                    #[trigger] self.hits(needle, n)[k],
                ) && self.hits(needle, n)[k].row < n,
            forall|p: Pos| #[trigger]
                self.is_hit(needle, p) && p.row < n ==> self.hits(needle, n).contains(p),
            forall|j: int, k: int|
                0 <= j <= k < self.hits(needle, n).len() ==> (#[trigger] self.hits(
                    needle,
                    n,
                )[j]).up_to(#[trigger] self.hits(needle, n)[k]),
        decreases n,
    {
        if n > 0 {
            self.lemma_hits(needle, n - 1);
            let before = self.hits(needle, n - 1);
            let row = self.row_hits(needle, n - 1);
            let all = self.hits(needle, n);
            let chars = self.row_chars(n - 1, self.width as int);
            self.lemma_hits_in(needle, n - 1, chars.len() as int);
            assert(all == before + row);
            assert forall|k: int| 0 <= k < all.len() implies self.is_hit(needle, #[trigger] all[k])
                && all[k].row < n by {
                if k < before.len() {
                    assert(all[k] == before[k]);
                } else {
                    assert(all[k] == row[k - before.len()]);
                }
            }
            assert forall|p: Pos| #[trigger] self.is_hit(needle, p) && p.row < n implies all.contains(
                p,
            ) by {
                if p.row < n - 1 {
                    let k = choose|k: int| 0 <= k < before.len() && before[k] == p;
                    assert(all[k] == p);
                } else {
                    let i = choose|i: int| #[trigger]
                        hit_at(chars, needle, i) && i < chars.len() && chars[i].1 == p.col;
                    assert(row.contains(p));
                    let k = choose|k: int| 0 <= k < row.len() && row[k] == p;
                    assert(all[before.len() + k] == p);
                }
            }
            assert forall|j: int, k: int| 0 <= j <= k < all.len() implies (#[trigger] all[j]).up_to(
                #[trigger] all[k],
            ) by {
                if k < before.len() {
                    assert(all[j] == before[j] && all[k] == before[k]);
                } else if j < before.len() {
                    assert(all[j] == before[j] && all[k] == row[k - before.len()]);
                } else {
                    assert(all[j] == row[j - before.len()] && all[k] == row[k - before.len()]);
                }
            }
        }
    }
}

/// The matches of a query are the places where its lower-case characters stand in the grid,
/// all of them, in order from the top left.
pub proof fn law_matches_are_the_hits(grid: Grid, query: Seq<char>)
    ensures
        forall|p: Pos|
            grid.matches(query).contains(p) <==> lower_chars(query).len() > 0 && #[trigger] grid.is_hit(
                lower_chars(query),
                p,
            ),
        forall|j: int, k: int|
            0 <= j <= k < grid.matches(query).len() ==> (#[trigger] grid.matches(query)[j]).up_to(
                #[trigger] grid.matches(query)[k],
            ),
{
    let needle = lower_chars(query);
    if needle.len() > 0 {
        grid.lemma_hits(needle, grid.rows@.len() as int);
        assert forall|p: Pos| grid.matches(query).contains(p) <==> needle.len() > 0
            && #[trigger] grid.is_hit(needle, p) by {
            if grid.matches(query).contains(p) {
                let k = choose|k: int|
                    0 <= k < grid.matches(query).len() && grid.matches(query)[k] == p;
                assert(grid.is_hit(needle, grid.hits(needle, grid.rows@.len() as int)[k]));
            }
        }
    }
}

/// Letter case makes no difference to a search.
pub proof fn law_search_ignores_case(grid: Grid, a: Seq<char>, b: Seq<char>)
    requires
        lower_chars(a) == lower_chars(b),
    ensures
        grid.matches(a) == grid.matches(b),
{
}

// --- going round the matches -----------------------------------------------

/// The places come one behind the other.
pub open spec fn ascending(places: Seq<Pos>) -> bool {
    forall|i: int, j: int|
        0 <= i < j < places.len() ==> (#[trigger] places[i]).before(#[trigger] places[j])
}

proof fn lemma_first_behind(places: Seq<Pos>, k: int)
    requires
        ascending(places),
        0 <= k < places.len(),
    ensures
        first_behind(places, places[k]) == if k + 1 < places.len() {
            Some(places[k + 1])
        } else {
            None
        },
    decreases places.len(),
{
    let rest = places.drop_first();
    assert(ascending(rest)) by {
        assert forall|i: int, j: int| 0 <= i < j < rest.len() implies (#[trigger] rest[i]).before(
            #[trigger] rest[j],
        ) by {
            assert(places[i + 1].before(places[j + 1]));
        }
    }
    if k == 0 {
        assert(!places[0].before(places[0]));
        if places.len() > 1 {
            assert(rest[0] == places[1]);
            assert(places[0].before(places[1]));
            assert(first_behind(rest, places[0]) == Some(places[1]));
        } else {
            assert(rest.len() == 0);
        }
    } else {
        assert(places[0].before(places[k]));
        assert(rest[k - 1] == places[k]);
        lemma_first_behind(rest, k - 1);
        if k + 1 < places.len() {
            assert(rest[k] == places[k + 1]);
        }
    }
}

proof fn lemma_last_in_front(places: Seq<Pos>, k: int)
    requires
        ascending(places),
        0 <= k < places.len(),
    ensures
        last_in_front(places, places[k]) == if k > 0 {
            Some(places[k - 1])
        } else {
            None
        },
    decreases places.len(),
{
    let rest = places.drop_last();
    let last = places.len() - 1;
    assert(ascending(rest)) by {
        assert forall|i: int, j: int| 0 <= i < j < rest.len() implies (#[trigger] rest[i]).before(
            #[trigger] rest[j],
        ) by {
            assert(places[i].before(places[j]));
        }
    }
    if k == last {
        assert(!places[last].before(places[last]));
        if last > 0 {
            assert(rest.last() == places[last - 1]);
            assert(places[last - 1].before(places[last]));
            assert(last_in_front(rest, places[last]) == Some(places[last - 1]));
        } else {
            assert(rest.len() == 0);
        }
    } else {
        assert(places[k].before(places[last]));
        assert(rest[k] == places[k]);
        lemma_last_in_front(rest, k);
        if k > 0 {
            assert(rest[k - 1] == places[k - 1]);
        }
    }
}

/// From a match, `n` goes to the next one and from the last one round to the first; `N` goes
/// the other way, and back to where `n` came from.
pub proof fn law_matches_go_round(matches: Seq<Pos>, k: int)
    requires
        ascending(matches),
        0 <= k < matches.len(),
    ensures
        match_from(matches, matches[k], true) == Some(
            matches[if k + 1 < matches.len() { k + 1 } else { 0 }],
        ),
        match_from(matches, matches[k], false) == Some(
            matches[if k > 0 { k - 1 } else { matches.len() - 1 }],
        ),
        match_from(matches, match_from(matches, matches[k], true)->0, false) == Some(matches[k]),
        match_from(matches, match_from(matches, matches[k], false)->0, true) == Some(matches[k]),
{
    lemma_first_behind(matches, k);
    lemma_last_in_front(matches, k);
    let next = if k + 1 < matches.len() { k + 1 } else { 0 };
    let prev = if k > 0 { k - 1 } else { matches.len() - 1 };
    lemma_last_in_front(matches, next);
    lemma_first_behind(matches, prev);
}

// --- the cursor stays in the grid and in view ------------------------------

impl CopyView {
    /// A place of the grid; of an empty grid, its corner.
    pub open spec fn has_place(self, p: Pos) -> bool {
        p.row <= self.last_row() && p.col <= self.last_col()
    }

    /// The cursor, the other end of the selection and all matches are places of the grid.
    pub open spec fn inside(self) -> bool {
        &&& self.grid.rectangular()
        &&& self.has_place(self.cursor)
        &&& self.anchor matches Some(p) ==> self.has_place(p)
        &&& self.search matches Some(s) ==> forall|i: int|
            0 <= i < s.matches.len() ==> self.has_place(#[trigger] s.matches[i])
    }

    /// A viewport of this height shows the cursor.
    pub open spec fn shows_cursor(self, viewport: int) -> bool {
        self.view_offset <= self.cursor.row < self.view_offset + max(viewport, 1)
    }

    /// The cursor is a place of the grid, and a viewport of this height shows it.
    pub open spec fn steady(self, viewport: int) -> bool {
        self.inside() && 0 <= self.view_offset && self.shows_cursor(viewport)
    }

    proof fn lemma_matches_inside(self, query: Seq<char>)
        ensures
            forall|i: int|
                0 <= i < self.grid.matches(query).len() ==> self.has_place(
                    #[trigger] self.grid.matches(query)[i],
                ),
    {
        let needle = lower_chars(query);
        law_matches_are_the_hits(self.grid, query);
        assert forall|i: int| 0 <= i < self.grid.matches(query).len() implies self.has_place(
            #[trigger] self.grid.matches(query)[i],
        ) by {
            let p = self.grid.matches(query)[i];
            assert(self.grid.matches(query).contains(p));
            assert(self.grid.is_hit(needle, p));
            self.grid.lemma_row_chars(p.row as int, self.grid.width as int);
        }
    }

    proof fn lemma_match_from_inside(self, s: Seq<Pos>, cur: Pos, forward: bool)
        requires
            forall|i: int| 0 <= i < s.len() ==> self.has_place(#[trigger] s[i]),
        ensures
            match_from(s, cur, forward) matches Some(p) ==> self.has_place(p),
        decreases s.len(),
    {
        if s.len() > 0 {
            let f = s.drop_first();
            let l = s.drop_last();
            assert forall|i: int| 0 <= i < f.len() implies self.has_place(#[trigger] f[i]) by {
                assert(f[i] == s[i + 1]);
            }
            assert forall|i: int| 0 <= i < l.len() implies self.has_place(#[trigger] l[i]) by {
                assert(l[i] == s[i]);
            }
            self.lemma_match_from_inside(f, cur, forward);
            self.lemma_match_from_inside(l, cur, forward);
            assert(self.has_place(s[0]) && self.has_place(s[s.len() - 1]));
        }
    }
}

/// Copy mode starts with the cursor in the grid and in view.
pub proof fn law_copy_mode_starts_inside(grid: Grid, viewport: int)
    requires
        grid.rectangular(),
        0 <= viewport,
    ensures
        CopyView::opened(grid, viewport).inside(),
        CopyView::opened(grid, viewport).shows_cursor(viewport),
{
    assert(grid.rows.len() == grid.rows@.len());
    grid.lemma_last_inked_row();
}

impl CopyView {
    proof fn lemma_at_col(self, col: int, viewport: int)
        requires
            self.inside(),
            0 <= col <= self.last_col(),
        ensures
            self.counted().at_col(col).inside(),
            self.steady(viewport) ==> self.counted().at_col(col).steady(viewport),
            self.counted().at_col(col).grid == self.grid,
    {
    }

    proof fn lemma_at_row(self, row: int, viewport: int)
        requires
            self.inside(),
            0 <= viewport,
            0 <= row <= self.last_row(),
        ensures
            self.counted().at_row(row, viewport).inside(),
            self.steady(viewport) ==> self.counted().at_row(row, viewport).steady(viewport),
            self.counted().at_row(row, viewport).grid == self.grid,
    {
        assert(self.grid.rows.len() == self.grid.rows@.len());
    }

    proof fn lemma_jumped(self, to: Option<Pos>, viewport: int)
        requires
            self.inside(),
            0 <= viewport,
            to matches Some(p) ==> self.has_place(p),
        ensures
            self.jumped(to, viewport).inside(),
            self.steady(viewport) ==> self.jumped(to, viewport).steady(viewport),
            self.jumped(to, viewport).grid == self.grid,
    {
    }

    proof fn lemma_repeated(self, same_direction: bool, viewport: int)
        requires
            self.inside(),
            0 <= viewport,
        ensures
            self.repeated(same_direction, viewport).inside(),
            self.steady(viewport) ==> self.repeated(same_direction, viewport).steady(viewport),
            self.repeated(same_direction, viewport).grid == self.grid,
    {
        if let Some(s) = self.search {
            self.lemma_match_from_inside(s.matches, self.cursor, true);
            self.lemma_match_from_inside(s.matches, self.cursor, false);
            let direction = if same_direction { s.direction } else { s.direction.reversed() };
            self.lemma_jumped(
                match_from(s.matches, self.cursor, direction == Direction::Forward),
                viewport,
            );
        }
    }

    proof fn lemma_swapped(self, viewport: int)
        requires
            self.inside(),
            0 <= viewport,
        ensures
            self.ends_swapped(viewport).inside(),
            self.steady(viewport) ==> self.ends_swapped(viewport).steady(viewport),
            self.ends_swapped(viewport).grid == self.grid,
    {
    }

    proof fn lemma_char_key(self, c: char, ctrl: bool, gg: bool, viewport: int)
        requires
            self.inside(),
            0 <= viewport,
        ensures
            self.char_key(c, ctrl, gg, viewport).inside(),
            self.steady(viewport) ==> self.char_key(c, ctrl, gg, viewport).steady(viewport),
            self.char_key(c, ctrl, gg, viewport).grid == self.grid,
    {
        let s = self.counted();
        let row = self.cursor.row as int;
        let col = self.cursor.col as int;
        let page = max(viewport, 1);
        let half = max(viewport / 2, 1);
        assert(s.inside());
        if c == 'h' {
            self.lemma_at_col(max(col - self.count(), 0), viewport);
        } else if c == 'l' {
            self.lemma_at_col(min(col + self.count(), self.last_col()), viewport);
        } else if c == 'j' {
            self.lemma_at_row(min(row + self.count(), self.last_row()), viewport);
        } else if c == 'k' {
            self.lemma_at_row(max(row - self.count(), 0), viewport);
        } else if c == '0' || c == '^' {
            self.lemma_at_col(0, viewport);
        } else if c == '$' {
            self.grid.lemma_last_inked_col(row);
            self.lemma_at_col(self.grid.last_inked_col(row), viewport);
        } else if c == 'G' {
            self.lemma_at_row(self.last_row(), viewport);
        } else if c == 'g' {
            self.lemma_at_row(0, viewport);
        } else if c == 'd' && ctrl {
            self.lemma_at_row(min(row + half, self.last_row()), viewport);
        } else if c == 'u' && ctrl {
            self.lemma_at_row(max(row - half, 0), viewport);
        } else if c == 'f' && ctrl {
            self.lemma_at_row(min(row + page, self.last_row()), viewport);
        } else if c == 'b' && ctrl {
            self.lemma_at_row(max(row - page, 0), viewport);
        } else if c == 'w' || c == 'b' || c == 'e' {
            self.grid.lemma_word_motions_inside(self.cursor);
            s.lemma_jumped(self.grid.next_begin(self.cursor), viewport);
            s.lemma_jumped(self.grid.prev_begin(self.cursor), viewport);
            s.lemma_jumped(self.grid.next_stop(self.cursor), viewport);
        } else if c == 'o' {
            self.lemma_swapped(viewport);
        } else if c == 'n' {
            self.lemma_repeated(true, viewport);
        } else if c == 'N' {
            self.lemma_repeated(false, viewport);
        }
    }

    proof fn lemma_input_key(self, input: SearchInputView, code: KeyCode, viewport: int)
        requires
            self.inside(),
            0 <= viewport,
        ensures
            self.input_key(input, code, viewport).inside(),
            self.steady(viewport) ==> self.input_key(input, code, viewport).steady(viewport),
            self.input_key(input, code, viewport).grid == self.grid,
    {
        if code == KeyCode::Enter {
            let s = CopyView { search_input: None, ..self };
            self.lemma_matches_inside(input.query);
            self.lemma_match_from_inside(self.grid.matches(input.query), self.cursor, true);
            self.lemma_match_from_inside(self.grid.matches(input.query), self.cursor, false);
            if input.query.len() > 0 {
                s.lemma_jumped(
                    match_from(
                        self.grid.matches(input.query),
                        self.cursor,
                        input.direction == Direction::Forward,
                    ),
                    viewport,
                );
            }
        } else if code == KeyCode::Backspace {
            self.lemma_matches_inside(input.query);
            self.lemma_matches_inside(input.query.drop_last());
        } else if let KeyCode::Char(c) = code {
            self.lemma_matches_inside(input.query.push(c));
        }
    }

    proof fn lemma_key(self, code: KeyCode, mods: KeyModifiers, viewport: int)
        requires
            self.inside(),
            0 <= viewport,
        ensures
            self.key(code, mods, viewport).inside(),
            self.steady(viewport) ==> self.key(code, mods, viewport).steady(viewport),
            self.key(code, mods, viewport).grid == self.grid,
    {
        if self.search_input is Some {
            self.lemma_input_key(self.search_input->0, code, viewport);
        } else {
            let s = CopyView { awaiting_g: false, ..self };
            match code {
                KeyCode::Left => s.lemma_char_key('h', mods.control, self.awaiting_g, viewport),
                KeyCode::Right => s.lemma_char_key('l', mods.control, self.awaiting_g, viewport),
                KeyCode::Down => s.lemma_char_key('j', mods.control, self.awaiting_g, viewport),
                KeyCode::Up => s.lemma_char_key('k', mods.control, self.awaiting_g, viewport),
                KeyCode::Char(c) => s.lemma_char_key(c, mods.control, self.awaiting_g, viewport),
                _ => {},
            }
        }
    }
}

/// No key leads the cursor out of the grid, and none changes the grid.
pub proof fn law_copy_keys_stay_inside(
    v: CopyView,
    code: KeyCode,
    mods: KeyModifiers,
    viewport: int,
)
    requires
        v.inside(),
        0 <= viewport,
    ensures
        v.key(code, mods, viewport).inside(),
        v.key(code, mods, viewport).grid == v.grid,
{
    v.lemma_key(code, mods, viewport);
}

/// A key leaves the cursor in view where it was in view.
pub proof fn law_copy_keys_keep_cursor_in_view(
    v: CopyView,
    code: KeyCode,
    mods: KeyModifiers,
    viewport: int,
)
    requires
        v.inside(),
        v.shows_cursor(viewport),
        0 <= v.view_offset,
        0 <= viewport,
    ensures
        v.key(code, mods, viewport).shows_cursor(viewport),
        0 <= v.key(code, mods, viewport).view_offset,
{
    v.lemma_key(code, mods, viewport);
}

/// Swapping the ends of a selection leaves what it covers and its text, and swapping them
/// again brings cursor and anchor back.
pub proof fn law_swapping_ends_keeps_selection(v: CopyView, viewport: int)
    requires
        v.anchor is Some,
    ensures
        v.ends_swapped(viewport).selected() == v.selected(),
        forall|p: Pos|
            v.ends_swapped(viewport).in_selection(p) == #[trigger] v.in_selection(p),
        v.ends_swapped(viewport).ends_swapped(viewport).cursor == v.cursor,
        v.ends_swapped(viewport).ends_swapped(viewport).anchor == v.anchor,
{
    law_selection_ends_swap(v.grid, v.selection, v.anchor->0, v.cursor);
}

/// Esc ends the selection and the search and stays in copy mode; the cursor does not move.
pub proof fn law_esc_clears(v: CopyView, mods: KeyModifiers, viewport: int)
    ensures
        v.key(KeyCode::Esc, mods, viewport).search is None,
        v.key(KeyCode::Esc, mods, viewport).search_input is None,
        v.search_input is None ==> v.key(KeyCode::Esc, mods, viewport).anchor is None,
        v.key(KeyCode::Esc, mods, viewport).cursor == v.cursor,
        v.outcome(KeyCode::Esc) is Stay,
{
}

} // verus!
