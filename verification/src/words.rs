//! The words of a grid: unbroken runs of cells that are not blank, row by row.

use crate::grid::{Grid, Pos};
use crate::text::is_blank;
use vstd::prelude::*;
use vstd::string::*;

verus! {

impl Grid {
    /// The cell at a place belongs to a word.
    pub open spec fn word_at(&self, row: int, col: int) -> bool {
        &&& 0 <= col < self.width
        &&& self.at(row, col) matches Some(cell) && cell.in_word()
    }

    /// A word begins at a place.
    pub open spec fn word_begins(&self, p: Pos) -> bool {
        self.word_at(p.row as int, p.col as int) && !self.word_at(p.row as int, p.col - 1)
    }

    /// A word ends at a place.
    pub open spec fn word_stops(&self, p: Pos) -> bool {
        self.word_at(p.row as int, p.col as int) && !self.word_at(p.row as int, p.col + 1)
    }

    /// `p` is the next beginning of a word behind `cur`.
    pub open spec fn is_next_begin(&self, cur: Pos, p: Pos) -> bool {
        &&& self.word_begins(p) && cur.before(p)
        &&& forall|q: Pos| #[trigger] self.word_begins(q) && cur.before(q) ==> p.up_to(q)
    }

    /// `p` is the last beginning of a word in front of `cur`.
    pub open spec fn is_prev_begin(&self, cur: Pos, p: Pos) -> bool {
        &&& self.word_begins(p) && p.before(cur)
        &&& forall|q: Pos| #[trigger] self.word_begins(q) && q.before(cur) ==> q.up_to(p)
    }

    /// `p` is the next end of a word behind `cur`.
    pub open spec fn is_next_stop(&self, cur: Pos, p: Pos) -> bool {
        &&& self.word_stops(p) && cur.before(p)
        &&& forall|q: Pos| #[trigger] self.word_stops(q) && cur.before(q) ==> p.up_to(q)
    }

    /// The next beginning of a word behind `cur`, if there is one.
    pub open spec fn next_begin(&self, cur: Pos) -> Option<Pos> {
        if exists|p: Pos| #[trigger] self.word_begins(p) && cur.before(p) {
            Some(choose|p: Pos| self.is_next_begin(cur, p))
        } else {
            None
        }
    }

    /// The last beginning of a word in front of `cur`, if there is one.
    pub open spec fn prev_begin(&self, cur: Pos) -> Option<Pos> {
        if exists|p: Pos| #[trigger] self.word_begins(p) && p.before(cur) {
            Some(choose|p: Pos| self.is_prev_begin(cur, p))
        } else {
            None
        }
    }

    /// The next end of a word behind `cur`, if there is one.
    pub open spec fn next_stop(&self, cur: Pos) -> Option<Pos> {
        if exists|p: Pos| #[trigger] self.word_stops(p) && cur.before(p) {
            Some(choose|p: Pos| self.is_next_stop(cur, p))
        } else {
            None
        }
    }

    /// The words of a grid in order, each with the places where it begins and ends.
    #[verifier::opaque]
    pub open spec fn words_listed(&self, words: Seq<(Pos, Pos)>) -> bool {
        &&& forall|i: int|
            0 <= i < words.len() ==> self.word_begins((#[trigger] words[i]).0)
                && self.word_stops(words[i].1) && words[i].0.up_to(words[i].1)
                && words[i].0.row == words[i].1.row
        &&& forall|i: int, j: int|
            0 <= i < j < words.len() ==> (#[trigger] words[i]).1.before((#[trigger] words[j]).0)
        &&& forall|p: Pos| #[trigger]
            self.word_begins(p) ==> exists|i: int| 0 <= i < words.len() && (#[trigger] words[i]).0 == p
        &&& forall|p: Pos| #[trigger]
            self.word_stops(p) ==> exists|i: int| 0 <= i < words.len() && (#[trigger] words[i]).1 == p
    }

    /// Whether a cell belongs to a word.
    pub fn is_word_cell(&self, row: usize, col: usize) -> (r: bool)
        ensures
            r == (self.at(row as int, col as int) matches Some(cell) && cell.in_word()),
    {
        match self.cell(row, col) {
            Some(c) => c.wide_continuation || !is_blank(c.symbol.as_str()),
            None => false,
        }
    }

    /// The words of the grid in order.
    pub fn words(&self) -> (words: Vec<(Pos, Pos)>)
        ensures
            self.words_listed(words@),
    {
        let mut words: Vec<(Pos, Pos)> = Vec::new();
        let width: usize = self.width as usize;
        let mut row: usize = 0;
        while row < self.height()
            invariant
                width == self.width,
                row <= self.rows@.len(),
                self.words_up_to(words@, row as int, 0, None),
            decreases self.rows@.len() - row,
        {
            let mut start: Option<usize> = None;
            let mut col: usize = 0;
            while col < width
                invariant
                    width == self.width,
                    row < self.rows@.len(),
                    col <= width,
                    self.words_up_to(words@, row as int, col as int, start),
                decreases width - col,
            {
                let ghost before = words@;
                if self.is_word_cell(row, col) {
                    if start.is_none() {
                        start = Some(col);
                    }
                    assert(self.words_up_to(words@, row as int, col + 1, start));
                } else if let Some(s) = start {
                    words.push((Pos { row, col: s }, Pos { row, col: (col - 1) as usize }));
                    start = None;
                    proof {
                        self.lemma_word_closed(before, row, s, (col - 1) as usize);
                    }
                    assert(self.words_up_to(words@, row as int, col + 1, start));
                } else {
                    assert(self.words_up_to(words@, row as int, col + 1, start));
                }
                col += 1;
            }
            let ghost before = words@;
            if let Some(s) = start {
                words.push((Pos { row, col: s }, Pos { row, col: (width - 1) as usize }));
                proof {
                    self.lemma_word_closed(before, row, s, (width - 1) as usize);
                }
            }
            assert(self.words_up_to(words@, row + 1, 0, None)) by {
                if start is None {
                    assert(self.words_up_to(words@, row as int, width as int, None));
                } else {
                    assert(self.words_up_to(words@, row as int, width + 1, None));
                }
            }
            row += 1;
        }
        assert(self.words_listed(words@)) by {
            reveal(Grid::words_listed);
            assert forall|p: Pos| #[trigger] self.word_begins(p) implies p.row < self.rows@.len() by {}
        }
        words
    }

    /// The first fitting word of the list is the one looked for.
    proof fn lemma_next_begin(&self, words: Seq<(Pos, Pos)>, cur: Pos, i: int)
        requires
            self.words_listed(words),
            0 <= i < words.len(),
            cur.before(words[i].0),
            forall|j: int| 0 <= j < i ==> !cur.before((#[trigger] words[j]).0),
        ensures
            self.next_begin(cur) == Some(words[i].0),
    {
        reveal(Grid::words_listed);
        let p = words[i].0;
        assert(self.word_begins(p));
        assert forall|q: Pos| #[trigger] self.word_begins(q) && cur.before(q) implies p.up_to(q) by {
            let j = choose|j: int| 0 <= j < words.len() && (#[trigger] words[j]).0 == q;
            assert(i <= j);
            assert(i < j ==> words[i].1.before(words[j].0));
        }
        assert(self.is_next_begin(cur, p));
        let other = choose|p: Pos| self.is_next_begin(cur, p);
        assert(self.is_next_begin(cur, other));
    }

    /// Where no word of the list fits, there is none.
    proof fn lemma_no_next_begin(&self, words: Seq<(Pos, Pos)>, cur: Pos)
        requires
            self.words_listed(words),
            forall|j: int| 0 <= j < words.len() ==> !cur.before((#[trigger] words[j]).0),
        ensures
            self.next_begin(cur) is None,
    {
        reveal(Grid::words_listed);
        assert forall|p: Pos| !(#[trigger] self.word_begins(p) && cur.before(p)) by {
            if self.word_begins(p) {
                let j = choose|j: int| 0 <= j < words.len() && (#[trigger] words[j]).0 == p;
            }
        }
    }

    /// The next beginning of a word behind `cur`, if there is one.
    pub fn find_next_begin(&self, cur: Pos) -> (found: Option<Pos>)
        ensures
            found == self.next_begin(cur),
    {
        let words: Vec<(Pos, Pos)> = self.words();
        let mut i: usize = 0;
        while i < words.len()
            invariant
                self.words_listed(words@),
                i <= words@.len(),
                forall|j: int| 0 <= j < i ==> !cur.before((#[trigger] words@[j]).0),
            decreases words@.len() - i,
        {
            let p: Pos = words[i].0;
            if cur.is_before(p) {
                proof {
                    self.lemma_next_begin(words@, cur, i as int);
                }
                return Some(p);
            }
            i += 1;
        }
        proof {
            self.lemma_no_next_begin(words@, cur);
        }
        None
    }

    /// The first fitting word of the list is the one looked for.
    proof fn lemma_prev_begin(&self, words: Seq<(Pos, Pos)>, cur: Pos, i: int)
        requires
            self.words_listed(words),
            0 <= i < words.len(),
            words[i].0.before(cur),
            forall|j: int| i < j < words.len() ==> !(#[trigger] words[j]).0.before(cur),
        ensures
            self.prev_begin(cur) == Some(words[i].0),
    {
        reveal(Grid::words_listed);
        let p = words[i].0;
        assert(self.word_begins(p));
        assert forall|q: Pos| #[trigger] self.word_begins(q) && q.before(cur) implies q.up_to(p) by {
            let j = choose|j: int| 0 <= j < words.len() && (#[trigger] words[j]).0 == q;
            assert(j <= i);
            assert(j < i ==> words[j].1.before(words[i].0));
        }
        assert(self.is_prev_begin(cur, p));
        let other = choose|p: Pos| self.is_prev_begin(cur, p);
        assert(self.is_prev_begin(cur, other));
    }

    /// Where no word of the list fits, there is none.
    proof fn lemma_no_prev_begin(&self, words: Seq<(Pos, Pos)>, cur: Pos)
        requires
            self.words_listed(words),
            forall|j: int| 0 <= j < words.len() ==> !(#[trigger] words[j]).0.before(cur),
        ensures
            self.prev_begin(cur) is None,
    {
        reveal(Grid::words_listed);
        assert forall|p: Pos| !(#[trigger] self.word_begins(p) && p.before(cur)) by {
            if self.word_begins(p) {
                let j = choose|j: int| 0 <= j < words.len() && (#[trigger] words[j]).0 == p;
            }
        }
    }

    /// The last beginning of a word in front of `cur`, if there is one.
    pub fn find_prev_begin(&self, cur: Pos) -> (found: Option<Pos>)
        ensures
            found == self.prev_begin(cur),
    {
        let words: Vec<(Pos, Pos)> = self.words();
        let mut n: usize = words.len();
        while n > 0
            invariant
                self.words_listed(words@),
                n <= words@.len(),
                forall|j: int| n <= j < words@.len() ==> !(#[trigger] words@[j]).0.before(cur),
            decreases n,
        {
            n -= 1;
            let p: Pos = words[n].0;
            if p.is_before(cur) {
                proof {
                    self.lemma_prev_begin(words@, cur, n as int);
                }
                return Some(p);
            }
        }
        proof {
            self.lemma_no_prev_begin(words@, cur);
        }
        None
    }

    /// The first fitting word of the list is the one looked for.
    proof fn lemma_next_stop(&self, words: Seq<(Pos, Pos)>, cur: Pos, i: int)
        requires
            self.words_listed(words),
            0 <= i < words.len(),
            cur.before(words[i].1),
            forall|j: int| 0 <= j < i ==> !cur.before((#[trigger] words[j]).1),
        ensures
            self.next_stop(cur) == Some(words[i].1),
    {
        reveal(Grid::words_listed);
        let p = words[i].1;
        assert(self.word_stops(p));
        assert forall|q: Pos| #[trigger] self.word_stops(q) && cur.before(q) implies p.up_to(q) by {
            let j = choose|j: int| 0 <= j < words.len() && (#[trigger] words[j]).1 == q;
            assert(i <= j);
            assert(i < j ==> words[i].1.before(words[j].0));
        }
        assert(self.is_next_stop(cur, p));
        let other = choose|p: Pos| self.is_next_stop(cur, p);
        assert(self.is_next_stop(cur, other));
    }

    /// Where no word of the list fits, there is none.
    proof fn lemma_no_next_stop(&self, words: Seq<(Pos, Pos)>, cur: Pos)
        requires
            self.words_listed(words),
            forall|j: int| 0 <= j < words.len() ==> !cur.before((#[trigger] words[j]).1),
        ensures
            self.next_stop(cur) is None,
    {
        reveal(Grid::words_listed);
        assert forall|p: Pos| !(#[trigger] self.word_stops(p) && cur.before(p)) by {
            if self.word_stops(p) {
                let j = choose|j: int| 0 <= j < words.len() && (#[trigger] words[j]).1 == p;
            }
        }
    }

    /// The next end of a word behind `cur`, if there is one.
    pub fn find_next_stop(&self, cur: Pos) -> (found: Option<Pos>)
        ensures
            found == self.next_stop(cur),
    {
        let words: Vec<(Pos, Pos)> = self.words();
        let mut i: usize = 0;
        while i < words.len()
            invariant
                self.words_listed(words@),
                i <= words@.len(),
                forall|j: int| 0 <= j < i ==> !cur.before((#[trigger] words@[j]).1),
            decreases words@.len() - i,
        {
            let p: Pos = words[i].1;
            if cur.is_before(p) {
                proof {
                    self.lemma_next_stop(words@, cur, i as int);
                }
                return Some(p);
            }
            i += 1;
        }
        proof {
            self.lemma_no_next_stop(words@, cur);
        }
        None
    }

    /// `words` holds the words that end in front of a place; one that is still open there
    /// began in column `start` of the same row.
    closed spec fn words_up_to(
        &self,
        words: Seq<(Pos, Pos)>,
        row: int,
        col: int,
        start: Option<usize>,
    ) -> bool {
        &&& forall|i: int|
            0 <= i < words.len() ==> self.word_begins((#[trigger] words[i]).0)
                && self.word_stops(words[i].1) && words[i].0.up_to(words[i].1)
                && words[i].0.row == words[i].1.row
        &&& forall|i: int, j: int|
            0 <= i < j < words.len() ==> (#[trigger] words[i]).1.before((#[trigger] words[j]).0)
        &&& forall|i: int|
            0 <= i < words.len() ==> (#[trigger] words[i]).1.row < row || (words[i].1.row == row
                && words[i].1.col < col && (start matches Some(s) ==> words[i].1.col < s))
        &&& start matches Some(s) ==> s < col && self.word_begins(
            Pos { row: row as usize, col: s },
        ) && forall|c: int| s <= c < col ==> self.word_at(row, c)
        &&& start is None ==> !self.word_at(row, col - 1)
        &&& forall|p: Pos| #[trigger]
            self.word_begins(p) && (p.row < row || (p.row == row && p.col < col)) ==> (
            exists|i: int| 0 <= i < words.len() && (#[trigger] words[i]).0 == p) || (p.row == row
                && start == Some(p.col))
        &&& forall|p: Pos| #[trigger]
            self.word_stops(p) && (p.row < row || (p.row == row && p.col < col)) ==> (
            exists|i: int| 0 <= i < words.len() && (#[trigger] words[i]).1 == p) || (p.row == row
                && start is Some && p.col == col - 1)
    }

    /// An open word that ends at `stop` joins the list.
    proof fn lemma_word_closed(
        &self,
        words: Seq<(Pos, Pos)>,
        row: usize,
        start: usize,
        stop: usize,
    )
        requires
            self.words_up_to(words, row as int, stop + 1, Some(start)),
            !self.word_at(row as int, stop + 1),
        ensures
            self.words_up_to(
                words.push((Pos { row, col: start }, Pos { row, col: stop })),
                row as int,
                stop + 2,
                None,
            ),
    {
        let last = (Pos { row, col: start }, Pos { row, col: stop });
        let more = words.push(last);
        assert(more[words.len() as int] == last);
        assert(self.word_stops(last.1));
        assert forall|p: Pos| #[trigger]
            self.word_begins(p) && (p.row < row || (p.row == row && p.col < stop
                + 2)) implies exists|i: int|
            0 <= i < more.len() && (#[trigger] more[i]).0 == p by {
            if exists|i: int| 0 <= i < words.len() && (#[trigger] words[i]).0 == p {
                let i = choose|i: int| 0 <= i < words.len() && (#[trigger] words[i]).0 == p;
                assert(more[i] == words[i]);
            } else {
                assert(p == last.0);
            }
        }
        assert forall|p: Pos| #[trigger]
            self.word_stops(p) && (p.row < row || (p.row == row && p.col < stop
                + 2)) implies exists|i: int|
            0 <= i < more.len() && (#[trigger] more[i]).1 == p by {
            if exists|i: int| 0 <= i < words.len() && (#[trigger] words[i]).1 == p {
                let i = choose|i: int| 0 <= i < words.len() && (#[trigger] words[i]).1 == p;
                assert(more[i] == words[i]);
            } else {
                assert(p == last.1);
            }
        }
    }
}

} // verus!
