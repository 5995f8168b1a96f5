//! Searching a grid for a text, letter case aside.

use crate::grid::{Grid, Pos};
use crate::text::{lower_chars, lowercase_chars};
use vstd::prelude::*;
use vstd::string::*;

verus! {

/// The way a search goes.
#[derive(Clone, Copy, Debug, PartialEq, Eq, Structural)]
pub enum Direction {
    Forward,
    Backward,
}

impl Direction {
    /// The other way.
    pub open spec fn reversed(self) -> Direction {
        match self {
            Direction::Forward => Direction::Backward,
            Direction::Backward => Direction::Forward,
        }
    }

    /// The other way.
    pub fn opposite(self) -> (other: Direction)
        ensures
            other == self.reversed(),
    {
        match self {
            Direction::Forward => Direction::Backward,
            Direction::Backward => Direction::Forward,
        }
    }
}

/// Characters that all come from one column.
pub open spec fn from_col(chars: Seq<char>, col: int) -> Seq<(char, usize)> {
    Seq::new(chars.len(), |i: int| (chars[i], col as usize))
}

/// `needle` stands in a row of characters from character `i` on.
pub open spec fn hit_at(chars: Seq<(char, usize)>, needle: Seq<char>, i: int) -> bool {
    &&& 0 <= i && i + needle.len() <= chars.len()
    &&& forall|k: int| 0 <= k < needle.len() ==> (#[trigger] chars[i + k]).0 == needle[k]
}

/// Where `needle` stands among the first `n` characters of a row, from left to right.
pub open spec fn hits_in(
    chars: Seq<(char, usize)>,
    needle: Seq<char>,
    row: int,
    n: int,
) -> Seq<Pos>
    decreases n,
{
    if n <= 0 {
        Seq::empty()
    } else if hit_at(chars, needle, n - 1) {
        hits_in(chars, needle, row, n - 1).push(
            Pos { row: row as usize, col: chars[n - 1].1 },
        )
    } else {
        hits_in(chars, needle, row, n - 1)
    }
}

impl Grid {
    /// The characters of the first `n` cells of a row in lower case, each with its column.
    /// The second half of a wide character adds none.
    pub open spec fn row_chars(&self, row: int, n: int) -> Seq<(char, usize)>
        decreases n,
    {
        if n <= 0 {
            Seq::empty()
        } else {
            let before = self.row_chars(row, n - 1);
            match self.at(row, n - 1) {
                Some(cell) => if cell.wide_continuation {
                    before
                } else {
                    before + from_col(lower_chars(cell.symbol), n - 1)
                },
                None => before,
            }
        }
    }

    /// Where `needle` stands in a row.
    pub open spec fn row_hits(&self, needle: Seq<char>, row: int) -> Seq<Pos> {
        let chars = self.row_chars(row, self.width as int);
        hits_in(chars, needle, row, chars.len() as int)
    }

    /// Where `needle` stands in the first `n` rows, from the top.
    pub open spec fn hits(&self, needle: Seq<char>, n: int) -> Seq<Pos>
        decreases n,
    {
        if n <= 0 {
            Seq::empty()
        } else {
            self.hits(needle, n - 1) + self.row_hits(needle, n - 1)
        }
    }

    /// Where a query stands in the grid, letter case aside, in order. An empty query
    /// stands nowhere.
    pub open spec fn matches(&self, query: Seq<char>) -> Seq<Pos> {
        let needle = lower_chars(query);
        if needle.len() == 0 {
            Seq::empty()
        } else {
            self.hits(needle, self.rows@.len() as int)
        }
    }

    /// The characters of a row in lower case, each with its column.
    fn lowered_row(&self, row: usize) -> (chars: Vec<(char, usize)>)
        ensures
            chars@ == self.row_chars(row as int, self.width as int),
    {
        let mut chars: Vec<(char, usize)> = Vec::new();
        let width: usize = self.width as usize;
        let mut col: usize = 0;
        while col < width
            invariant
                width == self.width,
                col <= width,
                chars@ == self.row_chars(row as int, col as int),
            decreases width - col,
        {
            if let Some(cell) = self.cell(row, col) {
                if !cell.wide_continuation {
                    let lower: Vec<char> = lowercase_chars(cell.symbol.as_str());
                    let ghost before = chars@;
                    let mut i: usize = 0;
                    assert(from_col(lower@, col as int).take(0) =~= Seq::empty());
                    assert(before + Seq::<(char, usize)>::empty() =~= before);
                    while i < lower.len()
                        invariant
                            i <= lower@.len(),
                            chars@ == before + from_col(lower@, col as int).take(i as int),
                        decreases lower@.len() - i,
                    {
                        chars.push((lower[i], col));
                        i += 1;
                        assert(chars@ =~= before + from_col(lower@, col as int).take(i as int));
                    }
                    assert(from_col(lower@, col as int).take(i as int) =~= from_col(
                        lower@,
                        col as int,
                    ));
                }
            }
            col += 1;
        }
        chars
    }

    /// Where a query stands in the grid, letter case aside, in order.
    pub fn find_matches(&self, query: &str) -> (matches: Vec<Pos>)
        ensures
            matches@ == self.matches(query@),
    {
        let needle: Vec<char> = lowercase_chars(query);
        let mut matches: Vec<Pos> = Vec::new();
        if needle.len() == 0 {
            return matches;
        }
        let mut row: usize = 0;
        while row < self.height()
            invariant
                row <= self.rows@.len(),
                matches@ == self.hits(needle@, row as int),
            decreases self.rows@.len() - row,
        {
            let chars: Vec<(char, usize)> = self.lowered_row(row);
            let ghost before = matches@;
            let mut i: usize = 0;
            assert(before + Seq::<Pos>::empty() =~= before);
            while i < chars.len()
                invariant
                    i <= chars@.len(),
                    matches@ == before + hits_in(chars@, needle@, row as int, i as int),
                decreases chars@.len() - i,
            {
                if is_hit(&chars, &needle, i) {
                    matches.push(Pos { row, col: chars[i].1 });
                }
                i += 1;
                assert(matches@ =~= before + hits_in(chars@, needle@, row as int, i as int));
            }
            row += 1;
        }
        matches
    }
}

/// Whether `needle` stands in a row of characters from character `i` on.
fn is_hit(chars: &Vec<(char, usize)>, needle: &Vec<char>, i: usize) -> (hit: bool)
    requires
        i <= chars@.len(),
    ensures
        hit == hit_at(chars@, needle@, i as int),
{
    if chars.len() - i < needle.len() {
        return false;
    }
    let total: usize = chars.len();
    let mut k: usize = 0;
    while k < needle.len()
        invariant
            total == chars@.len(),
            i + needle@.len() <= total,
            k <= needle@.len(),
            forall|j: int| 0 <= j < k ==> (#[trigger] chars@[i + j]).0 == needle@[j],
        decreases needle@.len() - k,
    {
        if chars[i + k].0 != needle[k] {
            assert(chars@[i + k].0 != needle@[k as int]);
            return false;
        }
        k += 1;
    }
    true
}

/// The first of the places that comes behind `cur`.
pub open spec fn first_behind(places: Seq<Pos>, cur: Pos) -> Option<Pos>
    decreases places.len(),
{
    if places.len() == 0 {
        None
    } else if cur.before(places[0]) {
        Some(places[0])
    } else {
        first_behind(places.drop_first(), cur)
    }
}

/// The last of the places that comes in front of `cur`.
pub open spec fn last_in_front(places: Seq<Pos>, cur: Pos) -> Option<Pos>
    decreases places.len(),
{
    if places.len() == 0 {
        None
    } else if places.last().before(cur) {
        Some(places.last())
    } else {
        last_in_front(places.drop_last(), cur)
    }
}

/// Where a search goes from `cur`: to the next match, or from the end round to the other end.
pub open spec fn match_from(matches: Seq<Pos>, cur: Pos, forward: bool) -> Option<Pos> {
    if matches.len() == 0 {
        None
    } else if forward {
        match first_behind(matches, cur) {
            Some(p) => Some(p),
            None => Some(matches[0]),
        }
    } else {
        match last_in_front(matches, cur) {
            Some(p) => Some(p),
            None => Some(matches.last()),
        }
    }
}

/// Where a search goes from the cursor.
pub fn next_match(matches: &Vec<Pos>, cursor: Pos, forward: bool) -> (found: Option<Pos>)
    ensures
        found == match_from(matches@, cursor, forward),
{
    if matches.len() == 0 {
        return None;
    }
    if forward {
        let mut i: usize = 0;
        assert(matches@.skip(0) =~= matches@);
        while i < matches.len()
            invariant
                forward,
                matches@.len() > 0,
                i <= matches@.len(),
                first_behind(matches@, cursor) == first_behind(matches@.skip(i as int), cursor),
            decreases matches@.len() - i,
        {
            let p: Pos = matches[i];
            assert(matches@.skip(i as int)[0] == p);
            if cursor.is_before(p) {
                return Some(p);
            }
            assert(matches@.skip(i as int).drop_first() =~= matches@.skip(i + 1));
            i += 1;
        }
        Some(matches[0])
    } else {
        let mut n: usize = matches.len();
        assert(matches@.take(n as int) =~= matches@);
        while n > 0
            invariant
                !forward,
                matches@.len() > 0,
                n <= matches@.len(),
                last_in_front(matches@, cursor) == last_in_front(matches@.take(n as int), cursor),
            decreases n,
        {
            let p: Pos = matches[n - 1];
            assert(matches@.take(n as int).last() == p);
            if p.is_before(cursor) {
                return Some(p);
            }
            assert(matches@.take(n as int).drop_last() =~= matches@.take(n - 1));
            n -= 1;
        }
        Some(matches[matches.len() - 1])
    }
}

} // verus!
