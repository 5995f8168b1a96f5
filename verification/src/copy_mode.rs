//! Copy mode: moving, selecting and searching in a frozen grid with Vim's keys.

use crate::draw::{draw_views, painted, painted_row, Area, DrawCell, Look};
use crate::grid::{Grid, Pos};
use crate::keys::{KeyCode, KeyModifiers};
use crate::number::{number_in, parse_usize};
use crate::search::{match_from, next_match, Direction};
use crate::selection::{covers, SelectionKind};
use crate::style::{plain_style, Color, Style};
use vstd::math::{max, min};
use vstd::prelude::*;
use vstd::string::*;

verus! {

/// What a key does to copy mode.
#[derive(Debug)]
pub enum CopyOutcome {
    /// Copy mode goes on.
    Stay,
    /// Copy mode ends, and the text is copied.
    Yank(String),
    /// Copy mode ends.
    Cancel,
}

/// What an outcome holds.
#[verifier::ext_equal]
pub ghost enum OutcomeView {
    Stay,
    Yank(Seq<char>),
    Cancel,
}

impl View for CopyOutcome {
    type V = OutcomeView;

    open spec fn view(&self) -> OutcomeView {
        match self {
            CopyOutcome::Stay => OutcomeView::Stay,
            CopyOutcome::Yank(text) => OutcomeView::Yank(text@),
            CopyOutcome::Cancel => OutcomeView::Cancel,
        }
    }
}

/// A query that is being typed.
pub struct SearchInput {
    pub query: String,
    pub direction: Direction,
}

/// What a query that is being typed holds.
#[verifier::ext_equal]
pub ghost struct SearchInputView {
    pub query: Seq<char>,
    pub direction: Direction,
}

impl View for SearchInput {
    type V = SearchInputView;

    open spec fn view(&self) -> SearchInputView {
        SearchInputView { query: self.query@, direction: self.direction }
    }
}

/// A search and where it found its query.
pub struct Search {
    pub query: String,
    pub direction: Direction,
    pub matches: Vec<Pos>,
}

/// What a search holds.
#[verifier::ext_equal]
pub ghost struct SearchView {
    pub query: Seq<char>,
    pub direction: Direction,
    pub matches: Seq<Pos>,
}

impl View for Search {
    type V = SearchView;

    open spec fn view(&self) -> SearchView {
        SearchView { query: self.query@, direction: self.direction, matches: self.matches@ }
    }
}

/// The state of copy mode.
pub struct CopyState {
    pub grid: Grid,
    pub cursor: Pos,
    /// Where the selection began.
    pub anchor: Option<Pos>,
    pub selection: SelectionKind,
    /// The row of the grid at the top of the viewport.
    pub view_offset: usize,
    /// The digits typed in front of a motion.
    pub pending: String,
    /// A `g` was typed that may be the first of two.
    pub awaiting_g: bool,
    pub search: Option<Search>,
    pub search_input: Option<SearchInput>,
}

/// What the state of copy mode holds.
#[verifier::ext_equal]
pub ghost struct CopyView {
    pub grid: Grid,
    pub cursor: Pos,
    pub anchor: Option<Pos>,
    pub selection: SelectionKind,
    pub view_offset: int,
    pub pending: Seq<char>,
    pub awaiting_g: bool,
    pub search: Option<SearchView>,
    pub search_input: Option<SearchInputView>,
}

impl View for CopyState {
    type V = CopyView;

    open spec fn view(&self) -> CopyView {
        CopyView {
            grid: self.grid,
            cursor: self.cursor,
            anchor: self.anchor,
            selection: self.selection,
            view_offset: self.view_offset as int,
            pending: self.pending@,
            awaiting_g: self.awaiting_g,
            search: match self.search {
                Some(s) => Some(s@),
                None => None,
            },
            search_input: match self.search_input {
                Some(i) => Some(i@),
                None => None,
            },
        }
    }
}

// --- what the keys do ------------------------------------------------------

/// The row at the top of a viewport of `h` rows that shows `row`, moved from `offset` no
/// further than needed, and not past the last row of `height`.
pub open spec fn view_showing(row: int, offset: int, height: int, h: int) -> int {
    let moved = if row < offset {
        row
    } else if row >= offset + h {
        row + 1 - h
    } else {
        offset
    };
    min(moved, max(height - h, 0))
}

impl CopyView {
    /// The state at the start: the cursor stands in the last row that shows something, and
    /// the end of the grid is in view as far as the cursor allows.
    pub open spec fn opened(grid: Grid, viewport: int) -> CopyView {
        let h = max(viewport, 1);
        let end = max(grid.rows@.len() - h, 0);
        let row = grid.last_inked_row();
        CopyView {
            grid,
            cursor: Pos { row: row as usize, col: 0 },
            anchor: None,
            selection: SelectionKind::Char,
            view_offset: min(row, end),
            pending: Seq::empty(),
            awaiting_g: false,
            search: None,
            search_input: None,
        }
    }

    pub open spec fn height(self) -> int {
        self.grid.rows@.len() as int
    }

    pub open spec fn last_row(self) -> int {
        max(self.height() - 1, 0)
    }

    pub open spec fn last_col(self) -> int {
        max(self.grid.width - 1, 0)
    }

    /// The number typed in front of a motion; 1 where none was.
    pub open spec fn count(self) -> int {
        match number_in(self.pending) {
            Some(n) => max(n, 1),
            None => 1,
        }
    }

    /// With no number typed.
    pub open spec fn counted(self) -> CopyView {
        CopyView { pending: Seq::empty(), ..self }
    }

    /// With the cursor in another column.
    pub open spec fn at_col(self, col: int) -> CopyView {
        CopyView { cursor: Pos { col: col as usize, ..self.cursor }, ..self }
    }

    /// With the viewport moved so that it shows the cursor.
    pub open spec fn in_view(self, viewport: int) -> CopyView {
        CopyView {
            view_offset: view_showing(
                self.cursor.row as int,
                self.view_offset,
                self.height(),
                max(viewport, 1),
            ),
            ..self
        }
    }

    /// With the cursor at a place that the viewport then shows.
    pub open spec fn jumped(self, to: Option<Pos>, viewport: int) -> CopyView {
        match to {
            Some(p) => CopyView { cursor: p, ..self }.in_view(viewport),
            None => self,
        }
    }

    /// With the cursor in another row, in the same column as far as there is one.
    pub open spec fn at_row(self, row: int, viewport: int) -> CopyView {
        CopyView {
            cursor: Pos {
                row: row as usize,
                col: min(self.cursor.col as int, self.last_col()) as usize,
            },
            ..self
        }.in_view(viewport)
    }

    /// `n` rows further up.
    pub open spec fn up(self, n: int, viewport: int) -> CopyView {
        self.at_row(max(self.cursor.row - n, 0), viewport)
    }

    /// `n` rows further down.
    pub open spec fn down(self, n: int, viewport: int) -> CopyView {
        self.at_row(min(self.cursor.row + n, self.last_row()), viewport)
    }

    /// One more digit typed. A zero cannot come first.
    pub open spec fn digit(self, d: char) -> CopyView {
        if d == '0' && self.pending.len() == 0 {
            self
        } else {
            CopyView { pending: self.pending.push(d), ..self }
        }
    }

    /// A selection of a kind: begun where there is none, changed where there is one of
    /// another kind, ended where it is of this kind.
    pub open spec fn selecting(self, kind: SelectionKind) -> CopyView {
        if self.anchor is None {
            CopyView { anchor: Some(self.cursor), selection: kind, ..self }
        } else if self.selection == kind {
            CopyView { anchor: None, ..self }
        } else {
            CopyView { selection: kind, ..self }
        }
    }

    /// The ends of the selection swapped.
    pub open spec fn ends_swapped(self, viewport: int) -> CopyView {
        match self.anchor {
            Some(p) => CopyView { anchor: Some(self.cursor), cursor: p, ..self }.in_view(viewport),
            None => self,
        }
    }

    /// The text of the selection, if there is one.
    pub open spec fn selected(self) -> Option<Seq<char>> {
        match self.anchor {
            Some(anchor) => Some(self.grid.selected_text(self.selection, anchor, self.cursor)),
            None => None,
        }
    }

    /// The search for a query in the grid.
    pub open spec fn search_for(self, query: Seq<char>, direction: Direction) -> Option<SearchView> {
        if query.len() == 0 {
            None
        } else {
            Some(SearchView { query, direction, matches: self.grid.matches(query) })
        }
    }

    /// A query to be typed.
    pub open spec fn asking(self, direction: Direction) -> CopyView {
        CopyView { search_input: Some(SearchInputView { query: Seq::empty(), direction }), ..self }
    }

    /// Another query typed; what it matches shows at once.
    pub open spec fn typed(self, input: SearchInputView) -> CopyView {
        CopyView {
            search_input: Some(input),
            search: self.search_for(input.query, input.direction),
            ..self
        }
    }

    /// A query searched for; the cursor goes to the next match.
    pub open spec fn searched(
        self,
        query: Seq<char>,
        direction: Direction,
        viewport: int,
    ) -> CopyView {
        let search = self.search_for(query, direction);
        let to = match search {
            Some(s) => match_from(s.matches, self.cursor, direction == Direction::Forward),
            None => None,
        };
        CopyView { search, ..self.jumped(to, viewport) }
    }

    /// The cursor at the next match of the search, the way the search goes or the other way.
    pub open spec fn repeated(self, same_direction: bool, viewport: int) -> CopyView {
        match self.search {
            Some(s) => {
                let direction = if same_direction {
                    s.direction
                } else {
                    s.direction.reversed()
                };
                self.jumped(
                    match_from(s.matches, self.cursor, direction == Direction::Forward),
                    viewport,
                )
            },
            None => self,
        }
    }

    /// The state after a key while a query is being typed.
    pub open spec fn input_key(
        self,
        input: SearchInputView,
        code: KeyCode,
        viewport: int,
    ) -> CopyView {
        match code {
            KeyCode::Esc => CopyView { search_input: None, search: None, ..self },
            KeyCode::Enter => CopyView { search_input: None, ..self }.searched(
                input.query,
                input.direction,
                viewport,
            ),
            KeyCode::Backspace => self.typed(
                SearchInputView {
                    query: if input.query.len() > 0 {
                        input.query.drop_last()
                    } else {
                        input.query
                    },
                    ..input
                },
            ),
            KeyCode::Char(c) => self.typed(SearchInputView { query: input.query.push(c), ..input }),
            _ => self,
        }
    }

    /// The state after a character while no query is being typed. `gg` tells whether the key
    /// before was a single `g`.
    pub open spec fn char_key(self, c: char, ctrl: bool, gg: bool, viewport: int) -> CopyView {
        if c == 'h' {
            self.counted().at_col(max(self.cursor.col - self.count(), 0))
        } else if c == 'l' {
            self.counted().at_col(min(self.cursor.col + self.count(), self.last_col()))
        } else if c == 'j' {
            self.counted().down(self.count(), viewport)
        } else if c == 'k' {
            self.counted().up(self.count(), viewport)
        } else if c == '0' && self.pending.len() > 0 {
            self.digit('0')
        } else if c == '0' || c == '^' {
            self.counted().at_col(0)
        } else if c == '$' {
            self.counted().at_col(self.grid.last_inked_col(self.cursor.row as int))
        } else if c == 'G' {
            self.counted().at_row(self.last_row(), viewport)
        } else if c == 'g' {
            if gg {
                self.counted().at_row(0, viewport)
            } else {
                CopyView { awaiting_g: true, ..self }
            }
        } else if c == 'd' && ctrl {
            self.counted().down(max(viewport / 2, 1), viewport)
        } else if c == 'u' && ctrl {
            self.counted().up(max(viewport / 2, 1), viewport)
        } else if c == 'f' && ctrl {
            self.counted().down(max(viewport, 1), viewport)
        } else if c == 'b' && ctrl {
            self.counted().up(max(viewport, 1), viewport)
        } else if c == 'w' {
            self.counted().jumped(self.grid.next_begin(self.cursor), viewport)
        } else if c == 'b' {
            self.counted().jumped(self.grid.prev_begin(self.cursor), viewport)
        } else if c == 'e' {
            self.counted().jumped(self.grid.next_stop(self.cursor), viewport)
        } else if c == 'v' && ctrl {
            self.selecting(SelectionKind::Block)
        } else if c == 'v' {
            self.selecting(SelectionKind::Char)
        } else if c == 'V' {
            self.selecting(SelectionKind::Line)
        } else if c == 'o' {
            self.ends_swapped(viewport)
        } else if c == '/' {
            self.asking(Direction::Forward)
        } else if c == '?' {
            self.asking(Direction::Backward)
        } else if c == 'n' {
            self.repeated(true, viewport)
        } else if c == 'N' {
            self.repeated(false, viewport)
        } else if '1' <= c <= '9' {
            self.digit(c)
        } else {
            self
        }
    }

    /// The state after a key.
    pub open spec fn key(self, code: KeyCode, mods: KeyModifiers, viewport: int) -> CopyView {
        if self.search_input is Some {
            self.input_key(self.search_input->0, code, viewport)
        } else {
            let s = CopyView { awaiting_g: false, ..self };
            match code {
                KeyCode::Esc => CopyView { anchor: None, search: None, ..s },
                KeyCode::Left => s.char_key('h', mods.control, self.awaiting_g, viewport),
                KeyCode::Right => s.char_key('l', mods.control, self.awaiting_g, viewport),
                KeyCode::Down => s.char_key('j', mods.control, self.awaiting_g, viewport),
                KeyCode::Up => s.char_key('k', mods.control, self.awaiting_g, viewport),
                KeyCode::Char(c) => s.char_key(c, mods.control, self.awaiting_g, viewport),
                _ => s,
            }
        }
    }

    /// What a key does to copy mode.
    pub open spec fn outcome(self, code: KeyCode) -> OutcomeView {
        if self.search_input is Some {
            OutcomeView::Stay
        } else if code == KeyCode::Char('q') {
            OutcomeView::Cancel
        } else if code == KeyCode::Char('y') || code == KeyCode::Enter {
            match self.selected() {
                Some(text) => OutcomeView::Yank(text),
                None => OutcomeView::Cancel,
            }
        } else {
            OutcomeView::Stay
        }
    }
}

/// The number of the first match from position `k` on that is at `pos`, counted
/// from 1; 0 where there is none.
pub open spec fn match_number(matches: Seq<Pos>, pos: Pos, k: int) -> int
    decreases matches.len() - k,
{
    if k < 0 || k >= matches.len() {
        0
    } else if matches[k] == pos {
        k + 1
    } else {
        match_number(matches, pos, k + 1)
    }
}

// --- copy mode -------------------------------------------------------------

impl CopyState {
    /// Copy mode on a grid: the cursor stands in the last row that shows something.
    pub fn new(grid: Grid, viewport_height: usize) -> (state: CopyState)
        ensures
            state@ == CopyView::opened(grid, viewport_height as int),
    {
        let height: usize = grid.height();
        let h: usize = if viewport_height > 1 { viewport_height } else { 1 };
        let last: usize = grid.last_content_row();
        let cursor: Pos = Pos { row: last, col: 0 };
        let mut view_offset: usize = if height > h { height - h } else { 0 };
        if last < view_offset {
            view_offset = last;
        }
        CopyState {
            grid,
            cursor,
            anchor: None,
            selection: SelectionKind::Char,
            view_offset,
            pending: String::new(),
            awaiting_g: false,
            search: None,
            search_input: None,
        }
    }

    /// Handles a key.
    pub fn handle_key(
        &mut self,
        code: KeyCode,
        mods: KeyModifiers,
        viewport_height: usize,
    ) -> (outcome: CopyOutcome)
        ensures
            final(self)@ == old(self)@.key(code, mods, viewport_height as int),
            outcome@ == old(self)@.outcome(code),
    {
        if self.search_input.is_some() {
            return self.handle_search_input(code, viewport_height);
        }
        let was_awaiting_g: bool = self.awaiting_g;
        self.awaiting_g = false;
        match code {
            KeyCode::Char('q') => {
                return CopyOutcome::Cancel;
            },
            KeyCode::Char('y') | KeyCode::Enter => {
                return match self.extract_selection() {
                    Some(text) => CopyOutcome::Yank(text),
                    None => CopyOutcome::Cancel,
                };
            },
            KeyCode::Esc => {
                self.anchor = None;
                self.search = None;
            },
            KeyCode::Left => self.move_left(),
            KeyCode::Right => self.move_right(),
            KeyCode::Down => self.move_down(viewport_height),
            KeyCode::Up => self.move_up(viewport_height),
            KeyCode::Char(c) => self.handle_char(c, mods.control, was_awaiting_g, viewport_height),
            _ => {},
        }
        CopyOutcome::Stay
    }

    /// Handles a character that moves, selects, searches or counts.
    fn handle_char(&mut self, c: char, ctrl: bool, gg: bool, viewport_height: usize)
        ensures
            final(self)@ == old(self)@.char_key(c, ctrl, gg, viewport_height as int),
    {
        match c {
            'h' => self.move_left(),
            'l' => self.move_right(),
            'j' => self.move_down(viewport_height),
            'k' => self.move_up(viewport_height),
            '0' => {
                if self.has_pending() {
                    self.push_digit('0');
                } else {
                    self.move_line_start();
                }
            },
            '^' => self.move_line_start(),
            '$' => self.move_line_end(),
            'G' => self.move_bottom(viewport_height),
            'g' => {
                if gg {
                    self.move_top(viewport_height);
                } else {
                    self.awaiting_g = true;
                }
            },
            'd' if ctrl => self.half_page_down(viewport_height),
            'u' if ctrl => self.half_page_up(viewport_height),
            'f' if ctrl => self.full_page_down(viewport_height),
            'b' if ctrl => self.full_page_up(viewport_height),
            'w' => self.word_forward(viewport_height),
            'b' => self.word_back(viewport_height),
            'e' => self.word_end(viewport_height),
            'v' if ctrl => self.set_selection(SelectionKind::Block),
            'v' => self.toggle_selection(),
            'V' => self.set_selection(SelectionKind::Line),
            'o' => self.swap_ends(viewport_height),
            '/' => self.begin_search(Direction::Forward),
            '?' => self.begin_search(Direction::Backward),
            'n' => self.search_repeat(true, viewport_height),
            'N' => self.search_repeat(false, viewport_height),
            _ => {
                if '1' <= c && c <= '9' {
                    self.push_digit(c);
                }
            },
        }
    }

    /// Handles a key while a query is being typed.
    fn handle_search_input(&mut self, code: KeyCode, viewport_height: usize) -> (outcome:
        CopyOutcome)
        requires
            old(self).search_input is Some,
        ensures
            final(self)@ == old(self)@.input_key(
                old(self)@.search_input->0,
                code,
                viewport_height as int,
            ),
            outcome@ == OutcomeView::Stay,
    {
        match code {
            KeyCode::Esc => {
                self.search_input = None;
                self.search = None;
            },
            KeyCode::Enter => {
                if let Some(input) = self.search_input.take() {
                    self.run_search(input.query, input.direction, viewport_height);
                }
            },
            KeyCode::Backspace => {
                if let Some(input) = self.search_input.take() {
                    let mut query: String = input.query;
                    query.pop();
                    self.search_input = Some(SearchInput { query, direction: input.direction });
                }
                self.update_live_search();
            },
            KeyCode::Char(c) => {
                if let Some(input) = self.search_input.take() {
                    let mut query: String = input.query;
                    query.push(c);
                    self.search_input = Some(SearchInput { query, direction: input.direction });
                }
                self.update_live_search();
            },
            _ => {},
        }
        CopyOutcome::Stay
    }

    /// Shows what the query being typed matches; the cursor stays.
    fn update_live_search(&mut self)
        requires
            old(self).search_input is Some,
        ensures
            final(self)@ == old(self)@.typed(old(self)@.search_input->0),
    {
        let search: Option<Search> = match &self.search_input {
            Some(input) => {
                if input.query.as_str().is_empty() {
                    None
                } else {
                    let matches: Vec<Pos> = self.grid.find_matches(input.query.as_str());
                    Some(
                        Search { query: input.query.clone(), direction: input.direction, matches },
                    )
                }
            },
            None => None,
        };
        self.search = search;
    }

    /// Whether digits of a number have been typed.
    pub fn has_pending(&self) -> (pending: bool)
        ensures
            pending == (self@.pending.len() > 0),
    {
        !self.pending.as_str().is_empty()
    }

    /// The prompt while a query is being typed: its direction and what was typed so far.
    pub fn search_prompt(&self) -> (prompt: Option<String>)
        ensures
            prompt is Some <==> self@.search_input is Some,
            prompt matches Some(p) ==> p@ == seq![
                if self@.search_input->0.direction == Direction::Forward { '/' } else { '?' },
            ] + self@.search_input->0.query,
    {
        match &self.search_input {
            Some(input) => {
                let mut prompt: String = String::new();
                prompt.push(if input.direction == Direction::Forward { '/' } else { '?' });
                prompt.append(input.query.as_str());
                assert(prompt@ =~= seq![
                    if input.direction == Direction::Forward { '/' } else { '?' },
                ] + input.query@);
                Some(prompt)
            },
            None => None,
        }
    }

    /// The number of the match under the cursor, from 1 on and 0 where there is none, and the
    /// number of matches.
    pub fn search_count(&self) -> (count: Option<(usize, usize)>)
        ensures
            count is Some <==> self@.search is Some,
            count matches Some(c) ==> {
                let matches = self@.search->0.matches;
                &&& c.1 == matches.len()
                &&& c.0 == match_number(matches, self.cursor, 0)
            },
    {
        match &self.search {
            Some(search) => {
                let total: usize = search.matches.len();
                let mut i: usize = 0;
                while i < total
                    invariant
                        self@.search == Some(search@),
                        total == search.matches@.len(),
                        i <= total,
                        match_number(search.matches@, self.cursor, 0) == match_number(
                            search.matches@,
                            self.cursor,
                            i as int,
                        ),
                    decreases total - i,
                {
                    if search.matches[i] == self.cursor {
                        return Some((i + 1, total));
                    }
                    i += 1;
                }
                Some((0, total))
            },
            None => None,
        }
    }

    /// The query of the search.
    pub fn search_query(&self) -> (query: Option<&str>)
        ensures
            query is Some <==> self@.search is Some,
            query matches Some(q) ==> q@ == self@.search->0.query,
    {
        match &self.search {
            Some(search) => Some(search.query.as_str()),
            None => None,
        }
    }

    fn last_row(&self) -> (row: usize)
        ensures
            row == self@.last_row(),
    {
        let n: usize = self.grid.height();
        if n > 0 {
            n - 1
        } else {
            0
        }
    }

    fn last_col(&self) -> (col: usize)
        ensures
            col == self@.last_col(),
    {
        let n: usize = self.grid.width as usize;
        if n > 0 {
            n - 1
        } else {
            0
        }
    }

    /// Moves the viewport so that it shows the cursor.
    fn clamp_view(&mut self, viewport_height: usize)
        ensures
            final(self)@ == old(self)@.in_view(viewport_height as int),
    {
        let h: usize = if viewport_height > 1 { viewport_height } else { 1 };
        if self.cursor.row < self.view_offset {
            self.view_offset = self.cursor.row;
        } else if self.cursor.row - self.view_offset >= h {
            self.view_offset = self.cursor.row - (h - 1);
        }
        let height: usize = self.grid.height();
        let max_offset: usize = if height > h { height - h } else { 0 };
        if self.view_offset > max_offset {
            self.view_offset = max_offset;
        }
    }

    /// Takes the number typed in front of a motion.
    fn take_count(&mut self) -> (n: usize)
        ensures
            n == old(self)@.count(),
            final(self)@ == old(self)@.counted(),
    {
        let n: usize = match parse_usize(self.pending.as_str()) {
            Some(n) => if n > 1 { n } else { 1 },
            None => 1,
        };
        self.pending.clear();
        n
    }

    /// Types a digit of a number. A zero that comes first is none.
    pub fn push_digit(&mut self, d: char)
        ensures
            final(self)@ == old(self)@.digit(d),
    {
        if d == '0' && self.pending.as_str().is_empty() {
            return;
        }
        self.pending.push(d);
    }

    /// `h`: to the left.
    pub fn move_left(&mut self)
        ensures
            final(self)@ == old(self)@.counted().at_col(
                max(old(self).cursor.col - old(self)@.count(), 0),
            ),
    {
        let n: usize = self.take_count();
        self.cursor.col = self.cursor.col.saturating_sub(n);
    }

    /// `l`: to the right.
    pub fn move_right(&mut self)
        ensures
            final(self)@ == old(self)@.counted().at_col(
                min(old(self).cursor.col + old(self)@.count(), old(self)@.last_col()),
            ),
    {
        let n: usize = self.take_count();
        let last: usize = self.last_col();
        let col: usize = self.cursor.col.saturating_add(n);
        self.cursor.col = if col < last { col } else { last };
    }

    /// `k`: up.
    pub fn move_up(&mut self, viewport_height: usize)
        ensures
            final(self)@ == old(self)@.counted().up(old(self)@.count(), viewport_height as int),
    {
        let n: usize = self.take_count();
        self.cursor.row = self.cursor.row.saturating_sub(n);
        self.clamp_cursor_col();
        self.clamp_view(viewport_height);
    }

    /// `j`: down.
    pub fn move_down(&mut self, viewport_height: usize)
        ensures
            final(self)@ == old(self)@.counted().down(old(self)@.count(), viewport_height as int),
    {
        let n: usize = self.take_count();
        self.row_down(n);
        self.clamp_cursor_col();
        self.clamp_view(viewport_height);
    }

    /// `n` rows down, no further than the last.
    fn row_down(&mut self, n: usize)
        ensures
            final(self)@ == (CopyView {
                cursor: Pos {
                    row: min(old(self).cursor.row + n, old(self)@.last_row()) as usize,
                    ..old(self).cursor
                },
                ..old(self)@
            }),
    {
        let last: usize = self.last_row();
        let row: usize = self.cursor.row.saturating_add(n);
        self.cursor.row = if row < last { row } else { last };
    }

    /// `0`: to the first column.
    pub fn move_line_start(&mut self)
        ensures
            final(self)@ == old(self)@.counted().at_col(0),
    {
        self.pending.clear();
        self.cursor.col = 0;
    }

    /// `$`: to the last column that shows something.
    pub fn move_line_end(&mut self)
        ensures
            final(self)@ == old(self)@.counted().at_col(
                old(self).grid.last_inked_col(old(self).cursor.row as int),
            ),
    {
        self.pending.clear();
        self.cursor.col = self.grid.last_content_col(self.cursor.row);
    }

    /// `gg`: to the first row.
    pub fn move_top(&mut self, viewport_height: usize)
        ensures
            final(self)@ == old(self)@.counted().at_row(0, viewport_height as int),
    {
        self.pending.clear();
        self.cursor.row = 0;
        self.clamp_cursor_col();
        self.clamp_view(viewport_height);
    }

    /// `G`: to the last row.
    pub fn move_bottom(&mut self, viewport_height: usize)
        ensures
            final(self)@ == old(self)@.counted().at_row(
                old(self)@.last_row(),
                viewport_height as int,
            ),
    {
        self.pending.clear();
        self.cursor.row = self.last_row();
        self.clamp_cursor_col();
        self.clamp_view(viewport_height);
    }

    /// `Ctrl-D`: half a page down.
    pub fn half_page_down(&mut self, viewport_height: usize)
        ensures
            final(self)@ == old(self)@.counted().down(
                max(viewport_height as int / 2, 1),
                viewport_height as int,
            ),
    {
        self.pending.clear();
        let step: usize = if viewport_height / 2 > 1 { viewport_height / 2 } else { 1 };
        self.row_down(step);
        self.clamp_cursor_col();
        self.clamp_view(viewport_height);
    }

    /// `Ctrl-U`: half a page up.
    pub fn half_page_up(&mut self, viewport_height: usize)
        ensures
            final(self)@ == old(self)@.counted().up(
                max(viewport_height as int / 2, 1),
                viewport_height as int,
            ),
    {
        self.pending.clear();
        let step: usize = if viewport_height / 2 > 1 { viewport_height / 2 } else { 1 };
        self.cursor.row = self.cursor.row.saturating_sub(step);
        self.clamp_cursor_col();
        self.clamp_view(viewport_height);
    }

    /// `Ctrl-F`: a page down.
    pub fn full_page_down(&mut self, viewport_height: usize)
        ensures
            final(self)@ == old(self)@.counted().down(
                max(viewport_height as int, 1),
                viewport_height as int,
            ),
    {
        self.pending.clear();
        let step: usize = if viewport_height > 1 { viewport_height } else { 1 };
        self.row_down(step);
        self.clamp_cursor_col();
        self.clamp_view(viewport_height);
    }

    /// `Ctrl-B`: a page up.
    pub fn full_page_up(&mut self, viewport_height: usize)
        ensures
            final(self)@ == old(self)@.counted().up(
                max(viewport_height as int, 1),
                viewport_height as int,
            ),
    {
        self.pending.clear();
        let step: usize = if viewport_height > 1 { viewport_height } else { 1 };
        self.cursor.row = self.cursor.row.saturating_sub(step);
        self.clamp_cursor_col();
        self.clamp_view(viewport_height);
    }

    /// Keeps the cursor in a column of the grid.
    fn clamp_cursor_col(&mut self)
        ensures
            final(self)@ == old(self)@.at_col(
                min(old(self).cursor.col as int, old(self)@.last_col()),
            ),
    {
        let last: usize = self.last_col();
        if self.cursor.col > last {
            self.cursor.col = last;
        }
    }

    /// Puts the cursor at a place and shows it.
    fn jump(&mut self, to: Option<Pos>, viewport_height: usize)
        ensures
            final(self)@ == old(self)@.jumped(to, viewport_height as int),
    {
        if let Some(p) = to {
            self.cursor = p;
            self.clamp_view(viewport_height);
        }
    }

    /// `w`: to the next beginning of a word.
    pub fn word_forward(&mut self, viewport_height: usize)
        ensures
            final(self)@ == old(self)@.counted().jumped(
                old(self).grid.next_begin(old(self).cursor),
                viewport_height as int,
            ),
    {
        self.pending.clear();
        let to: Option<Pos> = self.grid.find_next_begin(self.cursor);
        self.jump(to, viewport_height);
    }

    /// `b`: to the last beginning of a word.
    pub fn word_back(&mut self, viewport_height: usize)
        ensures
            final(self)@ == old(self)@.counted().jumped(
                old(self).grid.prev_begin(old(self).cursor),
                viewport_height as int,
            ),
    {
        self.pending.clear();
        let to: Option<Pos> = self.grid.find_prev_begin(self.cursor);
        self.jump(to, viewport_height);
    }

    /// `e`: to the next end of a word.
    pub fn word_end(&mut self, viewport_height: usize)
        ensures
            final(self)@ == old(self)@.counted().jumped(
                old(self).grid.next_stop(old(self).cursor),
                viewport_height as int,
            ),
    {
        self.pending.clear();
        let to: Option<Pos> = self.grid.find_next_stop(self.cursor);
        self.jump(to, viewport_height);
    }

    /// Begins, changes or ends a selection.
    pub fn set_selection(&mut self, kind: SelectionKind)
        ensures
            final(self)@ == old(self)@.selecting(kind),
    {
        match self.anchor {
            None => {
                self.anchor = Some(self.cursor);
                self.selection = kind;
            },
            Some(_) => {
                if self.selection == kind {
                    self.anchor = None;
                } else {
                    self.selection = kind;
                }
            },
        }
    }

    /// `v`: begins or ends a selection of characters.
    pub fn toggle_selection(&mut self)
        ensures
            final(self)@ == old(self)@.selecting(SelectionKind::Char),
    {
        self.set_selection(SelectionKind::Char);
    }

    /// `o`: swaps the ends of the selection.
    pub fn swap_ends(&mut self, viewport_height: usize)
        ensures
            final(self)@ == old(self)@.ends_swapped(viewport_height as int),
    {
        if let Some(anchor) = self.anchor {
            self.anchor = Some(self.cursor);
            self.cursor = anchor;
            self.clamp_view(viewport_height);
        }
    }

    /// Whether a place lies in the selection.
    pub fn in_selection(&self, pos: Pos) -> (r: bool)
        ensures
            r == self@.in_selection(pos),
    {
        let anchor: Pos = match self.anchor {
            Some(anchor) => anchor,
            None => {
                return false;
            },
        };
        let cursor: Pos = self.cursor;
        let r0: usize = if anchor.row < cursor.row { anchor.row } else { cursor.row };
        let r1: usize = if anchor.row < cursor.row { cursor.row } else { anchor.row };
        let c0: usize = if anchor.col < cursor.col { anchor.col } else { cursor.col };
        let c1: usize = if anchor.col < cursor.col { cursor.col } else { anchor.col };
        match self.selection {
            SelectionKind::Char => {
                let (s, e): (Pos, Pos) = Pos::ordered(anchor, cursor);
                !pos.is_before(s) && !e.is_before(pos)
            },
            SelectionKind::Line => r0 <= pos.row && pos.row <= r1,
            SelectionKind::Block => r0 <= pos.row && pos.row <= r1 && c0 <= pos.col && pos.col
                <= c1,
        }
    }

    /// The text of the selection, if there is one.
    pub fn extract_selection(&self) -> (text: Option<String>)
        ensures
            text is Some <==> self@.selected() is Some,
            text matches Some(t) ==> self@.selected() == Some(t@),
    {
        match self.anchor {
            Some(anchor) => Some(self.grid.selection_text(self.selection, anchor, self.cursor)),
            None => None,
        }
    }

    /// `/` and `?`: asks for a query.
    fn begin_search(&mut self, direction: Direction)
        ensures
            final(self)@ == old(self)@.asking(direction),
    {
        self.search_input = Some(SearchInput { query: String::new(), direction });
    }

    /// Searches for a query and goes to the next match.
    pub fn run_search(&mut self, query: String, direction: Direction, viewport_height: usize)
        ensures
            final(self)@ == old(self)@.searched(query@, direction, viewport_height as int),
    {
        if query.as_str().is_empty() {
            self.search = None;
            return;
        }
        let matches: Vec<Pos> = self.grid.find_matches(query.as_str());
        let to: Option<Pos> = next_match(&matches, self.cursor, direction == Direction::Forward);
        self.jump(to, viewport_height);
        self.search = Some(Search { query, direction, matches });
    }

    /// `n` and `N`: goes to the next match, the way the search goes or the other way.
    pub fn search_repeat(&mut self, same_direction: bool, viewport_height: usize)
        ensures
            final(self)@ == old(self)@.repeated(same_direction, viewport_height as int),
    {
        let to: Option<Pos> = match &self.search {
            Some(search) => {
                let direction: Direction = if same_direction {
                    search.direction
                } else {
                    search.direction.opposite()
                };
                next_match(&search.matches, self.cursor, direction == Direction::Forward)
            },
            None => None,
        };
        self.jump(to, viewport_height);
    }

    /// Whether a place lies in a match of the search.
    pub fn is_search_hit(&self, pos: Pos) -> (hit: bool)
        ensures
            hit == self@.search_hit(pos),
    {
        match &self.search {
            Some(search) => {
                let len: usize = search.query.as_str().unicode_len();
                let mut i: usize = 0;
                while i < search.matches.len()
                    invariant
                        self@.search == Some(search@),
                        len == search.query@.len(),
                        i <= search.matches@.len(),
                        forall|j: int|
                            0 <= j < i ==> !match_covers(
                                #[trigger] search.matches@[j],
                                len as int,
                                pos,
                            ),
                    decreases search.matches@.len() - i,
                {
                    let m: Pos = search.matches[i];
                    if m.row == pos.row && pos.col >= m.col && pos.col - m.col < len {
                        assert(match_covers(self@.search->0.matches[i as int], len as int, pos));
                        return true;
                    }
                    i += 1;
                }
                false
            },
            None => false,
        }
    }
}

/// A match of `len` characters covers a place.
pub open spec fn match_covers(m: Pos, len: int, pos: Pos) -> bool {
    m.row == pos.row && m.col <= pos.col < m.col + len
}

impl CopyView {
    /// A place lies in the selection.
    pub open spec fn in_selection(self, pos: Pos) -> bool {
        match self.anchor {
            Some(anchor) => covers(self.selection, anchor, self.cursor, pos),
            None => false,
        }
    }

    /// A place lies in a match of the search.
    pub open spec fn search_hit(self, pos: Pos) -> bool {
        match self.search {
            Some(s) => exists|i: int|
                0 <= i < s.matches.len() && match_covers(
                    #[trigger] s.matches[i],
                    s.query.len() as int,
                    pos,
                ),
            None => false,
        }
    }
}

// --- drawing ---------------------------------------------------------------

/// The colours of copy mode. Without a colour of its own a selection is shown reversed.
#[derive(Clone, Copy, Debug, PartialEq, Eq, Structural)]
pub struct CopyColors {
    pub cursor: Color,
    pub search: Color,
    pub selection: Option<Color>,
}

impl CopyView {
    /// How a cell is shown: matches stand out from their surroundings, the selection from
    /// the matches, and the cursor from all.
    pub open spec fn shown_style(self, colors: CopyColors, pos: Pos, style: Style) -> Style {
        let matched = if self.search_hit(pos) {
            Style { bg: Some(colors.search), fg: Some(Color::Black), ..style }
        } else {
            style
        };
        let selected = if self.in_selection(pos) {
            match colors.selection {
                Some(color) => Style { bg: Some(color), ..matched },
                None => Style { reversed: true, ..matched },
            }
        } else {
            matched
        };
        if pos == self.cursor {
            Style { bg: Some(colors.cursor), fg: Some(Color::Black), bold: true, ..plain_style() }
        } else {
            selected
        }
    }

    /// What stands in row `r` and column `c` of the viewport.
    pub open spec fn look(self, colors: CopyColors, r: int, c: int) -> Option<Look> {
        let row = self.view_offset + r;
        match self.grid.at(row, c) {
            Some(cell) => if cell.wide_continuation {
                None
            } else {
                Some(
                    (
                        cell.symbol,
                        self.shown_style(
                            colors,
                            Pos { row: row as usize, col: c as usize },
                            cell.style,
                        ),
                    ),
                )
            },
            None => None,
        }
    }
}

/// How a cell of copy mode is shown.
fn cell_style(state: &CopyState, colors: CopyColors, pos: Pos, style: Style) -> (shown: Style)
    ensures
        shown == state@.shown_style(colors, pos, style),
{
    let mut shown: Style = style;
    if state.is_search_hit(pos) {
        shown = shown.bg(colors.search).fg(Color::Black);
    }
    if state.in_selection(pos) {
        shown = match colors.selection {
            Some(color) => shown.bg(color),
            None => shown.reversed(),
        };
    }
    if pos == state.cursor {
        shown = Style::plain().bg(colors.cursor).fg(Color::Black).bold();
    }
    shown
}

/// The cells to draw for copy mode in an area: the rows from the top of the viewport on, as
/// far as grid and area reach.
pub fn render(state: &CopyState, area: Area, colors: CopyColors) -> (cells: Vec<DrawCell>)
    requires
        area.fits(),
    ensures
        draw_views(cells@) == painted(
            area,
            |r: int, c: int| state@.look(colors, r, c),
            min(area.width as int, state.grid.width as int),
            area.height as int,
        ),
{
    let width: u16 = if area.width < state.grid.width { area.width } else { state.grid.width };
    let height: usize = state.grid.height();
    let rows_left: usize = if state.view_offset < height { height - state.view_offset } else { 0 };
    let ghost look = |r: int, c: int| state@.look(colors, r, c);
    let mut cells: Vec<DrawCell> = Vec::new();
    let mut r: u16 = 0;
    assert(draw_views(cells@) =~= painted(area, look, width as int, 0));
    while r < area.height
        invariant
            area.fits(),
            width <= area.width,
            width <= state.grid.width,
            height == state.grid.rows@.len(),
            rows_left == if state.view_offset < height { height - state.view_offset } else { 0 },
            r <= area.height,
            look == (|r: int, c: int| state@.look(colors, r, c)),
            draw_views(cells@) == painted(area, look, width as int, r as int),
        decreases area.height - r,
    {
        let mut c: u16 = 0;
        assert(painted(area, look, width as int, r as int) + painted_row(area, look, r as int, 0)
            =~= draw_views(cells@));
        while c < width
            invariant
                area.fits(),
                width <= area.width,
                height == state.grid.rows@.len(),
                rows_left == if state.view_offset < height {
                    height - state.view_offset
                } else {
                    0
                },
                r < area.height,
                c <= width,
                look == (|r: int, c: int| state@.look(colors, r, c)),
                draw_views(cells@) == painted(area, look, width as int, r as int) + painted_row(
                    area,
                    look,
                    r as int,
                    c as int,
                ),
            decreases width - c,
        {
            let ghost before = cells@;
            assert(look(r as int, c as int) == state@.look(colors, r as int, c as int));
            if (r as usize) < rows_left {
                let pos: Pos = Pos { row: state.view_offset + r as usize, col: c as usize };
                if let Some(cell) = state.grid.cell(pos.row, pos.col) {
                    if !cell.wide_continuation {
                        let style: Style = cell_style(state, colors, pos, cell.style);
                        cells.push(
                            DrawCell {
                                x: area.x + c,
                                y: area.y + r,
                                symbol: cell.symbol.clone(),
                                style,
                            },
                        );
                        assert(draw_views(cells@) =~= draw_views(before).push(cells@.last()@));
                    }
                }
            }
            c += 1;
            assert(draw_views(cells@) =~= painted(area, look, width as int, r as int)
                + painted_row(area, look, r as int, c as int));
        }
        r += 1;
    }
    cells
}

} // verus!
