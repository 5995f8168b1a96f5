use lazyscript::copy_mode::{render, CopyColors, CopyOutcome, CopyState};
use lazyscript::draw::{Area, DrawCell};
use lazyscript::grid::{Grid, GridCell, Pos};
use lazyscript::keys::{KeyCode, KeyModifiers};
use lazyscript::screen::{snapshot, try_snapshot};
use lazyscript::search::{next_match, Direction};
use lazyscript::selection::SelectionKind;
use lazyscript::style::{Color, Style};

fn grid_from(lines: &[&str], width: u16) -> Grid {
    let rows = lines
        .iter()
        .map(|line| {
            let mut cells: Vec<GridCell> = line
                .chars()
                .map(|ch| GridCell {
                    symbol: ch.to_string(),
                    style: Style::plain(),
                    wide_continuation: false,
                })
                .collect();
            cells.resize(width as usize, GridCell::blank());
            cells
        })
        .collect();
    Grid { rows, width }
}

fn state_with(lines: &[&str], width: u16) -> CopyState {
    CopyState::new(grid_from(lines, width), lines.len())
}

fn press(state: &mut CopyState, keys: &str) {
    for c in keys.chars() {
        state.handle_key(KeyCode::Char(c), KeyModifiers::none(), 3);
    }
}

#[test]
fn snapshot_reads_scrollback_in_order() {
    let mut parser = vt100::Parser::new(2, 8, 100);
    parser.process(b"l0\r\nl1\r\nl2\r\nl3\r\nl4");
    let grid = snapshot(parser.screen_mut());
    assert_eq!(grid.height(), 5);
    let line = |r: usize| {
        grid.rows[r]
            .iter()
            .map(|c| c.symbol.as_str())
            .collect::<String>()
            .trim_end()
            .to_string()
    };
    assert_eq!(line(0), "l0");
    assert_eq!(line(4), "l4");
    assert_eq!(parser.screen().scrollback(), 0);
}

#[test]
fn starts_at_last_content_row() {
    let s = CopyState::new(grid_from(&["a", "b", "c", "", ""], 8), 2);
    assert_eq!(s.cursor, Pos { row: 2, col: 0 });
    assert!(s.view_offset <= 2 && 2 < s.view_offset + 2);
}

#[test]
fn char_selection_single_line() {
    let mut s = state_with(&["hello world"], 16);
    s.cursor = Pos { row: 0, col: 0 };
    s.toggle_selection();
    s.cursor = Pos { row: 0, col: 4 };
    assert_eq!(s.extract_selection().as_deref(), Some("hello"));
}

#[test]
fn char_selection_spans_rows_and_trims() {
    let mut s = state_with(&["abc", "defgh"], 16);
    s.cursor = Pos { row: 0, col: 1 };
    s.toggle_selection();
    s.cursor = Pos { row: 1, col: 2 };
    assert_eq!(s.extract_selection().as_deref(), Some("bc\ndef"));
}

#[test]
fn line_selection_takes_whole_lines() {
    let mut s = state_with(&["abc", "defgh", "ij"], 16);
    s.cursor = Pos { row: 0, col: 2 };
    s.set_selection(SelectionKind::Line);
    s.cursor = Pos { row: 1, col: 0 };
    assert_eq!(s.extract_selection().as_deref(), Some("abc\ndefgh"));
}

#[test]
fn block_selection_takes_column_range() {
    let mut s = state_with(&["abcd", "efgh", "ijkl"], 16);
    s.cursor = Pos { row: 0, col: 1 };
    s.set_selection(SelectionKind::Block);
    s.cursor = Pos { row: 2, col: 2 };
    assert_eq!(s.extract_selection().as_deref(), Some("bc\nfg\njk"));
}

#[test]
fn word_motions_move_between_words() {
    let mut s = state_with(&["foo bar baz"], 16);
    s.cursor = Pos { row: 0, col: 0 };
    s.word_forward(1);
    assert_eq!(s.cursor.col, 4);
    s.word_end(1);
    assert_eq!(s.cursor.col, 6);
    s.word_forward(1);
    assert_eq!(s.cursor.col, 8);
    s.word_back(1);
    assert_eq!(s.cursor.col, 4);
}

#[test]
fn swap_ends_swaps_anchor_and_cursor() {
    let mut s = state_with(&["abcdef"], 16);
    s.cursor = Pos { row: 0, col: 1 };
    s.toggle_selection();
    s.cursor = Pos { row: 0, col: 4 };
    s.swap_ends(1);
    assert_eq!(s.cursor, Pos { row: 0, col: 1 });
    assert_eq!(s.extract_selection().as_deref(), Some("bcde"));
}

#[test]
fn search_jumps_to_next_match() {
    let mut s = state_with(&["abc", "xabc", "abc"], 8);
    s.cursor = Pos { row: 0, col: 0 };
    s.run_search("abc".to_string(), Direction::Forward, 3);
    assert_eq!(s.cursor, Pos { row: 1, col: 1 });
    s.search_repeat(true, 3);
    assert_eq!(s.cursor, Pos { row: 2, col: 0 });
    s.search_repeat(true, 3);
    assert_eq!(s.cursor, Pos { row: 0, col: 0 });
    s.search_repeat(false, 3);
    assert_eq!(s.cursor, Pos { row: 2, col: 0 });
}

#[test]
fn search_is_case_insensitive() {
    let mut s = state_with(&["Hello"], 8);
    s.cursor = Pos { row: 0, col: 4 };
    s.run_search("hello".to_string(), Direction::Forward, 1);
    assert_eq!(s.cursor, Pos { row: 0, col: 0 });
}

#[test]
fn search_prompt_reflects_typing() {
    let mut s = state_with(&["abc"], 8);
    s.handle_key(KeyCode::Char('/'), KeyModifiers::none(), 1);
    s.handle_key(KeyCode::Char('a'), KeyModifiers::none(), 1);
    s.handle_key(KeyCode::Char('b'), KeyModifiers::none(), 1);
    assert_eq!(s.search_prompt().as_deref(), Some("/ab"));
    s.handle_key(KeyCode::Enter, KeyModifiers::none(), 1);
    assert_eq!(s.search_prompt(), None);
}

#[test]
fn esc_clears_selection_but_stays() {
    let mut s = state_with(&["abc"], 8);
    s.toggle_selection();
    assert!(s.anchor.is_some());
    let outcome = s.handle_key(KeyCode::Esc, KeyModifiers::none(), 1);
    assert!(matches!(outcome, CopyOutcome::Stay));
    assert!(s.anchor.is_none());
}

#[test]
fn q_quits_copy_mode() {
    let mut s = state_with(&["abc"], 8);
    let outcome = s.handle_key(KeyCode::Char('q'), KeyModifiers::none(), 1);
    assert!(matches!(outcome, CopyOutcome::Cancel));
}

#[test]
fn numeric_prefix_repeats_motion() {
    let mut s = state_with(&["0123456789"], 16);
    s.push_digit('3');
    s.move_right();
    assert_eq!(s.cursor.col, 3);
}

#[test]
fn y_and_enter_take_the_selection() {
    for code in [KeyCode::Char('y'), KeyCode::Enter] {
        let mut s = state_with(&["hello world"], 16);
        s.cursor = Pos { row: 0, col: 6 };
        s.toggle_selection();
        s.cursor = Pos { row: 0, col: 10 };
        match s.handle_key(code, KeyModifiers::none(), 1) {
            CopyOutcome::Yank(text) => assert_eq!(text, "world"),
            _ => panic!("nothing was taken"),
        }
    }
}

#[test]
fn y_without_a_selection_leaves() {
    let mut s = state_with(&["abc"], 8);
    let outcome = s.handle_key(KeyCode::Char('y'), KeyModifiers::none(), 1);
    assert!(matches!(outcome, CopyOutcome::Cancel));
}

#[test]
fn leading_zero_goes_to_the_line_start() {
    let mut s = state_with(&["0123456789abcdef"], 16);
    s.cursor = Pos { row: 0, col: 5 };
    press(&mut s, "0");
    assert_eq!(s.cursor.col, 0);
    press(&mut s, "10l");
    assert_eq!(s.cursor.col, 10);
    press(&mut s, "4h");
    assert_eq!(s.cursor.col, 6);
}

#[test]
fn huge_prefix_stops_at_the_edge() {
    let mut s = state_with(&["abc", "def"], 8);
    s.cursor = Pos { row: 0, col: 0 };
    press(&mut s, "18446744073709551615l");
    assert_eq!(s.cursor.col, 7);
    press(&mut s, "99999999999999999999999j");
    assert_eq!(s.cursor.row, 1);
}

#[test]
fn two_g_go_to_the_top() {
    let mut s = state_with(&["a", "b", "c", "d"], 4);
    assert_eq!(s.cursor.row, 3);
    press(&mut s, "g");
    assert_eq!(s.cursor.row, 3);
    press(&mut s, "g");
    assert_eq!(s.cursor.row, 0);
    press(&mut s, "G");
    assert_eq!(s.cursor.row, 3);
    press(&mut s, "gkg");
    assert_eq!(s.cursor.row, 2);
}

#[test]
fn line_end_is_the_last_content() {
    let mut s = state_with(&["ab cd", ""], 10);
    s.cursor = Pos { row: 0, col: 0 };
    press(&mut s, "$");
    assert_eq!(s.cursor.col, 4);
    press(&mut s, "^");
    assert_eq!(s.cursor.col, 0);
    s.cursor = Pos { row: 1, col: 3 };
    press(&mut s, "$");
    assert_eq!(s.cursor.col, 0);
}

#[test]
fn pages_move_and_keep_the_cursor_in_view() {
    let lines: Vec<String> = (0..20).map(|i| format!("l{i}")).collect();
    let refs: Vec<&str> = lines.iter().map(|l| l.as_str()).collect();
    let mut s = CopyState::new(grid_from(&refs, 8), 4);
    assert_eq!(s.cursor.row, 19);
    assert_eq!(s.view_offset, 16);
    s.handle_key(KeyCode::Char('u'), KeyModifiers::ctrl(), 4);
    assert_eq!(s.cursor.row, 17);
    s.handle_key(KeyCode::Char('b'), KeyModifiers::ctrl(), 4);
    assert_eq!(s.cursor.row, 13);
    assert_eq!(s.view_offset, 13);
    s.handle_key(KeyCode::Char('d'), KeyModifiers::ctrl(), 4);
    assert_eq!(s.cursor.row, 15);
    s.handle_key(KeyCode::Char('f'), KeyModifiers::ctrl(), 4);
    assert_eq!(s.cursor.row, 19);
    assert!(s.view_offset <= 19 && 19 < s.view_offset + 4);
}

#[test]
fn control_v_selects_a_block() {
    let mut s = state_with(&["abcd", "efgh"], 8);
    s.cursor = Pos { row: 0, col: 0 };
    s.handle_key(KeyCode::Char('v'), KeyModifiers::ctrl(), 2);
    s.cursor = Pos { row: 1, col: 1 };
    assert_eq!(s.extract_selection().as_deref(), Some("ab\nef"));
    s.handle_key(KeyCode::Char('V'), KeyModifiers::none(), 2);
    assert_eq!(s.extract_selection().as_deref(), Some("abcd\nefgh"));
    s.handle_key(KeyCode::Char('V'), KeyModifiers::none(), 2);
    assert_eq!(s.extract_selection(), None);
}

#[test]
fn typing_a_query_marks_matches_without_moving() {
    let mut s = state_with(&["abc", "xabc", "abc"], 8);
    s.cursor = Pos { row: 0, col: 0 };
    press(&mut s, "/ab");
    assert_eq!(s.cursor, Pos { row: 0, col: 0 });
    assert_eq!(s.search_count(), Some((1, 3)));
    s.handle_key(KeyCode::Backspace, KeyModifiers::none(), 3);
    s.handle_key(KeyCode::Backspace, KeyModifiers::none(), 3);
    assert_eq!(s.search_count(), None);
    assert_eq!(s.search_prompt().as_deref(), Some("/"));
    s.handle_key(KeyCode::Esc, KeyModifiers::none(), 3);
    assert_eq!(s.search_prompt(), None);
}

#[test]
fn matches_are_counted_from_one() {
    let mut s = state_with(&["aXa"], 8);
    s.cursor = Pos { row: 0, col: 0 };
    press(&mut s, "?A");
    s.handle_key(KeyCode::Enter, KeyModifiers::none(), 3);
    assert_eq!(s.cursor, Pos { row: 0, col: 2 });
    assert_eq!(s.search_count(), Some((2, 2)));
    assert_eq!(s.search_query(), Some("A"));
    s.cursor = Pos { row: 0, col: 1 };
    assert_eq!(s.search_count(), Some((0, 2)));
    assert!(s.is_search_hit(Pos { row: 0, col: 2 }));
    assert!(!s.is_search_hit(Pos { row: 0, col: 1 }));
}

#[test]
fn overlapping_matches_are_all_found() {
    let grid = grid_from(&["aaa"], 3);
    let found = grid.find_matches("aa");
    assert_eq!(found, [Pos { row: 0, col: 0 }, Pos { row: 0, col: 1 }]);
    assert!(grid.find_matches("").is_empty());
}

#[test]
fn next_match_goes_round() {
    let matches = vec![Pos { row: 0, col: 1 }, Pos { row: 2, col: 0 }];
    let last = Pos { row: 2, col: 0 };
    let first = Pos { row: 0, col: 1 };
    assert_eq!(next_match(&matches, last, true), Some(first));
    assert_eq!(next_match(&matches, first, false), Some(last));
    assert_eq!(next_match(&Vec::new(), first, true), None);
}

#[test]
fn lower_case_letters_of_other_scripts_match() {
    let grid = grid_from(&["ÄÖÜ"], 3);
    assert_eq!(grid.find_matches("öü"), [Pos { row: 0, col: 1 }]);
}

#[test]
fn wide_cells_are_taken_once() {
    let mut parser = vt100::Parser::new(1, 6, 0);
    parser.process("あb".as_bytes());
    let grid = snapshot(parser.screen_mut());
    assert!(grid.rows[0][1].wide_continuation);
    let mut s = CopyState::new(grid, 1);
    s.toggle_selection();
    s.cursor = Pos { row: 0, col: 2 };
    assert_eq!(s.extract_selection().as_deref(), Some("あb"));
}

#[test]
fn try_snapshot_reads_the_screen() {
    let mut parser = vt100::Parser::new(1, 4, 0);
    parser.process(b"ab");
    assert_eq!(try_snapshot(parser.screen_mut()).unwrap().height(), 1);
}

fn at(cells: &[DrawCell], x: u16, y: u16) -> &DrawCell {
    cells.iter().rev().find(|c| c.x == x && c.y == y).unwrap()
}

#[test]
fn drawing_marks_cursor_selection_and_hits() {
    let mut s = state_with(&["abcab"], 8);
    s.cursor = Pos { row: 0, col: 0 };
    press(&mut s, "/ab");
    s.handle_key(KeyCode::Enter, KeyModifiers::none(), 1);
    assert_eq!(s.cursor.col, 3);
    s.cursor = Pos { row: 0, col: 1 };
    s.toggle_selection();
    s.cursor = Pos { row: 0, col: 2 };
    let area = Area { x: 5, y: 7, width: 8, height: 2 };
    let colors = CopyColors { cursor: Color::Yellow, search: Color::Cyan, selection: None };
    let cells = render(&s, area, colors);
    assert_eq!(cells.len(), 8);
    assert_eq!(at(&cells, 5, 7).symbol, "a");
    assert_eq!(at(&cells, 5, 7).style, Style::plain().bg(Color::Cyan).fg(Color::Black));
    let both = Style::plain().bg(Color::Cyan).fg(Color::Black).reversed();
    assert_eq!(at(&cells, 6, 7).style, both);
    let cursor = Style::plain().bg(Color::Yellow).fg(Color::Black).bold();
    assert_eq!(at(&cells, 7, 7).style, cursor);
    assert_eq!(at(&cells, 10, 7).style, Style::plain());
    let colored = CopyColors { selection: Some(Color::Blue), ..colors };
    let cells = render(&s, area, colored);
    assert_eq!(at(&cells, 6, 7).style, Style::plain().bg(Color::Blue).fg(Color::Black));
}
