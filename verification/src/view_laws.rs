//! What is seen: the rows of the list, the output, the frozen output, and settings.

use vstd::math::{max, min};
use vstd::prelude::*;

use crate::app::{AppView, ModeView};
use crate::config::{default_config, ClipboardSink, RawConfig, Theme};
use crate::copy_mode::{match_number, view_showing, CopyColors, CopyView, SearchView};
use crate::draw::{painted, painted_row, Area, DrawView, Look};
use crate::edit::EditView;
use crate::event_laws::on_record;
use crate::grid::{Grid, Pos};
use crate::keys::{KeyCode, KeyModifiers};
use crate::lines::{law_cursor_keeps_the_text, spans_text, with_cursor, SpanView};
use crate::modals::{field_spans, label_style, source_text};
use crate::number::digits_of;
use crate::panes::{
    bar_style, border_of, copy_hint, cursor_look, list_focused, path_in, status_sign, status_words,
    BodyView,
};
use crate::proc_table::ScriptKeyView;
use crate::rows::RowView;
use crate::run_laws::begins;
use crate::runner::ProcStatus;
use crate::screen::{
    holds_screen, screen_lines, screen_offset, screen_size, window_look, VtView,
};
use crate::source::AD_HOC;
use crate::search::Direction;
use crate::style::{color_named, plain_style, Color, Style};
use crate::text::{is_space, trimmed_end};
use crate::text_input::TextView;
use crate::yank_laws::{comes_before, lies_in, only_moved};

verus! {

// --- the list -------------------------------------------------------------------------

/// The text of a row is that of its pieces, one after the other.
proof fn lemma_spans_push(spans: Seq<SpanView>, last: SpanView)
    ensures
        spans_text(spans.push(last)) == spans_text(spans) + last.text,
{
    assert(spans.push(last).drop_last() =~= spans);
}

proof fn lemma_two(a: SpanView, b: SpanView)
    ensures
        spans_text(seq![a, b]) == a.text + b.text,
{
    let none = Seq::<SpanView>::empty();
    lemma_spans_push(none, a);
    lemma_spans_push(none.push(a), b);
    assert(seq![a, b] =~= none.push(a).push(b));
    assert(spans_text(none) =~= Seq::empty());
    assert(Seq::<char>::empty() + a.text =~= a.text);
}

/// What is said of how a script's process stands: a dot while it runs, a tick when it
/// ended well, a cross in every other case; nothing where there is no process.
pub proof fn law_signs_of_a_process(theme: Theme, status: ProcStatus)
    ensures
        status_sign(None, theme) is None,
        status_sign(Some(status), theme) == Some(
            if status == ProcStatus::Running {
                ("●"@, theme.running)
            } else if status == ProcStatus::Exited(0) {
                ("✓"@, theme.running)
            } else {
                ("✗"@, theme.failed)
            },
        ),
        status == ProcStatus::Running <==> status_words(status) == "running"@,
        status == ProcStatus::Exited(0) <==> status_words(status) == "exited"@,
{
    reveal_strlit("running");
    reveal_strlit("exited");
    reveal_strlit("failed");
    reveal_strlit("failed (");
    reveal_strlit(")");
    assert("running"@[0] == 'r');
    assert("exited"@[0] == 'e');
    assert("failed"@[0] == 'f');
    assert("failed ("@[0] == 'f');
    if let ProcStatus::Exited(n) = status {
        if n != 0 {
            assert(status_words(status)[0] == 'f');
        }
    }
}

/// A script's row shows its name, and behind it the sign of the process that is on record
/// for it, in the colour of that sign.
pub proof fn law_row_of_a_script(app: AppView, i: int)
    requires
        0 <= i < app.rows.len(),
        app.rows[i] is Script,
    ensures
        ({
            let row = app.rows[i];
            let key = ScriptKeyView {
                dir_index: row->Script_dir_index,
                source: row->Script_source,
                name: row->Script_name,
            };
            let spans = app.row_line(i).spans;
            let words = (if key.source == AD_HOC@ {
                "  "@
            } else {
                "    "@
            }) + key.name;
            match on_record(app, key) {
                None => spans_text(spans) == words,
                Some((_, status)) => {
                    let (sign, color) = status_sign(Some(status), app.config.theme)->0;
                    &&& spans_text(spans) == words + " "@ + sign
                    &&& spans.last().text == sign
                    &&& spans.last().style == (Style { fg: Some(color), ..plain_style() })
                },
            }
        }),
{
    let spans = app.row_line(i).spans;
    let two = seq![spans[0], spans[1]];
    lemma_two(spans[0], spans[1]);
    if spans.len() == 2 {
        assert(spans =~= two);
    } else {
        lemma_spans_push(two, spans[2]);
        lemma_spans_push(two.push(spans[2]), spans[3]);
        assert(spans =~= two.push(spans[2]).push(spans[3]));
    }
}

/// A heading shows whether it is folded up, and what it is the heading of.
pub proof fn law_row_of_a_heading(app: AppView, i: int)
    requires
        0 <= i < app.rows.len(),
    ensures
        app.rows[i] matches RowView::DirHeader { label, collapsed, .. } ==> spans_text(
            app.row_line(i).spans,
        ) == (if collapsed {
            "▸ "@
        } else {
            "▾ "@
        }) + label,
        app.rows[i] matches RowView::SourceHeader { source, label, collapsed, .. } ==> spans_text(
            app.row_line(i).spans,
        ) == (if source == AD_HOC@ {
            ""@
        } else {
            "  "@
        }) + (if collapsed {
            "▸ "@
        } else {
            "▾ "@
        }) + label,
{
    let spans = app.row_line(i).spans;
    if !(app.rows[i] is Script) {
        let two = seq![spans[0], spans[1]];
        lemma_two(spans[0], spans[1]);
        if spans.len() == 2 {
            assert(spans =~= two);
        } else {
            lemma_spans_push(two, spans[2]);
            assert(spans =~= two.push(spans[2]));
        }
    }
}

/// The selected row stands out from the others, and no other row does.
pub proof fn law_selected_row_stands_out(app: AppView, i: int)
    ensures
        i != app.selected ==> app.row_line(i).style == plain_style(),
        i == app.selected ==> app.row_line(i).style != plain_style(),
        i == app.selected ==> match app.config.theme.selection {
            Some(color) => app.row_line(i).style.bg == Some(color),
            None => app.row_line(i).style.reversed,
        },
{
}

/// The rows that are drawn are those from some row on, as many as there is room for, and
/// from the first one where the selected row allows it.
pub proof fn law_rows_that_are_drawn(app: AppView, height: int)
    requires
        app.selection_inside(),
        height > 0,
    ensures
        ({
            let first = app.first_drawn(height);
            &&& first == max(app.selected - height + 1, 0)
            &&& app.drawn(height).len() == min(height, app.rows.len() - first)
            &&& forall|k: int|
                0 <= k < app.drawn(height).len() ==> #[trigger] app.drawn(height)[k]
                    == app.row_line(first + k)
        }),
{
}

// --- the panes beside it --------------------------------------------------------------

/// The box above the output says what the selected row is: a script's command, with its
/// directory and its file; a source's file, with its directory; or a directory.
pub proof fn law_box_above_the_output(app: AppView, paths: Seq<Seq<char>>)
    ensures
        ({
            let (title, body) = app.command_box(paths);
            let dirs = app.registry.directories.len();
            &&& app.row() matches Some(RowView::Script { dir_index, source, .. }) ==> (
            app.selected_script() matches Some((_, script)) ==> (0 <= dir_index < dirs ==> title
                == " Dir: "@ + path_in(paths, dir_index) + " File: "@ + source + " "@ && body
                == "Command: "@ + script.command))
            &&& app.row() matches Some(RowView::SourceHeader { dir_index, source, .. }) ==> (0
                <= dir_index < dirs ==> title == " Dir: "@ + path_in(paths, dir_index) + " "@
                && body == "File: "@ + source)
            &&& app.row() matches Some(RowView::DirHeader { dir_index, .. }) ==> (0 <= dir_index
                < dirs ==> title.len() == 0 && body == "Dir: "@ + path_in(paths, dir_index))
            &&& app.row() is None ==> title == " Command "@ && body.len() == 0
            &&& forall|d: int| 0 <= d < paths.len() ==> #[trigger] path_in(paths, d) == paths[d]
        }),
{
}

/// The output shows the process that is on record for the selected script, whether that
/// runs or has ended; where there is none, what went wrong last. While text is copied it
/// shows what was frozen.
pub proof fn law_what_the_output_shows(app: AppView)
    ensures
        app.mode is Copy <==> app.output_body() == BodyView::Copy,
        !(app.mode is Copy) ==> {
            let record = match app.selected_script() {
                Some((dir_index, script)) => on_record(
                    app,
                    ScriptKeyView { dir_index, source: script.source, name: script.name },
                ),
                None => None,
            };
            &&& record matches Some((id, _)) ==> app.output_body() == BodyView::Screen(id)
            &&& record is None ==> (app.output_body() matches BodyView::Message(text) && (
            app.error matches Some(error) ==> text == error))
        },
{
}

/// While text is copied, the place of the cursor is told as the number of its line among
/// all lines, counted from 1.
pub proof fn law_place_of_the_cursor(app: AppView)
    ensures
        app.mode matches ModeView::Copy(v) ==> app.output_position() == Some(
            " "@ + digits_of(v.cursor.row + 1) + "/"@ + digits_of(v.grid.rows@.len() as int)
                + " "@,
        ),
        !(app.mode is Copy) ==> app.output_position() is None,
{
}

/// The number of a match is its place among all matches, counted from 1; 0 where the
/// cursor is on none.
pub proof fn law_number_of_a_match(matches: Seq<Pos>, pos: Pos, k: int)
    requires
        0 <= k <= matches.len(),
    ensures
        ({
            let n = match_number(matches, pos, k);
            &&& n == 0 <==> forall|i: int| k <= i < matches.len() ==> #[trigger] matches[i] != pos
            &&& n != 0 ==> k < n <= matches.len() && matches[n - 1] == pos && forall|i: int|
                k <= i < n - 1 ==> #[trigger] matches[i] != pos
        }),
    decreases matches.len() - k,
{
    if k < matches.len() {
        law_number_of_a_match(matches, pos, k + 1);
        assert(matches[k] == matches[k]);
    }
}

/// A text with a cursor shows the cursor on the character that it stands at, or on a
/// blank behind the last one, and nowhere else.
pub proof fn law_where_the_cursor_is_shown(
    text: Seq<char>,
    cursor: int,
    base: Style,
    marked: Style,
)
    requires
        0 <= cursor <= text.len(),
    ensures
        ({
            let spans = with_cursor(text, cursor, base, marked);
            &&& 2 <= spans.len() <= 3
            &&& spans[0] == (SpanView { text: text.take(cursor), style: base })
            &&& spans[1].style == marked && spans[1].text.len() == 1
            &&& cursor < text.len() ==> spans[1].text[0] == text[cursor]
            &&& cursor == text.len() ==> spans[1].text[0] == ' '
            &&& spans.len() == 3 ==> spans[2].style == base && spans[2].text == text.skip(
                cursor + 1,
            )
            &&& cursor + 1 < text.len() ==> spans.len() == 3
        }),
{
}

// --- settings -------------------------------------------------------------------------

/// What a settings file says counts, item by item; what it leaves out, or what cannot be
/// read as a colour, is as without a file.
pub proof fn law_settings(raw: RawConfig)
    ensures
        ({
            let config = raw.config();
            let d = default_config();
            &&& named_or(raw.theme.cursor, d.theme.cursor, config.theme.cursor)
            &&& named_or(raw.theme.search, d.theme.search, config.theme.search)
            &&& named_or(raw.theme.running, d.theme.running, config.theme.running)
            &&& named_or(raw.theme.failed, d.theme.failed, config.theme.failed)
            &&& named_or(raw.theme.focus, d.theme.focus, config.theme.focus)
            &&& raw.theme.selection is None ==> config.theme.selection is None
            &&& raw.theme.selection matches Some(text) ==> config.theme.selection == color_named(
                text@,
            )
            &&& raw.scrollback matches Some(n) ==> (n > 0 ==> config.scrollback == n)
            &&& raw.scrollback is None || raw.scrollback == Some(0usize) ==> config.scrollback
                == 10000
            &&& config.clipboard == ClipboardSink::System <==> (raw.clipboard matches Some(text)
                && text@ == "system"@)
            &&& config.clipboard == ClipboardSink::Osc52 <==> (raw.clipboard matches Some(text)
                && text@ == "osc52"@)
        }),
{
    reveal_strlit("system");
    reveal_strlit("osc52");
    assert("system"@[0] == 's');
    assert("osc52"@[0] == 'o');
}

/// A colour is the one that a text names, or else the one without a file.
pub open spec fn named_or(value: Option<String>, without: Color, color: Color) -> bool {
    match value {
        Some(text) => match color_named(text@) {
            Some(named) => color == named,
            None => color == without,
        },
        None => color == without,
    }
}

/// The settings without a file: yellow, cyan, green and red, both ways of copying, and ten
/// thousand lines.
pub proof fn law_settings_without_a_file()
    ensures
        ({
            let d = default_config();
            &&& d.theme.cursor == Color::Yellow && d.theme.search == Color::Cyan
            &&& d.theme.running == Color::Green && d.theme.failed == Color::Red
            &&& d.theme.focus == Color::Cyan && d.theme.selection is None
            &&& d.clipboard == ClipboardSink::Both && d.scrollback == 10000
        }),
{
}

// --- the frozen output ----------------------------------------------------------------

/// Each cell that is seen is the one of the frozen output at that place below the top of
/// what is in view. The cursor stands out from all; what is selected stands out from the
/// matches, and these from the rest.
pub proof fn law_what_is_seen_of_the_frozen_output(
    v: CopyView,
    colors: CopyColors,
    r: int,
    c: int,
)
    requires
        0 <= r,
        0 <= c,
        0 <= v.view_offset,
        v.view_offset + r < v.grid.rows@.len(),
        c < v.grid.rows@[v.view_offset + r]@.len(),
    ensures
        ({
            let row = v.view_offset + r;
            let cell = v.grid.rows@[row]@[c];
            let at_cursor = v.cursor.row == row && v.cursor.col == c;
            let selected = v.anchor matches Some(a) && lies_in(v.selection, a, v.cursor, row, c);
            let hit = v.search matches Some(s) && exists|i: int|
                0 <= i < s.matches.len() && (#[trigger] s.matches[i]).row == row
                    && s.matches[i].col <= c < s.matches[i].col + s.query.len();
            let seen = v.look(colors, r, c);
            &&& cell.wide_continuation ==> seen is None
            &&& !cell.wide_continuation ==> {
                &&& seen matches Some((symbol, style))
                &&& symbol == cell.symbol@
                &&& at_cursor ==> style.bg == Some(colors.cursor) && style.fg == Some(
                    Color::Black,
                ) && style.bold && !style.reversed
                &&& !at_cursor && selected ==> match colors.selection {
                    Some(color) => style.bg == Some(color),
                    None => style.reversed,
                }
                &&& !at_cursor && hit && (!selected || colors.selection is None) ==> style.bg
                    == Some(colors.search)
                &&& !at_cursor && hit ==> style.fg == Some(Color::Black)
                &&& !at_cursor && !hit ==> style.fg == cell.style.fg
                &&& !at_cursor && !(selected && colors.selection is None) ==> style.reversed
                    == cell.style.reversed
                &&& !at_cursor && !hit && (!selected || colors.selection is None) ==> style.bg
                    == cell.style.bg
                &&& !at_cursor ==> style == (Style {
                    fg: style.fg,
                    bg: style.bg,
                    reversed: style.reversed,
                    ..cell.style
                })
            }
        }),
{
    let row = v.view_offset + r;
    assert(v.grid.rows.len() == v.grid.rows@.len());
    assert(v.grid.rows@[row].len() == v.grid.rows@[row]@.len());
    let pos = Pos { row: row as usize, col: c as usize };
    assert(v.grid.at(row, c) == Some(v.grid.rows@[row]@[c]@));
    if let Some(s) = v.search {
        assert(v.search_hit(pos) <==> exists|i: int|
            0 <= i < s.matches.len() && (#[trigger] s.matches[i]).row == row && s.matches[i].col
                <= c < s.matches[i].col + s.query.len()) by {
            if v.search_hit(pos) {
                let i = choose|i: int|
                    0 <= i < s.matches.len() && crate::copy_mode::match_covers(
                        #[trigger] s.matches[i],
                        s.query.len() as int,
                        pos,
                    );
                assert(s.matches[i].row == row);
            }
            if exists|i: int|
                0 <= i < s.matches.len() && (#[trigger] s.matches[i]).row == row
                    && s.matches[i].col <= c < s.matches[i].col + s.query.len() {
                let i = choose|i: int|
                    0 <= i < s.matches.len() && (#[trigger] s.matches[i]).row == row
                        && s.matches[i].col <= c < s.matches[i].col + s.query.len();
                assert(crate::copy_mode::match_covers(
                    s.matches[i],
                    s.query.len() as int,
                    pos,
                ));
            }
        }
    }
    if let Some(a) = v.anchor {
        crate::yank_laws::law_what_a_selection_covers(v.selection, a, v.cursor, pos);
    }
}

/// Copy mode starts with the cursor at the beginning of the last row that shows something,
/// with nothing selected and nothing searched for, and with the end of the output in view
/// as far as the cursor allows.
pub proof fn law_how_copy_mode_starts(grid: Grid, viewport: int)
    requires
        grid.rectangular(),
        0 <= viewport,
    ensures
        ({
            let v = CopyView::opened(grid, viewport);
            let h = max(viewport, 1);
            &&& v.grid == grid
            &&& v.cursor.col == 0 && grid.is_last_inked_row(v.cursor.row as int)
            &&& v.anchor is None && v.search is None && v.search_input is None
            &&& v.pending.len() == 0 && !v.awaiting_g
            &&& v.view_offset == min(v.cursor.row as int, max(grid.rows@.len() - h, 0))
        }),
{
    assert(grid.rows.len() == grid.rows@.len());
    grid.lemma_last_inked_row();
}

/// What is in view moves no further than the cursor asks for: not at all where the row is
/// in view, else so far that it is the first or the last row in view.
pub proof fn law_view_moves_no_further_than_needed(row: int, offset: int, height: int, h: int)
    requires
        0 <= row < height,
        0 <= offset <= max(height - h, 0),
        h >= 1,
    ensures
        ({
            let moved = view_showing(row, offset, height, h);
            &&& offset <= row < offset + h ==> moved == offset
            &&& row < offset ==> moved == row
            &&& row >= offset + h ==> moved == row + 1 - h
            &&& moved <= row < moved + h
        }),
{
}

/// The cell at a place is part of a word: it is not blank, or the second half of a wide
/// character.
pub open spec fn word_cell(grid: Grid, row: int, col: int) -> bool {
    &&& 0 <= row < grid.rows@.len()
    &&& 0 <= col < grid.rows@[row]@.len()
    &&& grid.rows@[row]@[col].wide_continuation || exists|i: int|
        0 <= i < grid.rows@[row]@[col].symbol@.len() && !is_space(
            #[trigger] grid.rows@[row]@[col].symbol@[i],
        )
}

/// A word begins at a place: the cell in front of it is part of none.
pub open spec fn begins_word(grid: Grid, p: Pos) -> bool {
    word_cell(grid, p.row as int, p.col as int) && !word_cell(grid, p.row as int, p.col - 1)
}

/// A word ends at a place: the cell behind it is part of none.
pub open spec fn ends_word(grid: Grid, p: Pos) -> bool {
    word_cell(grid, p.row as int, p.col as int) && !word_cell(grid, p.row as int, p.col + 1)
}

proof fn lemma_word_cell(grid: Grid, row: int, col: int)
    requires
        grid.rectangular(),
    ensures
        word_cell(grid, row, col) == grid.word_at(row, col),
{
    if 0 <= row < grid.rows@.len() {
        assert(grid.rows@[row]@.len() == grid.width);
    }
}

/// `w` goes to the next beginning of a word, `b` to the last one in front of the cursor,
/// and `e` to the next end of a word; where there is none they stay.
pub proof fn law_words(v: CopyView, viewport: int)
    requires
        v.search_input is None,
        v.grid.rectangular(),
    ensures
        ({
            let none = KeyModifiers { control: false };
            let w = v.key(KeyCode::Char('w'), none, viewport);
            let b = v.key(KeyCode::Char('b'), none, viewport);
            let e = v.key(KeyCode::Char('e'), none, viewport);
            let (g, cur) = (v.grid, v.cursor);
            &&& w.cursor == cur && (forall|q: Pos| #[trigger]
                begins_word(g, q) ==> !comes_before(cur, q)) || begins_word(g, w.cursor)
                && comes_before(cur, w.cursor) && (forall|q: Pos| #[trigger]
                begins_word(g, q) && comes_before(cur, q) ==> !comes_before(q, w.cursor))
            &&& b.cursor == cur && (forall|q: Pos| #[trigger]
                begins_word(g, q) ==> !comes_before(q, cur)) || begins_word(g, b.cursor)
                && comes_before(b.cursor, cur) && (forall|q: Pos| #[trigger]
                begins_word(g, q) && comes_before(q, cur) ==> !comes_before(b.cursor, q))
            &&& e.cursor == cur && (forall|q: Pos| #[trigger]
                ends_word(g, q) ==> !comes_before(cur, q)) || ends_word(g, e.cursor)
                && comes_before(cur, e.cursor) && (forall|q: Pos| #[trigger]
                ends_word(g, q) && comes_before(cur, q) ==> !comes_before(q, e.cursor))
            &&& only_moved(v, w) && only_moved(v, b) && only_moved(v, e)
        }),
{
    let (g, cur) = (v.grid, v.cursor);
    assert forall|q: Pos|
        #![trigger begins_word(g, q)]
        #![trigger g.word_begins(q)]
        begins_word(g, q) == g.word_begins(q) by {
        lemma_word_cell(g, q.row as int, q.col as int);
        lemma_word_cell(g, q.row as int, q.col - 1);
    }
    assert forall|q: Pos|
        #![trigger ends_word(g, q)]
        #![trigger g.word_stops(q)]
        ends_word(g, q) == g.word_stops(q) by {
        lemma_word_cell(g, q.row as int, q.col as int);
        lemma_word_cell(g, q.row as int, q.col + 1);
    }
    lemma_word_motions(g, cur);
}

proof fn lemma_word_motions(g: Grid, cur: Pos)
    ensures
        g.next_begin(cur) matches Some(p) ==> g.is_next_begin(cur, p),
        g.prev_begin(cur) matches Some(p) ==> g.is_prev_begin(cur, p),
        g.next_stop(cur) matches Some(p) ==> g.is_next_stop(cur, p),
{
    if g.next_begin(cur) is Some {
        let p = choose|p: Pos| #[trigger] g.word_begins(p) && cur.before(p);
        g.lemma_next_begin_exists(cur, p);
    }
    if g.prev_begin(cur) is Some {
        let p = choose|p: Pos| #[trigger] g.word_begins(p) && p.before(cur);
        g.lemma_prev_begin_exists(cur, p);
    }
    if g.next_stop(cur) is Some {
        let p = choose|p: Pos| #[trigger] g.word_stops(p) && cur.before(p);
        g.lemma_next_stop_exists(cur, p);
    }
}

// --- the screen -----------------------------------------------------------------------

/// What stands at a place of the window of a screen, and what is frozen of it: the text of
/// the cell, or a blank where it has none, in its colours and with its marks.
pub proof fn law_what_is_taken_of_a_cell(cell: VtView)
    ensures
        cell.frozen().symbol == if cell.contents.len() > 0 {
            cell.contents
        } else {
            seq![' ']
        },
        cell.frozen().wide_continuation == cell.wide_continuation,
        cell.frozen().style.bold == cell.bold,
        cell.frozen().style.dim == cell.dim,
        cell.frozen().style.italic == cell.italic,
        cell.frozen().style.underlined == cell.underline,
        cell.frozen().style.reversed == cell.inverse,
        cell.frozen().style.fg == Some(cell.fg.shown()),
        cell.frozen().style.bg == Some(cell.bg.shown()),
{
}

/// A frozen grid has a row for each line that the screen keeps, the oldest first, as wide
/// as the screen, and in it the cells of that line, with blanks behind its end.
pub proof fn law_what_is_frozen(grid: Grid, screen: vt100::Screen, line: int, col: int)
    ensures
        holds_screen(grid, screen) ==> {
            let lines = screen_lines(screen);
            &&& grid.rows@.len() == lines.len()
            &&& grid.width == screen_size(screen).1
            &&& grid.rectangular()
            &&& 0 <= line < lines.len() && 0 <= col < grid.width ==> {
                let cell = grid.rows@[line]@[col]@;
                if col < lines[line].len() {
                    cell == lines[line][col].frozen()
                } else {
                    cell.symbol == seq![' '] && !cell.wide_continuation && cell.style
                        == plain_style()
                }
            }
        },
{
    if holds_screen(grid, screen) && 0 <= line < screen_lines(screen).len() {
        let cells = grid.rows@[line]@;
        assert(crate::screen::holds_line(cells, screen, line));
        if 0 <= col < grid.width {
            assert(cells[col]@ == crate::screen::frozen_at(screen, line, col));
        }
    }
}

/// The output of a process shows the window of its screen: the last lines, or those above
/// them where it is scrolled up.
pub proof fn law_what_is_seen_of_a_screen(screen: vt100::Screen, row: int, col: int)
    ensures
        ({
            let lines = screen_lines(screen);
            let line = lines.len() - screen_size(screen).0 - screen_offset(screen) + row;
            0 <= row < screen_size(screen).0 && 0 <= col < lines[line].len() ==> {
                let cell = lines[line][col];
                window_look(screen, row, col) == if cell.wide_continuation {
                    None
                } else {
                    Some((cell.frozen().symbol, cell.frozen().style))
                }
            }
        }),
{
}

/// What is drawn: each place at which something is to be seen is drawn once at that place
/// of the area, and nothing else is drawn.
pub proof fn law_what_is_drawn(
    area: Area,
    look: spec_fn(int, int) -> Option<Look>,
    width: int,
    height: int,
    cell: DrawView,
)
    ensures
        painted(area, look, width, height).contains(cell) <==> exists|r: int, c: int| #[trigger]
            drawn_at(area, look, r, c, cell) && r < height && c < width,
    decreases height,
{
    if height > 0 {
        law_what_is_drawn(area, look, width, height - 1, cell);
        lemma_row_drawn(area, look, height - 1, width, cell);
        let front = painted(area, look, width, height - 1);
        let back = painted_row(area, look, height - 1, width);
        let all = painted(area, look, width, height);
        if front.contains(cell) {
            let i = choose|i: int| 0 <= i < front.len() && front[i] == cell;
            assert(all[i] == cell);
        }
        if back.contains(cell) {
            let i = choose|i: int| 0 <= i < back.len() && back[i] == cell;
            assert(all[front.len() + i] == cell);
            let c = choose|c: int| #[trigger]
                drawn_at(area, look, height - 1, c, cell) && c < width;
            assert(drawn_at(area, look, height - 1, c, cell));
        }
        if all.contains(cell) {
            let i = choose|i: int| 0 <= i < all.len() && all[i] == cell;
            if i < front.len() {
                assert(front[i] == cell);
            } else {
                assert(back[i - front.len()] == cell);
            }
        }
        if exists|r: int, c: int| #[trigger]
            drawn_at(area, look, r, c, cell) && r < height && c < width {
            let (r, c) = choose|r: int, c: int| #[trigger]
                drawn_at(area, look, r, c, cell) && r < height && c < width;
            if r == height - 1 {
                assert(back.contains(cell));
            } else {
                assert(front.contains(cell));
            }
        }
    }
}

/// A cell is what is to be seen in row `r` and column `c` of an area.
pub open spec fn drawn_at(
    area: Area,
    look: spec_fn(int, int) -> Option<Look>,
    r: int,
    c: int,
    cell: DrawView,
) -> bool {
    &&& 0 <= r && 0 <= c
    &&& look(r, c) == Some((cell.symbol, cell.style))
    &&& cell.x == area.x + c && cell.y == area.y + r
}

proof fn lemma_row_drawn(
    area: Area,
    look: spec_fn(int, int) -> Option<Look>,
    r: int,
    n: int,
    cell: DrawView,
)
    requires
        0 <= r,
    ensures
        painted_row(area, look, r, n).contains(cell) <==> exists|c: int| #[trigger]
            drawn_at(area, look, r, c, cell) && c < n,
    decreases n,
{
    if n > 0 {
        lemma_row_drawn(area, look, r, n - 1, cell);
        let front = painted_row(area, look, r, n - 1);
        let all = painted_row(area, look, r, n);
        if front.contains(cell) {
            let i = choose|i: int| 0 <= i < front.len() && front[i] == cell;
            assert(all[i] == cell);
        }
        if drawn_at(area, look, r, n - 1, cell) {
            assert(all[front.len() as int] == cell);
        }
        if all.contains(cell) {
            let i = choose|i: int| 0 <= i < all.len() && all[i] == cell;
            if i < front.len() {
                assert(front[i] == cell);
            } else {
                assert(drawn_at(area, look, r, n - 1, cell));
            }
        }
    }
}

// --- dialogs and titles ---------------------------------------------------------------

/// The text of pieces that are put together is their texts put together.
proof fn lemma_spans_concat(a: Seq<SpanView>, b: Seq<SpanView>)
    ensures
        spans_text(a + b) == spans_text(a) + spans_text(b),
    decreases b.len(),
{
    if b.len() == 0 {
        assert(a + b =~= a);
        assert(spans_text(a) + spans_text(b) =~= spans_text(a));
    } else {
        assert((a + b).drop_last() =~= a + b.drop_last());
        lemma_spans_concat(a, b.drop_last());
        assert(spans_text(a + b) =~= spans_text(a) + spans_text(b));
    }
}

proof fn lemma_one_span(a: SpanView)
    ensures
        spans_text(seq![a]) == a.text,
{
    assert(seq![a].drop_last() =~= Seq::empty());
    assert(spans_text(Seq::empty()) =~= Seq::<char>::empty());
    assert(Seq::<char>::empty() + a.text =~= a.text);
}

/// A field of a dialog shows its label and its text, with a blank behind it for the cursor
/// where that stands there.
pub proof fn law_text_of_a_field(label: Seq<char>, input: TextView, active: bool, theme: Theme)
    requires
        input.valid(),
    ensures
        spans_text(field_spans(label, input, active, theme)) == label + " "@ + if active
            && input.cursor == input.text.len() {
            input.text.push(' ')
        } else {
            input.text
        },
{
    let head = SpanView { text: label + " "@, style: label_style() };
    lemma_one_span(head);
    if active {
        let typed = with_cursor(input.text, input.cursor, plain_style(), cursor_look(theme));
        lemma_spans_concat(seq![head], typed);
        law_cursor_keeps_the_text(input.text, input.cursor, plain_style(), cursor_look(theme));
    } else {
        let text = SpanView { text: input.text, style: plain_style() };
        lemma_one_span(text);
        lemma_spans_concat(seq![head], seq![text]);
    }
}

/// The dialog says which file a script is written to: the path of the directory and the
/// name of the file.
pub proof fn law_dialog_names_its_file(state: EditView, paths: Seq<Seq<char>>, dirs: int)
    ensures
        0 <= state.dir_index < dirs && state.dir_index < paths.len() ==> source_text(
            state,
            paths,
            dirs,
        ) == "Source:  "@ + paths[state.dir_index] + "/"@ + state.source,
{
}

/// The bar shows the filter while it is typed.
pub proof fn law_bar_shows_the_filter(app: AppView)
    requires
        app.filtering,
        app.filter.valid(),
    ensures
        spans_text(app.bar().spans) == " filter: "@ + (if app.filter.cursor
            == app.filter.text.len() {
            app.filter.text.push(' ')
        } else {
            app.filter.text
        }) + "   (Enter: keep   Esc: clear) "@,
{
    let head = SpanView { text: " filter: "@, style: bar_style() };
    let tail = SpanView { text: "   (Enter: keep   Esc: clear) "@, style: bar_style() };
    let typed = with_cursor(
        app.filter.text,
        app.filter.cursor,
        bar_style(),
        cursor_look(app.config.theme),
    );
    lemma_one_span(head);
    lemma_one_span(tail);
    lemma_spans_concat(seq![head], typed);
    lemma_spans_concat(seq![head] + typed, seq![tail]);
    law_cursor_keeps_the_text(
        app.filter.text,
        app.filter.cursor,
        bar_style(),
        cursor_look(app.config.theme),
    );
    assert(app.bar().spans =~= seq![head] + typed + seq![tail]);
}

/// The title of the output names the script whose process is shown, and says how that
/// stands.
pub proof fn law_title_of_the_output(app: AppView)
    ensures
        !(app.mode is Copy) ==> (app.focused() matches Some((_, process)) ==> app.output_title()
            == " Output: "@ + process.script + " ["@ + status_words(process.status) + "]"@),
{
    if let Some((_, process)) = app.focused() {
        if !(app.mode is Copy) {
            reveal_strlit("] ");
            reveal_strlit("]");
            reveal_strlit("");
            let whole = " Output: "@ + process.script + " ["@ + status_words(process.status)
                + "] "@;
            let cut = " Output: "@ + process.script + " ["@ + status_words(process.status)
                + "]"@;
            assert(whole.drop_last() =~= cut);
            assert(whole.last() == ' ');
            assert(cut.last() == ']');
            assert(trimmed_end(whole) == trimmed_end(cut));
            assert(trimmed_end(cut) == cut);
            assert(cut + ""@ =~= cut);
        }
    }
}

/// A pane's border stands out in a colour where the keys go to the pane.
pub proof fn law_borders(color: Color, focused: bool)
    ensures
        focused ==> border_of(focused, color).fg == Some(color),
        !focused ==> border_of(focused, color) == plain_style(),
{
}

/// A process that went wrong is said to have failed, with its code where it has one.
pub proof fn law_words_for_a_failure(n: i32)
    requires
        n != 0,
    ensures
        status_words(ProcStatus::Failed) == "failed"@,
        n > 0 ==> status_words(ProcStatus::Exited(n)) == "failed ("@ + digits_of(n as int) + ")"@,
        n < 0 ==> status_words(ProcStatus::Exited(n)) == "failed ("@ + (seq!['-'] + digits_of(
            -(n as int),
        )) + ")"@,
{
}

/// The bar counts the matches of a search, and says which of them the cursor is on.
pub proof fn law_bar_counts_the_matches(v: CopyView, s: SearchView)
    requires
        v.search == Some(s),
    ensures
        v.search_input is None ==> begins(
            copy_hint(v),
            " ["@ + digits_of(match_number(s.matches, v.cursor, 0)) + "/"@ + digits_of(
                s.matches.len() as int,
            ) + "] \""@ + s.query,
        ),
        v.search_input matches Some(input) ==> begins(
            copy_hint(v),
            " "@ + seq![
                if input.direction == Direction::Backward {
                    '?'
                } else {
                    '/'
                },
            ] + input.query + "   "@ + digits_of(s.matches.len() as int),
        ),
{
    if let Some(input) = v.search_input {
        let sign = seq![
            if input.direction == Direction::Forward {
                '/'
            } else {
                '?'
            },
        ];
        assert(" "@ + (sign + input.query) =~= " "@ + sign + input.query);
    }
}

/// The list has the focus but in copy mode, where the output has it.
pub proof fn law_what_has_the_focus(state: CopyView, edit: EditView, input: TextView)
    ensures
        list_focused(ModeView::Normal),
        list_focused(ModeView::Edit(edit)),
        list_focused(ModeView::Run(input)),
        !list_focused(ModeView::Copy(state)),
{
}

/// The bar says whether a script is added or changed.
pub proof fn law_bar_names_the_dialog(app: AppView, state: EditView)
    requires
        app.mode == ModeView::Edit(state),
    ensures
        state.original is None ==> begins(app.hint(), " "@ + "add"@),
        state.original is Some ==> begins(app.hint(), " "@ + "edit"@),
{
}

} // verus!
