//! The dialogs that lie above the panes: for a command to run on the spot, and
//! for a script that is added or changed.

use vstd::math::{max, min};
use vstd::prelude::*;
use vstd::string::*;

use crate::app::App;
use crate::config::Theme;
use crate::draw::Area;
use crate::edit::{EditField, EditState, EditView};
use crate::layout::{inside, inside_of};
use crate::lines::{
    cursor_spans, law_wrapping_keeps_characters, line_views, lines_chars, plain_line, span_chars,
    span_views, spans_chars, with_cursor, wrap_line_chars, wrapped, Line, LineView, Span, SpanView,
};
use crate::panes::{cursor_look, cursor_style, path_in, path_of, raw};
use crate::style::{plain_style, Color, Style};
use crate::text::texts;
use crate::text_input::{TextInput, TextView};

verus! {

/// The least width of the dialog for a command.
pub const RUN_MIN_WIDTH: u16 = 30;

/// The least width of the dialog for a script.
pub const EDIT_MIN_WIDTH: u16 = 40;

/// What is reckoned for the label of a field.
pub const FIELD_PREFIX_LEN: usize = 10;

// --- geometry -------------------------------------------------------------------

/// The width of a dialog: that of its content and of its border, but no more than
/// half of the terminal, and never below a least width.
pub open spec fn dialog_width(content: int, term_w: int, min_w: int) -> int {
    let most = min(max(term_w / 2, min_w), max(term_w - 2, min_w));
    min(max(content + 2, min_w), most)
}

/// The columns inside a dialog's border.
pub open spec fn inner_width(width: int) -> int {
    max(width - 2, 1)
}

/// A rectangle of this size in the middle of an area, which it is cut to.
pub open spec fn centered(width: int, height: int, area: Area) -> Area {
    let w = min(width, area.width as int);
    let h = min(height, area.height as int);
    Area {
        x: min(area.x + (area.width - w) / 2, u16::MAX as int) as u16,
        y: min(area.y + (area.height - h) / 2, u16::MAX as int) as u16,
        width: w as u16,
        height: h as u16,
    }
}

/// The width of a dialog with so many columns of content.
pub fn modal_width(content_chars: u128, term_w: u16, min_w: u16) -> (width: u16)
    ensures
        width == dialog_width(content_chars as int, term_w as int, min_w as int),
{
    let needed: u64 = if content_chars < 65536 {
        content_chars as u64 + 2
    } else {
        65538
    };
    let half: u16 = if term_w / 2 > min_w {
        term_w / 2
    } else {
        min_w
    };
    let room: u16 = if term_w.saturating_sub(2) > min_w {
        term_w.saturating_sub(2)
    } else {
        min_w
    };
    let cap: u16 = if half < room {
        half
    } else {
        room
    };
    let wanted: u64 = if needed > min_w as u64 {
        needed
    } else {
        min_w as u64
    };
    if wanted < cap as u64 {
        wanted as u16
    } else {
        cap
    }
}

/// A rectangle of this size in the middle of an area.
pub fn centered_rect(width: u16, height: u16, area: Area) -> (rect: Area)
    ensures
        rect == centered(width as int, height as int, area),
{
    let w: u16 = if width < area.width {
        width
    } else {
        area.width
    };
    let h: u16 = if height < area.height {
        height
    } else {
        area.height
    };
    let x: u32 = area.x as u32 + (area.width - w) as u32 / 2;
    let y: u32 = area.y as u32 + (area.height - h) as u32 / 2;
    Area {
        x: if x < 65535 {
            x as u16
        } else {
            65535
        },
        y: if y < 65535 {
            y as u16
        } else {
            65535
        },
        width: w,
        height: h,
    }
}

// --- the dialog for a command ---------------------------------------------------

/// A dialog: where it lies, and the lines inside its border.
pub struct Modal {
    pub area: Area,
    pub inside: Area,
    pub lines: Vec<Line>,
}

/// The cells that a text and a cursor behind it take.
pub open spec fn typed_cells(len: int) -> int {
    len + 1
}

/// The rows that so many cells take.
pub open spec fn rows_for(cells: int, width: int) -> int {
    (cells + width - 1) / width
}

/// The dialog in which a command is typed: where it lies.
pub open spec fn run_area(input: TextView, area: Area) -> Area {
    let cells = typed_cells(input.text.len() as int);
    let width = dialog_width(cells, area.width as int, RUN_MIN_WIDTH as int);
    let rows = rows_for(cells, inner_width(width));
    centered(width, max(min(rows + 2, area.height as int), 3), area)
}

/// The columns inside the dialog in which a command is typed.
pub open spec fn run_columns(input: TextView, area: Area) -> int {
    let cells = typed_cells(input.text.len() as int);
    inner_width(dialog_width(cells, area.width as int, RUN_MIN_WIDTH as int))
}

/// The lines of the dialog in which a command is typed.
pub open spec fn run_lines(input: TextView, area: Area, theme: Theme) -> Seq<LineView> {
    wrapped(
        spans_chars(with_cursor(input.text, input.cursor, plain_style(), cursor_look(theme))),
        run_columns(input, area),
    )
}

/// The dialog in which a command is typed, in a terminal. It is as wide as the
/// command asks for, up to half of the terminal; from there on lines are broken.
pub fn run_modal(input: &TextInput, area: Area, theme: &Theme) -> (modal: Modal)
    ensures
        modal.area == run_area(input@, area),
        modal.inside == inside(modal.area, 0),
        line_views(modal.lines@) == run_lines(input@, area, *theme),
{
    let len: usize = input.as_str().unicode_len();
    let cells: u128 = len as u128 + 1;
    let width: u16 = modal_width(cells, area.width, RUN_MIN_WIDTH);
    let inner: u16 = if width > 3 {
        width - 2
    } else {
        1
    };
    let rows: u128 = (cells + inner as u128 - 1) / inner as u128;
    proof {
        lemma_rows(cells as int, inner as int);
    }
    let wanted: u128 = rows + 2;
    let cut: u128 = if wanted < area.height as u128 {
        wanted
    } else {
        area.height as u128
    };
    let height: u16 = if cut > 3 {
        cut as u16
    } else {
        3
    };
    let spans = cursor_spans(input.as_str(), input.cursor(), Style::plain(), cursor_style(theme));
    let line = Line::from_spans(spans);
    let lines = wrap_line_chars(&line, inner as usize);
    let place = centered_rect(width, height, area);
    Modal { area: place, inside: inside_of(place, 0), lines }
}

/// So many cells take some rows, and no more rows than cells.
proof fn lemma_rows(cells: int, width: int)
    requires
        cells >= 1,
        width >= 1,
    ensures
        1 <= rows_for(cells, width) <= cells,
{
    let rows = (cells + width - 1) / width;
    assert(1 <= rows <= cells) by (nonlinear_arith)
        requires
            cells >= 1,
            width >= 1,
            rows == (cells + width - 1) / width,
    ;
}

// --- the dialog for a script ----------------------------------------------------

/// The style of labels.
pub open spec fn label_style() -> Style {
    Style { fg: Some(Color::DarkGray), ..plain_style() }
}

/// The line that says where a script is written.
pub open spec fn source_text(state: EditView, paths: Seq<Seq<char>>, dirs: int) -> Seq<char> {
    "Source:  "@ + (if state.dir_index < dirs {
        path_in(paths, state.dir_index)
    } else {
        "?"@
    }) + "/"@ + state.source
}

/// The pieces of a field.
pub open spec fn field_spans(
    label: Seq<char>,
    input: TextView,
    active: bool,
    theme: Theme,
) -> Seq<SpanView> {
    seq![SpanView { text: label + " "@, style: label_style() }] + if active {
        with_cursor(input.text, input.cursor, plain_style(), cursor_look(theme))
    } else {
        seq![raw(input.text)]
    }
}

/// The cells that a field and a cursor behind it take.
pub open spec fn field_cells(len: int) -> int {
    FIELD_PREFIX_LEN + len + 1
}

/// The columns inside the dialog in which a script is typed.
pub open spec fn edit_columns(state: EditView, source: Seq<char>, area: Area) -> int {
    inner_width(edit_width(state, source, area))
}

/// The width of the dialog in which a script is typed.
pub open spec fn edit_width(state: EditView, source: Seq<char>, area: Area) -> int {
    let cells = max(
        max(source.len() as int, field_cells(state.name.text.len() as int)),
        field_cells(state.command.text.len() as int),
    );
    dialog_width(cells, area.width as int, EDIT_MIN_WIDTH as int)
}

/// The lines of the dialog in which a script is typed: where it is written, a
/// blank one, its name and its command, each broken where it is too long.
pub open spec fn edit_lines(
    state: EditView,
    source: Seq<char>,
    area: Area,
    theme: Theme,
) -> Seq<LineView> {
    let columns = edit_columns(state, source, area);
    let on_name = state.field == EditField::Name;
    wrapped(spans_chars(seq![SpanView { text: source, style: label_style() }]), columns)
        + wrapped(Seq::empty(), columns) + wrapped(
        spans_chars(field_spans("Name:   "@, state.name, on_name, theme)),
        columns,
    ) + wrapped(
        spans_chars(field_spans("Command:"@, state.command, !on_name, theme)),
        columns,
    )
}

/// The dialog in which a script is typed: where it lies, given its lines.
pub open spec fn edit_area(state: EditView, source: Seq<char>, lines: int, area: Area) -> Area {
    centered(
        edit_width(state, source, area),
        max(min(lines + 2, area.height as int), 6),
        area,
    )
}

/// The pieces of a field.
fn field_line(label: &str, input: &TextInput, active: bool, theme: &Theme) -> (line: Line)
    ensures
        line@ == plain_line(field_spans(label@, input@, active, *theme)),
{
    let mut head = label.to_string();
    head.append(" ");
    let mut spans: Vec<Span> = Vec::new();
    spans.push(Span { text: head, style: Style::plain().fg(Color::DarkGray) });
    let ghost start = spans@;
    if active {
        let mut typed = cursor_spans(
            input.as_str(),
            input.cursor(),
            Style::plain(),
            cursor_style(theme),
        );
        let ghost rest = typed@;
        spans.append(&mut typed);
        assert(span_views(start + rest) =~= span_views(start) + span_views(rest));
    } else {
        spans.push(Span::raw(input.as_str()));
    }
    assert(span_views(start) =~= seq![SpanView { text: label@ + " "@, style: label_style() }]);
    assert(span_views(spans@) =~= field_spans(label@, input@, active, *theme));
    Line::from_spans(spans)
}

/// Puts the lines of a broken line behind others.
fn push_wrapped(lines: &mut Vec<Line>, line: &Line, columns: usize)
    ensures
        line_views(final(lines)@) == line_views(old(lines)@) + wrapped(
            spans_chars(line@.spans),
            columns as int,
        ),
{
    let mut more = wrap_line_chars(line, columns);
    let ghost before = lines@;
    let ghost rest = more@;
    lines.append(&mut more);
    assert(line_views(before + rest) =~= line_views(before) + line_views(rest));
}

/// The cells of a field of so many characters.
fn count_cells(len: usize) -> (cells: u128)
    ensures
        cells == field_cells(len as int),
{
    FIELD_PREFIX_LEN as u128 + len as u128 + 1
}

/// The line that says where a script is written.
fn source_label(state: &EditState, paths: &Vec<String>, dirs: usize) -> (text: String)
    ensures
        text@ == source_text(state@, texts(paths@), dirs as int),
{
    let mut text = "Source:  ".to_string();
    text.append(
        if state.dir_index < dirs {
            path_of(paths, state.dir_index)
        } else {
            "?"
        },
    );
    text.append("/");
    text.append(state.source.0);
    text
}

impl App {
    /// The dialog in which a script is typed, in a terminal, given the paths of
    /// the directories. It is as wide as its longest line asks for, up to half of
    /// the terminal; from there on lines are broken.
    pub fn edit_modal(&self, state: &EditState, paths: &Vec<String>, area: Area) -> (modal: Modal)
        ensures
            ({
                let source = source_text(
                    state@,
                    texts(paths@),
                    self@.registry.directories.len() as int,
                );
                let lines = edit_lines(state@, source, area, self@.config.theme);
                &&& line_views(modal.lines@) == lines
                &&& modal.area == edit_area(state@, source, lines.len() as int, area)
                &&& modal.inside == inside(modal.area, 0)
            }),
    {
        let theme = self.config.theme;
        let label = source_label(state, paths, self.registry.directories.len());
        let source_cells: u128 = label.as_str().unicode_len() as u128;
        let name_cells: u128 = count_cells(state.name.as_str().unicode_len());
        let command_cells: u128 = count_cells(state.command.as_str().unicode_len());
        let mut cells: u128 = source_cells;
        if name_cells > cells {
            cells = name_cells;
        }
        if command_cells > cells {
            cells = command_cells;
        }
        let width: u16 = modal_width(cells, area.width, EDIT_MIN_WIDTH);
        let inner: u16 = if width > 3 {
            width - 2
        } else {
            1
        };
        let columns: usize = inner as usize;
        let on_name = match state.field {
            EditField::Name => true,
            EditField::Command => false,
        };
        let mut lines: Vec<Line> = Vec::new();
        assert(line_views(lines@) =~= Seq::empty());
        let mut first: Vec<Span> = Vec::new();
        first.push(Span::styled(label.as_str(), Style::plain().fg(Color::DarkGray)));
        assert(span_views(first@) =~= seq![SpanView { text: label@, style: label_style() }]);
        push_wrapped(&mut lines, &Line::from_spans(first), columns);
        let none: Vec<Span> = Vec::new();
        assert(span_views(none@) =~= Seq::empty());
        assert(spans_chars(span_views(none@)) =~= Seq::empty());
        push_wrapped(&mut lines, &Line::from_spans(none), columns);
        push_wrapped(&mut lines, &field_line("Name:   ", &state.name, on_name, &theme), columns);
        push_wrapped(
            &mut lines,
            &field_line("Command:", &state.command, !on_name, &theme),
            columns,
        );
        assert(line_views(lines@) =~= edit_lines(state@, label@, area, self@.config.theme));
        let wanted: u128 = lines.len() as u128 + 2;
        let cut: u128 = if wanted < area.height as u128 {
            wanted
        } else {
            area.height as u128
        };
        let height: u16 = if cut > 6 {
            cut as u16
        } else {
            6
        };
        let place = centered_rect(width, height, area);
        Modal { area: place, inside: inside_of(place, 0), lines }
    }
}

/// The title of the dialog in which a script is typed.
pub fn edit_title(state: &EditState) -> (title: &'static str)
    ensures
        title@ == if state@.original is Some {
            " Edit script "@
        } else {
            " Add script "@
        },
{
    if state.original.is_some() {
        " Edit script "
    } else {
        " Add script "
    }
}

// --- laws -----------------------------------------------------------------------

/// A dialog is never narrower than its least width, never wider than half of the
/// terminal but where the least width asks for it, and exactly as wide as its
/// content where that lies between.
pub proof fn law_dialog_width_bounds(content: int, term_w: int, min_w: int)
    requires
        content >= 0,
    ensures
        min_w <= dialog_width(content, term_w, min_w) <= max(term_w / 2, min_w),
        min_w <= content + 2 <= term_w / 2 ==> dialog_width(content, term_w, min_w) == content + 2,
{
}

/// A rectangle in the middle of an area lies inside it, with as much room on one
/// side as on the other, but for one cell.
pub proof fn law_centered_lies_inside(width: int, height: int, area: Area)
    requires
        area.fits(),
        width >= 0,
        height >= 0,
    ensures
        ({
            let rect = centered(width, height, area);
            let left = rect.x - area.x;
            let right = area.x + area.width - (rect.x + rect.width);
            let above = rect.y - area.y;
            let below = area.y + area.height - (rect.y + rect.height);
            &&& 0 <= left <= right <= left + 1
            &&& 0 <= above <= below <= above + 1
        }),
{
}

/// The dialog for a command has a row for each of its lines, unless the terminal
/// is too low for it.
pub proof fn law_run_dialog_shows_every_line(input: TextView, area: Area, theme: Theme)
    requires
        input.valid(),
    ensures
        ({
            let lines = run_lines(input, area, theme).len();
            let height = run_area(input, area).height;
            lines + 2 <= height || height == area.height
        }),
{
    let cells = typed_cells(input.text.len() as int);
    let columns = run_columns(input, area);
    let spans = with_cursor(input.text, input.cursor, plain_style(), cursor_look(theme));
    let chars = spans_chars(spans);
    lemma_cursor_cells(input, theme);
    let n = chars.len() as int;
    let rows = rows_for(cells, columns);
    lemma_rows(cells, columns);
    assert((n - 1) / columns + 1 <= rows) by (nonlinear_arith)
        requires
            columns >= 1,
            1 <= n <= cells,
            rows == (cells + columns - 1) / columns,
    ;
    assert(run_lines(input, area, theme).len() == (n - 1) / columns + 1);
}

/// The dialog for a script has a row for each of its lines, unless the terminal is
/// too low for it.
pub proof fn law_edit_dialog_shows_every_line(
    state: EditView,
    source: Seq<char>,
    area: Area,
    theme: Theme,
)
    ensures
        ({
            let lines = edit_lines(state, source, area, theme).len() as int;
            let height = edit_area(state, source, lines, area).height;
            lines + 2 <= height || height == area.height
        }),
{
}

/// A text with a cursor has as many characters as the text, or one more.
proof fn lemma_cursor_cells(input: TextView, theme: Theme)
    requires
        input.valid(),
    ensures
        ({
            let spans = with_cursor(input.text, input.cursor, plain_style(), cursor_look(theme));
            1 <= spans_chars(spans).len() <= input.text.len() + 1
        }),
{
    let spans = with_cursor(input.text, input.cursor, plain_style(), cursor_look(theme));
    let two = spans.take(2);
    let one = spans.take(1);
    assert(one.drop_last() =~= Seq::empty());
    assert(two.drop_last() =~= one);
    assert(spans_chars(one.drop_last()) =~= Seq::empty());
    assert(spans_chars(one).len() == span_chars(spans[0]).len());
    assert(spans_chars(two).len() == span_chars(spans[0]).len() + span_chars(spans[1]).len());
    if spans.len() == 3 {
        assert(spans.drop_last() =~= two);
    } else {
        assert(spans =~= two);
    }
}

/// The dialog for a command shows the command in one line, where half of the terminal has
/// room for it.
pub proof fn law_short_command_takes_one_line(input: TextView, area: Area, theme: Theme)
    requires
        input.valid(),
        input.text.len() + 1 <= 28 || input.text.len() + 3 <= area.width / 2,
    ensures
        run_lines(input, area, theme).len() == 1,
{
    let columns = run_columns(input, area);
    let spans = with_cursor(input.text, input.cursor, plain_style(), cursor_look(theme));
    let n = spans_chars(spans).len() as int;
    lemma_cursor_cells(input, theme);
    assert(columns >= n);
    assert((n - 1) / columns == 0) by (nonlinear_arith)
        requires
            1 <= n <= columns,
    ;
}

proof fn lemma_lines_concat(a: Seq<LineView>, b: Seq<LineView>)
    ensures
        lines_chars(a + b) == lines_chars(a) + lines_chars(b),
    decreases b.len(),
{
    if b.len() == 0 {
        assert(a + b =~= a);
        assert(lines_chars(a) + lines_chars(b) =~= lines_chars(a));
    } else {
        assert((a + b).drop_last() =~= a + b.drop_last());
        assert((a + b).last() == b.last());
        lemma_lines_concat(a, b.drop_last());
        let last = spans_chars(b.last().spans);
        assert(lines_chars(a + b) =~= lines_chars(a) + (lines_chars(b.drop_last()) + last));
    }
}

/// The dialog for a script shows, however its lines are broken, the file, the name and the
/// command, one after the other, with the cursor in the one of the two that is typed.
pub proof fn law_what_the_edit_dialog_shows(
    state: EditView,
    source: Seq<char>,
    area: Area,
    theme: Theme,
)
    ensures
        lines_chars(edit_lines(state, source, area, theme)) == spans_chars(
            seq![SpanView { text: source, style: label_style() }],
        ) + spans_chars(
            field_spans("Name:   "@, state.name, state.field is Name, theme),
        ) + spans_chars(
            field_spans("Command:"@, state.command, state.field is Command, theme),
        ),
{
    let columns = edit_columns(state, source, area);
    let first = spans_chars(seq![SpanView { text: source, style: label_style() }]);
    let name = spans_chars(field_spans("Name:   "@, state.name, state.field is Name, theme));
    let command = spans_chars(
        field_spans("Command:"@, state.command, state.field is Command, theme),
    );
    law_wrapping_keeps_characters(first, columns);
    law_wrapping_keeps_characters(Seq::empty(), columns);
    law_wrapping_keeps_characters(name, columns);
    law_wrapping_keeps_characters(command, columns);
    let a = wrapped(first, columns);
    let b = wrapped(Seq::empty(), columns);
    let c = wrapped(name, columns);
    lemma_lines_concat(a, b);
    lemma_lines_concat(a + b, c);
    lemma_lines_concat(a + b + c, wrapped(command, columns));
    assert(first + Seq::empty() =~= first);
}

/// What is typed in a dialog is shown plain, with the cursor in its colour, behind a label
/// in dark grey; a field that is not typed has no cursor.
pub proof fn law_look_of_a_field(label: Seq<char>, input: TextView, active: bool, theme: Theme)
    requires
        input.valid(),
    ensures
        ({
            let spans = field_spans(label, input, active, theme);
            &&& spans.len() >= 2
            &&& spans[0].style == (Style { fg: Some(Color::DarkGray), ..plain_style() })
            &&& spans[1].style == plain_style()
            &&& !active ==> spans.len() == 2 && spans[1].text == input.text
            &&& active ==> spans[1].text == input.text.take(input.cursor) && spans[2].style == (
            Style { bg: Some(theme.cursor), fg: Some(Color::Black), ..plain_style() })
        }),
{
}

/// A dialog is as high as its lines and its border ask for, but no lower than six rows for
/// a script and three for a command, and no higher than the terminal.
pub proof fn law_height_of_a_dialog(
    state: EditView,
    source: Seq<char>,
    input: TextView,
    lines: int,
    area: Area,
)
    requires
        lines >= 0,
    ensures
        ({
            let height = edit_area(state, source, lines, area).height;
            &&& 6 <= lines + 2 <= area.height ==> height == lines + 2
            &&& lines + 2 < 6 <= area.height ==> height == 6
            &&& lines + 2 > area.height || area.height < 6 ==> height == area.height
        }),
        area.height >= 3 ==> run_area(input, area).height >= 3,
        area.height < 3 ==> run_area(input, area).height == area.height,
{
}

} // verus!
