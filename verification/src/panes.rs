//! What the panes of the screen show.

use vstd::prelude::*;
use vstd::string::*;

use crate::app::{App, AppView, Mode, ModeView};
use crate::config::Theme;
use crate::copy_mode::{match_number, CopyView};
use crate::draw::Area;
use crate::layout::{panes_in, place_panes, PaneAreas};
use crate::lines::{
    cursor_spans, line_views, plain_line, span_views, with_cursor, Line, LineView, Span, SpanView,
};
use crate::number::{decimal, decimal_of, decimal_signed, digits_of};
use crate::proc_table::ScriptKeyView;
use crate::rows::{Row, RowView};
use crate::runner::{ProcId, ProcStatus};
use crate::search::Direction;
use crate::source::{SourceId, AD_HOC};
use crate::style::{plain_style, Color, Style};
use crate::text::{texts, trim_end, trimmed_end};

verus! {

broadcast use vstd::std_specs::hash::group_hash_axioms;

// --- processes ------------------------------------------------------------------

/// How a process stands, in words.
pub open spec fn status_words(status: ProcStatus) -> Seq<char> {
    match status {
        ProcStatus::Running => "running"@,
        ProcStatus::Exited(n) => if n == 0 {
            "exited"@
        } else {
            "failed ("@ + decimal_of(n as int) + ")"@
        },
        ProcStatus::Failed => "failed"@,
    }
}

/// How a process stands, in words.
pub fn status_label(status: ProcStatus) -> (label: String)
    ensures
        label@ == status_words(status),
{
    match status {
        ProcStatus::Running => "running".to_string(),
        ProcStatus::Exited(n) => if n == 0 {
            "exited".to_string()
        } else {
            let mut label = "failed (".to_string();
            label.append(decimal_signed(n).as_str());
            label.append(")");
            label
        },
        ProcStatus::Failed => "failed".to_string(),
    }
}

/// The sign for how a process stands, with its colour.
pub open spec fn status_sign(status: Option<ProcStatus>, theme: Theme) -> Option<
    (Seq<char>, Color),
> {
    match status {
        Some(ProcStatus::Running) => Some(("●"@, theme.running)),
        Some(ProcStatus::Exited(n)) => if n == 0 {
            Some(("✓"@, theme.running))
        } else {
            Some(("✗"@, theme.failed))
        },
        Some(ProcStatus::Failed) => Some(("✗"@, theme.failed)),
        None => None,
    }
}

/// The sign for how a process stands, with its colour.
pub fn status_icon(status: Option<ProcStatus>, theme: &Theme) -> (icon: Option<
    (&'static str, Color),
>)
    ensures
        match icon {
            Some((sign, color)) => status_sign(status, *theme) == Some((sign@, color)),
            None => status_sign(status, *theme) is None,
        },
{
    match status {
        Some(ProcStatus::Running) => Some(("●", theme.running)),
        Some(ProcStatus::Exited(n)) => if n == 0 {
            Some(("✓", theme.running))
        } else {
            Some(("✗", theme.failed))
        },
        Some(ProcStatus::Failed) => Some(("✗", theme.failed)),
        None => None,
    }
}

/// A process is signed as one that went wrong just where its words say so.
pub proof fn law_sign_agrees_with_words(status: ProcStatus, theme: Theme)
    ensures
        status_sign(Some(status), theme) matches Some((sign, color)) && (sign == "✗"@ ==> color
            == theme.failed) && (sign == "✗"@ <==> status != ProcStatus::Running && status
            != ProcStatus::Exited(0)),
{
    reveal_strlit("●");
    reveal_strlit("✓");
    reveal_strlit("✗");
    assert("●"@[0] == '●');
    assert("✓"@[0] == '✓');
    assert("✗"@[0] == '✗');
}

// --- borders --------------------------------------------------------------------

/// The style of a pane's border.
pub open spec fn border_of(focused: bool, color: Color) -> Style {
    if focused {
        Style { fg: Some(color), ..plain_style() }
    } else {
        plain_style()
    }
}

/// The style of a pane's border: coloured where the keys go to the pane.
pub fn border_style(focused: bool, color: Color) -> (style: Style)
    ensures
        style == border_of(focused, color),
{
    if focused {
        Style::plain().fg(color)
    } else {
        Style::plain()
    }
}

/// The keys go to the list, or to a dialog above it.
pub open spec fn list_focused(mode: ModeView) -> bool {
    !(mode is Copy)
}

impl App {
    /// Where the panes lie in a terminal.
    pub fn pane_areas(&self, area: Area) -> (panes: PaneAreas)
        ensures
            panes == panes_in(area, self@.scripts_width()),
            panes.output_inside.fits(),
    {
        let width: u16 = self.scripts_width();
        place_panes(area, width)
    }

    /// Whether the keys go to the list, or to a dialog above it, and not to the
    /// output.
    pub fn scripts_focused(&self) -> (r: bool)
        ensures
            r == list_focused(self@.mode),
    {
        match &self.mode {
            Mode::Copy(_) => false,
            _ => true,
        }
    }
}

// --- the list -------------------------------------------------------------------

/// A piece of text without a style of its own.
pub open spec fn raw(text: Seq<char>) -> SpanView {
    SpanView { text, style: plain_style() }
}

/// The sign in front of a heading.
pub open spec fn fold_sign(collapsed: bool) -> Seq<char> {
    if collapsed {
        "▸ "@
    } else {
        "▾ "@
    }
}

/// A heading's text.
pub open spec fn bold(text: Seq<char>) -> SpanView {
    SpanView { text, style: Style { bold: true, ..plain_style() } }
}

impl AppView {
    /// How the process of a script stands.
    pub open spec fn status(self, key: ScriptKeyView) -> Option<ProcStatus> {
        match self.process(key) {
            Some((_, process)) => Some(process.status),
            None => None,
        }
    }

    /// The pieces of a row. Commands that were run on the spot stand two blanks
    /// further out, since no directory is their heading.
    pub open spec fn row_spans(self, row: RowView) -> Seq<SpanView> {
        match row {
            RowView::DirHeader { label, collapsed, .. } => seq![
                raw(fold_sign(collapsed)),
                bold(label),
            ],
            RowView::SourceHeader { source, label, collapsed, .. } => seq![
                raw(
                    if source == AD_HOC@ {
                        ""@
                    } else {
                        "  "@
                    },
                ),
                raw(fold_sign(collapsed)),
                bold(label),
            ],
            RowView::Script { dir_index, source, name } => {
                let words = seq![
                    raw(
                        if source == AD_HOC@ {
                            "  "@
                        } else {
                            "    "@
                        },
                    ),
                    raw(name),
                ];
                let status = self.status(ScriptKeyView { dir_index, source, name });
                match status_sign(status, self.config.theme) {
                    Some((sign, color)) => words + seq![
                        raw(" "@),
                        SpanView { text: sign, style: Style { fg: Some(color), ..plain_style() } },
                    ],
                    None => words,
                }
            },
        }
    }

    /// The style of a row: the selected one stands out.
    pub open spec fn row_style(self, index: int) -> Style {
        if index == self.selected {
            match self.config.theme.selection {
                Some(color) => Style { bg: Some(color), ..plain_style() },
                None => Style { reversed: true, ..plain_style() },
            }
        } else {
            plain_style()
        }
    }

    /// A row as it is drawn.
    pub open spec fn row_line(self, index: int) -> LineView {
        LineView { spans: self.row_spans(self.rows[index]), style: self.row_style(index) }
    }

    /// The first row that is drawn: as far down as the selected one asks for.
    pub open spec fn first_drawn(self, height: int) -> int {
        let above = if height > 0 {
            height - 1
        } else {
            0
        };
        if self.selected > above {
            self.selected - above
        } else {
            0
        }
    }

    /// The rows that are drawn.
    pub open spec fn drawn(self, height: int) -> Seq<LineView> {
        let from = self.first_drawn(height);
        let to = if from + height < self.rows.len() {
            from + height
        } else {
            self.rows.len() as int
        };
        Seq::new(
            (if to > from {
                to - from
            } else {
                0
            }) as nat,
            |i: int| self.row_line(from + i),
        )
    }
}

/// What the list shows, and the style beneath it.
pub struct ScriptsPane {
    pub lines: Vec<Line>,
    pub style: Style,
}

impl App {
    /// A row as it is drawn.
    pub fn script_line(&self, index: usize) -> (line: Line)
        requires
            index < self@.rows.len(),
        ensures
            line@ == self@.row_line(index as int),
    {
        let row = &self.rows[index];
        assert(self@.rows[index as int] == row@);
        let mut spans: Vec<Span> = Vec::new();
        match row {
            Row::DirHeader { label, collapsed, .. } => {
                spans.push(
                    Span::raw(
                        if *collapsed {
                            "▸ "
                        } else {
                            "▾ "
                        },
                    ),
                );
                spans.push(Span::styled(label.as_str(), Style::plain().bold()));
            },
            Row::SourceHeader { label, collapsed, source, .. } => {
                spans.push(
                    Span::raw(
                        if source.same(SourceId(AD_HOC)) {
                            ""
                        } else {
                            "  "
                        },
                    ),
                );
                spans.push(
                    Span::raw(
                        if *collapsed {
                            "▸ "
                        } else {
                            "▾ "
                        },
                    ),
                );
                spans.push(Span::styled(label.as_str(), Style::plain().bold()));
            },
            Row::Script { name, source, dir_index } => {
                spans.push(
                    Span::raw(
                        if source.same(SourceId(AD_HOC)) {
                            "  "
                        } else {
                            "    "
                        },
                    ),
                );
                spans.push(Span::raw(name.as_str()));
                let status = self.status_of(*dir_index, *source, name.as_str());
                if let Some((sign, color)) = status_icon(status, &self.config.theme) {
                    spans.push(Span::raw(" "));
                    spans.push(Span::styled(sign, Style::plain().fg(color)));
                }
            },
        }
        assert(span_views(spans@) =~= self@.row_spans(row@));
        let style = if index == self.selected {
            match self.config.theme.selection {
                Some(color) => Style::plain().bg(color),
                None => Style::plain().reversed(),
            }
        } else {
            Style::plain()
        };
        Line { spans, style }
    }

    /// What the list shows in so many rows. Where nothing was found it says so.
    pub fn scripts_pane(&self, height: usize) -> (pane: ScriptsPane)
        ensures
            self@.registry.is_empty() ==> line_views(pane.lines@) == seq![
                plain_line(seq![raw("No scripts found."@)]),
                plain_line(seq![raw("(no package.json with scripts here)"@)]),
            ] && pane.style == (Style { fg: Some(Color::DarkGray), ..plain_style() }),
            !self@.registry.is_empty() ==> line_views(pane.lines@) == self@.drawn(height as int)
                && pane.style == plain_style(),
    {
        let mut lines: Vec<Line> = Vec::new();
        if self.registry.is_empty() {
            let mut first: Vec<Span> = Vec::new();
            first.push(Span::raw("No scripts found."));
            assert(span_views(first@) =~= seq![raw("No scripts found."@)]);
            let mut second: Vec<Span> = Vec::new();
            second.push(Span::raw("(no package.json with scripts here)"));
            assert(span_views(second@) =~= seq![raw("(no package.json with scripts here)"@)]);
            lines.push(Line::from_spans(first));
            lines.push(Line::from_spans(second));
            assert(line_views(lines@) =~= seq![
                plain_line(seq![raw("No scripts found."@)]),
                plain_line(seq![raw("(no package.json with scripts here)"@)]),
            ]);
            return ScriptsPane { lines, style: Style::plain().fg(Color::DarkGray) };
        }
        let offset: usize = self.selected.saturating_sub(height.saturating_sub(1));
        let n: usize = self.rows.len();
        let to: usize = if offset >= n {
            offset
        } else if n - offset > height {
            offset + height
        } else {
            n
        };
        let mut i: usize = offset;
        while i < to
            invariant
                offset <= i <= to,
                to > offset ==> to <= n,
                n == self@.rows.len(),
                lines@.len() == i - offset,
                forall|k: int|
                    0 <= k < lines@.len() ==> (#[trigger] lines@[k])@ == self@.row_line(offset + k),
            decreases to - i,
        {
            lines.push(self.script_line(i));
            i += 1;
        }
        assert(line_views(lines@) =~= self@.drawn(height as int));
        ScriptsPane { lines, style: Style::plain() }
    }
}

/// The selected row is among those that are drawn, whatever the height.
pub proof fn law_selected_row_is_drawn(app: AppView, height: int)
    requires
        height > 0,
        0 <= app.selected < app.rows.len(),
    ensures
        ({
            let at = app.selected - app.first_drawn(height);
            0 <= at < app.drawn(height).len() && app.drawn(height)[at] == app.row_line(
                app.selected,
            )
        }),
        app.drawn(height).len() <= height,
{
}

// --- the command ----------------------------------------------------------------

impl AppView {
    /// The directory of the selected row, where it is listed.
    pub open spec fn current_dir(self) -> Option<int> {
        let dir_index = match self.row() {
            Some(RowView::DirHeader { dir_index, .. }) => Some(dir_index),
            Some(RowView::SourceHeader { dir_index, .. }) => Some(dir_index),
            Some(RowView::Script { dir_index, .. }) => Some(dir_index),
            None => None,
        };
        match dir_index {
            Some(d) => if 0 <= d < self.registry.directories.len() {
                Some(d)
            } else {
                None
            },
            None => None,
        }
    }

    /// The title and the text of the box above the output, given the paths of the
    /// directories: what the selected row is in, and what it is itself.
    pub open spec fn command_box(self, paths: Seq<Seq<char>>) -> (Seq<char>, Seq<char>) {
        match (self.selected_script(), self.current_target(), self.current_dir()) {
            (Some((_, script)), Some((_, source)), Some(d)) => (
                " Dir: "@ + path_in(paths, d) + " File: "@ + source + " "@,
                "Command: "@ + script.command,
            ),
            (None, Some((_, source)), Some(d)) => (
                " Dir: "@ + path_in(paths, d) + " "@,
                "File: "@ + source,
            ),
            (None, None, Some(d)) => (Seq::empty(), "Dir: "@ + path_in(paths, d)),
            _ => (" Command "@, Seq::empty()),
        }
    }
}

/// The path of a directory.
pub open spec fn path_in(paths: Seq<Seq<char>>, d: int) -> Seq<char> {
    if 0 <= d < paths.len() {
        paths[d]
    } else {
        "?"@
    }
}

/// The path of a directory.
pub fn path_of(paths: &Vec<String>, dir_index: usize) -> (path: &str)
    ensures
        path@ == path_in(texts(paths@), dir_index as int),
{
    if dir_index < paths.len() {
        paths[dir_index].as_str()
    } else {
        "?"
    }
}

impl App {
    /// The directory of the selected row.
    pub fn current_dir_index(&self) -> (found: Option<usize>)
        ensures
            match found {
                Some(d) => self@.current_dir() == Some(d as int),
                None => self@.current_dir() is None,
            },
    {
        if self.selected >= self.rows.len() {
            return None;
        }
        assert(self@.rows[self.selected as int] == self.rows@[self.selected as int]@);
        let dir_index: usize = match &self.rows[self.selected] {
            Row::DirHeader { dir_index, .. } => *dir_index,
            Row::SourceHeader { dir_index, .. } => *dir_index,
            Row::Script { dir_index, .. } => *dir_index,
        };
        if dir_index < self.registry.directories.len() {
            Some(dir_index)
        } else {
            None
        }
    }

    /// The source of the selected row; nothing on a directory's heading.
    pub fn current_source_id(&self) -> (source: Option<SourceId>)
        ensures
            match source {
                Some(id) => self@.current_target() matches Some((_, s)) && s == id@,
                None => self@.current_target() is None,
            },
    {
        match self.current_target() {
            Some((_, source)) => Some(source),
            None => None,
        }
    }

    /// The title and the text of the box above the output.
    pub fn command_box(&self, paths: &Vec<String>) -> (shown: (String, String))
        ensures
            (shown.0@, shown.1@) == self@.command_box(texts(paths@)),
    {
        let dir = self.current_dir_index();
        let source = self.current_source_id();
        let command = self.selected_command();
        match (command, source, dir) {
            (Some(command), Some(source), Some(d)) => {
                let mut title = " Dir: ".to_string();
                title.append(path_of(paths, d));
                title.append(" File: ");
                title.append(source.0);
                title.append(" ");
                let mut body = "Command: ".to_string();
                body.append(command);
                (title, body)
            },
            (None, Some(source), Some(d)) => {
                let mut title = " Dir: ".to_string();
                title.append(path_of(paths, d));
                title.append(" ");
                let mut body = "File: ".to_string();
                body.append(source.0);
                (title, body)
            },
            (None, None, Some(d)) => {
                let mut body = "Dir: ".to_string();
                body.append(path_of(paths, d));
                (String::new(), body)
            },
            _ => (" Command ".to_string(), String::new()),
        }
    }
}

// --- the output -----------------------------------------------------------------

/// What fills the output.
pub enum OutputBody {
    /// The frozen output.
    Copy,
    /// The screen of a process.
    Screen(ProcId),
    /// A text.
    Message(String),
}

/// What fills the output, by its texts.
#[verifier::ext_equal]
pub ghost enum BodyView {
    Copy,
    Screen(ProcId),
    Message(Seq<char>),
}

impl View for OutputBody {
    type V = BodyView;

    open spec fn view(&self) -> BodyView {
        match self {
            OutputBody::Copy => BodyView::Copy,
            OutputBody::Screen(id) => BodyView::Screen(*id),
            OutputBody::Message(text) => BodyView::Message(text@),
        }
    }
}

impl AppView {
    /// The output's title.
    pub open spec fn output_title(self) -> Seq<char> {
        let title = match self.focused() {
            Some((_, process)) => " Output: "@ + process.script + " ["@ + status_words(
                process.status,
            ) + "] "@,
            None => " Output "@,
        };
        trimmed_end(title) + if self.mode is Copy {
            " — copy-mode"@
        } else {
            ""@
        }
    }

    /// The line of the cursor and the number of lines, while text is copied.
    pub open spec fn output_position(self) -> Option<Seq<char>> {
        match self.mode {
            ModeView::Copy(state) => Some(
                " "@ + digits_of(state.cursor.row + 1) + "/"@ + digits_of(
                    state.grid.rows@.len() as int,
                ) + " "@,
            ),
            _ => None,
        }
    }

    /// What fills the output: the frozen output, the screen of the selected
    /// script's process, or else what went wrong last.
    pub open spec fn output_body(self) -> BodyView {
        if self.mode is Copy {
            BodyView::Copy
        } else {
            match self.focused() {
                Some((id, _)) => BodyView::Screen(id),
                None => BodyView::Message(
                    match self.error {
                        Some(text) => text,
                        None => "Press enter/space to run the selected script."@,
                    },
                ),
            }
        }
    }
}

impl App {
    /// The output's title.
    pub fn output_title(&self) -> (title: String)
        ensures
            title@ == self@.output_title(),
    {
        let title = match self.focused_proc() {
            Some(process) => {
                let mut text = " Output: ".to_string();
                text.append(process.script.as_str());
                text.append(" [");
                text.append(status_label(process.status).as_str());
                text.append("] ");
                text
            },
            None => " Output ".to_string(),
        };
        let mut whole = trim_end(title.as_str());
        whole.append(
            match &self.mode {
                Mode::Copy(_) => " — copy-mode",
                _ => "",
            },
        );
        whole
    }

    /// The line of the cursor and the number of lines, while text is copied.
    pub fn output_position(&self) -> (position: Option<String>)
        requires
            self@.mode matches ModeView::Copy(state) ==> state.cursor.row < usize::MAX,
        ensures
            match position {
                Some(text) => self@.output_position() == Some(text@),
                None => self@.output_position() is None,
            },
    {
        match &self.mode {
            Mode::Copy(state) => {
                let mut text = " ".to_string();
                text.append(decimal(state.cursor.row as u64 + 1).as_str());
                text.append("/");
                text.append(decimal(state.grid.height() as u64).as_str());
                text.append(" ");
                Some(text)
            },
            _ => None,
        }
    }

    /// What fills the output.
    pub fn output_body(&self) -> (body: OutputBody)
        ensures
            body@ == self@.output_body(),
    {
        if let Mode::Copy(_) = &self.mode {
            return OutputBody::Copy;
        }
        match self.focused_id() {
            Some(id) => OutputBody::Screen(id),
            None => match &self.error {
                Some(text) => OutputBody::Message(text.clone()),
                None => OutputBody::Message(
                    "Press enter/space to run the selected script.".to_string(),
                ),
            },
        }
    }
}

// --- hints ----------------------------------------------------------------------

/// The style of the bar at the bottom.
pub open spec fn bar_style() -> Style {
    Style { reversed: true, ..plain_style() }
}

/// The style of a cursor in an input.
pub open spec fn cursor_look(theme: Theme) -> Style {
    Style { bg: Some(theme.cursor), fg: Some(Color::Black), ..plain_style() }
}

/// The style of a cursor in an input.
pub fn cursor_style(theme: &Theme) -> (style: Style)
    ensures
        style == cursor_look(*theme),
{
    Style::plain().bg(theme.cursor).fg(Color::Black)
}

/// The style of the cursor's position, in the corner of the output.
pub fn position_style(theme: &Theme) -> (style: Style)
    ensures
        style == (Style { bold: true, ..cursor_look(*theme) }),
{
    cursor_style(theme).bold()
}

/// What is said about the keys while text is copied.
pub open spec fn copy_hint(state: CopyView) -> Seq<char> {
    if state.search_input is Some {
        let input = state.search_input->0;
        let prompt = seq![
            if input.direction == Direction::Forward {
                '/'
            } else {
                '?'
            },
        ] + input.query;
        let total = match state.search {
            Some(search) => search.matches.len() as int,
            None => 0,
        };
        " "@ + prompt + "   "@ + digits_of(total) + " matches   (Enter: jump   Esc: cancel) "@
    } else {
        match state.search {
            Some(search) => " ["@ + digits_of(match_number(search.matches, state.cursor, 0)) + "/"@
                + digits_of(search.matches.len() as int) + "] \""@ + search.query
                + "\"   n/N: next   y: yank   Esc: clear   q: exit "@,
            None =>
                " hjkl: move   w/b/e: word   C-u/C-d/C-f/C-b: page   v/V/C-v: select   /?: search   y: yank   Esc: clear   q: exit "@,
        }
    }
}

impl AppView {
    /// What is said about the keys, where no filter is typed.
    pub open spec fn hint(self) -> Seq<char> {
        match self.mode {
            ModeView::Normal =>
                " j/k: move   h/l: nav   space: run/stop   a: add   e: edit   !: run   /: filter   v: copy   q/^C: quit "@,
            ModeView::Run(_) => " run command — type a command   Enter: run   Esc: cancel "@,
            ModeView::Edit(state) => " "@ + (if state.original is Some {
                "edit"@
            } else {
                "add"@
            }) + " script — Tab: switch field   Enter: next/save   Esc: cancel "@,
            ModeView::Copy(state) => copy_hint(state),
        }
    }

    /// The bar at the bottom: the filter while it is typed, else what is said
    /// about the keys.
    pub open spec fn bar(self) -> LineView {
        if self.filtering {
            plain_line(
                seq![SpanView { text: " filter: "@, style: bar_style() }] + with_cursor(
                    self.filter.text,
                    self.filter.cursor,
                    bar_style(),
                    cursor_look(self.config.theme),
                ) + seq![
                    SpanView { text: "   (Enter: keep   Esc: clear) "@, style: bar_style() },
                ],
            )
        } else {
            LineView { spans: seq![raw(self.hint())], style: bar_style() }
        }
    }
}

/// What is said about the keys while text is copied.
fn copy_hint_text(state: &crate::copy_mode::CopyState) -> (text: String)
    ensures
        text@ == copy_hint(state@),
{
    if let Some(prompt) = state.search_prompt() {
        let total: usize = match state.search_count() {
            Some((_, total)) => total,
            None => 0,
        };
        let mut text = " ".to_string();
        text.append(prompt.as_str());
        text.append("   ");
        text.append(decimal(total as u64).as_str());
        text.append(" matches   (Enter: jump   Esc: cancel) ");
        return text;
    }
    if let Some((current, total)) = state.search_count() {
        let query = match state.search_query() {
            Some(query) => query,
            None => "",
        };
        let mut text = " [".to_string();
        text.append(decimal(current as u64).as_str());
        text.append("/");
        text.append(decimal(total as u64).as_str());
        text.append("] \"");
        text.append(query);
        text.append("\"   n/N: next   y: yank   Esc: clear   q: exit ");
        return text;
    }
    " hjkl: move   w/b/e: word   C-u/C-d/C-f/C-b: page   v/V/C-v: select   /?: search   y: yank   Esc: clear   q: exit ".to_string()
}

impl App {
    /// What is said about the keys, where no filter is typed.
    pub fn hint(&self) -> (text: String)
        ensures
            text@ == self@.hint(),
    {
        match &self.mode {
            Mode::Normal =>
                " j/k: move   h/l: nav   space: run/stop   a: add   e: edit   !: run   /: filter   v: copy   q/^C: quit ".to_string(),
            Mode::Run(_) => " run command — type a command   Enter: run   Esc: cancel ".to_string(),
            Mode::Edit(state) => {
                let mut text = " ".to_string();
                text.append(
                    if state.original.is_some() {
                        "edit"
                    } else {
                        "add"
                    },
                );
                text.append(" script — Tab: switch field   Enter: next/save   Esc: cancel ");
                text
            },
            Mode::Copy(state) => copy_hint_text(state),
        }
    }

    /// The bar at the bottom.
    pub fn bar(&self) -> (line: Line)
        ensures
            line@ == self@.bar(),
    {
        let bar = Style::plain().reversed();
        let mut spans: Vec<Span> = Vec::new();
        if self.is_filtering() {
            spans.push(Span::styled(" filter: ", bar));
            let mut typed = cursor_spans(
                self.filter_query(),
                self.filter_cursor(),
                bar,
                cursor_style(&self.config.theme),
            );
            let ghost middle = typed@;
            let ghost start = spans@;
            spans.append(&mut typed);
            spans.push(Span::styled("   (Enter: keep   Esc: clear) ", bar));
            assert(span_views(spans@) =~= self@.bar().spans) by {
                assert(span_views(start) =~= seq![
                    SpanView { text: " filter: "@, style: bar_style() },
                ]);
                assert(span_views(start + middle) =~= span_views(start) + span_views(middle));
            }
            Line::from_spans(spans)
        } else {
            spans.push(Span::raw(self.hint().as_str()));
            assert(span_views(spans@) =~= seq![raw(self@.hint())]);
            Line { spans, style: bar }
        }
    }
}

} // verus!
