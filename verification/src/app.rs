//! The state of the application, and what the keys of the list do to it.

use std::collections::HashMap;

use vstd::prelude::*;

use crate::config::Config;
use crate::copy_mode::{CopyState, CopyView};
use crate::edit::{EditField, EditState, EditView};
use crate::keys::KeyCode;
use crate::layout::{
    content_span, content_width, fit_list, list_width, output_cols, output_rows, output_size,
    EMPTY_WIDTH,
};
use crate::proc_table::{process_of, ProcTable, ScriptKeyView};
use crate::rows::{
    build_rows, row_views, CollapseKey, Collapsed, KeyView, Row, RowView, TreeView,
};
use crate::runner::{ProcId, ProcStatus, Process, ProcessView};
use crate::source::registry::{Registry, RegistryView};
use crate::source::{Script, ScriptView, SourceId, AD_HOC};
use crate::text::{lower_text, same_text, texts};
use crate::text_input::{TextInput, TextView};

verus! {

broadcast use vstd::std_specs::hash::group_hash_axioms;

// --- state --------------------------------------------------------------------

/// What the keys go to.
pub enum Mode {
    /// The list.
    Normal,
    /// The frozen output.
    Copy(CopyState),
    /// The dialog for a script.
    Edit(EditState),
    /// The prompt for a command to run on the spot.
    Run(TextInput),
}

/// What the keys go to, by its texts.
#[verifier::ext_equal]
pub ghost enum ModeView {
    Normal,
    Copy(CopyView),
    Edit(EditView),
    Run(TextView),
}

impl View for Mode {
    type V = ModeView;

    open spec fn view(&self) -> ModeView {
        match self {
            Mode::Normal => ModeView::Normal,
            Mode::Copy(state) => ModeView::Copy(state@),
            Mode::Edit(state) => ModeView::Edit(state@),
            Mode::Run(input) => ModeView::Run(input@),
        }
    }
}

impl ModeView {
    /// What is typed can be typed on.
    pub open spec fn valid(self) -> bool {
        match self {
            ModeView::Edit(state) => state.valid(),
            ModeView::Run(input) => input.valid(),
            _ => true,
        }
    }
}

/// The state of the application.
pub struct App {
    pub registry: Registry,
    /// The list as it is shown.
    pub rows: Vec<Row>,
    pub selected: usize,
    pub collapsed: Collapsed,
    pub procs: HashMap<ProcId, Process>,
    pub script_to_proc: ProcTable,
    pub mode: Mode,
    pub next_id: ProcId,
    /// The size of the terminal.
    pub term_cols: u16,
    pub term_rows: u16,
    /// The size inside the output's border, which processes are given.
    pub out_cols: u16,
    pub out_rows: u16,
    /// The last thing that went wrong.
    pub error: Option<String>,
    pub config: Config,
    /// The commands that were run on the spot.
    pub ad_hoc: Vec<String>,
    /// Narrows the list down to names that hold it; empty where all are listed.
    pub filter: TextInput,
    /// Whether the filter is being typed.
    pub filtering: bool,
    /// A `z` was typed that may be the first of two keys.
    pub awaiting_z: bool,
}

/// The state of the application, by its texts.
#[verifier::ext_equal]
pub ghost struct AppView {
    pub registry: RegistryView,
    pub rows: Seq<RowView>,
    pub selected: int,
    pub collapsed: Set<KeyView>,
    pub procs: Map<ProcId, ProcessView>,
    pub script_to_proc: Map<ScriptKeyView, ProcId>,
    pub mode: ModeView,
    pub next_id: ProcId,
    pub term_cols: u16,
    pub term_rows: u16,
    pub out_cols: u16,
    pub out_rows: u16,
    pub error: Option<Seq<char>>,
    pub config: Config,
    pub ad_hoc: Seq<Seq<char>>,
    pub filter: TextView,
    pub filtering: bool,
    pub awaiting_z: bool,
}

/// The processes of a table, by their texts.
pub open spec fn process_views(procs: Map<ProcId, Process>) -> Map<ProcId, ProcessView> {
    procs.map_values(|p: Process| p@)
}

impl View for App {
    type V = AppView;

    open spec fn view(&self) -> AppView {
        AppView {
            registry: self.registry@,
            rows: row_views(self.rows@),
            selected: self.selected as int,
            collapsed: self.collapsed@,
            procs: process_views(self.procs@),
            script_to_proc: self.script_to_proc@,
            mode: self.mode@,
            next_id: self.next_id,
            term_cols: self.term_cols,
            term_rows: self.term_rows,
            out_cols: self.out_cols,
            out_rows: self.out_rows,
            error: match self.error {
                Some(text) => Some(text@),
                None => None,
            },
            config: self.config,
            ad_hoc: texts(self.ad_hoc@),
            filter: self.filter@,
            filtering: self.filtering,
            awaiting_z: self.awaiting_z,
        }
    }
}

// --- finding rows ---------------------------------------------------------------

/// The first script of the list.
pub open spec fn first_script(rows: Seq<RowView>, k: int) -> Option<int>
    decreases rows.len() - k,
{
    if k < 0 || k >= rows.len() {
        None
    } else if rows[k] is Script {
        Some(k)
    } else {
        first_script(rows, k + 1)
    }
}

/// The row of a script, looked for from position `k` on.
pub open spec fn script_row(rows: Seq<RowView>, key: ScriptKeyView, k: int) -> Option<int>
    decreases rows.len() - k,
{
    if k < 0 || k >= rows.len() {
        None
    } else if rows[k] == (RowView::Script {
        dir_index: key.dir_index,
        source: key.source,
        name: key.name,
    }) {
        Some(k)
    } else {
        script_row(rows, key, k + 1)
    }
}

/// The row of a command that was run on the spot, looked for from position `k` on.
pub open spec fn command_row(rows: Seq<RowView>, name: Seq<char>, k: int) -> Option<int>
    decreases rows.len() - k,
{
    if k < 0 || k >= rows.len() {
        None
    } else if rows[k] is Script && rows[k]->Script_source == AD_HOC@ && rows[k]->Script_name
        == name {
        Some(k)
    } else {
        command_row(rows, name, k + 1)
    }
}

/// The commands with one more, unless it is among them.
pub open spec fn listed_once(commands: Seq<Seq<char>>, command: Seq<char>) -> Seq<Seq<char>> {
    if commands.contains(command) {
        commands
    } else {
        commands.push(command)
    }
}

/// No command comes to be listed twice.
pub(crate) proof fn lemma_listed_once(commands: Seq<Seq<char>>, command: Seq<char>)
    requires
        commands.no_duplicates(),
    ensures
        listed_once(commands, command).no_duplicates(),
        listed_once(commands, command).contains(command),
{
    let listed = listed_once(commands, command);
    if !commands.contains(command) {
        assert(listed[commands.len() as int] == command);
        assert forall|i: int, j: int|
            0 <= i < listed.len() && 0 <= j < listed.len() && i != j implies listed[i]
            != listed[j] by {
            if i < commands.len() {
                assert(commands.contains(commands[i]));
            }
            if j < commands.len() {
                assert(commands.contains(commands[j]));
            }
        }
    }
}

/// The heading that stands above a row: a script's is its source's, a source's
/// is its directory's, where directories have headings. The commands run on the
/// spot belong to no directory.
pub open spec fn parent_key(row: RowView, multi: bool) -> Option<KeyView> {
    match row {
        RowView::Script { dir_index, source, .. } => Some(KeyView::Source(dir_index, source)),
        RowView::SourceHeader { dir_index, source, .. } => if multi && source != AD_HOC@ {
            Some(KeyView::Dir(dir_index))
        } else {
            None
        },
        RowView::DirHeader { .. } => None,
    }
}

/// The last of the first `n` rows that is a heading.
pub open spec fn header_above(rows: Seq<RowView>, key: KeyView, n: int) -> Option<int>
    decreases n,
{
    if n <= 0 || n > rows.len() {
        None
    } else if rows[n - 1].collapse_key() == Some(key) {
        Some(n - 1)
    } else {
        header_above(rows, key, n - 1)
    }
}

/// Processes have numbers that were given out, and no two scripts have one
/// process.
pub open spec fn told_apart(
    procs: Map<ProcId, ProcessView>,
    started: Map<ScriptKeyView, ProcId>,
    next_id: ProcId,
) -> bool {
    &&& forall|id: ProcId| #[trigger] procs.dom().contains(id) ==> id < next_id
    &&& forall|key: ScriptKeyView| #[trigger]
        started.dom().contains(key) ==> started[key] < next_id
    &&& forall|a: ScriptKeyView, b: ScriptKeyView|
        a != b && #[trigger] started.dom().contains(a) && #[trigger] started.dom().contains(b)
            ==> started[a] != started[b]
}

// --- what the operations do -----------------------------------------------------

impl AppView {
    /// What decides which rows there are.
    pub open spec fn tree(self) -> TreeView {
        TreeView {
            directories: self.registry.directories,
            collapsed: self.collapsed,
            needle: lower_text(self.filter.text),
            ad_hoc: self.ad_hoc,
        }
    }

    /// The selection is on a row, where there are any.
    pub open spec fn selection_inside(self) -> bool {
        0 <= self.selected && (self.selected < self.rows.len() || self.selected == 0)
    }

    /// The rows are those of the directories, what is folded up and the filter,
    /// which filters unless it is empty; the selection is on one of them; no command
    /// is listed twice; what is typed can be typed on; the output has a size; and
    /// processes are told apart.
    pub open spec fn valid(self) -> bool {
        &&& told_apart(self.procs, self.script_to_proc, self.next_id)
        &&& self.rows == self.tree().rows()
        &&& self.filter.text.len() > 0 <==> self.tree().filtered()
        &&& self.ad_hoc.no_duplicates()
        &&& self.selection_inside()
        &&& self.filter.valid()
        &&& self.mode.valid()
        &&& self.out_cols >= 1
        &&& self.out_rows >= 1
    }

    /// The state with its rows made anew. A selection behind the last row moves
    /// to it.
    pub open spec fn rebuilt(self) -> AppView {
        let rows = self.tree().rows();
        AppView {
            rows,
            selected: if rows.len() == 0 {
                0
            } else if self.selected >= rows.len() {
                rows.len() - 1
            } else {
                self.selected
            },
            ..self
        }
    }

    /// The width of the list, borders included.
    pub open spec fn scripts_width(self) -> int {
        list_width(
            if self.registry.is_empty() {
                EMPTY_WIDTH as int
            } else {
                content_span(self.registry.directories, self.ad_hoc)
            },
            self.term_cols as int,
        )
    }

    /// The state with the output's size taken from the terminal's.
    pub open spec fn resized(self) -> AppView {
        AppView {
            out_cols: output_cols(self.term_cols as int, self.scripts_width()) as u16,
            out_rows: output_rows(self.term_rows as int) as u16,
            ..self
        }
    }

    /// The state at the start.
    pub open spec fn started(
        registry: RegistryView,
        term_cols: u16,
        term_rows: u16,
        config: Config,
    ) -> AppView {
        let bare = AppView {
            registry,
            rows: Seq::empty(),
            selected: 0,
            collapsed: Set::empty(),
            procs: Map::empty(),
            script_to_proc: Map::empty(),
            mode: ModeView::Normal,
            next_id: 1,
            term_cols,
            term_rows,
            out_cols: 1,
            out_rows: 1,
            error: None,
            config,
            ad_hoc: Seq::empty(),
            filter: TextView::seeded(Seq::empty()),
            filtering: false,
            awaiting_z: false,
        }.rebuilt();
        AppView {
            selected: match first_script(bare.rows, 0) {
                Some(k) => k,
                None => 0,
            },
            ..bare
        }.resized()
    }

    /// The selected row.
    pub open spec fn row(self) -> Option<RowView> {
        if 0 <= self.selected < self.rows.len() {
            Some(self.rows[self.selected])
        } else {
            None
        }
    }

    /// The selected script, with its directory. A command that was run on the
    /// spot is its own name.
    pub open spec fn selected_script(self) -> Option<(int, ScriptView)> {
        match self.row() {
            Some(RowView::Script { dir_index, source, name }) => if source == AD_HOC@ {
                Some((dir_index, ScriptView { name, source, command: name }))
            } else {
                match self.registry.script(dir_index, source, name) {
                    Some(script) => Some((dir_index, script)),
                    None => None,
                }
            },
            _ => None,
        }
    }

    /// The selected row is a heading.
    pub open spec fn selected_is_header(self) -> bool {
        self.row() matches Some(row) && row.is_header()
    }

    /// The selected script, by what tells scripts apart.
    pub open spec fn selected_key(self) -> Option<ScriptKeyView> {
        match self.selected_script() {
            Some((dir_index, script)) => Some(
                ScriptKeyView { dir_index, source: script.source, name: script.name },
            ),
            None => None,
        }
    }

    /// The state with other directories. The selection stays on the script that
    /// it is on, where that is still listed.
    pub open spec fn reloaded(self, registry: RegistryView) -> AppView {
        let fresh = AppView { registry, ..self }.rebuilt();
        match self.selected_key() {
            Some(key) => match script_row(fresh.rows, key, 0) {
                Some(k) => AppView { selected: k, ..fresh },
                None => fresh,
            },
            None => fresh,
        }
    }

    /// One row down.
    pub open spec fn next(self) -> AppView {
        if self.selected + 1 < self.rows.len() {
            AppView { selected: self.selected + 1, ..self }
        } else {
            self
        }
    }

    /// One row up.
    pub open spec fn prev(self) -> AppView {
        if self.selected > 0 {
            AppView { selected: self.selected - 1, ..self }
        } else {
            self
        }
    }

    /// To the heading that stands above.
    pub open spec fn to_header(self) -> AppView {
        match self.row() {
            Some(row) => match parent_key(row, self.registry.is_multi()) {
                Some(key) => match header_above(self.rows, key, self.selected) {
                    Some(k) => AppView { selected: k, ..self },
                    None => self,
                },
                None => self,
            },
            None => self,
        }
    }

    /// The state with a heading open.
    pub open spec fn opened(self, key: KeyView) -> AppView {
        AppView { collapsed: self.collapsed.remove(key), ..self }.rebuilt()
    }

    /// The state with a heading folded up.
    pub open spec fn folded(self, key: KeyView) -> AppView {
        AppView { collapsed: self.collapsed.insert(key), ..self }.rebuilt()
    }

    /// To the first row below a heading, which is opened for it. Where nothing
    /// stands below it the selection stays.
    pub open spec fn to_first_child(self) -> AppView {
        match self.current_key() {
            Some(key) => {
                let s = if self.rows[self.selected].is_folded() {
                    self.opened(key)
                } else {
                    self
                };
                if s.selected + 1 < s.rows.len() && parent_key(
                    s.rows[s.selected + 1],
                    s.registry.is_multi(),
                ) == Some(key) {
                    AppView { selected: s.selected + 1, ..s }
                } else {
                    s
                }
            },
            None => self,
        }
    }

    /// The state with a command listed among those run on the spot, and its row
    /// selected where it is listed.
    pub open spec fn with_command(self, command: Seq<char>) -> AppView {
        let s = AppView { ad_hoc: listed_once(self.ad_hoc, command), ..self }.rebuilt();
        match command_row(s.rows, command, 0) {
            Some(k) => AppView { selected: k, ..s },
            None => s,
        }
    }

    /// A new filter is being typed.
    pub open spec fn filter_started(self) -> AppView {
        AppView { filter: TextView::seeded(Seq::empty()), filtering: true, ..self }.rebuilt()
    }

    /// The filter after a key.
    pub open spec fn filter_typed(self, code: KeyCode) -> AppView {
        if TextView::edits(code) {
            AppView { filter: self.filter.key(code), ..self }.rebuilt()
        } else {
            self
        }
    }

    /// The filter is gone.
    pub open spec fn filter_cancelled(self) -> AppView {
        AppView { filter: TextView::seeded(Seq::empty()), filtering: false, ..self }.rebuilt()
    }

    /// The source of the selected row, with its directory.
    pub open spec fn current_target(self) -> Option<(int, Seq<char>)> {
        match self.row() {
            Some(RowView::SourceHeader { dir_index, source, .. }) => Some((dir_index, source)),
            Some(RowView::Script { dir_index, source, .. }) => Some((dir_index, source)),
            _ => None,
        }
    }

    /// A new script is being typed, for the source of the selected row. Commands
    /// that are run on the spot are not typed here.
    pub open spec fn add_begun(self) -> AppView {
        match self.current_target() {
            Some((dir_index, source)) => if source != AD_HOC@ {
                AppView { mode: ModeView::Edit(EditView::adding(dir_index, source)), ..self }
            } else {
                self
            },
            None => self,
        }
    }

    /// The selected script is being changed, unless it is a command that was run
    /// on the spot.
    pub open spec fn edit_begun(self) -> AppView {
        match self.selected_script() {
            Some((dir_index, script)) => if script.source != AD_HOC@ {
                AppView {
                    mode: ModeView::Edit(
                        EditView::changing(
                            dir_index,
                            script.source,
                            script.name,
                            script.command,
                        ),
                    ),
                    ..self
                }
            } else {
                self
            },
            None => self,
        }
    }

    /// A command is being typed.
    pub open spec fn run_begun(self) -> AppView {
        AppView { mode: ModeView::Run(TextView::seeded(Seq::empty())), ..self }
    }

    /// The selected heading.
    pub open spec fn current_key(self) -> Option<KeyView> {
        match self.row() {
            Some(row) => row.collapse_key(),
            None => None,
        }
    }

    /// The selected heading open where it was folded up, and the other way round.
    pub open spec fn collapse_toggled(self) -> AppView {
        match self.current_key() {
            Some(key) => if self.collapsed.contains(key) {
                self.opened(key)
            } else {
                self.folded(key)
            },
            None => self,
        }
    }

    /// The selected heading folded up or open.
    pub open spec fn collapse_set(self, collapsed: bool) -> AppView {
        match self.current_key() {
            Some(key) => if collapsed {
                self.folded(key)
            } else {
                self.opened(key)
            },
            None => self,
        }
    }

    /// The process of a script, where it has one that is known.
    pub open spec fn process(self, key: ScriptKeyView) -> Option<(ProcId, ProcessView)> {
        match process_of(self.script_to_proc, key.dir_index, key.source, key.name) {
            Some(id) => if self.procs.dom().contains(id) {
                Some((id, self.procs[id]))
            } else {
                None
            },
            None => None,
        }
    }

    /// The process of the selected script.
    pub open spec fn focused(self) -> Option<(ProcId, ProcessView)> {
        match self.selected_key() {
            Some(key) => self.process(key),
            None => None,
        }
    }
}

// --- the operations ---------------------------------------------------------------

/// The row of a script.
fn find_script_row(rows: &Vec<Row>, dir_index: usize, source: SourceId, name: &str) -> (found: Option<
    usize,
>)
    ensures
        match found {
            Some(k) => script_row(
                row_views(rows@),
                ScriptKeyView { dir_index: dir_index as int, source: source@, name: name@ },
                0,
            ) == Some(k as int) && k < rows@.len(),
            None => script_row(
                row_views(rows@),
                ScriptKeyView { dir_index: dir_index as int, source: source@, name: name@ },
                0,
            ) is None,
        },
{
    let ghost key = ScriptKeyView { dir_index: dir_index as int, source: source@, name: name@ };
    let mut i: usize = 0;
    while i < rows.len()
        invariant
            i <= rows.len(),
            key == (ScriptKeyView { dir_index: dir_index as int, source: source@, name: name@ }),
            script_row(row_views(rows@), key, 0) == script_row(row_views(rows@), key, i as int),
        decreases rows.len() - i,
    {
        let row = &rows[i];
        assert(row_views(rows@)[i as int] == row@);
        if let Row::Script { dir_index: d, source: s, name: n } = row {
            if *d == dir_index && s.same(source) && same_text(n.as_str(), name) {
                return Some(i);
            }
        }
        i += 1;
    }
    None
}

/// The row of a command that was run on the spot.
fn find_command_row(rows: &Vec<Row>, name: &str) -> (found: Option<usize>)
    ensures
        match found {
            Some(k) => command_row(row_views(rows@), name@, 0) == Some(k as int) && k < rows@.len(),
            None => command_row(row_views(rows@), name@, 0) is None,
        },
{
    let mut i: usize = 0;
    while i < rows.len()
        invariant
            i <= rows.len(),
            command_row(row_views(rows@), name@, 0) == command_row(
                row_views(rows@),
                name@,
                i as int,
            ),
        decreases rows.len() - i,
    {
        let row = &rows[i];
        assert(row_views(rows@)[i as int] == row@);
        if let Row::Script { source: s, name: n, .. } = row {
            if s.same(SourceId(AD_HOC)) && same_text(n.as_str(), name) {
                return Some(i);
            }
        }
        i += 1;
    }
    None
}

/// The heading that a row is, if it is one.
fn key_of(row: &Row) -> (key: Option<CollapseKey>)
    ensures
        match key {
            Some(k) => row@.collapse_key() == Some(k@),
            None => row@.collapse_key() is None,
        },
{
    match row {
        Row::DirHeader { dir_index, .. } => Some(CollapseKey::Dir(*dir_index)),
        Row::SourceHeader { dir_index, source, .. } => Some(
            CollapseKey::Source(*dir_index, *source),
        ),
        Row::Script { .. } => None,
    }
}

/// The heading that stands above a row.
fn parent_of(row: &Row, multi: bool) -> (key: Option<CollapseKey>)
    ensures
        match key {
            Some(k) => parent_key(row@, multi) == Some(k@),
            None => parent_key(row@, multi) is None,
        },
{
    match row {
        Row::Script { dir_index, source, .. } => Some(CollapseKey::Source(*dir_index, *source)),
        Row::SourceHeader { dir_index, source, .. } => if multi && !source.same(SourceId(AD_HOC)) {
            Some(CollapseKey::Dir(*dir_index))
        } else {
            None
        },
        Row::DirHeader { .. } => None,
    }
}

/// Whether a row is a given heading.
pub fn matches_parent(row: &Row, parent: CollapseKey) -> (r: bool)
    ensures
        r == (row@.collapse_key() == Some(parent@)),
{
    match key_of(row) {
        Some(key) => key.same(parent),
        None => false,
    }
}

/// The last of the first `n` rows that is a heading.
fn find_header(rows: &Vec<Row>, parent: CollapseKey, n: usize) -> (found: Option<usize>)
    requires
        n <= rows@.len(),
    ensures
        match found {
            Some(k) => header_above(row_views(rows@), parent@, n as int) == Some(k as int) && k < n,
            None => header_above(row_views(rows@), parent@, n as int) is None,
        },
{
    let mut i: usize = n;
    while i > 0
        invariant
            i <= n <= rows@.len(),
            header_above(row_views(rows@), parent@, n as int) == header_above(
                row_views(rows@),
                parent@,
                i as int,
            ),
        decreases i,
    {
        assert(row_views(rows@)[i - 1] == rows@[i - 1]@);
        if matches_parent(&rows[i - 1], parent) {
            return Some(i - 1);
        }
        i -= 1;
    }
    None
}

impl App {
    /// The state is as it should be.
    pub open spec fn wf(&self) -> bool {
        self@.valid()
    }

    /// The application at its start, with the first script selected.
    pub fn new(registry: Registry, term_cols: u16, term_rows: u16, config: Config) -> (app: App)
        ensures
            app@ == AppView::started(registry@, term_cols, term_rows, config),
            app.wf(),
            !app@.tree().filtered(),
    {
        let mut app = App {
            registry,
            rows: Vec::new(),
            selected: 0,
            collapsed: Collapsed::new(),
            procs: HashMap::new(),
            script_to_proc: ProcTable::new(),
            mode: Mode::Normal,
            next_id: 1,
            term_cols,
            term_rows,
            out_cols: 1,
            out_rows: 1,
            error: None,
            config,
            ad_hoc: Vec::new(),
            filter: TextInput::new(),
            filtering: false,
            awaiting_z: false,
        };
        assert(app@.rows =~= Seq::empty());
        assert(app@.procs =~= Map::empty());
        assert(app@.ad_hoc =~= Seq::empty());
        app.rebuild_rows();
        app.selected = match app.first_script_index() {
            Some(k) => k,
            None => 0,
        };
        app.recompute_output_size();
        app
    }

    /// Whether several directories are shown.
    pub fn is_multi(&self) -> (r: bool)
        ensures
            r == self@.registry.is_multi(),
    {
        self.registry.is_multi()
    }

    /// The width of the list, borders included.
    pub fn scripts_width(&self) -> (width: u16)
        ensures
            width == self@.scripts_width(),
    {
        let content: u32 = if self.registry.is_empty() {
            EMPTY_WIDTH as u32
        } else {
            content_width(&self.registry.directories, &self.ad_hoc)
        };
        fit_list(content, self.term_cols)
    }

    /// Takes the output's size from the terminal's.
    pub fn recompute_output_size(&mut self)
        ensures
            final(self)@ == old(self)@.resized(),
            final(self)@.out_cols >= 1,
            final(self)@.out_rows >= 1,
            old(self).wf() ==> final(self).wf(),
    {
        let width: u16 = self.scripts_width();
        let size: (u16, u16) = output_size(self.term_cols, self.term_rows, width);
        self.out_cols = size.0;
        self.out_rows = size.1;
    }

    /// Takes over directories that were read anew. The selection goes back to the
    /// script that it is on, where that is still listed.
    pub fn reload(&mut self, registry: Registry)
        requires
            old(self).wf(),
        ensures
            final(self).wf(),
            final(self)@ == old(self)@.reloaded(registry@),
    {
        let before = self.selected_script();
        self.registry = registry;
        self.rebuild_rows();
        if let Some((dir_index, script)) = before {
            if let Some(k) = find_script_row(
                &self.rows,
                dir_index,
                script.source,
                script.name.as_str(),
            ) {
                self.selected = k;
            }
        }
    }

    /// Makes the rows anew.
    pub fn rebuild_rows(&mut self)
        ensures
            final(self)@ == old(self)@.rebuilt(),
            final(self)@.rows == final(self)@.tree().rows(),
            final(self)@.selection_inside(),
            final(self)@.filter.text.len() > 0 <==> final(self)@.tree().filtered(),
    {
        let needle = self.filter.as_str().to_lowercase();
        self.rows =
        build_rows(&self.registry.directories, &self.collapsed, needle.as_str(), &self.ad_hoc);
        self.normalize_selection();
    }

    /// The first script of the list.
    fn first_script_index(&self) -> (found: Option<usize>)
        ensures
            match found {
                Some(k) => first_script(self@.rows, 0) == Some(k as int) && k < self@.rows.len(),
                None => first_script(self@.rows, 0) is None,
            },
    {
        let mut i: usize = 0;
        while i < self.rows.len()
            invariant
                i <= self.rows.len(),
                first_script(self@.rows, 0) == first_script(self@.rows, i as int),
            decreases self.rows.len() - i,
        {
            assert(self@.rows[i as int] == self.rows@[i as int]@);
            if self.rows[i].is_script() {
                return Some(i);
            }
            i += 1;
        }
        None
    }

    /// Brings the selection back to the rows that there are.
    fn normalize_selection(&mut self)
        ensures
            final(self)@ == (AppView {
                selected: if old(self)@.rows.len() == 0 {
                    0
                } else if old(self)@.selected >= old(self)@.rows.len() {
                    old(self)@.rows.len() - 1
                } else {
                    old(self)@.selected
                },
                ..old(self)@
            }),
    {
        if self.rows.len() == 0 {
            self.selected = 0;
        } else if self.selected >= self.rows.len() {
            self.selected = self.rows.len() - 1;
        }
    }

    /// One row down.
    pub fn select_next(&mut self)
        requires
            old(self).wf(),
        ensures
            final(self).wf(),
            final(self)@ == old(self)@.next(),
    {
        if self.rows.len() > 0 && self.selected < self.rows.len() - 1 {
            self.selected += 1;
        }
    }

    /// One row up.
    pub fn select_prev(&mut self)
        requires
            old(self).wf(),
        ensures
            final(self).wf(),
            final(self)@ == old(self)@.prev(),
    {
        if self.selected > 0 {
            self.selected -= 1;
        }
    }

    /// Up to the heading above: from a script to its source's, from there to its
    /// directory's. From the heading of the commands run on the spot no way leads up.
    pub fn select_header(&mut self)
        requires
            old(self).wf(),
        ensures
            final(self).wf(),
            final(self)@ == old(self)@.to_header(),
    {
        if self.selected >= self.rows.len() {
            return;
        }
        let multi = self.is_multi();
        assert(self@.rows[self.selected as int] == self.rows@[self.selected as int]@);
        let parent = parent_of(&self.rows[self.selected], multi);
        if let Some(key) = parent {
            if let Some(k) = find_header(&self.rows, key, self.selected) {
                self.selected = k;
            }
        }
    }

    /// Down to the first row below a heading, which is opened for it: from a
    /// directory's to a source's, from there to a script.
    pub fn select_first_child(&mut self)
        requires
            old(self).wf(),
        ensures
            final(self).wf(),
            final(self)@ == old(self)@.to_first_child(),
    {
        if self.selected >= self.rows.len() {
            return;
        }
        assert(self@.rows[self.selected as int] == self.rows@[self.selected as int]@);
        let key = match key_of(&self.rows[self.selected]) {
            Some(key) => key,
            None => {
                return;
            },
        };
        if self.rows[self.selected].is_folded() {
            self.collapsed.remove(key);
            self.rebuild_rows();
        }
        let multi = self.is_multi();
        if self.rows.len() > 0 && self.selected < self.rows.len() - 1 {
            assert(self@.rows[self.selected + 1] == self.rows@[self.selected + 1]@);
            if let Some(parent) = parent_of(&self.rows[self.selected + 1], multi) {
                if parent.same(key) {
                    self.selected += 1;
                }
            }
        }
    }

    /// Starts typing a new script for the source of the selected row.
    pub fn begin_add(&mut self)
        requires
            old(self).wf(),
        ensures
            final(self).wf(),
            final(self)@ == old(self)@.add_begun(),
    {
        if let Some((dir_index, source)) = self.current_target() {
            if !source.same(SourceId(AD_HOC)) {
                self.mode =
                Mode::Edit(
                    EditState {
                        dir_index,
                        source,
                        original: None,
                        name: TextInput::new(),
                        command: TextInput::new(),
                        field: EditField::Name,
                    },
                );
            }
        }
    }

    /// Starts changing the selected script.
    pub fn begin_edit(&mut self)
        requires
            old(self).wf(),
        ensures
            final(self).wf(),
            final(self)@ == old(self)@.edit_begun(),
    {
        if let Some((dir_index, script)) = self.selected_script() {
            if !script.source.same(SourceId(AD_HOC)) {
                self.mode =
                Mode::Edit(
                    EditState {
                        dir_index,
                        source: script.source,
                        original: Some(script.name.clone()),
                        name: TextInput::seeded(script.name),
                        command: TextInput::seeded(script.command),
                        field: EditField::Name,
                    },
                );
            }
        }
    }

    /// Starts typing a command to run on the spot.
    pub fn begin_run(&mut self)
        requires
            old(self).wf(),
        ensures
            final(self).wf(),
            final(self)@ == old(self)@.run_begun(),
    {
        self.mode = Mode::Run(TextInput::new());
    }

    /// Lists a command among those run on the spot, and selects it.
    pub fn add_adhoc(&mut self, command: String)
        requires
            old(self).wf(),
        ensures
            final(self).wf(),
            final(self)@ == old(self)@.with_command(command@),
    {
        let mut known = false;
        let mut i: usize = 0;
        while i < self.ad_hoc.len()
            invariant
                i <= self.ad_hoc.len(),
                *self == *old(self),
                known == exists|k: int|
                    0 <= k < i && #[trigger] texts(self.ad_hoc@)[k] == command@,
            decreases self.ad_hoc.len() - i,
        {
            assert(texts(self.ad_hoc@)[i as int] == self.ad_hoc@[i as int]@);
            if same_text(self.ad_hoc[i].as_str(), command.as_str()) {
                known = true;
            }
            i += 1;
        }
        assert(known == self@.ad_hoc.contains(command@));
        let ghost command_text = command@;
        let row = command.clone();
        if !known {
            self.ad_hoc.push(command);
            assert(self@.ad_hoc =~= old(self)@.ad_hoc.push(command@));
        }
        proof {
            lemma_listed_once(old(self)@.ad_hoc, command_text);
        }
        self.rebuild_rows();
        if let Some(k) = find_command_row(&self.rows, row.as_str()) {
            self.selected = k;
        }
    }

    /// Whether a filter is being typed.
    pub fn is_filtering(&self) -> (r: bool)
        ensures
            r == self@.filtering,
    {
        self.filtering
    }

    /// The filter.
    pub fn filter_query(&self) -> (text: &str)
        ensures
            text@ == self@.filter.text,
    {
        self.filter.as_str()
    }

    /// Where the cursor stands in the filter.
    pub fn filter_cursor(&self) -> (at: usize)
        ensures
            at == self@.filter.cursor,
    {
        self.filter.cursor()
    }

    /// Starts typing a filter, from nothing.
    pub fn start_filter(&mut self)
        requires
            old(self).wf(),
        ensures
            final(self).wf(),
            final(self)@ == old(self)@.filter_started(),
            !final(self)@.tree().filtered(),
    {
        self.filter.clear();
        self.filtering = true;
        self.rebuild_rows();
    }

    /// Gives a key to the filter.
    pub fn filter_key(&mut self, code: KeyCode)
        requires
            old(self).wf(),
        ensures
            final(self).wf(),
            final(self)@ == old(self)@.filter_typed(code),
    {
        let ghost before = self.filter@;
        if self.filter.handle_key(code) {
            self.rebuild_rows();
        } else {
            assert(self.filter@ == before);
        }
    }

    /// Stops typing the filter, and keeps it.
    pub fn confirm_filter(&mut self)
        requires
            old(self).wf(),
        ensures
            final(self).wf(),
            final(self)@ == (AppView { filtering: false, ..old(self)@ }),
    {
        self.filtering = false;
    }

    /// Drops the filter.
    pub fn cancel_filter(&mut self)
        requires
            old(self).wf(),
        ensures
            final(self).wf(),
            final(self)@ == old(self)@.filter_cancelled(),
            !final(self)@.tree().filtered(),
    {
        self.filtering = false;
        self.filter.clear();
        self.rebuild_rows();
    }

    /// The source of the selected row, with its directory; nothing on a
    /// directory's heading.
    pub fn current_target(&self) -> (target: Option<(usize, SourceId)>)
        ensures
            match target {
                Some((d, source)) => self@.current_target() == Some((d as int, source@)),
                None => self@.current_target() is None,
            },
    {
        if self.selected >= self.rows.len() {
            return None;
        }
        assert(self@.rows[self.selected as int] == self.rows@[self.selected as int]@);
        match &self.rows[self.selected] {
            Row::SourceHeader { dir_index, source, .. } => Some((*dir_index, *source)),
            Row::Script { dir_index, source, .. } => Some((*dir_index, *source)),
            Row::DirHeader { .. } => None,
        }
    }

    /// The selected heading.
    pub fn current_collapse_key(&self) -> (key: Option<CollapseKey>)
        ensures
            match key {
                Some(k) => self@.current_key() == Some(k@),
                None => self@.current_key() is None,
            },
    {
        if self.selected >= self.rows.len() {
            return None;
        }
        assert(self@.rows[self.selected as int] == self.rows@[self.selected as int]@);
        key_of(&self.rows[self.selected])
    }

    /// The selected script, with its directory; nothing on a heading.
    pub fn selected_script(&self) -> (found: Option<(usize, Script)>)
        ensures
            match found {
                Some((d, script)) => self@.selected_script() == Some((d as int, script@)),
                None => self@.selected_script() is None,
            },
    {
        if self.selected >= self.rows.len() {
            return None;
        }
        assert(self@.rows[self.selected as int] == self.rows@[self.selected as int]@);
        match &self.rows[self.selected] {
            Row::Script { dir_index, source, name } => {
                if source.same(SourceId(AD_HOC)) {
                    let script = Script {
                        name: name.clone(),
                        source: SourceId(AD_HOC),
                        command: name.clone(),
                    };
                    Some((*dir_index, script))
                } else {
                    match self.registry.script(*dir_index, *source, name.as_str()) {
                        Some(script) => Some((*dir_index, script.clone())),
                        None => None,
                    }
                }
            },
            _ => None,
        }
    }

    /// What the selected script runs.
    pub fn selected_command(&self) -> (command: Option<&str>)
        ensures
            match command {
                Some(text) => self@.selected_script() matches Some((_, script)) && script.command
                    == text@,
                None => self@.selected_script() is None,
            },
    {
        if self.selected >= self.rows.len() {
            return None;
        }
        assert(self@.rows[self.selected as int] == self.rows@[self.selected as int]@);
        match &self.rows[self.selected] {
            Row::Script { dir_index, source, name } => {
                if source.same(SourceId(AD_HOC)) {
                    Some(name.as_str())
                } else {
                    match self.registry.script(*dir_index, *source, name.as_str()) {
                        Some(script) => Some(script.command.as_str()),
                        None => None,
                    }
                }
            },
            _ => None,
        }
    }

    /// Whether a heading is selected.
    pub fn selected_is_header(&self) -> (r: bool)
        ensures
            r == self@.selected_is_header(),
    {
        if self.selected >= self.rows.len() {
            return false;
        }
        assert(self@.rows[self.selected as int] == self.rows@[self.selected as int]@);
        self.rows[self.selected].is_header()
    }

    /// Opens the selected heading where it is folded up, and folds it up where it
    /// is open.
    pub fn toggle_collapse_current(&mut self)
        requires
            old(self).wf(),
        ensures
            final(self).wf(),
            final(self)@ == old(self)@.collapse_toggled(),
    {
        if let Some(key) = self.current_collapse_key() {
            if self.collapsed.contains(key) {
                self.collapsed.remove(key);
            } else {
                self.collapsed.insert(key);
            }
            self.rebuild_rows();
        }
    }

    /// Folds the selected heading up, or opens it.
    pub fn set_collapse_current(&mut self, collapsed: bool)
        requires
            old(self).wf(),
        ensures
            final(self).wf(),
            final(self)@ == old(self)@.collapse_set(collapsed),
    {
        if let Some(key) = self.current_collapse_key() {
            if collapsed {
                self.collapsed.insert(key);
            } else {
                self.collapsed.remove(key);
            }
            self.rebuild_rows();
        }
    }

    /// The process of the selected script.
    pub fn focused_id(&self) -> (id: Option<ProcId>)
        ensures
            match id {
                Some(i) => self@.focused() matches Some((k, _)) && k == i,
                None => self@.focused() is None,
            },
    {
        match self.selected_script() {
            Some((dir_index, script)) => match self.script_to_proc.get(
                dir_index,
                script.source,
                script.name.as_str(),
            ) {
                Some(id) => if self.procs.contains_key(&id) {
                    Some(id)
                } else {
                    None
                },
                None => None,
            },
            None => None,
        }
    }

    /// The process that the output shows: that of the selected script.
    pub fn focused_proc(&self) -> (found: Option<&Process>)
        ensures
            match found {
                Some(p) => self@.focused() matches Some((_, view)) && view == p@,
                None => self@.focused() is None,
            },
    {
        match self.focused_id() {
            Some(id) => self.procs.get(&id),
            None => None,
        }
    }

    /// How a script's process stands.
    pub fn status_of(&self, dir_index: usize, source: SourceId, name: &str) -> (status: Option<
        ProcStatus,
    >)
        ensures
            status == match self@.process(
                ScriptKeyView { dir_index: dir_index as int, source: source@, name: name@ },
            ) {
                Some((_, p)) => Some(p.status),
                None => None,
            },
    {
        match self.script_to_proc.get(dir_index, source, name) {
            Some(id) => match self.procs.get(&id) {
                Some(process) => Some(process.status),
                None => None,
            },
            None => None,
        }
    }
}

} // verus!
