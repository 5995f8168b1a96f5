//! What the application does when something happens: a key, a new size, a file
//! that changed, a process that ended.

use vstd::prelude::*;
use vstd::string::*;

use crate::app::{App, AppView, Mode, ModeView};
use crate::copy_mode::{CopyOutcome, CopyState, CopyView, OutcomeView};
use crate::edit::{name_view, EditOutcome, EditView};
use crate::grid::Grid;
use crate::keys::{KeyCode, KeyModifiers};
use crate::proc_table::{process_of, ScriptKey, ScriptKeyView};
use crate::runner::{ProcEvent, ProcId, ProcStatus, Process, ProcessView};
use crate::source::registry::{Registry, RegistryView};
use crate::source::{
    package_json, scripts_json, text_view, CommandSpec, Script, ScriptSource, ScriptView,
    SourceError, SourceId, Surroundings,
};
use crate::text::{same_text, trim, trimmed};
use crate::text_input::TextView;

verus! {

broadcast use vstd::std_specs::hash::group_hash_axioms;

// --- requests -----------------------------------------------------------------

/// A script to be written to its file.
pub struct SaveRequest {
    pub dir_index: usize,
    pub source: SourceId,
    /// The name that the script had; `None` where it is a new one.
    pub original: Option<String>,
    pub name: String,
    pub command: String,
}

/// A script to be written, by its texts.
#[verifier::ext_equal]
pub ghost struct SaveView {
    pub dir_index: int,
    pub source: Seq<char>,
    pub original: Option<Seq<char>>,
    pub name: Seq<char>,
    pub command: Seq<char>,
}

impl View for SaveRequest {
    type V = SaveView;

    open spec fn view(&self) -> SaveView {
        SaveView {
            dir_index: self.dir_index as int,
            source: self.source@,
            original: name_view(self.original),
            name: self.name@,
            command: self.command@,
        }
    }
}

/// A script to be started.
pub struct StartRequest {
    pub dir_index: usize,
    pub script: Script,
    /// The process that it was started as before, to be killed.
    pub kill: Option<ProcId>,
}

/// A script to be started, by its texts.
#[verifier::ext_equal]
pub ghost struct StartView {
    pub dir_index: int,
    pub script: ScriptView,
    pub kill: Option<ProcId>,
}

impl View for StartRequest {
    type V = StartView;

    open spec fn view(&self) -> StartView {
        StartView { dir_index: self.dir_index as int, script: self.script@, kill: self.kill }
    }
}

/// What is to be done outside of the state.
pub enum Action {
    Nothing,
    /// The application ends.
    Quit,
    /// A text is copied.
    Copy(String),
    /// A script is written to its file.
    Save(SaveRequest),
    /// A script is started.
    Start(StartRequest),
    /// A process is interrupted.
    Interrupt(ProcId),
    /// The output of a process is frozen, for copying from it.
    Freeze(ProcId),
}

/// What is to be done, by its texts.
#[verifier::ext_equal]
pub ghost enum ActionView {
    Nothing,
    Quit,
    Copy(Seq<char>),
    Save(SaveView),
    Start(StartView),
    Interrupt(ProcId),
    Freeze(ProcId),
}

impl View for Action {
    type V = ActionView;

    open spec fn view(&self) -> ActionView {
        match self {
            Action::Nothing => ActionView::Nothing,
            Action::Quit => ActionView::Quit,
            Action::Copy(text) => ActionView::Copy(text@),
            Action::Save(request) => ActionView::Save(request@),
            Action::Start(request) => ActionView::Start(request@),
            Action::Interrupt(id) => ActionView::Interrupt(*id),
            Action::Freeze(id) => ActionView::Freeze(*id),
        }
    }
}

// --- what the keys do ---------------------------------------------------------------

impl AppView {
    /// The state without the process of the selected script.
    pub open spec fn stopped(self) -> AppView {
        match self.selected_key() {
            Some(key) => {
                let old_id = process_of(
                    self.script_to_proc,
                    key.dir_index,
                    key.source,
                    key.name,
                );
                AppView {
                    script_to_proc: self.script_to_proc.remove(key),
                    procs: match old_id {
                        Some(id) => self.procs.remove(id),
                        None => self.procs,
                    },
                    ..self
                }
            },
            None => self,
        }
    }

    /// Starting the selected script, whose process so far is killed.
    pub open spec fn start_action(self) -> ActionView {
        match self.selected_script() {
            Some((dir_index, script)) => ActionView::Start(
                StartView {
                    dir_index,
                    script,
                    kill: match self.focused() {
                        Some((id, _)) => Some(id),
                        None => None,
                    },
                },
            ),
            None => ActionView::Nothing,
        }
    }

    /// The selected script is running.
    pub open spec fn selected_running(self) -> bool {
        self.focused() matches Some((_, process)) && process.status == ProcStatus::Running
    }

    /// Enter or space in the list: a heading is opened or folded up, a script
    /// that runs is stopped, and one that does not is started.
    pub open spec fn space(self) -> (AppView, ActionView) {
        if self.selected_is_header() {
            (self.collapse_toggled(), ActionView::Nothing)
        } else if self.selected_running() {
            (
                self,
                match self.focused() {
                    Some((id, _)) => ActionView::Interrupt(id),
                    None => ActionView::Nothing,
                },
            )
        } else {
            (self.stopped(), self.start_action())
        }
    }

    /// A key in the list; `z` says whether the key before was one.
    pub open spec fn list_key(self, code: KeyCode, z: bool) -> (AppView, ActionView) {
        match code {
            KeyCode::Char('q') => (self, ActionView::Quit),
            KeyCode::Char('j') | KeyCode::Down => (self.next(), ActionView::Nothing),
            KeyCode::Char('k') | KeyCode::Up => (self.prev(), ActionView::Nothing),
            KeyCode::Char('h') | KeyCode::Left => (self.to_header(), ActionView::Nothing),
            KeyCode::Char('l') | KeyCode::Right => (self.to_first_child(), ActionView::Nothing),
            KeyCode::Char('/') => (self.filter_started(), ActionView::Nothing),
            KeyCode::Enter | KeyCode::Char(' ') => self.space(),
            KeyCode::Char('z') => (AppView { awaiting_z: true, ..self }, ActionView::Nothing),
            KeyCode::Char('a') => if z {
                (self.collapse_toggled(), ActionView::Nothing)
            } else {
                (self.add_begun(), ActionView::Nothing)
            },
            KeyCode::Char('o') => if z {
                (self.collapse_set(false), ActionView::Nothing)
            } else {
                (self, ActionView::Nothing)
            },
            KeyCode::Char('c') => if z {
                (self.collapse_set(true), ActionView::Nothing)
            } else {
                (self, ActionView::Nothing)
            },
            KeyCode::Char('e') => (self.edit_begun(), ActionView::Nothing),
            KeyCode::Char('!') => (self.run_begun(), ActionView::Nothing),
            KeyCode::Char('v') => (
                self,
                match self.focused() {
                    Some((id, _)) => ActionView::Freeze(id),
                    None => ActionView::Nothing,
                },
            ),
            _ => (self, ActionView::Nothing),
        }
    }

    /// A key while the filter is typed.
    pub open spec fn filter_mode_key(self, code: KeyCode) -> AppView {
        match code {
            KeyCode::Esc => self.filter_cancelled(),
            KeyCode::Enter => AppView { filtering: false, ..self },
            _ => self.filter_typed(code),
        }
    }

    /// The list has the keys.
    pub open spec fn normal(self) -> AppView {
        AppView { mode: ModeView::Normal, ..self }
    }

    /// A key while text is copied.
    pub open spec fn copy_key(self, state: CopyView, code: KeyCode, mods: KeyModifiers) -> (
        AppView,
        ActionView,
    ) {
        match state.outcome(code) {
            OutcomeView::Stay => (
                AppView {
                    mode: ModeView::Copy(state.key(code, mods, self.out_rows as int)),
                    ..self
                },
                ActionView::Nothing,
            ),
            OutcomeView::Cancel => (self.normal(), ActionView::Nothing),
            OutcomeView::Yank(text) => (self.normal(), ActionView::Copy(text)),
        }
    }

    /// A key while a script is typed.
    pub open spec fn edit_key(self, state: EditView, code: KeyCode) -> (AppView, ActionView) {
        match state.outcome(code) {
            EditOutcome::Stay => (
                AppView { mode: ModeView::Edit(state.key(code)), ..self },
                ActionView::Nothing,
            ),
            EditOutcome::Cancel => (self.normal(), ActionView::Nothing),
            EditOutcome::Commit => (
                self.normal(),
                ActionView::Save(
                    SaveView {
                        dir_index: state.dir_index,
                        source: state.source,
                        original: state.original,
                        name: trimmed(state.name.text),
                        command: state.command.text,
                    },
                ),
            ),
        }
    }

    /// A key while a command is typed. Enter runs it, unless it is blank.
    pub open spec fn run_key(self, input: TextView, code: KeyCode) -> (AppView, ActionView) {
        match code {
            KeyCode::Esc => (self.normal(), ActionView::Nothing),
            KeyCode::Enter => {
                let command = trimmed(input.text);
                if command.len() > 0 {
                    let listed = self.normal().with_command(command);
                    (listed.stopped(), listed.start_action())
                } else {
                    (self.normal(), ActionView::Nothing)
                }
            },
            _ => (AppView { mode: ModeView::Run(input.key(code)), ..self }, ActionView::Nothing),
        }
    }

    /// A key, whatever it goes to.
    pub open spec fn key(self, code: KeyCode, mods: KeyModifiers) -> (AppView, ActionView) {
        if code == KeyCode::Char('c') && mods.control {
            (self, ActionView::Quit)
        } else {
            match self.mode {
                ModeView::Copy(state) => self.copy_key(state, code, mods),
                ModeView::Edit(state) => self.edit_key(state, code),
                ModeView::Run(input) => self.run_key(input, code),
                ModeView::Normal => if self.filtering {
                    (self.filter_mode_key(code), ActionView::Nothing)
                } else {
                    (AppView { awaiting_z: false, ..self }).list_key(code, self.awaiting_z)
                },
            }
        }
    }
}

impl App {
    /// Whether the selected script is running.
    fn is_selected_running(&self) -> (r: bool)
        ensures
            r == self@.selected_running(),
    {
        match self.focused_proc() {
            Some(process) => match process.status {
                ProcStatus::Running => true,
                _ => false,
            },
            None => false,
        }
    }

    /// Takes the process of the selected script out, and asks for the script to
    /// be started.
    fn run_selected(&mut self) -> (action: Action)
        requires
            old(self).wf(),
        ensures
            final(self).wf(),
            final(self)@ == old(self)@.stopped(),
            action@ == old(self)@.start_action(),
    {
        match self.selected_script() {
            Some((dir_index, script)) => {
                let kill = self.focused_id();
                let old_id = self.script_to_proc.remove(
                    dir_index,
                    script.source,
                    script.name.as_str(),
                );
                if let Some(id) = old_id {
                    let ghost before = self.procs@;
                    self.procs.remove(&id);
                    assert(crate::app::process_views(self.procs@) =~= crate::app::process_views(
                        before,
                    ).remove(id));
                }
                assert(self@ =~= old(self)@.stopped());
                Action::Start(StartRequest { dir_index, script, kill })
            },
            None => Action::Nothing,
        }
    }

    /// Enter or space in the list.
    fn space_action(&mut self) -> (action: Action)
        requires
            old(self).wf(),
        ensures
            final(self).wf(),
            (final(self)@, action@) == old(self)@.space(),
    {
        if self.selected_is_header() {
            self.toggle_collapse_current();
            return Action::Nothing;
        }
        if self.is_selected_running() {
            return match self.focused_id() {
                Some(id) => Action::Interrupt(id),
                None => Action::Nothing,
            };
        }
        self.run_selected()
    }

    /// A key in the list.
    fn list_key(&mut self, code: KeyCode, z: bool) -> (action: Action)
        requires
            old(self).wf(),
        ensures
            final(self).wf(),
            (final(self)@, action@) == old(self)@.list_key(code, z),
    {
        match code {
            KeyCode::Char('q') => {
                return Action::Quit;
            },
            KeyCode::Char('j') | KeyCode::Down => self.select_next(),
            KeyCode::Char('k') | KeyCode::Up => self.select_prev(),
            KeyCode::Char('h') | KeyCode::Left => self.select_header(),
            KeyCode::Char('l') | KeyCode::Right => self.select_first_child(),
            KeyCode::Char('/') => self.start_filter(),
            KeyCode::Enter | KeyCode::Char(' ') => {
                return self.space_action();
            },
            KeyCode::Char('z') => {
                self.awaiting_z = true;
            },
            KeyCode::Char('a') => {
                if z {
                    self.toggle_collapse_current();
                } else {
                    self.begin_add();
                }
            },
            KeyCode::Char('o') => {
                if z {
                    self.set_collapse_current(false);
                }
            },
            KeyCode::Char('c') => {
                if z {
                    self.set_collapse_current(true);
                }
            },
            KeyCode::Char('e') => self.begin_edit(),
            KeyCode::Char('!') => self.begin_run(),
            KeyCode::Char('v') => {
                return match self.focused_id() {
                    Some(id) => Action::Freeze(id),
                    None => Action::Nothing,
                };
            },
            _ => {},
        }
        Action::Nothing
    }

    /// A key while the filter is typed.
    fn filter_mode_key(&mut self, code: KeyCode)
        requires
            old(self).wf(),
        ensures
            final(self).wf(),
            final(self)@ == old(self)@.filter_mode_key(code),
    {
        match code {
            KeyCode::Esc => self.cancel_filter(),
            KeyCode::Enter => self.confirm_filter(),
            other => self.filter_key(other),
        }
    }

    /// A key while text is copied.
    fn copy_key(&mut self, code: KeyCode, mods: KeyModifiers) -> (action: Action)
        requires
            old(self).wf(),
            old(self)@.mode is Copy,
        ensures
            final(self).wf(),
            (final(self)@, action@) == old(self)@.copy_key(old(self)@.mode->Copy_0, code, mods),
    {
        let viewport: usize = self.out_rows as usize;
        let outcome = match &mut self.mode {
            Mode::Copy(state) => state.handle_key(code, mods, viewport),
            _ => CopyOutcome::Stay,
        };
        match outcome {
            CopyOutcome::Stay => Action::Nothing,
            CopyOutcome::Cancel => {
                self.mode = Mode::Normal;
                Action::Nothing
            },
            CopyOutcome::Yank(text) => {
                self.mode = Mode::Normal;
                Action::Copy(text)
            },
        }
    }

    /// A key while a script is typed.
    fn edit_key(&mut self, code: KeyCode) -> (action: Action)
        requires
            old(self).wf(),
            old(self)@.mode is Edit,
        ensures
            final(self).wf(),
            (final(self)@, action@) == old(self)@.edit_key(old(self)@.mode->Edit_0, code),
    {
        let outcome = match &mut self.mode {
            Mode::Edit(state) => state.handle_key(code),
            _ => EditOutcome::Stay,
        };
        match outcome {
            EditOutcome::Stay => Action::Nothing,
            EditOutcome::Cancel => {
                self.mode = Mode::Normal;
                Action::Nothing
            },
            EditOutcome::Commit => {
                let request = match &self.mode {
                    Mode::Edit(state) => {
                        let original = match &state.original {
                            Some(name) => Some(name.clone()),
                            None => None,
                        };
                        SaveRequest {
                            dir_index: state.dir_index,
                            source: state.source,
                            original,
                            name: trim(state.name.as_str()),
                            command: state.command.as_str().to_string(),
                        }
                    },
                    _ => {
                        return Action::Nothing;
                    },
                };
                self.mode = Mode::Normal;
                Action::Save(request)
            },
        }
    }

    /// A key while a command is typed.
    fn run_key(&mut self, code: KeyCode) -> (action: Action)
        requires
            old(self).wf(),
            old(self)@.mode is Run,
        ensures
            final(self).wf(),
            (final(self)@, action@) == old(self)@.run_key(old(self)@.mode->Run_0, code),
    {
        match code {
            KeyCode::Esc => {
                self.mode = Mode::Normal;
                Action::Nothing
            },
            KeyCode::Enter => {
                let command = match &self.mode {
                    Mode::Run(input) => trim(input.as_str()),
                    _ => String::new(),
                };
                self.mode = Mode::Normal;
                if command.as_str().unicode_len() > 0 {
                    self.add_adhoc(command);
                    self.run_selected()
                } else {
                    Action::Nothing
                }
            },
            other => {
                if let Mode::Run(input) = &mut self.mode {
                    input.handle_key(other);
                }
                Action::Nothing
            },
        }
    }

    /// Handles a key.
    pub fn on_key(&mut self, code: KeyCode, mods: KeyModifiers) -> (action: Action)
        requires
            old(self).wf(),
        ensures
            final(self).wf(),
            (final(self)@, action@) == old(self)@.key(code, mods),
    {
        if mods.control {
            if let KeyCode::Char('c') = code {
                return Action::Quit;
            }
        }
        match &self.mode {
            Mode::Copy(_) => self.copy_key(code, mods),
            Mode::Edit(_) => self.edit_key(code),
            Mode::Run(_) => self.run_key(code),
            Mode::Normal => {
                if self.is_filtering() {
                    self.filter_mode_key(code);
                    Action::Nothing
                } else {
                    let z = self.awaiting_z;
                    self.awaiting_z = false;
                    self.list_key(code, z)
                }
            },
        }
    }
}

// --- what comes of a request --------------------------------------------------------

/// A process to be started, of a given size, with the lines of output to keep.
pub struct Launch {
    pub id: ProcId,
    pub spec: CommandSpec,
    pub rows: u16,
    pub cols: u16,
    pub scrollback: usize,
}

impl AppView {
    /// The state with directories that were read anew, and with the output's size
    /// taken anew.
    pub open spec fn rediscovered(self, registry: RegistryView) -> AppView {
        self.reloaded(registry).resized()
    }

    /// The number has been given out and is in use by no process.
    pub open spec fn unused(self, id: ProcId) -> bool {
        &&& id < self.next_id
        &&& !self.procs.dom().contains(id)
        &&& forall|key: ScriptKeyView| #[trigger]
            self.script_to_proc.dom().contains(key) ==> self.script_to_proc[key] != id
    }

    /// The state with a process that was started for a script.
    pub open spec fn running(self, key: ScriptKeyView, id: ProcId) -> AppView {
        AppView {
            procs: self.procs.insert(
                id,
                ProcessView { script: key.name, status: ProcStatus::Running },
            ),
            script_to_proc: self.script_to_proc.insert(key, id),
            error: None,
            ..self
        }
    }

    /// The state in which a process, where it is known, stands otherwise.
    pub open spec fn exited(self, id: ProcId, status: ProcStatus) -> AppView {
        if self.procs.dom().contains(id) {
            AppView {
                procs: self.procs.insert(
                    id,
                    ProcessView { script: self.procs[id].script, status },
                ),
                ..self
            }
        } else {
            self
        }
    }
}

impl App {
    /// The text to write to a script's file, from the text that the file has.
    pub fn save(&self, request: &SaveRequest, text: Option<&str>) -> (saved: Result<
        String,
        SourceError,
    >)
        ensures
            ({
                let wanted = match request.original {
                    Some(old_name) => self@.registry.edited(
                        request.dir_index,
                        request.source,
                        text_view(text),
                        old_name@,
                        request.name@,
                        request.command@,
                    ),
                    None => self@.registry.added(
                        request.dir_index,
                        request.source,
                        text_view(text),
                        request.name@,
                        request.command@,
                    ),
                };
                let source = self@.registry.source(request.dir_index, request.source@)->0;
                let (name, command) = (request.name@, request.command@);
                match saved {
                    Ok(s) => wanted == Ok::<Seq<char>, SourceError>(s@) && match request.original {
                        Some(old_name) => source.lists_edited(
                            text_view(text),
                            old_name@,
                            name,
                            command,
                            s@,
                        ),
                        None => source.lists_added(text_view(text), name, command, s@),
                    },
                    Err(e) => wanted == Err::<Seq<char>, SourceError>(e),
                }
            }),
    {
        match &request.original {
            Some(old_name) => self.registry.edit_script(
                request.dir_index,
                request.source,
                text,
                old_name.as_str(),
                request.name.as_str(),
                request.command.as_str(),
            ),
            None => self.registry.add_script(
                request.dir_index,
                request.source,
                text,
                request.name.as_str(),
                request.command.as_str(),
            ),
        }
    }

    /// A script was written: the directories have been read anew.
    pub fn saved(&mut self, registry: Registry)
        requires
            old(self).wf(),
        ensures
            final(self).wf(),
            final(self)@ == (AppView { error: None, ..old(self)@ }).rediscovered(registry@),
    {
        self.error = None;
        self.reload(registry);
        self.recompute_output_size();
    }

    /// A script could not be written.
    pub fn save_failed(&mut self, reason: &str)
        requires
            old(self).wf(),
        ensures
            final(self).wf(),
            final(self)@ == (AppView { error: Some("save failed: "@ + reason@), ..old(self)@ }),
    {
        let mut text = "save failed: ".to_string();
        text.append(reason);
        self.error = Some(text);
    }

    /// Gives out a number for a script that is to be started, and says how it is
    /// run; nothing where its directory has no source of its kind.
    pub fn launch(&mut self, dir_index: usize, script: &Script, around: &Surroundings) -> (launch:
        Option<Launch>)
        requires
            old(self).wf(),
            old(self)@.next_id < u64::MAX,
        ensures
            final(self).wf(),
            launch is Some <==> old(self)@.registry.source(dir_index, script.source@) is Some,
            launch is None ==> final(self)@ == old(self)@,
            launch matches Some(l) ==> {
                &&& final(self)@ == (AppView {
                    next_id: (old(self)@.next_id + 1) as u64,
                    ..old(self)@
                })
                &&& l.id == old(self)@.next_id
                &&& final(self)@.unused(l.id)
                &&& l.spec@ == old(self)@.registry.source(dir_index, script.source@)->0.command(
                    script@,
                    *around,
                )
                &&& l.rows == old(self)@.out_rows
                &&& l.cols == old(self)@.out_cols
                &&& l.scrollback == old(self)@.config.scrollback
            },
    {
        match self.registry.build_command(dir_index, script, around) {
            Some(spec) => {
                let id: ProcId = self.next_id;
                self.next_id += 1;
                Some(
                    Launch {
                        id,
                        spec,
                        rows: self.out_rows,
                        cols: self.out_cols,
                        scrollback: self.config.scrollback,
                    },
                )
            },
            None => None,
        }
    }

    /// A script was started.
    pub fn spawned(&mut self, dir_index: usize, script: &Script, id: ProcId)
        requires
            old(self).wf(),
            old(self)@.unused(id),
        ensures
            final(self).wf(),
            final(self)@ == old(self)@.running(
                ScriptKeyView {
                    dir_index: dir_index as int,
                    source: script.source@,
                    name: script.name@,
                },
                id,
            ),
    {
        let process = Process { script: script.name.clone(), status: ProcStatus::Running };
        let ghost before = self.procs@;
        let ghost view = process@;
        self.procs.insert(id, process);
        assert(crate::app::process_views(self.procs@) =~= crate::app::process_views(before).insert(
            id,
            view,
        ));
        let key = ScriptKey { dir_index, source: script.source, name: script.name.clone() };
        self.script_to_proc.insert(key, id);
        self.error = None;
    }

    /// A script could not be started.
    pub fn spawn_failed(&mut self, name: &str, reason: &str)
        requires
            old(self).wf(),
        ensures
            final(self).wf(),
            final(self)@ == (AppView {
                error: Some("failed to start `"@ + name@ + "`: "@ + reason@),
                ..old(self)@
            }),
    {
        let mut text = "failed to start `".to_string();
        text.append(name);
        text.append("`: ");
        text.append(reason);
        self.error = Some(text);
    }

    /// The output of the selected script was frozen.
    pub fn enter_copy_mode(&mut self, grid: Grid)
        requires
            old(self).wf(),
        ensures
            final(self).wf(),
            final(self)@ == (AppView {
                mode: ModeView::Copy(CopyView::opened(grid, old(self)@.out_rows as int)),
                ..old(self)@
            }),
    {
        self.mode = Mode::Copy(CopyState::new(grid, self.out_rows as usize));
    }

    // --- other events -------------------------------------------------------------

    /// The terminal has another size.
    pub fn on_resize(&mut self, cols: u16, rows: u16)
        requires
            old(self).wf(),
        ensures
            final(self).wf(),
            final(self)@ == (AppView { term_cols: cols, term_rows: rows, ..old(self)@ }).resized(),
    {
        self.term_cols = cols;
        self.term_rows = rows;
        self.recompute_output_size();
    }

    /// A file with scripts has changed: the directories have been read anew.
    pub fn on_rediscover(&mut self, registry: Registry)
        requires
            old(self).wf(),
        ensures
            final(self).wf(),
            final(self)@ == old(self)@.rediscovered(registry@),
    {
        self.reload(registry);
        self.recompute_output_size();
    }

    /// A process has ended.
    pub fn on_proc(&mut self, event: ProcEvent)
        requires
            old(self).wf(),
        ensures
            final(self).wf(),
            event matches ProcEvent::Exited { id, status } && final(self)@ == old(self)@.exited(
                id,
                status,
            ),
    {
        match event {
            ProcEvent::Exited { id, status } => {
                let ghost before = self.procs@;
                match self.procs.remove(&id) {
                    Some(process) => {
                        let next = Process { script: process.script, status };
                        let ghost view = next@;
                        self.procs.insert(id, next);
                        assert(crate::app::process_views(self.procs@)
                            =~= crate::app::process_views(before).insert(id, view));
                    },
                    None => {
                        assert(crate::app::process_views(self.procs@)
                            =~= crate::app::process_views(before));
                    },
                }
            },
        }
    }
}

/// A change of a file of this name can change the list.
pub open spec fn is_script_file(name: Seq<char>) -> bool {
    name == package_json::ID@ || name == scripts_json::ID@
}

/// Whether one of the files that have changed can change the list.
pub fn touches_scripts(file_names: &Vec<String>) -> (r: bool)
    ensures
        r == exists|i: int|
            0 <= i < file_names@.len() && is_script_file((#[trigger] file_names@[i])@),
{
    let mut i: usize = 0;
    while i < file_names.len()
        invariant
            i <= file_names.len(),
            forall|k: int| 0 <= k < i ==> !is_script_file((#[trigger] file_names@[k])@),
        decreases file_names.len() - i,
    {
        let name = file_names[i].as_str();
        if same_text(name, package_json::ID) || same_text(name, scripts_json::ID) {
            assert(is_script_file(file_names@[i as int]@));
            return true;
        }
        i += 1;
    }
    false
}

// --- laws -----------------------------------------------------------------------------

/// Control and `c` end the application, whatever the keys go to.
pub proof fn law_control_c_quits(app: AppView, mods: KeyModifiers)
    requires
        mods.control,
    ensures
        app.key(KeyCode::Char('c'), mods) == (app, ActionView::Quit),
{
}

/// The application ends by control and `c`, or by `q` in the list, and by nothing
/// else.
pub proof fn law_what_ends_the_application(app: AppView, code: KeyCode, mods: KeyModifiers)
    ensures
        app.key(code, mods).1 == ActionView::Quit <==> {
            ||| code == KeyCode::Char('c') && mods.control
            ||| code == KeyCode::Char('q') && app.mode is Normal && !app.filtering
        },
{
}

/// In the list the arrows do what `h`, `j`, `k` and `l` do, and Enter what space does.
pub proof fn law_arrows_and_enter_in_the_list(app: AppView, mods: KeyModifiers)
    requires
        app.mode is Normal,
        !app.filtering,
    ensures
        app.key(KeyCode::Left, mods) == app.key(KeyCode::Char('h'), mods),
        app.key(KeyCode::Down, mods) == app.key(KeyCode::Char('j'), mods),
        app.key(KeyCode::Up, mods) == app.key(KeyCode::Char('k'), mods),
        app.key(KeyCode::Right, mods) == app.key(KeyCode::Char('l'), mods),
        app.key(KeyCode::Enter, mods) == app.key(KeyCode::Char(' '), mods),
{
}

/// No command that was run on the spot is forgotten; directories, settings, sizes
/// and the number of the next process are the same.
pub open spec fn keeps_the_rest(before: AppView, after: AppView) -> bool {
    &&& before.ad_hoc.is_prefix_of(after.ad_hoc)
    &&& after.registry == before.registry
    &&& after.config == before.config
    &&& after.next_id == before.next_id
    &&& after.term_cols == before.term_cols
    &&& after.term_rows == before.term_rows
    &&& after.out_cols == before.out_cols
    &&& after.out_rows == before.out_rows
}

proof fn lemma_list_key_keeps(app: AppView, code: KeyCode, z: bool)
    ensures
        keeps_the_rest(app, app.list_key(code, z).0),
{
    assert(keeps_the_rest(app, app.space().0));
    assert(keeps_the_rest(app, app.to_first_child()));
    assert(keeps_the_rest(app, app.to_header()));
    assert(keeps_the_rest(app, app.collapse_toggled()));
    assert(keeps_the_rest(app, app.collapse_set(true)));
    assert(keeps_the_rest(app, app.collapse_set(false)));
    assert(keeps_the_rest(app, app.add_begun()));
    assert(keeps_the_rest(app, app.edit_begun()));
}

/// Keys forget no command that was run on the spot, and leave directories,
/// settings and sizes as they are.
pub proof fn law_keys_keep_the_rest(app: AppView, code: KeyCode, mods: KeyModifiers)
    ensures
        keeps_the_rest(app, app.key(code, mods).0),
{
    match app.mode {
        ModeView::Copy(state) => {
            assert(keeps_the_rest(app, app.copy_key(state, code, mods).0));
        },
        ModeView::Edit(state) => {
            assert(keeps_the_rest(app, app.edit_key(state, code).0));
        },
        ModeView::Run(input) => {
            assert(keeps_the_rest(app, app.run_key(input, code).0));
        },
        ModeView::Normal => {
            assert(keeps_the_rest(app, app.filter_mode_key(code)));
            lemma_list_key_keeps(AppView { awaiting_z: false, ..app }, code, app.awaiting_z);
        },
    }
}

/// Starting a script anew leaves the processes of all other scripts alone.
pub proof fn law_restart_leaves_others_alone(
    app: AppView,
    other: ScriptKeyView,
    key: ScriptKeyView,
    id: ProcId,
)
    requires
        app.valid(),
        app.selected_key() == Some(key),
        other != key,
        app.stopped().unused(id),
    ensures
        app.stopped().process(other) == app.process(other),
        app.stopped().running(key, id).process(other) == app.process(other),
{
    let stopped = app.stopped();
    if app.script_to_proc.dom().contains(other) {
        assert(stopped.script_to_proc.dom().contains(other));
        if app.script_to_proc.dom().contains(key) {
            assert(app.script_to_proc[key] != app.script_to_proc[other]);
        }
    }
}

/// A script that was started has a process of its own, which is running.
pub proof fn law_started_script_is_running(app: AppView, key: ScriptKeyView, id: ProcId)
    ensures
        app.running(key, id).process(key) == Some(
            (id, ProcessView { script: key.name, status: ProcStatus::Running }),
        ),
        app.running(key, id).error is None,
{
}

/// A script that is stopped has no process any more.
pub proof fn law_stopped_script_has_no_process(app: AppView, key: ScriptKeyView)
    requires
        app.selected_key() == Some(key),
    ensures
        app.stopped().process(key) is None,
{
}

/// The end of a process is noted for its script, and for no other; the end of
/// one that is not known any more changes nothing.
pub proof fn law_end_is_noted_for_its_script(
    app: AppView,
    id: ProcId,
    status: ProcStatus,
    key: ScriptKeyView,
)
    ensures
        app.process(key) matches Some((own, process)) ==> app.exited(id, status).process(key)
            == Some(
            (
                own,
                if own == id {
                    ProcessView { status, ..process }
                } else {
                    process
                },
            ),
        ),
        app.process(key) is None ==> app.exited(id, status).process(key) is None,
        !app.procs.dom().contains(id) ==> app.exited(id, status) == app,
{
}

} // verus!
