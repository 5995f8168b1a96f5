//! What the keys are for: running scripts, writing them, and running commands.

use vstd::prelude::*;

use crate::app::{AppView, ModeView};
use crate::app_laws::{law_command_has_one_row, law_selected_row_is_the_script};
use crate::below_laws::{filed_scripts, law_listed_scripts_are_found};
use crate::edit::{EditField, EditView};
use crate::events::{ActionView, StartView};
use crate::keys::{KeyCode, KeyModifiers};
use crate::proc_table::ScriptKeyView;
use crate::row_laws::{distinct_sources, no_source_of_commands};
use crate::rows::{KeyView, RowView};
use crate::runner::{ProcId, ProcStatus};
use crate::source::registry::{group_from, script_from, DirView, GroupView};
use crate::source::{ScriptView, AD_HOC};
use crate::text::{
    is_blank_text, is_space, lemma_trimmed_empty, lemma_trimmed_end, lemma_trimmed_start, trimmed,
    trimmed_start,
};
use crate::text_input::TextView;

verus! {

// --- running and stopping -------------------------------------------------------------

/// The process that is on record for a script, with how it stands.
pub open spec fn on_record(app: AppView, key: ScriptKeyView) -> Option<(ProcId, ProcStatus)> {
    if app.script_to_proc.dom().contains(key) && app.procs.dom().contains(
        app.script_to_proc[key],
    ) {
        Some((app.script_to_proc[key], app.procs[app.script_to_proc[key]].status))
    } else {
        None
    }
}

/// The keys go to the list.
pub open spec fn in_list(app: AppView) -> bool {
    app.mode is Normal && !app.filtering
}

/// Nothing of the state differs but what is told of processes, and that no `z` is
/// waiting.
pub open spec fn same_but_processes(before: AppView, after: AppView) -> bool {
    after == (AppView {
        procs: after.procs,
        script_to_proc: after.script_to_proc,
        awaiting_z: false,
        ..before
    })
}

/// The script of the row is one that a source of its directory lists.
pub open spec fn listed_in(
    dirs: Seq<DirView>,
    d: int,
    source: Seq<char>,
    script: ScriptView,
) -> bool {
    &&& 0 <= d < dirs.len()
    &&& exists|g: int, n: int|
        0 <= g < dirs[d].source_groups.len() && 0 <= n < dirs[d].source_groups[g].scripts.len()
            && dirs[d].source_groups[g].id == source && #[trigger] dirs[d].source_groups[g].scripts[n]
            == script
}

proof fn lemma_group_from(groups: Seq<GroupView>, id: Seq<char>, k: int)
    requires
        0 <= k,
    ensures
        group_from(groups, id, k) matches Some(group) ==> group.id == id && exists|g: int|
            0 <= g < groups.len() && #[trigger] groups[g] == group,
    decreases groups.len() - k,
{
    if k < groups.len() {
        if groups[k].id != id {
            lemma_group_from(groups, id, k + 1);
        }
    }
}

proof fn lemma_script_from(scripts: Seq<ScriptView>, name: Seq<char>, k: int)
    requires
        0 <= k,
    ensures
        script_from(scripts, name, k) matches Some(script) ==> script.name == name && exists|n: int|
            0 <= n < scripts.len() && #[trigger] scripts[n] == script,
    decreases scripts.len() - k,
{
    if k < scripts.len() {
        if scripts[k].name != name {
            lemma_script_from(scripts, name, k + 1);
        }
    }
}

/// Where a script's row is selected, the selected script is the one of that name that
/// the row's source lists in the row's directory. A command run on the spot is its own
/// name.
pub proof fn law_selected_script_is_the_one_listed(app: AppView)
    requires
        app.valid(),
        distinct_sources(app.registry.directories),
        filed_scripts(app.registry.directories),
    ensures
        app.row() matches Some(RowView::Script { dir_index, source, name }) ==> {
            &&& app.selected_script() matches Some((d, script)) && d == dir_index && script.name
                == name && script.source == source && if source == AD_HOC@ {
                script.command == name
            } else {
                listed_in(app.registry.directories, dir_index, source, script)
            }
        },
        !(app.row() matches Some(RowView::Script { .. })) ==> app.selected_script() is None,
{
    if let Some(RowView::Script { dir_index, source, name }) = app.row() {
        if source != AD_HOC@ {
            assert(app.tree().rows().contains(app.rows[app.selected]));
            law_listed_scripts_are_found(app.registry, app.tree(), dir_index, source, name);
            let dirs = app.registry.directories;
            let groups = dirs[dir_index].source_groups;
            lemma_group_from(groups, source, 0);
            let group = group_from(groups, source, 0)->0;
            lemma_script_from(group.scripts, name, 0);
            let script = script_from(group.scripts, name, 0)->0;
            let g = choose|g: int| 0 <= g < groups.len() && #[trigger] groups[g] == group;
            let n = choose|n: int|
                0 <= n < group.scripts.len() && #[trigger] group.scripts[n] == script;
            assert(dirs[dir_index].source_groups[g].scripts[n] == script);
        }
    }
}

/// Enter or space on a script interrupts its process where that is running, and runs
/// the script in every other case: where it never ran, and where it has ended, however
/// it ended. The process that it ran as is killed and taken off the record.
pub proof fn law_enter_runs_or_stops_the_script(
    app: AppView,
    code: KeyCode,
    mods: KeyModifiers,
    dir_index: int,
    script: ScriptView,
)
    requires
        in_list(app),
        app.selected_script() == Some((dir_index, script)),
        code == KeyCode::Enter || code == KeyCode::Char(' '),
    ensures
        ({
            let (after, action) = app.key(code, mods);
            let key = ScriptKeyView { dir_index, source: script.source, name: script.name };
            let running = on_record(app, key) matches Some((_, status)) && status
                == ProcStatus::Running;
            &&& action is Interrupt <==> running
            &&& action is Start <==> !running
            &&& running ==> action == ActionView::Interrupt(app.script_to_proc[key]) && after == (
            AppView { awaiting_z: false, ..app })
            &&& !running ==> {
                &&& action == ActionView::Start(
                    StartView {
                        dir_index,
                        script,
                        kill: if on_record(app, key) is Some {
                            Some(app.script_to_proc[key])
                        } else {
                            None
                        },
                    },
                )
                &&& same_but_processes(app, after)
                &&& on_record(after, key) is None
                &&& !after.script_to_proc.dom().contains(key)
                &&& forall|other: ScriptKeyView|
                    other != key ==> #[trigger] after.script_to_proc.dom().contains(other)
                        == app.script_to_proc.dom().contains(other) && after.script_to_proc[other]
                        == app.script_to_proc[other]
                &&& forall|id: ProcId|
                    !(app.script_to_proc.dom().contains(key) && id == app.script_to_proc[key])
                        ==> #[trigger] after.procs.dom().contains(id) == app.procs.dom().contains(
                        id,
                    ) && after.procs[id] == app.procs[id]
            }
        }),
{
    assert(app.row() is Some);
    assert(app.row()->0 is Script);
}

/// A script that was started runs until it ends, and can be run again after that,
/// however it ended: Enter interrupts it while it runs, and starts it anew when it has
/// ended.
pub proof fn law_script_that_ended_runs_again(
    app: AppView,
    mods: KeyModifiers,
    dir_index: int,
    script: ScriptView,
    id: ProcId,
    status: ProcStatus,
)
    requires
        in_list(app),
        app.selected_script() == Some((dir_index, script)),
        status != ProcStatus::Running,
    ensures
        ({
            let key = ScriptKeyView { dir_index, source: script.source, name: script.name };
            let started = app.running(key, id);
            let ended = started.exited(id, status);
            &&& started.key(KeyCode::Enter, mods).1 == ActionView::Interrupt(id)
            &&& on_record(ended, key) == Some((id, status))
            &&& ended.key(KeyCode::Enter, mods).1 == ActionView::Start(
                StartView { dir_index, script, kill: Some(id) },
            )
        }),
{
    let key = ScriptKeyView { dir_index, source: script.source, name: script.name };
    let started = app.running(key, id);
    let ended = started.exited(id, status);
    assert(started.selected_script() == app.selected_script());
    assert(ended.selected_script() == app.selected_script());
    law_enter_runs_or_stops_the_script(started, KeyCode::Enter, mods, dir_index, script);
    law_enter_runs_or_stops_the_script(ended, KeyCode::Enter, mods, dir_index, script);
}

/// `v` freezes the output of the selected script's process, whether that runs or has
/// ended, and does nothing where there is none.
pub proof fn law_v_freezes_the_output_of_the_script(app: AppView, mods: KeyModifiers)
    requires
        in_list(app),
    ensures
        app.key(KeyCode::Char('v'), mods).0 == (AppView { awaiting_z: false, ..app }),
        app.selected_script() is None ==> app.key(KeyCode::Char('v'), mods).1
            == ActionView::Nothing,
        app.selected_script() matches Some((dir_index, script)) ==> app.key(
            KeyCode::Char('v'),
            mods,
        ).1 == match on_record(
            app,
            ScriptKeyView { dir_index, source: script.source, name: script.name },
        ) {
            Some((id, _)) => ActionView::Freeze(id),
            None => ActionView::Nothing,
        },
{
}

/// Enter or space on a heading folds it up or opens it, and starts and stops nothing.
pub proof fn law_enter_on_a_heading(
    app: AppView,
    code: KeyCode,
    mods: KeyModifiers,
    key: KeyView,
)
    requires
        in_list(app),
        app.row() is Some,
        app.row()->0.collapse_key() == Some(key),
        code == KeyCode::Enter || code == KeyCode::Char(' '),
    ensures
        ({
            let (after, action) = app.key(code, mods);
            &&& action == ActionView::Nothing
            &&& after.collapsed.contains(key) == !app.collapsed.contains(key)
            &&& forall|other: KeyView|
                other != key ==> #[trigger] after.collapsed.contains(other)
                    == app.collapsed.contains(other)
            &&& after == (AppView {
                collapsed: after.collapsed,
                rows: after.rows,
                selected: after.selected,
                awaiting_z: false,
                ..app
            })
        }),
{
}

// --- typing ---------------------------------------------------------------------------

/// `part` is what is left of a text without the white space at its ends.
pub open spec fn trims_to(text: Seq<char>, part: Seq<char>) -> bool {
    &&& exists|i: int| #[trigger] stands_at(text, part, i)
    &&& part.len() > 0 ==> !is_space(part[0]) && !is_space(part.last())
}

/// `part` stands in a text from position `i` on, with nothing but white space in front
/// of it and behind it.
pub open spec fn stands_at(text: Seq<char>, part: Seq<char>, i: int) -> bool {
    &&& 0 <= i && i + part.len() <= text.len()
    &&& part == text.subrange(i, i + part.len())
    &&& is_blank_text(text.take(i))
    &&& is_blank_text(text.skip(i + part.len()))
}

/// Trimming takes the white space off both ends, and nothing else.
pub proof fn law_trimming(text: Seq<char>)
    ensures
        trims_to(text, trimmed(text)),
        (trimmed(text).len() == 0) == is_blank_text(text),
{
    let rest = trimmed_start(text);
    let part = trimmed(text);
    lemma_trimmed_start(text);
    lemma_trimmed_end(rest);
    lemma_trimmed_empty(text);
    let i = text.len() - rest.len();
    lemma_start_is_blank(text);
    lemma_end_is_blank(rest);
    assert(part =~= text.subrange(i, i + part.len()));
    assert(text.skip(i + part.len()) =~= rest.skip(part.len() as int));
    assert(stands_at(text, part, i));
    if part.len() > 0 {
        assert(part[0] == rest[0]);
    }
}

proof fn lemma_start_is_blank(text: Seq<char>)
    ensures
        is_blank_text(text.take(text.len() - trimmed_start(text).len())),
    decreases text.len(),
{
    lemma_trimmed_start(text);
    let front = text.take(text.len() - trimmed_start(text).len());
    if text.len() > 0 && is_space(text[0]) {
        let rest = text.drop_first();
        lemma_trimmed_start(rest);
        lemma_start_is_blank(rest);
        let shorter = rest.take(rest.len() - trimmed_start(rest).len());
        assert forall|i: int| 0 <= i < front.len() implies is_space(#[trigger] front[i]) by {
            if i > 0 {
                assert(front[i] == shorter[i - 1]);
            }
        }
    }
}

proof fn lemma_end_is_blank(text: Seq<char>)
    ensures
        is_blank_text(text.skip(crate::text::trimmed_end(text).len() as int)),
    decreases text.len(),
{
    lemma_trimmed_end(text);
    let n = crate::text::trimmed_end(text).len() as int;
    let back = text.skip(n);
    if text.len() > 0 && is_space(text.last()) {
        let rest = text.drop_last();
        lemma_trimmed_end(rest);
        lemma_end_is_blank(rest);
        let shorter = rest.skip(n);
        assert forall|i: int| 0 <= i < back.len() implies is_space(#[trigger] back[i]) by {
            if i < back.len() - 1 {
                assert(back[i] == shorter[i]);
            }
        }
    }
}

/// A text has one part that is left without the white space at its ends, unless it is
/// blank.
pub proof fn law_what_is_left_is_one(text: Seq<char>, a: Seq<char>, b: Seq<char>)
    requires
        trims_to(text, a),
        trims_to(text, b),
    ensures
        a == b,
{
    let i = choose|i: int| #[trigger] stands_at(text, a, i);
    let j = choose|j: int| #[trigger] stands_at(text, b, j);
    lemma_not_inside(text, a, i, b, j);
    lemma_not_inside(text, b, j, a, i);
    if a.len() > 0 && b.len() > 0 {
        assert(i == j);
        assert(a.len() == b.len());
    }
    assert(a =~= b);
}

/// Nothing of one part lies outside of the other.
proof fn lemma_not_inside(text: Seq<char>, a: Seq<char>, i: int, b: Seq<char>, j: int)
    requires
        stands_at(text, a, i),
        stands_at(text, b, j),
        trims_to(text, a),
    ensures
        a.len() > 0 ==> j <= i && i + a.len() <= j + b.len() && b.len() > 0,
{
    if a.len() > 0 {
        assert(a[0] == text[i]);
        assert(a.last() == text[i + a.len() - 1]);
        if i < j {
            assert(text.take(j)[i] == text[i]);
        }
        if i >= j + b.len() {
            assert(text.skip(j + b.len())[i - (j + b.len())] == text[i]);
        }
        if i + a.len() > j + b.len() {
            let last = i + a.len() - 1;
            assert(text.skip(j + b.len())[last - (j + b.len())] == text[last]);
        }
    }
}

/// The input after some keys.
pub open spec fn input_after(input: TextView, keys: Seq<KeyCode>) -> TextView
    decreases keys.len(),
{
    if keys.len() == 0 {
        input
    } else {
        input_after(input, keys.drop_last()).key(keys.last())
    }
}

/// The keys type these characters.
pub open spec fn types(keys: Seq<KeyCode>, chars: Seq<char>) -> bool {
    &&& keys.len() == chars.len()
    &&& forall|i: int| 0 <= i < keys.len() ==> #[trigger] keys[i] == KeyCode::Char(chars[i])
}

proof fn lemma_types_fewer(keys: Seq<KeyCode>, chars: Seq<char>)
    requires
        types(keys, chars),
        keys.len() > 0,
    ensures
        types(keys.drop_last(), chars.drop_last()),
        keys.last() == KeyCode::Char(chars.last()),
{
    assert forall|i: int| 0 <= i < keys.len() - 1 implies #[trigger] keys.drop_last()[i]
        == KeyCode::Char(chars.drop_last()[i]) by {
        assert(keys[i] == KeyCode::Char(chars[i]));
    }
    assert(keys[keys.len() - 1] == KeyCode::Char(chars[keys.len() - 1]));
}

/// Characters that are typed stand one after the other where the cursor was, and the
/// cursor behind them; what was in front of it and behind it is as before.
pub proof fn law_typed_characters_stand_at_the_cursor(
    input: TextView,
    keys: Seq<KeyCode>,
    chars: Seq<char>,
)
    requires
        input.valid(),
        types(keys, chars),
    ensures
        input_after(input, keys).text == input.text.take(input.cursor) + chars + input.text.skip(
            input.cursor,
        ),
        input_after(input, keys).cursor == input.cursor + chars.len(),
    decreases chars.len(),
{
    let after = input_after(input, keys);
    if chars.len() == 0 {
        assert(input.text =~= input.text.take(input.cursor) + chars + input.text.skip(
            input.cursor,
        ));
    } else {
        lemma_types_fewer(keys, chars);
        law_typed_characters_stand_at_the_cursor(input, keys.drop_last(), chars.drop_last());
        assert(after.text =~= input.text.take(input.cursor) + chars + input.text.skip(
            input.cursor,
        ));
    }
}

/// Backspace takes out the character in front of the cursor, Delete the one at it; the
/// other keys leave the text as it is, but for characters.
pub proof fn law_what_keys_do_to_a_text(input: TextView, code: KeyCode)
    requires
        input.valid(),
    ensures
        ({
            let after = input.key(code);
            let (text, at) = (input.text, input.cursor);
            &&& code == KeyCode::Backspace && at > 0 ==> after.text == text.take(at - 1)
                + text.skip(at) && after.cursor == at - 1
            &&& code == KeyCode::Delete && at < text.len() ==> after.text == text.take(at)
                + text.skip(at + 1) && after.cursor == at
            &&& after.text != text ==> code is Char || code == KeyCode::Backspace || code
                == KeyCode::Delete
            &&& code == KeyCode::Backspace && at == 0 ==> after == input
            &&& code == KeyCode::Delete && at == text.len() ==> after == input
            &&& code == KeyCode::Left && at > 0 ==> after.cursor == at - 1
            &&& code == KeyCode::Right && at < text.len() ==> after.cursor == at + 1
            &&& code == KeyCode::Left && at == 0 ==> after.cursor == at
            &&& code == KeyCode::Right && at == text.len() ==> after.cursor == at
            &&& code == KeyCode::Home ==> after.cursor == 0
            &&& code == KeyCode::End ==> after.cursor == text.len()
        }),
{
    let (text, at) = (input.text, input.cursor);
    if code == KeyCode::Backspace && at > 0 {
        assert(input.key(code).text =~= text.take(at - 1) + text.skip(at));
    }
    if code == KeyCode::Delete && at < text.len() {
        assert(input.key(code).text =~= text.take(at) + text.skip(at + 1));
    }
}

// --- writing scripts ------------------------------------------------------------------

/// A key with what was held down.
pub type Press = (KeyCode, KeyModifiers);

/// The state after some keys.
pub open spec fn after_keys(app: AppView, keys: Seq<Press>) -> AppView
    decreases keys.len(),
{
    if keys.len() == 0 {
        app
    } else {
        after_keys(app, keys.drop_last()).key(keys.last().0, keys.last().1).0
    }
}

/// A dialog for a script is open, and stays open while these keys are pressed.
pub open spec fn dialog_stays(app: AppView, keys: Seq<Press>) -> bool {
    forall|k: int| 0 <= k <= keys.len() ==> (#[trigger] after_keys(app, keys.take(k))).mode is Edit
}

proof fn lemma_dialog_keeps_its_place(app: AppView, keys: Seq<Press>)
    requires
        dialog_stays(app, keys),
    ensures
        app.mode is Edit,
        after_keys(app, keys).mode is Edit,
        ({
            let now = after_keys(app, keys).mode->Edit_0;
            let first = app.mode->Edit_0;
            now.dir_index == first.dir_index && now.source == first.source && now.original
                == first.original
        }),
    decreases keys.len(),
{
    assert(keys.take(keys.len() as int) =~= keys);
    assert(after_keys(app, keys.take(0)) == app);
    assert(after_keys(app, keys).mode is Edit) by {
        assert(after_keys(app, keys.take(keys.len() as int)).mode is Edit);
    }
    assert(app.mode is Edit) by {
        assert(after_keys(app, keys.take(0)).mode is Edit);
    }
    if keys.len() > 0 {
        let fewer = keys.drop_last();
        assert forall|k: int| 0 <= k <= fewer.len() implies (#[trigger] after_keys(
            app,
            fewer.take(k),
        )).mode is Edit by {
            assert(fewer.take(k) =~= keys.take(k));
            assert(after_keys(app, keys.take(k)).mode is Edit);
        }
        lemma_dialog_keeps_its_place(app, fewer);
    }
}

/// A new script is written where it was asked for: after `a` on a row, whatever is
/// typed, what is saved goes to the directory and the source of that row, and replaces
/// no script.
pub proof fn law_new_script_goes_to_its_row(
    app: AppView,
    mods: KeyModifiers,
    keys: Seq<Press>,
    last: Press,
)
    requires
        in_list(app),
        !app.awaiting_z,
        dialog_stays(app.key(KeyCode::Char('a'), mods).0, keys),
    ensures
        ({
            let typed = after_keys(app.key(KeyCode::Char('a'), mods).0, keys);
            &&& app.row() matches Some(row)
            &&& typed.key(last.0, last.1).1 matches ActionView::Save(request) ==> {
                &&& request.original is None
                &&& row matches RowView::Script { dir_index, source, .. } ==> request.dir_index
                    == dir_index && request.source == source
                &&& row matches RowView::SourceHeader { dir_index, source, .. }
                    ==> request.dir_index == dir_index && request.source == source
                &&& !(row is DirHeader)
            }
        }),
{
    let opened = app.key(KeyCode::Char('a'), mods).0;
    lemma_dialog_keeps_its_place(opened, keys);
}

/// A changed script is written where it is listed: after `e` on a script's row, whatever
/// is typed, what is saved goes to the directory and the source of that row, in place
/// of that script.
pub proof fn law_changed_script_goes_to_its_row(
    app: AppView,
    mods: KeyModifiers,
    keys: Seq<Press>,
    last: Press,
)
    requires
        app.valid(),
        distinct_sources(app.registry.directories),
        filed_scripts(app.registry.directories),
        in_list(app),
        dialog_stays(app.key(KeyCode::Char('e'), mods).0, keys),
    ensures
        ({
            let typed = after_keys(app.key(KeyCode::Char('e'), mods).0, keys);
            &&& app.row() matches Some(RowView::Script { dir_index, source, name })
            &&& source != AD_HOC@
            &&& typed.key(last.0, last.1).1 matches ActionView::Save(request) ==> {
                &&& request.original == Some(name)
                &&& request.dir_index == dir_index
                &&& request.source == source
            }
        }),
{
    let opened = app.key(KeyCode::Char('e'), mods).0;
    lemma_dialog_keeps_its_place(opened, keys);
    law_selected_row_is_the_script(app);
}

/// What is saved is what was typed: Enter on the command saves, where the name is not
/// blank, and nothing else does. The name is saved without the white space at its ends,
/// the command as it is, and the dialog closes.
pub proof fn law_what_the_dialog_saves(
    app: AppView,
    state: EditView,
    code: KeyCode,
    mods: KeyModifiers,
)
    requires
        app.mode == ModeView::Edit(state),
    ensures
        ({
            let (after, action) = app.key(code, mods);
            &&& action is Save <==> code == KeyCode::Enter && state.field == EditField::Command
                && !is_blank_text(state.name.text)
            &&& action matches ActionView::Save(request) ==> {
                &&& trims_to(state.name.text, request.name)
                &&& request.name.len() > 0
                &&& request.command == state.command.text
                &&& request.dir_index == state.dir_index
                &&& request.source == state.source
                &&& request.original == state.original
                &&& after == (AppView { mode: ModeView::Normal, ..app })
            }
            &&& code == KeyCode::Esc ==> action == ActionView::Nothing && after == (AppView {
                mode: ModeView::Normal,
                ..app
            })
            &&& !(action is Save) && code != KeyCode::Esc && action != ActionView::Quit
                ==> after.mode is Edit && action == ActionView::Nothing && after == (AppView {
                mode: after.mode,
                ..app
            })
        }),
{
    law_trimming(state.name.text);
}

/// Keys without anything held down.
pub open spec fn presses(keys: Seq<KeyCode>) -> Seq<Press> {
    Seq::new(keys.len(), |i: int| (keys[i], KeyModifiers { control: false }))
}

proof fn lemma_after_keys_concat(app: AppView, a: Seq<Press>, b: Seq<Press>)
    ensures
        after_keys(app, a + b) == after_keys(after_keys(app, a), b),
    decreases b.len(),
{
    if b.len() == 0 {
        assert(a + b =~= a);
    } else {
        assert((a + b).drop_last() =~= a + b.drop_last());
        assert((a + b).last() == b.last());
        lemma_after_keys_concat(app, a, b.drop_last());
    }
}

/// Characters typed in a dialog go to the field that has the keys.
proof fn lemma_typed_in_field(
    app: AppView,
    state: EditView,
    keys: Seq<KeyCode>,
    chars: Seq<char>,
)
    requires
        app.mode == ModeView::Edit(state),
        types(keys, chars),
    ensures
        ({
            let after = after_keys(app, presses(keys));
            after == (AppView {
                mode: ModeView::Edit(
                    match state.field {
                        EditField::Name => (EditView {
                            name: input_after(state.name, keys),
                            ..state
                        }),
                        EditField::Command => (EditView {
                            command: input_after(state.command, keys),
                            ..state
                        }),
                    },
                ),
                ..app
            })
        }),
    decreases chars.len(),
{
    let all = presses(keys);
    if chars.len() > 0 {
        lemma_types_fewer(keys, chars);
        assert(all.drop_last() =~= presses(keys.drop_last()));
        assert(all.last() == (keys.last(), KeyModifiers { control: false }));
        lemma_typed_in_field(app, state, keys.drop_last(), chars.drop_last());
    }
}

/// The selected row belongs to a source of a directory.
pub open spec fn on_row_of(app: AppView, dir_index: int, source: Seq<char>) -> bool {
    match app.row() {
        Some(RowView::Script { dir_index: d, source: s, .. }) => d == dir_index && s == source,
        Some(RowView::SourceHeader { dir_index: d, source: s, .. }) => d == dir_index && s
            == source,
        _ => false,
    }
}

/// A script is added as it is typed: `a`, the name, Tab, the command and Enter save a
/// script of that name and command to the source of the selected row.
pub proof fn law_adding_a_script(
    app: AppView,
    dir_index: int,
    source: Seq<char>,
    name: Seq<char>,
    command: Seq<char>,
    name_keys: Seq<KeyCode>,
    command_keys: Seq<KeyCode>,
)
    requires
        types(name_keys, name),
        types(command_keys, command),
        in_list(app),
        !app.awaiting_z,
        on_row_of(app, dir_index, source),
        source != AD_HOC@,
        !is_blank_text(name),
    ensures
        ({
            let keys = presses(
                seq![KeyCode::Char('a')] + name_keys + seq![KeyCode::Tab] + command_keys,
            );
            after_keys(app, keys).key(KeyCode::Enter, KeyModifiers { control: false }).1 matches
                ActionView::Save(request) && request.dir_index == dir_index && request.source
                == source && request.original is None && trims_to(name, request.name)
                && request.command == command
        }),
{
    let first = presses(seq![KeyCode::Char('a')]);
    let tab = presses(seq![KeyCode::Tab]);
    let keys = presses(
        seq![KeyCode::Char('a')] + name_keys + seq![KeyCode::Tab] + command_keys,
    );
    assert(keys =~= first + presses(name_keys) + tab + presses(command_keys));
    lemma_after_keys_concat(
        app,
        first + presses(name_keys) + tab,
        presses(command_keys),
    );
    lemma_after_keys_concat(app, first + presses(name_keys), tab);
    lemma_after_keys_concat(app, first, presses(name_keys));
    lemma_one_key(app, KeyCode::Char('a'));
    let opened = after_keys(app, first);
    let empty = EditView {
        dir_index,
        source,
        original: None,
        name: TextView { text: Seq::empty(), cursor: 0 },
        command: TextView { text: Seq::empty(), cursor: 0 },
        field: EditField::Name,
    };
    lemma_a_opens(app, dir_index, source);
    lemma_typed_behind(opened, empty, name_keys, name);
    assert(Seq::<char>::empty() + name =~= name);
    let named = after_keys(opened, presses(name_keys));
    let with_name = EditView {
        name: TextView { text: name, cursor: name.len() as int },
        ..empty
    };
    lemma_tab_in_dialog(named, with_name);
    let tabbed = after_keys(named, tab);
    let second = EditView { field: EditField::Command, ..with_name };
    lemma_typed_behind(tabbed, second, command_keys, command);
    assert(Seq::<char>::empty() + command =~= command);
    let done = after_keys(tabbed, presses(command_keys));
    let full = EditView {
        command: TextView { text: command, cursor: command.len() as int },
        ..second
    };
    law_what_the_dialog_saves(done, full, KeyCode::Enter, KeyModifiers { control: false });
}

proof fn lemma_a_opens(app: AppView, dir_index: int, source: Seq<char>)
    requires
        in_list(app),
        !app.awaiting_z,
        on_row_of(app, dir_index, source),
        source != AD_HOC@,
    ensures
        app.key(KeyCode::Char('a'), KeyModifiers { control: false }).0.mode == ModeView::Edit(
            EditView {
                dir_index,
                source,
                original: None,
                name: TextView { text: Seq::empty(), cursor: 0 },
                command: TextView { text: Seq::empty(), cursor: 0 },
                field: EditField::Name,
            },
        ),
{
}

proof fn lemma_tab_in_dialog(app: AppView, state: EditView)
    requires
        app.mode == ModeView::Edit(state),
        state.field == EditField::Name,
    ensures
        after_keys(app, presses(seq![KeyCode::Tab])).mode == ModeView::Edit(
            EditView { field: EditField::Command, ..state },
        ),
{
    lemma_one_key(app, KeyCode::Tab);
}

/// Characters typed with the cursor behind a field's text come behind it.
proof fn lemma_typed_behind(
    app: AppView,
    state: EditView,
    keys: Seq<KeyCode>,
    chars: Seq<char>,
)
    requires
        types(keys, chars),
        app.mode == ModeView::Edit(state),
        state.field == EditField::Name ==> state.name.cursor == state.name.text.len(),
        state.field == EditField::Command ==> state.command.cursor == state.command.text.len(),
    ensures
        after_keys(app, presses(keys)).mode == ModeView::Edit(
            match state.field {
                EditField::Name => (EditView {
                    name: TextView {
                        text: state.name.text + chars,
                        cursor: (state.name.text + chars).len() as int,
                    },
                    ..state
                }),
                EditField::Command => (EditView {
                    command: TextView {
                        text: state.command.text + chars,
                        cursor: (state.command.text + chars).len() as int,
                    },
                    ..state
                }),
            },
        ),
{
    lemma_typed_in_field(app, state, keys, chars);
    let input = match state.field {
        EditField::Name => state.name,
        EditField::Command => state.command,
    };
    law_typed_characters_stand_at_the_cursor(input, keys, chars);
    assert(input.text.take(input.cursor) + chars + input.text.skip(input.cursor)
        =~= input.text + chars);
}

proof fn lemma_one_key(app: AppView, code: KeyCode)
    ensures
        after_keys(app, presses(seq![code])) == app.key(code, KeyModifiers { control: false }).0,
{
    let keys = presses(seq![code]);
    assert(keys.drop_last() =~= Seq::empty());
    assert(keys.last() == (code, KeyModifiers { control: false }));
    assert(after_keys(app, keys.drop_last()) == app);
}

/// A script's command is changed as it is typed: `e`, Tab, some characters and Enter
/// save the script under its name, with these characters behind its command.
pub proof fn law_changing_a_command(app: AppView, keys: Seq<KeyCode>, more: Seq<char>)
    requires
        types(keys, more),
        app.valid(),
        distinct_sources(app.registry.directories),
        filed_scripts(app.registry.directories),
        in_list(app),
        app.row() matches Some(RowView::Script { source, name, .. }) && source != AD_HOC@
            && !is_blank_text(name),
    ensures
        ({
            let all = presses(seq![KeyCode::Char('e'), KeyCode::Tab] + keys);
            &&& app.row() matches Some(RowView::Script { dir_index, source, name })
            &&& after_keys(app, all).key(KeyCode::Enter, KeyModifiers { control: false }).1 matches
                ActionView::Save(request)
            &&& request.dir_index == dir_index && request.source == source
            &&& request.original == Some(name) && trims_to(name, request.name)
            &&& exists|command: Seq<char>| #[trigger]
                listed_in(
                    app.registry.directories,
                    dir_index,
                    source,
                    ScriptView { name, source, command },
                ) && request.command == command + more
        }),
{
    law_selected_script_is_the_one_listed(app);
    let (dir_index, script) = app.selected_script()->0;
    let first = presses(seq![KeyCode::Char('e')]);
    let tab = presses(seq![KeyCode::Tab]);
    let all = presses(seq![KeyCode::Char('e'), KeyCode::Tab] + keys);
    assert(all =~= first + tab + presses(keys));
    lemma_after_keys_concat(app, first + tab, presses(keys));
    lemma_after_keys_concat(app, first, tab);
    lemma_one_key(app, KeyCode::Char('e'));
    let opened = after_keys(app, first);
    let seeded = EditView {
        dir_index,
        source: script.source,
        original: Some(script.name),
        name: TextView { text: script.name, cursor: script.name.len() as int },
        command: TextView { text: script.command, cursor: script.command.len() as int },
        field: EditField::Name,
    };
    lemma_e_opens(app, dir_index, script);
    lemma_tab_in_dialog(opened, seeded);
    let tabbed = after_keys(opened, tab);
    let state = EditView { field: EditField::Command, ..seeded };
    lemma_typed_behind(tabbed, state, keys, more);
    let done = after_keys(tabbed, presses(keys));
    let full = EditView {
        command: TextView {
            text: script.command + more,
            cursor: (script.command + more).len() as int,
        },
        ..state
    };
    law_what_the_dialog_saves(done, full, KeyCode::Enter, KeyModifiers { control: false });
    assert(script == (ScriptView {
        name: script.name,
        source: script.source,
        command: script.command,
    }));
}

proof fn lemma_e_opens(app: AppView, dir_index: int, script: ScriptView)
    requires
        in_list(app),
        app.selected_script() == Some((dir_index, script)),
        script.source != AD_HOC@,
    ensures
        app.key(KeyCode::Char('e'), KeyModifiers { control: false }).0.mode == ModeView::Edit(
            EditView {
                dir_index,
                source: script.source,
                original: Some(script.name),
                name: TextView { text: script.name, cursor: script.name.len() as int },
                command: TextView { text: script.command, cursor: script.command.len() as int },
                field: EditField::Name,
            },
        ),
{
}

// --- running commands -----------------------------------------------------------------

/// Where the cursor stands in the prompt makes no difference to what Enter runs and
/// lists.
pub proof fn law_prompt_runs_the_whole_text(
    app: AppView,
    a: TextView,
    b: TextView,
    mods: KeyModifiers,
)
    requires
        a.text == b.text,
    ensures
        (AppView { mode: ModeView::Run(a), ..app }).key(KeyCode::Enter, mods) == (AppView {
            mode: ModeView::Run(b),
            ..app
        }).key(KeyCode::Enter, mods),
{
    assert((AppView { mode: ModeView::Run(a), ..app }).normal() == (AppView {
        mode: ModeView::Run(b),
        ..app
    }).normal());
}

/// Enter in the prompt runs what was typed, without the white space at its ends, and
/// lists it. The process that the command ran as before is killed. A blank text runs
/// nothing and lists nothing.
pub proof fn law_prompt_runs_what_was_typed(
    app: AppView,
    input: TextView,
    command: Seq<char>,
    mods: KeyModifiers,
)
    requires
        app.valid(),
        no_source_of_commands(app.registry.directories),
        app.mode == ModeView::Run(input),
        trims_to(input.text, command),
        app.filter.text.len() == 0 || app.tree().shown(command),
        !app.tree().is_collapsed(KeyView::Source(0, AD_HOC@)),
    ensures
        ({
            let (after, action) = app.key(KeyCode::Enter, mods);
            let key = ScriptKeyView { dir_index: 0, source: AD_HOC@, name: command };
            &&& after.mode is Normal
            &&& command.len() == 0 ==> action == ActionView::Nothing && after == (AppView {
                mode: ModeView::Normal,
                ..app
            })
            &&& command.len() > 0 ==> {
                &&& action == ActionView::Start(
                    StartView {
                        dir_index: 0,
                        script: ScriptView { name: command, source: AD_HOC@, command },
                        kill: if on_record(app, key) is Some {
                            Some(app.script_to_proc[key])
                        } else {
                            None
                        },
                    },
                )
                &&& after.ad_hoc == if app.ad_hoc.contains(command) {
                    app.ad_hoc
                } else {
                    app.ad_hoc.push(command)
                }
                &&& after.row() == Some(
                    RowView::Script { dir_index: 0, source: AD_HOC@, name: command },
                )
                &&& on_record(after, key) is None
            }
        }),
{
    law_trimming(input.text);
    law_what_is_left_is_one(input.text, command, trimmed(input.text));
    if command.len() > 0 {
        let listing = app.normal();
        assert(listing.tree() == app.tree());
        law_command_has_one_row(listing, command);
    }
}

/// The prompt while text is typed: `!` opens it empty, keys edit the text, Esc closes it
/// and runs nothing.
pub proof fn law_prompt_opens_and_closes(
    app: AppView,
    input: TextView,
    code: KeyCode,
    mods: KeyModifiers,
)
    ensures
        in_list(app) ==> app.key(KeyCode::Char('!'), mods) == (
            AppView {
                mode: ModeView::Run(TextView { text: Seq::empty(), cursor: 0 }),
                awaiting_z: false,
                ..app
            },
            ActionView::Nothing,
        ),
        app.mode == ModeView::Run(input) ==> app.key(KeyCode::Esc, mods) == (
            AppView { mode: ModeView::Normal, ..app },
            ActionView::Nothing,
        ),
        app.mode == ModeView::Run(input) && code != KeyCode::Esc && code != KeyCode::Enter && !(
        code == KeyCode::Char('c') && mods.control) ==> app.key(code, mods) == (
            AppView { mode: ModeView::Run(input.key(code)), ..app },
            ActionView::Nothing,
        ),
{
}

/// Tab changes the field that has the keys, and nothing else; Enter on the name goes to the
/// command. Other keys edit the field that has the keys, and leave the other one alone.
pub proof fn law_fields_of_the_dialog(state: EditView, code: KeyCode)
    ensures
        ({
            let after = state.key(code);
            &&& code == KeyCode::Tab ==> after.field != state.field && after == (EditView {
                field: after.field,
                ..state
            })
            &&& code == KeyCode::Enter && state.field == EditField::Name ==> after == (EditView {
                field: EditField::Command,
                ..state
            })
            &&& code != KeyCode::Tab && code != KeyCode::Enter ==> after.field == state.field
            &&& after.name != state.name ==> state.field == EditField::Name && after.name
                == state.name.key(code)
            &&& after.command != state.command ==> state.field == EditField::Command
                && after.command == state.command.key(code)
            &&& code is Char && state.field == EditField::Name ==> after.name == state.name.key(
                code,
            )
            &&& code is Char && state.field == EditField::Command ==> after.command
                == state.command.key(code)
            &&& after.dir_index == state.dir_index && after.source == state.source
            &&& after.original == state.original
        }),
{
}

/// A script's name is changed as it is typed: `e`, some characters, Tab and Enter save the
/// script with these characters behind its name, and with its command.
pub proof fn law_changing_a_name(app: AppView, keys: Seq<KeyCode>, more: Seq<char>)
    requires
        types(keys, more),
        app.valid(),
        distinct_sources(app.registry.directories),
        filed_scripts(app.registry.directories),
        in_list(app),
        app.row() matches Some(RowView::Script { source, name, .. }) && source != AD_HOC@
            && !is_blank_text(name + more),
    ensures
        ({
            let all = presses(seq![KeyCode::Char('e')] + keys + seq![KeyCode::Tab]);
            &&& app.row() matches Some(RowView::Script { dir_index, source, name })
            &&& after_keys(app, all).key(KeyCode::Enter, KeyModifiers { control: false }).1 matches
                ActionView::Save(request)
            &&& request.dir_index == dir_index && request.source == source
            &&& request.original == Some(name) && trims_to(name + more, request.name)
            &&& listed_in(
                app.registry.directories,
                dir_index,
                source,
                ScriptView { name, source, command: request.command },
            )
        }),
{
    law_selected_script_is_the_one_listed(app);
    let (dir_index, script) = app.selected_script()->0;
    let first = presses(seq![KeyCode::Char('e')]);
    let tab = presses(seq![KeyCode::Tab]);
    let all = presses(seq![KeyCode::Char('e')] + keys + seq![KeyCode::Tab]);
    assert(all =~= first + presses(keys) + tab);
    lemma_after_keys_concat(app, first + presses(keys), tab);
    lemma_after_keys_concat(app, first, presses(keys));
    lemma_one_key(app, KeyCode::Char('e'));
    let opened = after_keys(app, first);
    let seeded = EditView {
        dir_index,
        source: script.source,
        original: Some(script.name),
        name: TextView { text: script.name, cursor: script.name.len() as int },
        command: TextView { text: script.command, cursor: script.command.len() as int },
        field: EditField::Name,
    };
    lemma_e_opens(app, dir_index, script);
    lemma_typed_behind(opened, seeded, keys, more);
    let typed = after_keys(opened, presses(keys));
    let named = EditView {
        name: TextView {
            text: script.name + more,
            cursor: (script.name + more).len() as int,
        },
        ..seeded
    };
    lemma_tab_in_dialog(typed, named);
    let done = after_keys(typed, tab);
    let full = EditView { field: EditField::Command, ..named };
    law_what_the_dialog_saves(done, full, KeyCode::Enter, KeyModifiers { control: false });
    assert(script == (ScriptView {
        name: script.name,
        source: script.source,
        command: script.command,
    }));
}

/// A command is run as it is typed: `!`, some characters, any keys that only move the
/// cursor, and Enter run these characters without the white space at their ends.
pub proof fn law_running_a_command(
    app: AppView,
    keys: Seq<KeyCode>,
    chars: Seq<char>,
    moves: Seq<KeyCode>,
    command: Seq<char>,
)
    requires
        app.valid(),
        in_list(app),
        no_source_of_commands(app.registry.directories),
        types(keys, chars),
        forall|i: int|
            0 <= i < moves.len() ==> ((#[trigger] moves[i]) is Left || moves[i] is Right || moves[i]
                is Home || moves[i] is End),
        trims_to(chars, command),
        command.len() > 0,
        app.filter.text.len() == 0 || app.tree().shown(command),
        !app.tree().is_collapsed(KeyView::Source(0, AD_HOC@)),
    ensures
        ({
            let all = presses(seq![KeyCode::Char('!')] + keys + moves);
            after_keys(app, all).key(KeyCode::Enter, KeyModifiers { control: false }).1 matches
                ActionView::Start(request) && request.script == (ScriptView {
                name: command,
                source: AD_HOC@,
                command,
            }) && request.dir_index == 0
        }),
{
    let first = presses(seq![KeyCode::Char('!')]);
    let all = presses(seq![KeyCode::Char('!')] + keys + moves);
    assert(all =~= first + presses(keys + moves));
    lemma_after_keys_concat(app, first, presses(keys + moves));
    lemma_one_key(app, KeyCode::Char('!'));
    let opened = after_keys(app, first);
    let empty = TextView { text: Seq::empty(), cursor: 0 };
    law_prompt_opens_and_closes(app, empty, KeyCode::Tab, KeyModifiers { control: false });
    assert(opened == (AppView { mode: ModeView::Run(empty), awaiting_z: false, ..app }));
    assert forall|i: int| 0 <= i < (keys + moves).len() implies (#[trigger] (keys + moves)[i])
        != KeyCode::Esc && (keys + moves)[i] != KeyCode::Enter by {
        if i < keys.len() {
            assert(keys[i] == KeyCode::Char(chars[i]));
        } else {
            assert((keys + moves)[i] == moves[i - keys.len()]);
        }
    }
    lemma_prompt_keys(opened, empty, keys + moves);
    lemma_input_concat(empty, keys, moves);
    law_typed_characters_stand_at_the_cursor(empty, keys, chars);
    assert(Seq::<char>::empty().take(0) + chars + Seq::<char>::empty().skip(0) =~= chars);
    lemma_moves(input_after(empty, keys), moves);
    let done = after_keys(opened, presses(keys + moves));
    let input = input_after(empty, keys + moves);
    assert(done == (AppView { mode: ModeView::Run(input), ..opened }));
    assert(done.tree() == app.tree());
    law_prompt_runs_what_was_typed(done, input, command, KeyModifiers { control: false });
}

proof fn lemma_prompt_keys(app: AppView, input: TextView, keys: Seq<KeyCode>)
    requires
        app.mode == ModeView::Run(input),
        input.valid(),
        forall|i: int|
            0 <= i < keys.len() ==> (#[trigger] keys[i]) != KeyCode::Esc && keys[i]
                != KeyCode::Enter,
    ensures
        after_keys(app, presses(keys)) == (AppView {
            mode: ModeView::Run(input_after(input, keys)),
            ..app
        }),
        input_after(input, keys).valid(),
    decreases keys.len(),
{
    let all = presses(keys);
    if keys.len() > 0 {
        let fewer = keys.drop_last();
        assert(all.drop_last() =~= presses(fewer));
        assert(all.last() == (keys.last(), KeyModifiers { control: false }));
        assert forall|i: int| 0 <= i < fewer.len() implies (#[trigger] fewer[i]) != KeyCode::Esc
            && fewer[i] != KeyCode::Enter by {
            assert(keys[i] != KeyCode::Esc);
        }
        lemma_prompt_keys(app, input, fewer);
        assert(keys[keys.len() - 1] != KeyCode::Esc && keys[keys.len() - 1] != KeyCode::Enter);
        let before = after_keys(app, presses(fewer));
        let typed = input_after(input, fewer);
        law_prompt_opens_and_closes(before, typed, keys.last(), KeyModifiers { control: false });
    }
}

proof fn lemma_input_concat(input: TextView, a: Seq<KeyCode>, b: Seq<KeyCode>)
    ensures
        input_after(input, a + b) == input_after(input_after(input, a), b),
    decreases b.len(),
{
    if b.len() == 0 {
        assert(a + b =~= a);
    } else {
        assert((a + b).drop_last() =~= a + b.drop_last());
        lemma_input_concat(input, a, b.drop_last());
    }
}

proof fn lemma_moves(input: TextView, moves: Seq<KeyCode>)
    requires
        forall|i: int|
            0 <= i < moves.len() ==> ((#[trigger] moves[i]) is Left || moves[i] is Right || moves[i]
                is Home || moves[i] is End),
    ensures
        input_after(input, moves).text == input.text,
    decreases moves.len(),
{
    if moves.len() > 0 {
        let fewer = moves.drop_last();
        assert forall|i: int| 0 <= i < fewer.len() implies ((#[trigger] fewer[i]) is Left
            || fewer[i] is Right || fewer[i] is Home || fewer[i] is End) by {
            assert(fewer[i] == moves[i]);
        }
        lemma_moves(input, fewer);
        assert(moves.last() == moves[moves.len() - 1]);
    }
}

/// Where a script is started whose process has ended, that process is forgotten: neither it
/// nor its script is on record any more, and all others are as they were.
pub proof fn law_process_that_ended_is_forgotten(
    app: AppView,
    mods: KeyModifiers,
    dir_index: int,
    script: ScriptView,
)
    requires
        in_list(app),
        app.selected_script() == Some((dir_index, script)),
        app.row() is Some && app.row()->0 is Script,
    ensures
        ({
            let key = ScriptKeyView { dir_index, source: script.source, name: script.name };
            let after = app.key(KeyCode::Enter, mods).0;
            on_record(app, key) matches Some((id, status)) ==> {
                &&& status == ProcStatus::Running ==> after.procs == app.procs
                    && after.script_to_proc == app.script_to_proc
                &&& status != ProcStatus::Running ==> {
                    &&& forall|other: ProcId| #[trigger]
                        after.procs.dom().contains(other) <==> other != id
                            && app.procs.dom().contains(other)
                    &&& forall|other: ProcId|
                        other != id && app.procs.dom().contains(other) ==> #[trigger]
                        after.procs[other] == app.procs[other]
                    &&& forall|other: ScriptKeyView| #[trigger]
                        after.script_to_proc.dom().contains(other) <==> other != key
                            && app.script_to_proc.dom().contains(other)
                    &&& forall|other: ScriptKeyView|
                        other != key && app.script_to_proc.dom().contains(other) ==> #[trigger]
                        after.script_to_proc[other] == app.script_to_proc[other]
                }
            }
        }),
{
    let calm = AppView { awaiting_z: false, ..app };
    assert(calm.selected_script() == app.selected_script());
    assert(calm.row() == app.row());
}

} // verus!
