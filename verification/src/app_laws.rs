//! What holds of the application's list, whatever keys are pressed.

use vstd::math::max;
use vstd::prelude::*;

use crate::app::{
    command_row, first_script, header_above, lemma_listed_once, listed_once, parent_key, script_row,
    AppView,
};
use crate::below_laws::{
    below, filed_scripts, law_commands_have_one_row, law_last_command_comes_last,
    law_listed_scripts_are_found, law_open_headings_lead_to_their_rows,
    lemma_first_below_directory, lemma_script_is_below, lemma_source_is_below,
};
use crate::config::Config;
use crate::draw::Area;
use crate::keys::KeyCode;
use crate::layout::{law_output_is_drawn_in_its_size, panes_in};
use crate::proc_table::ScriptKeyView;
use crate::row_laws::{
    distinct_sources, heads, law_commands_are_listed, law_directory_headings,
    law_headings_are_distinct, law_headings_tell_what_is_folded,
    law_scripts_stand_below_their_heading, no_source_of_commands,
};
use crate::rows::{names_of, KeyView, RowView, TreeView};
use crate::source::registry::{DirView, GroupView, RegistryView};
use crate::source::{ScriptView, AD_HOC};
use crate::text::lower_text;
use crate::text_input::TextView;

verus! {

// --- searches ---------------------------------------------------------------------

pub(crate) proof fn lemma_script_row(rows: Seq<RowView>, key: ScriptKeyView, k: int)
    requires
        0 <= k,
    ensures
        ({
            let row = RowView::Script {
                dir_index: key.dir_index,
                source: key.source,
                name: key.name,
            };
            match script_row(rows, key, k) {
                Some(i) => k <= i < rows.len() && rows[i] == row,
                None => forall|i: int| k <= i < rows.len() ==> #[trigger] rows[i] != row,
            }
        }),
    decreases rows.len() - k,
{
    if k < rows.len() {
        lemma_script_row(rows, key, k + 1);
    }
}

proof fn lemma_command_row(rows: Seq<RowView>, name: Seq<char>, k: int)
    requires
        0 <= k,
    ensures
        match command_row(rows, name, k) {
            Some(i) => k <= i < rows.len() && rows[i] is Script && rows[i]->Script_source == AD_HOC@
                && rows[i]->Script_name == name,
            None => forall|i: int|
                k <= i < rows.len() && (#[trigger] rows[i]) is Script && rows[i]->Script_source
                    == AD_HOC@ ==> rows[i]->Script_name != name,
        },
    decreases rows.len() - k,
{
    if k < rows.len() {
        lemma_command_row(rows, name, k + 1);
    }
}

proof fn lemma_first_script(rows: Seq<RowView>, k: int)
    requires
        0 <= k,
    ensures
        match first_script(rows, k) {
            Some(i) => k <= i < rows.len() && rows[i] is Script && forall|j: int|
                k <= j < i ==> !(#[trigger] rows[j] is Script),
            None => forall|j: int| k <= j < rows.len() ==> !(#[trigger] rows[j] is Script),
        },
    decreases rows.len() - k,
{
    if k < rows.len() {
        lemma_first_script(rows, k + 1);
    }
}

/// The heading that a script stands below is the nearest one above it.
proof fn lemma_header_above(rows: Seq<RowView>, key: KeyView, j: int, n: int)
    requires
        0 <= j < n <= rows.len(),
        rows[j].collapse_key() == Some(key),
        forall|k: int| j < k < n ==> (#[trigger] rows[k]).collapse_key() is None,
    ensures
        header_above(rows, key, n) == Some(j),
    decreases n,
{
    if j < n - 1 {
        assert(rows[n - 1].collapse_key() is None);
        lemma_header_above(rows, key, j, n - 1);
    }
}

// --- laws about the selection ---------------------------------------------------------

/// At the start the first script is selected, where there is one.
pub proof fn law_first_script_is_selected(
    registry: RegistryView,
    term_cols: u16,
    term_rows: u16,
    config: Config,
)
    ensures
        ({
            let app = AppView::started(registry, term_cols, term_rows, config);
            forall|i: int|
                0 <= i < app.rows.len() && (#[trigger] app.rows[i]) is Script ==> app.selected <= i
                    && app.rows[app.selected] is Script
        }),
{
    let app = AppView::started(registry, term_cols, term_rows, config);
    lemma_first_script(app.rows, 0);
}

/// The script of the selected row is the selected script.
pub proof fn law_selected_row_is_the_script(app: AppView)
    requires
        app.rows == app.tree().rows(),
        distinct_sources(app.registry.directories),
        filed_scripts(app.registry.directories),
    ensures
        app.row() matches Some(RowView::Script { dir_index, source, name })
            ==> app.selected_key() == Some(ScriptKeyView { dir_index, source, name }),
{
    if let Some(RowView::Script { dir_index, source, name }) = app.row() {
        assert(app.tree().rows().contains(app.rows[app.selected]));
        if source != AD_HOC@ {
            law_listed_scripts_are_found(app.registry, app.tree(), dir_index, source, name);
        }
    }
}

/// Reading the directories anew keeps the selection on its script, where that is
/// still listed; processes, commands and what is folded up stay as they are.
pub proof fn law_reload_keeps_the_selection(app: AppView, registry: RegistryView)
    requires
        app.valid(),
    ensures
        ({
            let after = app.reloaded(registry);
            let listed = (AppView { registry, ..app }).tree().rows();
            &&& after.registry == registry
            &&& after.rows == listed
            &&& after.procs == app.procs && after.script_to_proc == app.script_to_proc
            &&& after.ad_hoc == app.ad_hoc && after.collapsed == app.collapsed
            &&& app.selected_key() matches Some(key) ==> {
                let row = RowView::Script {
                    dir_index: key.dir_index,
                    source: key.source,
                    name: key.name,
                };
                listed.contains(row) ==> after.row() == Some(row) && (distinct_sources(
                    registry.directories,
                ) && filed_scripts(registry.directories) ==> after.selected_key() == Some(key))
            }
        }),
{
    let fresh = (AppView { registry, ..app }).rebuilt();
    if let Some(key) = app.selected_key() {
        lemma_script_row(fresh.rows, key, 0);
        if distinct_sources(registry.directories) && filed_scripts(registry.directories) {
            law_selected_row_is_the_script(app.reloaded(registry));
        }
    }
}

/// From a script the way up leads to the heading of its source, and the way down
/// from there leads to a script of the same source.
pub proof fn law_up_and_down_stay_in_the_source(app: AppView)
    requires
        app.valid(),
        app.row() is Some,
        app.row()->0 is Script,
    ensures
        ({
            let dir_index = app.row()->0->Script_dir_index;
            let source = app.row()->0->Script_source;
            let up = app.to_header();
            &&& up.selected < app.selected
            &&& up.row() matches Some(RowView::SourceHeader { dir_index: d, source: s, .. }) && d
                == dir_index && s == source
            &&& up.to_first_child().selected == up.selected + 1
            &&& up.to_first_child().row() matches Some(
                RowView::Script { dir_index: d, source: s, .. },
            ) && d == dir_index && s == source
        }),
{
    let i = app.selected;
    let rows = app.rows;
    law_scripts_stand_below_their_heading(app.tree(), i);
    let j = choose|j: int| heads(rows, j, i);
    let key = KeyView::Source(rows[i]->Script_dir_index, rows[i]->Script_source);
    assert forall|k: int| j < k < i implies (#[trigger] rows[k]).collapse_key() is None by {
        assert(rows[k] is Script);
    }
    lemma_header_above(rows, key, j, i);
    let up = app.to_header();
    assert(up.selected == j);
    if j + 1 < i {
        assert(rows[j + 1] is Script);
    }
}

/// A command that is run on the spot is listed and selected, unless the filter or
/// a folded heading hides it.
pub proof fn law_command_is_selected(app: AppView, command: Seq<char>)
    requires
        app.tree().shown(command),
        !app.tree().is_collapsed(KeyView::Source(0, AD_HOC@)),
    ensures
        app.with_command(command).selected_script() matches Some((_, script)) && script == (
        ScriptView { name: command, source: AD_HOC@, command }),
        app.with_command(command).ad_hoc.contains(command),
{
    let ad_hoc = listed_once(app.ad_hoc, command);
    let s = (AppView { ad_hoc, ..app }).rebuilt();
    if !app.ad_hoc.contains(command) {
        assert(ad_hoc[app.ad_hoc.len() as int] == command);
    }
    let c = choose|c: int| 0 <= c < ad_hoc.len() && ad_hoc[c] == command;
    law_commands_are_listed(s.tree(), c);
    let row = RowView::Script { dir_index: 0, source: AD_HOC@, name: command };
    let k = choose|k: int| 0 <= k < s.rows.len() && s.rows[k] == row;
    lemma_command_row(s.rows, command, 0);
}

/// A command that is run on the spot has one row and the selection is on it, unless
/// the filter or a folded heading hides it. One that was run before keeps its
/// place, and the list stays as it was; a new one comes last.
pub proof fn law_command_has_one_row(app: AppView, command: Seq<char>)
    requires
        app.valid(),
        no_source_of_commands(app.registry.directories),
        app.filter.text.len() == 0 || app.tree().shown(command),
        !app.tree().is_collapsed(KeyView::Source(0, AD_HOC@)),
    ensures
        ({
            let after = app.with_command(command);
            &&& after.row() == Some(
                RowView::Script { dir_index: 0, source: AD_HOC@, name: command },
            )
            &&& forall|i: int|
                0 <= i < after.rows.len() && (#[trigger] after.rows[i]) is Script
                    && after.rows[i]->Script_source == AD_HOC@ && after.rows[i]->Script_name
                    == command ==> i == after.selected
            &&& app.ad_hoc.contains(command) ==> after.ad_hoc == app.ad_hoc && after.rows
                == app.rows
            &&& !app.ad_hoc.contains(command) ==> after.ad_hoc == app.ad_hoc.push(command)
                && after.selected == after.rows.len() - 1
        }),
{
    let after = app.with_command(command);
    let tree = after.tree();
    lemma_listed_once(app.ad_hoc, command);
    assert(tree == (TreeView { ad_hoc: after.ad_hoc, ..app.tree() }));
    assert(tree.shown(command) == app.tree().shown(command));
    let c = choose|c: int| 0 <= c < after.ad_hoc.len() && after.ad_hoc[c] == command;
    law_commands_are_listed(tree, c);
    let row = RowView::Script { dir_index: 0, source: AD_HOC@, name: command };
    let k = choose|k: int| 0 <= k < tree.rows().len() && tree.rows()[k] == row;
    lemma_command_row(tree.rows(), command, 0);
    law_commands_have_one_row(tree, after.selected, k);
    assert forall|i: int|
        0 <= i < after.rows.len() && (#[trigger] after.rows[i]) is Script
            && after.rows[i]->Script_source == AD_HOC@ && after.rows[i]->Script_name
            == command implies i == after.selected by {
        law_commands_have_one_row(tree, i, k);
    }
    if app.ad_hoc.contains(command) {
        assert(tree == app.tree());
    } else {
        assert(after.ad_hoc.last() == command);
        law_last_command_comes_last(tree);
        law_commands_have_one_row(tree, tree.rows().len() - 1, k);
    }
}

/// Running a command again changes nothing in the list.
pub proof fn law_command_is_listed_once(app: AppView, command: Seq<char>)
    ensures
        app.with_command(command).with_command(command) == app.with_command(command),
        app.ad_hoc.no_duplicates() ==> app.with_command(command).ad_hoc.no_duplicates(),
{
    let once = app.with_command(command);
    if !app.ad_hoc.contains(command) {
        assert(once.ad_hoc[app.ad_hoc.len() as int] == command);
    }
    assert(once.ad_hoc.contains(command));
    lemma_command_row(once.rows, command, 0);
    if app.ad_hoc.no_duplicates() {
        lemma_listed_once(app.ad_hoc, command);
    }
}

// --- laws about the filter ------------------------------------------------------------

/// Case does not count, neither in the filter nor in names.
pub proof fn law_filter_ignores_case(app: AppView, filter: TextView, a: Seq<char>, b: Seq<char>)
    requires
        lower_text(filter.text) == lower_text(app.filter.text),
        lower_text(a) == lower_text(b),
    ensures
        (AppView { filter, ..app }).rebuilt().rows == app.rebuilt().rows,
        app.tree().shown(a) == app.tree().shown(b),
{
}

/// The state after keys were typed into the filter.
pub open spec fn filter_typed_all(app: AppView, keys: Seq<KeyCode>) -> AppView
    decreases keys.len(),
{
    if keys.len() == 0 {
        app
    } else {
        filter_typed_all(app, keys.drop_last()).filter_typed(keys.last())
    }
}

/// A filter that is typed and cancelled leaves the list as it is without one, and
/// leaves all else as it was, but for the selection. Where there was no filter
/// before, the list is the one of before.
pub proof fn law_cancelled_filter_leaves_no_trace(app: AppView, keys: Seq<KeyCode>)
    requires
        app.valid(),
    ensures
        ({
            let after = filter_typed_all(app.filter_started(), keys).filter_cancelled();
            &&& after.rows == app.filter_started().rows
            &&& after == (AppView {
                rows: after.rows,
                selected: after.selected,
                filter: TextView::seeded(Seq::empty()),
                filtering: false,
                ..app
            })
            &&& app.filter.text.len() == 0 ==> after.rows == app.rows
        }),
{
    lemma_filter_frame(app.filter_started(), keys);
    if app.filter.text.len() == 0 {
        assert(app.filter.text =~= Seq::empty());
    }
}

/// Typing into the filter changes the filter and the list alone.
proof fn lemma_filter_frame(app: AppView, keys: Seq<KeyCode>)
    ensures
        ({
            let after = filter_typed_all(app, keys);
            after == (AppView {
                rows: after.rows,
                selected: after.selected,
                filter: after.filter,
                ..app
            })
        }),
    decreases keys.len(),
{
    if keys.len() > 0 {
        lemma_filter_frame(app, keys.drop_last());
    }
}

// --- folding --------------------------------------------------------------------------

/// The same rows, up to the first heading `key`.
spec fn agree(a: Seq<RowView>, b: Seq<RowView>, key: KeyView) -> bool {
    a == b && no_header(a, key, a.len() as int) || exists|p: int| #[trigger] parts_at(a, b, key, p)
}

/// No heading `key` among the first `n` rows.
spec fn no_header(a: Seq<RowView>, key: KeyView, n: int) -> bool {
    forall|i: int| 0 <= i < n ==> (#[trigger] a[i]).collapse_key() != Some(key)
}

/// The rows part at position `p`, where both have the heading `key`.
spec fn parts_at(a: Seq<RowView>, b: Seq<RowView>, key: KeyView, p: int) -> bool {
    &&& 0 <= p < a.len()
    &&& p < b.len()
    &&& a.take(p) == b.take(p)
    &&& no_header(a, key, p)
    &&& a[p].collapse_key() == Some(key)
    &&& b[p].collapse_key() == Some(key)
}

proof fn lemma_agree_concat(
    a: Seq<RowView>,
    b: Seq<RowView>,
    c: Seq<RowView>,
    d: Seq<RowView>,
    key: KeyView,
)
    requires
        agree(a, b, key),
        agree(c, d, key),
    ensures
        agree(a + c, b + d, key),
{
    let x = a + c;
    let y = b + d;
    if exists|p: int| #[trigger] parts_at(a, b, key, p) {
        let p = choose|p: int| #[trigger] parts_at(a, b, key, p);
        assert(x.take(p) =~= a.take(p));
        assert(y.take(p) =~= b.take(p));
        assert(forall|i: int| 0 <= i <= p ==> #[trigger] x[i] == a[i]);
        assert(y[p] == b[p]);
        assert(parts_at(x, y, key, p));
    } else if exists|p: int| #[trigger] parts_at(c, d, key, p) {
        let p = choose|p: int| #[trigger] parts_at(c, d, key, p);
        let n = a.len() as int;
        assert(x.take(n + p) =~= a + c.take(p));
        assert(y.take(n + p) =~= b + d.take(p));
        assert forall|i: int| 0 <= i < n + p implies (#[trigger] x[i]).collapse_key() != Some(
            key,
        ) by {
            if i < n {
                assert(x[i] == a[i]);
            } else {
                assert(x[i] == c[i - n]);
            }
        }
        assert(x[n + p] == c[p]);
        assert(y[n + p] == d[p]);
        assert(parts_at(x, y, key, n + p));
    } else {
        assert forall|i: int| 0 <= i < x.len() implies (#[trigger] x[i]).collapse_key() != Some(
            key,
        ) by {
            if i < a.len() {
                assert(x[i] == a[i]);
            } else {
                assert(x[i] == c[i - a.len()]);
            }
        }
    }
}

/// Two lists that differ at most in whether `key` is folded up.
spec fn differ_in(t: TreeView, u: TreeView, key: KeyView) -> bool {
    &&& t.directories == u.directories
    &&& t.needle == u.needle
    &&& t.ad_hoc == u.ad_hoc
    &&& forall|k: KeyView| k != key ==> #[trigger] t.collapsed.contains(k) == u.collapsed.contains(k)
}

proof fn lemma_matching_same(t: TreeView, u: TreeView, names: Seq<Seq<char>>)
    requires
        t.needle == u.needle,
    ensures
        t.matching(names) == u.matching(names),
    decreases names.len(),
{
    reveal(Seq::filter);
    if names.len() > 0 {
        lemma_matching_same(t, u, names.drop_last());
    }
}

proof fn lemma_headed_agree(
    t: TreeView,
    u: TreeView,
    key: KeyView,
    dir_index: int,
    source: Seq<char>,
    label: Seq<char>,
    names: Seq<Seq<char>>,
)
    requires
        differ_in(t, u, key),
    ensures
        agree(
            t.headed(dir_index, source, label, names),
            u.headed(dir_index, source, label, names),
            key,
        ),
{
    let a = t.headed(dir_index, source, label, names);
    let b = u.headed(dir_index, source, label, names);
    let own = KeyView::Source(dir_index, source);
    if own == key {
        assert(a.take(0) =~= b.take(0));
        assert(parts_at(a, b, key, 0));
    } else {
        assert(t.collapsed.contains(own) == u.collapsed.contains(own));
        assert(a == b);
        assert forall|i: int| 0 <= i < a.len() implies (#[trigger] a[i]).collapse_key() != Some(
            key,
        ) by {
            if i > 0 {
                assert(a[i] is Script);
            }
        }
    }
}

proof fn lemma_children_agree(
    t: TreeView,
    u: TreeView,
    key: KeyView,
    dir_index: int,
    groups: Seq<GroupView>,
)
    requires
        differ_in(t, u, key),
    ensures
        agree(t.children(dir_index, groups), u.children(dir_index, groups), key),
        (t.children(dir_index, groups).len() == 0) == (u.children(dir_index, groups).len() == 0),
    decreases groups.len(),
{
    if groups.len() == 0 {
        assert(no_header(t.children(dir_index, groups), key, 0));
    } else {
        let group = groups.last();
        let names = names_of(group.scripts);
        lemma_children_agree(t, u, key, dir_index, groups.drop_last());
        lemma_matching_same(t, u, names);
        lemma_headed_agree(t, u, key, dir_index, group.id, group.label, t.matching(names));
        assert(agree(t.group_rows(dir_index, group), u.group_rows(dir_index, group), key)) by {
            if t.filtered() && t.matching(names).len() == 0 {
                assert(no_header(Seq::empty(), key, 0));
            }
        }
        lemma_agree_concat(
            t.children(dir_index, groups.drop_last()),
            u.children(dir_index, groups.drop_last()),
            t.group_rows(dir_index, group),
            u.group_rows(dir_index, group),
            key,
        );
    }
}

proof fn lemma_dir_agree(t: TreeView, u: TreeView, key: KeyView, dir_index: int, dir: DirView)
    requires
        differ_in(t, u, key),
    ensures
        agree(t.dir_rows(dir_index, dir), u.dir_rows(dir_index, dir), key),
{
    let own = KeyView::Dir(dir_index);
    let a = t.dir_rows(dir_index, dir);
    let b = u.dir_rows(dir_index, dir);
    let kids_a = t.children(dir_index, dir.source_groups);
    let kids_b = u.children(dir_index, dir.source_groups);
    lemma_children_agree(t, u, key, dir_index, dir.source_groups);
    if t.filtered() && kids_a.len() == 0 {
        assert(no_header(a, key, 0));
    } else if own == key {
        if t.multi() {
            assert(a.take(0) =~= b.take(0));
            assert(a[0].collapse_key() == Some(key));
            assert(b[0].collapse_key() == Some(key));
            assert(parts_at(a, b, key, 0));
        } else {
            assert(a =~= kids_a);
            assert(b =~= kids_b);
        }
    } else {
        assert(t.collapsed.contains(own) == u.collapsed.contains(own));
        let collapsed = t.dir_collapsed(dir_index);
        let head = if t.multi() {
            seq![RowView::DirHeader { dir_index, label: dir.label, collapsed }]
        } else {
            Seq::empty()
        };
        assert(agree(head, head, key));
        if collapsed {
            assert(no_header(Seq::empty(), key, 0));
            lemma_agree_concat(head, head, Seq::empty(), Seq::empty(), key);
        } else {
            lemma_agree_concat(head, head, kids_a, kids_b, key);
        }
    }
}

proof fn lemma_dirs_agree(t: TreeView, u: TreeView, key: KeyView, n: int)
    requires
        differ_in(t, u, key),
        0 <= n <= t.directories.len(),
    ensures
        agree(t.dirs_rows(n), u.dirs_rows(n), key),
    decreases n,
{
    if n == 0 {
        assert(no_header(t.dirs_rows(n), key, 0));
    } else {
        lemma_dirs_agree(t, u, key, n - 1);
        lemma_dir_agree(t, u, key, n - 1, t.directories[n - 1]);
        lemma_agree_concat(
            t.dirs_rows(n - 1),
            u.dirs_rows(n - 1),
            t.dir_rows(n - 1, t.directories[n - 1]),
            u.dir_rows(n - 1, t.directories[n - 1]),
            key,
        );
    }
}

proof fn lemma_rows_agree(t: TreeView, u: TreeView, key: KeyView)
    requires
        differ_in(t, u, key),
    ensures
        agree(t.rows(), u.rows(), key),
{
    let n = t.directories.len() as int;
    lemma_dirs_agree(t, u, key, n);
    lemma_matching_same(t, u, t.ad_hoc);
    let names = t.matching(t.ad_hoc);
    lemma_headed_agree(t, u, key, 0, AD_HOC@, "commands"@, names);
    assert(agree(t.ad_hoc_rows(), u.ad_hoc_rows(), key)) by {
        if names.len() == 0 {
            assert(no_header(Seq::empty(), key, 0));
        }
    }
    lemma_agree_concat(t.dirs_rows(n), u.dirs_rows(n), t.ad_hoc_rows(), u.ad_hoc_rows(), key);
}

/// The first heading of its kind keeps its row when it is folded up or opened,
/// and so do the rows above it.
proof fn lemma_header_stays(app: AppView, collapsed: Set<KeyView>, key: KeyView)
    requires
        app.valid(),
        app.current_key() == Some(key),
        forall|i: int|
            0 <= i < app.selected ==> (#[trigger] app.rows[i]).collapse_key() != Some(key),
        forall|k: KeyView|
            k != key ==> #[trigger] app.collapsed.contains(k) == collapsed.contains(k),
    ensures
        ({
            let after = (AppView { collapsed, ..app }).rebuilt();
            &&& after.selected == app.selected
            &&& after.current_key() == Some(key)
            &&& after.rows.take(app.selected) == app.rows.take(app.selected)
        }),
{
    let after = AppView { collapsed, ..app };
    let a = app.tree().rows();
    let b = after.tree().rows();
    lemma_rows_agree(app.tree(), after.tree(), key);
    if exists|p: int| #[trigger] parts_at(a, b, key, p) {
        let p = choose|p: int| #[trigger] parts_at(a, b, key, p);
        if p < app.selected {
            assert(app.rows[p].collapse_key() != Some(key));
        } else if p > app.selected {
            assert(a[app.selected].collapse_key() != Some(key));
        }
        assert(p == app.selected);
    } else {
        assert(a[app.selected].collapse_key() != Some(key));
    }
}

/// No row above the selected heading is the same heading, where sources are told
/// apart.
pub proof fn law_no_heading_comes_twice(app: AppView, key: KeyView)
    requires
        app.valid(),
        app.current_key() == Some(key),
        distinct_sources(app.registry.directories),
    ensures
        forall|i: int|
            0 <= i < app.selected ==> (#[trigger] app.rows[i]).collapse_key() != Some(key),
{
    law_headings_are_distinct(app.tree());
    assert forall|i: int| 0 <= i < app.selected implies (#[trigger] app.rows[i]).collapse_key()
        != Some(key) by {
        let own = app.rows[app.selected];
        assert(own.is_header());
        if app.rows[i].is_header() {
            assert(app.rows[i].collapse_key() != own.collapse_key());
        }
    }
}

/// Folding a heading up or opening it leaves the selection on it, and leaves the
/// rows above it as they are, where none of these is the same heading.
pub proof fn law_folding_keeps_the_selection(app: AppView, key: KeyView)
    requires
        app.valid(),
        app.current_key() == Some(key),
        forall|i: int|
            0 <= i < app.selected ==> (#[trigger] app.rows[i]).collapse_key() != Some(key),
    ensures
        ({
            let after = app.collapse_toggled();
            &&& after.selected == app.selected
            &&& after.current_key() == Some(key)
            &&& after.rows.take(app.selected) == app.rows.take(app.selected)
            &&& after.collapsed.contains(key) == !app.collapsed.contains(key)
        }),
{
    if app.collapsed.contains(key) {
        lemma_header_stays(app, app.collapsed.remove(key), key);
    } else {
        lemma_header_stays(app, app.collapsed.insert(key), key);
    }
}

/// Folding a heading up and opening it again changes nothing, where no row above is
/// the same heading.
pub proof fn law_folding_twice_is_nothing(app: AppView, key: KeyView)
    requires
        app.valid(),
        app.current_key() == Some(key),
        forall|i: int|
            0 <= i < app.selected ==> (#[trigger] app.rows[i]).collapse_key() != Some(key),
    ensures
        app.collapse_toggled().collapse_toggled() == app,
{
    law_folding_keeps_the_selection(app, key);
    let once = app.collapse_toggled();
    let twice = once.collapse_toggled();
    assert(twice.collapsed =~= app.collapsed);
    assert(twice.tree() == app.tree());
}

/// From a heading the way down leads to the first row below it, which is opened
/// for it, and the way up from there leads back. Where nothing stands below the
/// heading, the selection stays.
pub proof fn law_first_child_and_back(app: AppView, key: KeyView)
    requires
        app.valid(),
        app.current_key() == Some(key),
        distinct_sources(app.registry.directories),
    ensures
        ({
            let after = app.to_first_child();
            let i = app.selected;
            let rows = below(after.tree(), key);
            &&& i < after.rows.len()
            &&& after.rows[i].collapse_key() == Some(key)
            &&& !after.rows[i].is_folded()
            &&& after.rows.take(i) == app.rows.take(i)
            &&& rows.len() == 0 ==> after.selected == i
            &&& rows.len() > 0 ==> after.selected == i + 1 && after.row() == Some(rows[0])
                && after.to_header() == (AppView { selected: i, ..after })
        }),
{
    let i = app.selected;
    let row = app.rows[i];
    law_headings_tell_what_is_folded(app.tree(), i);
    let s = if row.is_folded() {
        app.opened(key)
    } else {
        app
    };
    if row.is_folded() {
        law_no_heading_comes_twice(app, key);
        lemma_header_stays(app, app.collapsed.remove(key), key);
        law_headings_tell_what_is_folded(s.tree(), i);
    }
    assert(s.rows == s.tree().rows());
    assert(!s.tree().is_collapsed(key));
    assert(!s.rows[i].is_folded());
    let rows = below(s.tree(), key);
    lemma_below_or_not(s, key);
    if rows.len() > 0 {
        law_open_headings_lead_to_their_rows(s.tree(), i, key);
        let after = app.to_first_child();
        assert(after == (AppView { selected: i + 1, ..s }));
        assert(header_above(after.rows, key, i + 1) == Some(i));
    }
}

/// The row after an open heading stands below it where anything does, and only
/// there.
proof fn lemma_below_or_not(app: AppView, key: KeyView)
    requires
        app.rows == app.tree().rows(),
        app.current_key() == Some(key),
        !app.tree().is_collapsed(key),
        distinct_sources(app.registry.directories),
    ensures
        ({
            let i = app.selected;
            let rows = below(app.tree(), key);
            &&& rows.len() > 0 ==> parent_key(rows[0], app.registry.is_multi()) == Some(key)
            &&& rows.len() == 0 && i + 1 < app.rows.len() ==> parent_key(
                app.rows[i + 1],
                app.registry.is_multi(),
            ) != Some(key)
        }),
{
    let i = app.selected;
    let tree = app.tree();
    let rows = below(tree, key);
    law_directory_headings(tree);
    if rows.len() > 0 {
        if let KeyView::Dir(d) = key {
            assert(app.rows[i] is DirHeader);
            lemma_first_below_directory(tree, d);
        }
    } else if i + 1 < app.rows.len() && parent_key(app.rows[i + 1], app.registry.is_multi())
        == Some(key) {
        let next = app.rows[i + 1];
        assert(tree.rows().contains(next));
        if next is Script {
            lemma_script_is_below(tree, next);
        } else {
            lemma_source_is_below(tree, next);
        }
    }
}

// --- the output's size ----------------------------------------------------------------

/// The size that processes are given is that of the output as it is drawn, but that
/// it is never less than one cell.
pub proof fn law_processes_have_the_size_of_the_output(app: AppView)
    ensures
        ({
            let area = Area { x: 0, y: 0, width: app.term_cols, height: app.term_rows };
            let drawn = panes_in(area, app.scripts_width()).output_inside;
            let sized = app.resized();
            &&& sized.out_cols == max(drawn.width as int, 1)
            &&& sized.out_rows == max(drawn.height as int, 1)
        }),
{
    law_output_is_drawn_in_its_size(app.term_cols, app.term_rows, app.scripts_width());
}

} // verus!
