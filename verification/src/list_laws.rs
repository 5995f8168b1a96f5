//! What the keys of the list are for: moving, folding and filtering.

use vstd::math::max;
use vstd::prelude::*;

use crate::app::{header_above, AppView};
use crate::app_laws::{law_processes_have_the_size_of_the_output, lemma_script_row};
use crate::config::Config;
use crate::draw::Area;
use crate::event_laws::{in_list, types};
use crate::events::ActionView;
use crate::keys::{KeyCode, KeyModifiers};
use crate::layout::panes_in;
use crate::proc_table::ScriptKeyView;
use crate::row_laws::{lemma_children, lemma_dir, lemma_headed, lemma_row, no_source_of_commands};
use crate::rows::{names_of, KeyView, RowView, TreeView};
use crate::runner::ProcId;
use crate::source::registry::RegistryView;
use crate::source::AD_HOC;
use crate::text::{has_part, lower_text, occurs_at};
use crate::text_input::TextView;

verus! {

// --- moving ---------------------------------------------------------------------------

/// `j` goes one row down and `k` one row up, as far as there are rows; nothing else
/// changes.
pub proof fn law_j_and_k_go_one_row(app: AppView, mods: KeyModifiers)
    requires
        in_list(app),
        app.valid(),
    ensures
        app.key(KeyCode::Char('j'), mods) == (
            AppView {
                selected: if app.selected < app.rows.len() - 1 {
                    app.selected + 1
                } else {
                    app.selected
                },
                awaiting_z: false,
                ..app
            },
            ActionView::Nothing,
        ),
        app.key(KeyCode::Char('k'), mods) == (
            AppView {
                selected: if app.selected >= 1 {
                    app.selected - 1
                } else {
                    0
                },
                awaiting_z: false,
                ..app
            },
            ActionView::Nothing,
        ),
{
}

/// `h` is the way up to the heading and `l` the way down to the first row below.
pub proof fn law_h_goes_up_and_l_goes_down(app: AppView, mods: KeyModifiers)
    requires
        in_list(app),
    ensures
        app.key(KeyCode::Char('h'), mods) == (
            (AppView { awaiting_z: false, ..app }).to_header(),
            ActionView::Nothing,
        ),
        app.key(KeyCode::Char('l'), mods) == (
            (AppView { awaiting_z: false, ..app }).to_first_child(),
            ActionView::Nothing,
        ),
{
}

/// Every source's heading has its directory's above it, where directories have
/// headings.
spec fn dir_headed(rows: Seq<RowView>) -> bool {
    forall|i: int| 0 <= i < rows.len() ==> #[trigger] has_dir_above(rows, i)
}

spec fn has_dir_above(rows: Seq<RowView>, i: int) -> bool {
    rows[i] matches RowView::SourceHeader { dir_index, source, .. } ==> source == AD_HOC@
        || exists|j: int| #[trigger] dir_at(rows, j, dir_index) && j < i
}

/// Row `j` is the heading of a directory.
pub open spec fn dir_at(rows: Seq<RowView>, j: int, d: int) -> bool {
    &&& 0 <= j < rows.len()
    &&& rows[j] matches RowView::DirHeader { dir_index, .. } && dir_index == d
}

proof fn lemma_dir_headed_concat(a: Seq<RowView>, b: Seq<RowView>)
    requires
        dir_headed(a),
        dir_headed(b),
    ensures
        dir_headed(a + b),
{
    let both = a + b;
    let n = a.len() as int;
    assert forall|i: int| 0 <= i < both.len() implies #[trigger] has_dir_above(both, i) by {
        if let RowView::SourceHeader { dir_index, source, .. } = both[i] {
            if source != AD_HOC@ {
                if i < n {
                    assert(has_dir_above(a, i));
                    assert(a[i] == both[i]);
                    let j = choose|j: int| #[trigger] dir_at(a, j, dir_index) && j < i;
                    assert(both[j] == a[j]);
                    assert(dir_at(both, j, dir_index));
                } else {
                    assert(has_dir_above(b, i - n));
                    assert(b[i - n] == both[i]);
                    let j = choose|j: int| #[trigger] dir_at(b, j, dir_index) && j < i - n;
                    assert(both[n + j] == b[j]);
                    assert(dir_at(both, n + j, dir_index));
                }
            }
        }
    }
}

proof fn lemma_dirs_headed(tree: TreeView, n: int)
    requires
        tree.multi(),
        0 <= n <= tree.directories.len(),
    ensures
        dir_headed(tree.dirs_rows(n)),
    decreases n,
{
    if n > 0 {
        lemma_dirs_headed(tree, n - 1);
        let d = n - 1;
        let dir = tree.directories[d];
        let rows = tree.dir_rows(d, dir);
        assert forall|i: int| 0 <= i < rows.len() implies #[trigger] has_dir_above(rows, i) by {
            let row = rows[i];
            if let RowView::SourceHeader { dir_index, source, .. } = row {
                assert(rows.contains(row));
                lemma_dir(tree, d, dir, row);
                lemma_children(tree, d, dir.source_groups, row);
                let g = choose|g: int|
                    0 <= g < dir.source_groups.len() && tree.group_rows(
                        d,
                        #[trigger] dir.source_groups[g],
                    ).contains(row);
                let group = dir.source_groups[g];
                lemma_headed(
                    tree,
                    d,
                    group.id,
                    group.label,
                    tree.matching(names_of(group.scripts)),
                    row,
                );
                assert(dir_index == d);
                assert(rows[0] is DirHeader);
                assert(i > 0);
                assert(dir_at(rows, 0, d));
            }
        }
        lemma_dir_headed_concat(tree.dirs_rows(n - 1), rows);
    }
}

proof fn lemma_header_above_found(rows: Seq<RowView>, key: KeyView, j: int, n: int)
    requires
        0 <= j < n <= rows.len(),
        rows[j].collapse_key() == Some(key),
    ensures
        header_above(rows, key, n) matches Some(k) && j <= k < n && rows[k].collapse_key() == Some(
            key,
        ),
    decreases n,
{
    if rows[n - 1].collapse_key() != Some(key) {
        lemma_header_above_found(rows, key, j, n - 1);
    }
}

/// From a source's heading `h` leads to the heading of its directory, where directories
/// have headings. From the heading of the commands, from a directory's heading, and where
/// there is one directory, it leads nowhere.
pub proof fn law_h_from_a_heading(app: AppView, mods: KeyModifiers)
    requires
        in_list(app),
        app.valid(),
    ensures
        ({
            let after = app.key(KeyCode::Char('h'), mods).0;
            let leads = app.registry.directories.len() > 1 && (app.row() matches Some(
                RowView::SourceHeader { source, .. },
            ) && source != AD_HOC@);
            &&& leads ==> (app.row() matches Some(RowView::SourceHeader { dir_index, .. })
                && dir_at(app.rows, after.selected, dir_index) && after.selected < app.selected)
            &&& !leads && !(app.row() matches Some(RowView::Script { .. })) ==> after.selected
                == app.selected
            &&& after == (AppView { selected: after.selected, awaiting_z: false, ..app })
        }),
{
    let tree = app.tree();
    if let Some(RowView::SourceHeader { dir_index, source, .. }) = app.row() {
        if app.registry.directories.len() > 1 && source != AD_HOC@ {
            let n = tree.directories.len() as int;
            let back = tree.ad_hoc_rows();
            lemma_dirs_headed(tree, n);
            assert forall|i: int| 0 <= i < back.len() implies #[trigger] has_dir_above(back, i) by {
                assert(back.contains(back[i]));
                lemma_headed(tree, 0, AD_HOC@, "commands"@, tree.matching(tree.ad_hoc), back[i]);
            }
            lemma_dir_headed_concat(tree.dirs_rows(n), back);
            assert(has_dir_above(app.rows, app.selected));
            let j = choose|j: int| #[trigger] dir_at(app.rows, j, dir_index) && j < app.selected;
            lemma_header_above_found(app.rows, KeyView::Dir(dir_index), j, app.selected);
        }
    }
}

// --- folding --------------------------------------------------------------------------

/// `za` folds the selected heading up or opens it, `zo` opens it and `zc` folds it up.
/// No other heading is folded or opened, and on a script nothing happens. Without `z`
/// in front `o` and `c` do nothing.
pub proof fn law_z_keys_fold(app: AppView, mods: KeyModifiers)
    requires
        in_list(app),
        !mods.control,
    ensures
        ({
            let z = app.key(KeyCode::Char('z'), mods).0;
            let toggled = z.key(KeyCode::Char('a'), mods);
            let open = z.key(KeyCode::Char('o'), mods);
            let shut = z.key(KeyCode::Char('c'), mods);
            let heading = match app.row() {
                Some(row) => row.collapse_key(),
                None => None,
            };
            &&& toggled.1 is Nothing && open.1 is Nothing && shut.1 is Nothing
            &&& z == (AppView { awaiting_z: true, ..app })
            &&& heading matches Some(key) ==> {
                &&& toggled.0.collapsed.contains(key) == !app.collapsed.contains(key)
                &&& !open.0.collapsed.contains(key)
                &&& shut.0.collapsed.contains(key)
            }
            &&& forall|other: KeyView|
                heading != Some(other) ==> {
                    &&& #[trigger] toggled.0.collapsed.contains(other) == app.collapsed.contains(
                        other,
                    )
                    &&& open.0.collapsed.contains(other) == app.collapsed.contains(other)
                    &&& shut.0.collapsed.contains(other) == app.collapsed.contains(other)
                }
            &&& heading is None ==> toggled.0 == (AppView { awaiting_z: false, ..app }) && open.0
                == toggled.0 && shut.0 == toggled.0
            &&& heading is Some ==> only_list_changed(app, toggled.0) && only_list_changed(
                app,
                open.0,
            ) && only_list_changed(app, shut.0)
            &&& !app.awaiting_z ==> app.key(KeyCode::Char('o'), mods) == (
                app,
                ActionView::Nothing,
            ) && app.key(KeyCode::Char('c'), mods) == (app, ActionView::Nothing)
        }),
{
}

/// What is folded, the rows that follow from it, and the selection differ; nothing else.
pub open spec fn only_list_changed(before: AppView, after: AppView) -> bool {
    &&& after == (AppView {
        collapsed: after.collapsed,
        rows: after.rows,
        selected: after.selected,
        awaiting_z: false,
        ..before
    })
    &&& after.rows == after.tree().rows()
    &&& after.selected <= before.selected
}

// --- filtering ------------------------------------------------------------------------

/// The state after some keys with nothing held down.
pub open spec fn filter_after(app: AppView, keys: Seq<KeyCode>) -> AppView
    decreases keys.len(),
{
    if keys.len() == 0 {
        app
    } else {
        filter_after(app, keys.drop_last()).key(keys.last(), KeyModifiers { control: false }).0
    }
}

proof fn lemma_filter_keys(app: AppView, keys: Seq<KeyCode>, chars: Seq<char>)
    requires
        app.mode is Normal,
        app.filtering,
        app.filter == (TextView { text: Seq::empty(), cursor: 0 }),
        app.rows == app.tree().rows(),
        types(keys, chars),
    ensures
        ({
            let after = filter_after(app, keys);
            &&& after.filter == (TextView { text: chars, cursor: chars.len() as int })
            &&& after == (AppView {
                filter: after.filter,
                rows: after.rows,
                selected: after.selected,
                ..app
            })
            &&& after.rows == after.tree().rows()
        }),
    decreases keys.len(),
{
    if keys.len() == 0 {
        assert(chars =~= Seq::empty());
    } else {
        let fewer = keys.drop_last();
        let front = chars.drop_last();
        assert forall|i: int| 0 <= i < fewer.len() implies #[trigger] fewer[i] == KeyCode::Char(
            front[i],
        ) by {
            assert(keys[i] == KeyCode::Char(chars[i]));
        }
        lemma_filter_keys(app, fewer, front);
        let last = chars.len() - 1;
        assert(keys[last] == KeyCode::Char(chars[last]));
        assert(front.insert(last, chars[last]) =~= chars);
    }
}

/// `/` begins a new filter, which holds what is typed and narrows the list down at once.
/// Enter keeps it, and Esc takes it away. Nothing else changes, but for the selection.
pub proof fn law_typing_a_filter(
    app: AppView,
    keys: Seq<KeyCode>,
    chars: Seq<char>,
    mods: KeyModifiers,
)
    requires
        in_list(app),
        types(keys, chars),
    ensures
        ({
            let typed = filter_after(app.key(KeyCode::Char('/'), mods).0, keys);
            let kept = typed.key(KeyCode::Enter, mods);
            let gone = typed.key(KeyCode::Esc, mods);
            &&& typed.filtering && typed.filter.text == chars
            &&& typed.rows == typed.tree().rows()
            &&& typed == (AppView {
                filter: typed.filter,
                filtering: true,
                rows: typed.rows,
                selected: typed.selected,
                awaiting_z: false,
                ..app
            })
            &&& kept == (AppView { filtering: false, ..typed }, ActionView::Nothing)
            &&& gone.0.filter.text.len() == 0 && !gone.0.filtering && gone.1 is Nothing
            &&& gone.0.rows == gone.0.tree().rows()
        }),
{
    let begun = app.key(KeyCode::Char('/'), mods).0;
    lemma_filter_keys(begun, keys, chars);
}

/// A filter lets through the names that it is a part of, letter case aside; an empty one
/// lets all names through.
pub proof fn law_what_a_filter_lets_through(app: AppView, name: Seq<char>)
    requires
        app.valid(),
    ensures
        app.tree().shown(name) <==> {
            ||| app.filter.text.len() == 0
            ||| exists|at: int| #[trigger]
                part_at(lower_text(name), lower_text(app.filter.text), at)
        },
{
    let (hay, needle) = (lower_text(name), lower_text(app.filter.text));
    if has_part(hay, needle) {
        let at = choose|at: int| #[trigger] occurs_at(hay, needle, at);
        assert(part_at(hay, needle, at));
    }
    if exists|at: int| #[trigger] part_at(hay, needle, at) {
        let at = choose|at: int| #[trigger] part_at(hay, needle, at);
        let part = hay.subrange(at, at + needle.len());
        assert forall|k: int| 0 <= k < needle.len() implies #[trigger] part[k] == needle[k] by {
            assert(hay[at + k] == needle[k]);
        }
        assert(part =~= needle);
        assert(occurs_at(hay, needle, at));
    }
}

/// The characters of `needle` stand in `hay` from position `at` on.
pub open spec fn part_at(hay: Seq<char>, needle: Seq<char>, at: int) -> bool {
    &&& 0 <= at
    &&& at + needle.len() <= hay.len()
    &&& forall|k: int| 0 <= k < needle.len() ==> #[trigger] hay[at + k] == needle[k]
}

/// A list of names keeps its order under a filter: each name that is let through comes
/// behind those of the names before it.
pub proof fn law_filter_keeps_the_order(tree: TreeView, names: Seq<Seq<char>>, name: Seq<char>)
    ensures
        tree.matching(Seq::empty()) == Seq::<Seq<char>>::empty(),
        tree.matching(names.push(name)) == if tree.shown(name) {
            tree.matching(names).push(name)
        } else {
            tree.matching(names)
        },
{
    reveal(Seq::filter);
    assert(names.push(name).drop_last() =~= names);
}

/// Without a filter the rows below an open source are its scripts, all of them and in
/// order.
pub proof fn law_all_scripts_without_a_filter(tree: TreeView, names: Seq<Seq<char>>)
    requires
        !tree.filtered(),
    ensures
        tree.matching(names) == names,
    decreases names.len(),
{
    reveal(Seq::filter);
    if names.len() == 0 {
        assert(tree.matching(names) =~= names);
    } else {
        law_all_scripts_without_a_filter(tree, names.drop_last());
        assert(tree.matching(names) =~= names);
    }
}

// --- the order of the list ------------------------------------------------------------

/// The directory that a row belongs to; the commands come behind all directories.
pub open spec fn place_of(row: RowView, dirs: int) -> int {
    match row {
        RowView::DirHeader { dir_index, .. } => dir_index,
        RowView::SourceHeader { dir_index, source, .. } => if source == AD_HOC@ {
            dirs
        } else {
            dir_index
        },
        RowView::Script { dir_index, source, .. } => if source == AD_HOC@ {
            dirs
        } else {
            dir_index
        },
    }
}

spec fn placed(rows: Seq<RowView>, dirs: int, low: int, high: int) -> bool {
    &&& forall|i: int| 0 <= i < rows.len() ==> low <= #[trigger] place_of(rows[i], dirs) <= high
    &&& forall|i: int, j: int|
        0 <= i <= j < rows.len() ==> #[trigger] place_of(rows[i], dirs) <= #[trigger] place_of(
            rows[j],
            dirs,
        )
}

proof fn lemma_dir_places(tree: TreeView, d: int)
    requires
        no_source_of_commands(tree.directories),
        0 <= d < tree.directories.len(),
    ensures
        placed(tree.dir_rows(d, tree.directories[d]), tree.directories.len() as int, d, d),
{
    let dir = tree.directories[d];
    let rows = tree.dir_rows(d, dir);
    let dirs = tree.directories.len() as int;
    assert forall|i: int| 0 <= i < rows.len() implies #[trigger] place_of(rows[i], dirs) == d by {
        let row = rows[i];
        assert(rows.contains(row));
        lemma_dir(tree, d, dir, row);
        if tree.children(d, dir.source_groups).contains(row) {
            lemma_children(tree, d, dir.source_groups, row);
            let g = choose|g: int|
                0 <= g < dir.source_groups.len() && tree.group_rows(
                    d,
                    #[trigger] dir.source_groups[g],
                ).contains(row);
            let group = dir.source_groups[g];
            assert(tree.directories[d].source_groups[g].id != AD_HOC@);
            lemma_headed(
                tree,
                d,
                group.id,
                group.label,
                tree.matching(names_of(group.scripts)),
                row,
            );
        }
    }
}

proof fn lemma_dirs_places(tree: TreeView, n: int)
    requires
        no_source_of_commands(tree.directories),
        0 <= n <= tree.directories.len(),
    ensures
        placed(tree.dirs_rows(n), tree.directories.len() as int, 0, n - 1),
    decreases n,
{
    if n > 0 {
        lemma_dirs_places(tree, n - 1);
        lemma_dir_places(tree, n - 1);
        lemma_placed_concat(
            tree.dirs_rows(n - 1),
            tree.dir_rows(n - 1, tree.directories[n - 1]),
            tree.directories.len() as int,
            0,
            n - 2,
            n - 1,
            n - 1,
        );
    }
}

proof fn lemma_placed_concat(
    a: Seq<RowView>,
    b: Seq<RowView>,
    dirs: int,
    low: int,
    high: int,
    low2: int,
    high2: int,
)
    requires
        placed(a, dirs, low, high),
        placed(b, dirs, low2, high2),
        low <= low2,
        high < low2,
        high <= high2,
    ensures
        placed(a + b, dirs, low, high2),
{
    let both = a + b;
    let n = a.len() as int;
    assert forall|i: int| 0 <= i < both.len() implies low <= #[trigger] place_of(both[i], dirs)
        <= high2 by {
        if i < n {
            assert(both[i] == a[i]);
        } else {
            assert(both[i] == b[i - n]);
        }
    }
    assert forall|i: int, j: int| 0 <= i <= j < both.len() implies #[trigger] place_of(
        both[i],
        dirs,
    ) <= #[trigger] place_of(both[j], dirs) by {
        if j < n {
            assert(both[i] == a[i] && both[j] == a[j]);
        } else if i < n {
            assert(both[i] == a[i] && both[j] == b[j - n]);
        } else {
            assert(both[i] == b[i - n] && both[j] == b[j - n]);
        }
    }
}

/// The directories are listed in order, each with all its rows together, and the commands
/// come last.
pub proof fn law_directories_in_order(tree: TreeView, i: int, j: int)
    requires
        no_source_of_commands(tree.directories),
        0 <= i <= j < tree.rows().len(),
    ensures
        place_of(tree.rows()[i], tree.directories.len() as int) <= place_of(
            tree.rows()[j],
            tree.directories.len() as int,
        ),
{
    let n = tree.directories.len() as int;
    let back = tree.ad_hoc_rows();
    lemma_dirs_places(tree, n);
    assert(placed(back, n, n, n)) by {
        assert forall|k: int| 0 <= k < back.len() implies #[trigger] place_of(back[k], n) == n by {
            assert(back.contains(back[k]));
            lemma_headed(tree, 0, AD_HOC@, "commands"@, tree.matching(tree.ad_hoc), back[k]);
        }
    }
    lemma_placed_concat(tree.dirs_rows(n), back, n, 0, n - 1, n, n);
}

// --- reading anew ---------------------------------------------------------------------

/// When the directories were read anew, the new ones are listed, the output has the size
/// that the list leaves it, and what runs, what is typed and what was run on the spot is
/// as before.
pub proof fn law_reading_anew(app: AppView, registry: RegistryView)
    requires
        app.valid(),
    ensures
        ({
            let after = app.rediscovered(registry);
            let area = Area { x: 0, y: 0, width: app.term_cols, height: app.term_rows };
            let drawn = panes_in(area, after.scripts_width()).output_inside;
            &&& after == (AppView {
                registry,
                rows: after.rows,
                selected: after.selected,
                out_cols: after.out_cols,
                out_rows: after.out_rows,
                ..app
            })
            &&& after.rows == after.tree().rows()
            &&& after.selected == app.reloaded(registry).selected
            &&& after.out_cols == max(drawn.width as int, 1)
            &&& after.out_rows == max(drawn.height as int, 1)
        }),
{
    let loaded = app.reloaded(registry);
    assert(loaded.rows == loaded.tree().rows());
    law_processes_have_the_size_of_the_output(loaded);
}

/// When the terminal has another size, the output has what the list leaves of it, and
/// nothing else changes.
pub proof fn law_another_size(app: AppView, cols: u16, rows: u16)
    ensures
        ({
            let after = (AppView { term_cols: cols, term_rows: rows, ..app }).resized();
            let area = Area { x: 0, y: 0, width: cols, height: rows };
            let drawn = panes_in(area, after.scripts_width()).output_inside;
            &&& after == (AppView {
                term_cols: cols,
                term_rows: rows,
                out_cols: after.out_cols,
                out_rows: after.out_rows,
                ..app
            })
            &&& after.out_cols == max(drawn.width as int, 1)
            &&& after.out_rows == max(drawn.height as int, 1)
        }),
{
    law_processes_have_the_size_of_the_output(AppView { term_cols: cols, term_rows: rows, ..app });
}

// --- what stays -----------------------------------------------------------------------

/// Where the list is made anew, the selection stays in its row, or goes to the last row
/// where there are fewer.
pub proof fn law_selection_after_making_the_list_anew(app: AppView)
    requires
        0 <= app.selected,
    ensures
        ({
            let after = app.rebuilt();
            &&& after.rows == app.tree().rows()
            &&& app.selected < after.rows.len() ==> after.selected == app.selected
            &&& app.selected >= after.rows.len() && after.rows.len() > 0 ==> after.selected
                == after.rows.len() - 1
            &&& after.rows.len() == 0 ==> after.selected == 0
            &&& after == (AppView { rows: after.rows, selected: after.selected, ..app })
        }),
{
}

/// Keys that mean nothing in the list do nothing.
pub proof fn law_other_keys_in_the_list(app: AppView, code: KeyCode, mods: KeyModifiers)
    requires
        in_list(app),
        !(code is Char) && !(code is Enter) && !(code is Left) && !(code is Right) && !(code is Up)
            && !(code is Down) || (code matches KeyCode::Char(c) && !is_list_key(c)),
    ensures
        app.key(code, mods) == (AppView { awaiting_z: false, ..app }, ActionView::Nothing),
{
}

/// A character that means something in the list.
pub open spec fn is_list_key(c: char) -> bool {
    ||| c == 'q' || c == 'j' || c == 'k' || c == 'h' || c == 'l' || c == '/' || c == ' '
    ||| c == 'z' || c == 'a' || c == 'o' || c == 'c' || c == 'e' || c == '!' || c == 'v'
}

/// `a` opens a dialog on a row of a source that has a file, and nowhere else; `e` on a
/// script of such a source, and nowhere else. What is not opened changes nothing.
pub proof fn law_where_dialogs_open(app: AppView, mods: KeyModifiers)
    requires
        in_list(app),
        !app.awaiting_z,
    ensures
        ({
            let a = app.key(KeyCode::Char('a'), mods);
            let e = app.key(KeyCode::Char('e'), mods);
            let on_source = match app.row() {
                Some(RowView::SourceHeader { source, .. }) => source != AD_HOC@,
                Some(RowView::Script { source, .. }) => source != AD_HOC@,
                _ => false,
            };
            let on_script = app.selected_script() matches Some((_, script)) && script.source
                != AD_HOC@;
            &&& a.1 is Nothing && e.1 is Nothing
            &&& a.0.mode is Edit <==> on_source
            &&& e.0.mode is Edit <==> on_script
            &&& a.0 == (AppView { mode: a.0.mode, ..app })
            &&& e.0 == (AppView { mode: e.0.mode, ..app })
            &&& !on_source ==> a.0 == app
            &&& !on_script ==> e.0 == app
        }),
{
}

/// Without a filter every source of a directory that is open has a heading, which says
/// what the source is called and whether it is folded up. So have the commands, where
/// there are any.
pub proof fn law_source_headings(tree: TreeView, d: int, g: int)
    requires
        !tree.filtered(),
    ensures
        0 <= d < tree.directories.len() && 0 <= g < tree.directories[d].source_groups.len()
            && !tree.dir_collapsed(d) ==> tree.rows().contains(
            RowView::SourceHeader {
                dir_index: d,
                source: tree.directories[d].source_groups[g].id,
                label: tree.directories[d].source_groups[g].label,
                collapsed: tree.collapsed.contains(
                    KeyView::Source(d, tree.directories[d].source_groups[g].id),
                ),
            },
        ),
        tree.ad_hoc.len() > 0 ==> tree.rows().contains(
            RowView::SourceHeader {
                dir_index: 0,
                source: AD_HOC@,
                label: "commands"@,
                collapsed: tree.collapsed.contains(KeyView::Source(0, AD_HOC@)),
            },
        ),
{
    if 0 <= d < tree.directories.len() && 0 <= g < tree.directories[d].source_groups.len()
        && !tree.dir_collapsed(d) {
        let dir = tree.directories[d];
        let group = dir.source_groups[g];
        let row = RowView::SourceHeader {
            dir_index: d,
            source: group.id,
            label: group.label,
            collapsed: tree.collapsed.contains(KeyView::Source(d, group.id)),
        };
        lemma_headed(tree, d, group.id, group.label, tree.matching(names_of(group.scripts)), row);
        lemma_children(tree, d, dir.source_groups, row);
        lemma_dir(tree, d, dir, row);
        lemma_row(tree, row);
    }
    if tree.ad_hoc.len() > 0 {
        law_all_scripts_without_a_filter(tree, tree.ad_hoc);
        let row = RowView::SourceHeader {
            dir_index: 0,
            source: AD_HOC@,
            label: "commands"@,
            collapsed: tree.collapsed.contains(KeyView::Source(0, AD_HOC@)),
        };
        lemma_headed(tree, 0, AD_HOC@, "commands"@, tree.matching(tree.ad_hoc), row);
        lemma_row(tree, row);
    }
}

/// When the directories were read anew and the selected row is no script, or one that is
/// gone, the selection stays in its row as far as there are rows.
pub proof fn law_selection_after_reading_anew(app: AppView, registry: RegistryView)
    requires
        app.valid(),
    ensures
        ({
            let after = app.reloaded(registry);
            let gone = match app.selected_key() {
                Some(key) => !after.rows.contains(
                    RowView::Script {
                        dir_index: key.dir_index,
                        source: key.source,
                        name: key.name,
                    },
                ),
                None => true,
            };
            gone ==> after.selected == if app.selected < after.rows.len() {
                app.selected
            } else if after.rows.len() > 0 {
                after.rows.len() - 1
            } else {
                0
            }
        }),
{
    let fresh = (AppView { registry, ..app }).rebuilt();
    if let Some(key) = app.selected_key() {
        lemma_script_row(fresh.rows, key, 0);
    }
}

/// At the start nothing is folded up, filtered, running or typed, no command was run on
/// the spot, and all that the directories hold is listed.
pub proof fn law_the_start(registry: RegistryView, cols: u16, rows: u16, config: Config)
    ensures
        ({
            let app = AppView::started(registry, cols, rows, config);
            &&& app.registry == registry && app.config == config
            &&& app.term_cols == cols && app.term_rows == rows
            &&& app.rows == app.tree().rows()
            &&& app.collapsed == Set::<KeyView>::empty()
            &&& app.filter.text.len() == 0 && !app.filtering && !app.awaiting_z
            &&& app.ad_hoc.len() == 0 && app.error is None && app.mode is Normal
            &&& app.procs.dom() == Set::<ProcId>::empty()
            &&& app.script_to_proc.dom() == Set::<ScriptKeyView>::empty()
        }),
{
}

/// A row is kept as far as there are rows: the selection stays in it, or goes to the last
/// row where there are fewer, and to the first where there is none.
pub open spec fn kept_in_row(before: int, after: AppView) -> bool {
    &&& before < after.rows.len() ==> after.selected == before
    &&& 0 < after.rows.len() <= before ==> after.selected == after.rows.len() - 1
    &&& after.rows.len() == 0 ==> after.selected == 0
}

/// Neither `/` nor a key that changes the filter, nor giving the filter up, moves the
/// selection, as far as there are rows; nor does folding a heading up, or opening it.
pub proof fn law_selection_while_filtering_and_folding(
    app: AppView,
    code: KeyCode,
    mods: KeyModifiers,
)
    requires
        app.valid(),
        app.mode is Normal,
    ensures
        !app.filtering ==> kept_in_row(app.selected, app.key(KeyCode::Char('/'), mods).0),
        app.filtering ==> kept_in_row(app.selected, app.key(code, mods).0),
        !app.filtering && app.awaiting_z && (code == KeyCode::Char('a') || code == KeyCode::Char(
            'o',
        ) || code == KeyCode::Char('c')) ==> kept_in_row(app.selected, app.key(code, mods).0),
        in_list(app) && (app.row() is Some && !(app.row()->0 is Script)) ==> kept_in_row(
            app.selected,
            app.key(KeyCode::Enter, mods).0,
        ),
{
}

} // verus!
