//! What holds of the rows that stand below a heading.

use vstd::prelude::*;

use crate::row_laws::{
    distinct_sources, lemma_children, lemma_dir, lemma_dirs, lemma_headed, lemma_matching,
    lemma_row, no_source_of_commands,
};
use crate::rows::{names_of, script_rows, KeyView, RowView, TreeView};
use crate::source::registry::{
    found_dirs, group_from, script_from, DirScan, DirView, GroupView, RegistryView,
};
use crate::source::{ScriptView, AD_HOC};

verus! {

/// The rows that stand below a heading when it is open: a directory's sources, or
/// the scripts of a source that the filter lets through.
pub open spec fn below(tree: TreeView, key: KeyView) -> Seq<RowView> {
    match key {
        KeyView::Dir(d) => if 0 <= d < tree.directories.len() {
            tree.children(d, tree.directories[d].source_groups)
        } else {
            Seq::empty()
        },
        KeyView::Source(d, source) => if d == 0 && source == AD_HOC@ {
            script_rows(0, AD_HOC@, tree.matching(tree.ad_hoc))
        } else if 0 <= d < tree.directories.len() {
            match group_from(tree.directories[d].source_groups, source, 0) {
                Some(group) => script_rows(d, source, tree.matching(names_of(group.scripts))),
                None => Seq::empty(),
            }
        } else {
            Seq::empty()
        },
    }
}

/// Where row `i` is an open heading, the rows below it come next, all of them and in
/// order.
spec fn leads(tree: TreeView, rows: Seq<RowView>, i: int) -> bool {
    match rows[i].collapse_key() {
        Some(key) => !tree.is_collapsed(key) ==> follow(rows, i, below(tree, key)),
        None => true,
    }
}

/// Some rows come next to row `i`.
pub open spec fn follow(rows: Seq<RowView>, i: int, next: Seq<RowView>) -> bool {
    &&& i + next.len() < rows.len()
    &&& forall|k: int| 0 <= k < next.len() ==> rows[i + 1 + k] == #[trigger] next[k]
}

/// Every open heading leads to the rows below it.
spec fn leading(tree: TreeView, rows: Seq<RowView>) -> bool {
    forall|i: int| 0 <= i < rows.len() ==> #[trigger] leads(tree, rows, i)
}

proof fn lemma_leading_concat(tree: TreeView, a: Seq<RowView>, b: Seq<RowView>)
    requires
        leading(tree, a),
        leading(tree, b),
    ensures
        leading(tree, a + b),
{
    let both = a + b;
    let n = a.len() as int;
    assert forall|i: int| 0 <= i < both.len() implies #[trigger] leads(tree, both, i) by {
        if i < n {
            assert(leads(tree, a, i));
            assert(both[i] == a[i]);
            if let Some(key) = both[i].collapse_key() {
                let next = below(tree, key);
                if !tree.is_collapsed(key) {
                    assert forall|k: int| 0 <= k < next.len() implies both[i + 1 + k]
                        == #[trigger] next[k] by {
                        assert(a[i + 1 + k] == next[k]);
                    }
                }
            }
        } else {
            assert(leads(tree, b, i - n));
            assert(both[i] == b[i - n]);
            if let Some(key) = both[i].collapse_key() {
                let next = below(tree, key);
                if !tree.is_collapsed(key) {
                    assert forall|k: int| 0 <= k < next.len() implies both[i + 1 + k]
                        == #[trigger] next[k] by {
                        assert(b[i - n + 1 + k] == next[k]);
                    }
                }
            }
        }
    }
}

proof fn lemma_headed_leading(
    tree: TreeView,
    dir_index: int,
    source: Seq<char>,
    label: Seq<char>,
    names: Seq<Seq<char>>,
)
    requires
        below(tree, KeyView::Source(dir_index, source)) == script_rows(dir_index, source, names),
    ensures
        leading(tree, tree.headed(dir_index, source, label, names)),
{
    let rows = tree.headed(dir_index, source, label, names);
    assert forall|i: int| 0 <= i < rows.len() implies #[trigger] leads(tree, rows, i) by {
        if i > 0 {
            assert(rows[i] is Script);
        }
    }
}

/// A source is found by its kind, where no other is of the same kind.
proof fn lemma_group_found(groups: Seq<GroupView>, g: int, k: int)
    requires
        0 <= k <= g < groups.len(),
        forall|i: int, j: int|
            0 <= i < j < groups.len() ==> (#[trigger] groups[i]).id != (#[trigger] groups[j]).id,
    ensures
        group_from(groups, groups[g].id, k) == Some(groups[g]),
    decreases g - k,
{
    if k < g {
        assert(groups[k].id != groups[g].id);
        lemma_group_found(groups, g, k + 1);
    }
}

/// What stands below a source's heading.
proof fn lemma_source_rows(tree: TreeView, d: int, g: int)
    requires
        distinct_sources(tree.directories),
        0 <= d < tree.directories.len(),
        0 <= g < tree.directories[d].source_groups.len(),
    ensures
        ({
            let group = tree.directories[d].source_groups[g];
            &&& group.id != AD_HOC@
            &&& below(tree, KeyView::Source(d, group.id)) == script_rows(
                d,
                group.id,
                tree.matching(names_of(group.scripts)),
            )
        }),
{
    let groups = tree.directories[d].source_groups;
    assert(tree.directories[d].source_groups[g].id != AD_HOC@);
    assert forall|i: int, j: int| 0 <= i < j < groups.len() implies (#[trigger] groups[i]).id != (
    #[trigger] groups[j]).id by {
        assert(tree.directories[d].source_groups[i].id != tree.directories[d].source_groups[j].id);
    }
    lemma_group_found(groups, g, 0);
}

/// The row is the heading of a source of the directory.
spec fn source_of(row: RowView, d: int) -> bool {
    row matches RowView::SourceHeader { dir_index, source, .. } && dir_index == d && source
        != AD_HOC@
}

proof fn lemma_children_leading(tree: TreeView, d: int, n: int)
    requires
        distinct_sources(tree.directories),
        0 <= d < tree.directories.len(),
        0 <= n <= tree.directories[d].source_groups.len(),
    ensures
        ({
            let rows = tree.children(d, tree.directories[d].source_groups.take(n));
            &&& leading(tree, rows)
            &&& rows.len() > 0 ==> source_of(rows[0], d)
        }),
    decreases n,
{
    let groups = tree.directories[d].source_groups;
    if n > 0 {
        let part = groups.take(n);
        assert(part.drop_last() =~= groups.take(n - 1));
        assert(part.last() == groups[n - 1]);
        lemma_children_leading(tree, d, n - 1);
        lemma_source_rows(tree, d, n - 1);
        let group = groups[n - 1];
        let names = tree.matching(names_of(group.scripts));
        lemma_headed_leading(tree, d, group.id, group.label, names);
        let front = tree.children(d, groups.take(n - 1));
        let back = tree.group_rows(d, group);
        lemma_leading_concat(tree, front, back);
        if front.len() > 0 {
            assert((front + back)[0] == front[0]);
        } else if back.len() > 0 {
            assert((front + back)[0] == back[0]);
        }
    }
}

proof fn lemma_dir_leading(tree: TreeView, d: int)
    requires
        distinct_sources(tree.directories),
        0 <= d < tree.directories.len(),
    ensures
        leading(tree, tree.dir_rows(d, tree.directories[d])),
        below(tree, KeyView::Dir(d)).len() > 0 ==> source_of(below(tree, KeyView::Dir(d))[0], d),
{
    let dir = tree.directories[d];
    let groups = dir.source_groups;
    let children = tree.children(d, groups);
    let rows = tree.dir_rows(d, dir);
    assert(groups.take(groups.len() as int) =~= groups);
    lemma_children_leading(tree, d, groups.len() as int);
    if !(tree.filtered() && children.len() == 0) && tree.multi() {
        let open = if tree.dir_collapsed(d) {
            Seq::empty()
        } else {
            children
        };
        assert forall|i: int| 0 <= i < rows.len() implies #[trigger] leads(tree, rows, i) by {
            if i == 0 {
                assert(rows[0].collapse_key() == Some(KeyView::Dir(d)));
                assert forall|k: int| 0 <= k < open.len() implies rows[1 + k]
                    == #[trigger] open[k] by {}
            } else {
                assert(leads(tree, children, i - 1));
                assert(rows[i] == children[i - 1]);
                if let Some(key) = rows[i].collapse_key() {
                    let next = below(tree, key);
                    if !tree.is_collapsed(key) {
                        assert forall|k: int| 0 <= k < next.len() implies rows[i + 1 + k]
                            == #[trigger] next[k] by {
                            assert(children[i + k] == next[k]);
                        }
                    }
                }
            }
        }
    } else if !tree.multi() {
        assert(rows =~= Seq::empty() || rows =~= children);
    }
}

proof fn lemma_dirs_leading(tree: TreeView, n: int)
    requires
        distinct_sources(tree.directories),
        0 <= n <= tree.directories.len(),
    ensures
        leading(tree, tree.dirs_rows(n)),
    decreases n,
{
    if n > 0 {
        lemma_dirs_leading(tree, n - 1);
        lemma_dir_leading(tree, n - 1);
        lemma_leading_concat(
            tree,
            tree.dirs_rows(n - 1),
            tree.dir_rows(n - 1, tree.directories[n - 1]),
        );
    }
}

/// Below an open heading stand its rows: they come next, all of them and in order.
pub proof fn law_open_headings_lead_to_their_rows(tree: TreeView, i: int, key: KeyView)
    requires
        distinct_sources(tree.directories),
        0 <= i < tree.rows().len(),
        tree.rows()[i].collapse_key() == Some(key),
        !tree.is_collapsed(key),
    ensures
        follow(tree.rows(), i, below(tree, key)),
        below(tree, key).len() > 0 ==> i + 1 < tree.rows().len() && tree.rows()[i + 1] == below(
            tree,
            key,
        )[0],
{
    let n = tree.directories.len() as int;
    lemma_dirs_leading(tree, n);
    lemma_headed_leading(tree, 0, AD_HOC@, "commands"@, tree.matching(tree.ad_hoc));
    lemma_leading_concat(tree, tree.dirs_rows(n), tree.ad_hoc_rows());
    assert(leads(tree, tree.rows(), i));
    if below(tree, key).len() > 0 {
        assert(tree.rows()[i + 1 + 0] == below(tree, key)[0]);
    }
}

/// What stands first below a directory's heading is the heading of one of its
/// sources.
pub(crate) proof fn lemma_first_below_directory(tree: TreeView, d: int)
    requires
        distinct_sources(tree.directories),
        below(tree, KeyView::Dir(d)).len() > 0,
    ensures
        below(tree, KeyView::Dir(d))[0] matches RowView::SourceHeader { dir_index, source, .. }
            && dir_index == d && source != AD_HOC@,
{
    lemma_dir_leading(tree, d);
}

/// A source's heading stands below its directory's.
pub(crate) proof fn lemma_source_is_below(tree: TreeView, row: RowView)
    requires
        tree.rows().contains(row),
        row is SourceHeader,
        row->SourceHeader_source != AD_HOC@,
    ensures
        below(tree, KeyView::Dir(row->SourceHeader_dir_index)).len() > 0,
{
    lemma_row(tree, row);
    if tree.ad_hoc_rows().contains(row) {
        lemma_headed(tree, 0, AD_HOC@, "commands"@, tree.matching(tree.ad_hoc), row);
    } else {
        let d = choose|d: int|
            0 <= d < tree.directories.len() && tree.dir_rows(
                d,
                #[trigger] tree.directories[d],
            ).contains(row);
        let dir = tree.directories[d];
        lemma_dir(tree, d, dir, row);
        lemma_children(tree, d, dir.source_groups, row);
        let g = choose|g: int|
            0 <= g < dir.source_groups.len() && tree.group_rows(
                d,
                #[trigger] dir.source_groups[g],
            ).contains(row);
        let group = dir.source_groups[g];
        let names = tree.matching(names_of(group.scripts));
        lemma_headed(tree, d, group.id, group.label, names, row);
    }
}

/// A script stands below its source's heading.
pub(crate) proof fn lemma_script_is_below(tree: TreeView, row: RowView)
    requires
        distinct_sources(tree.directories),
        tree.rows().contains(row),
        row is Script,
    ensures
        below(tree, KeyView::Source(row->Script_dir_index, row->Script_source)).contains(row),
        row->Script_source == AD_HOC@ ==> tree.ad_hoc_rows().contains(row),
{
    lemma_row(tree, row);
    let name = row->Script_name;
    if tree.ad_hoc_rows().contains(row) {
        let names = tree.matching(tree.ad_hoc);
        lemma_headed(tree, 0, AD_HOC@, "commands"@, names, row);
        lemma_named(0, AD_HOC@, names, name);
    } else {
        let d = choose|d: int|
            0 <= d < tree.directories.len() && tree.dir_rows(
                d,
                #[trigger] tree.directories[d],
            ).contains(row);
        let dir = tree.directories[d];
        lemma_dir(tree, d, dir, row);
        lemma_children(tree, d, dir.source_groups, row);
        let g = choose|g: int|
            0 <= g < dir.source_groups.len() && tree.group_rows(
                d,
                #[trigger] dir.source_groups[g],
            ).contains(row);
        let group = dir.source_groups[g];
        let names = tree.matching(names_of(group.scripts));
        lemma_headed(tree, d, group.id, group.label, names, row);
        lemma_source_rows(tree, d, g);
        lemma_named(d, group.id, names, name);
    }
}

/// Each name has a row.
proof fn lemma_named(dir_index: int, source: Seq<char>, names: Seq<Seq<char>>, name: Seq<char>)
    requires
        names.contains(name),
    ensures
        script_rows(dir_index, source, names).contains(
            RowView::Script { dir_index, source, name },
        ),
{
    let i = choose|i: int| 0 <= i < names.len() && names[i] == name;
    assert(script_rows(dir_index, source, names)[i] == (RowView::Script {
        dir_index,
        source,
        name,
    }));
}

// --- scripts are found by their rows ------------------------------------------------

/// Every script is of the source that lists it.
pub open spec fn filed_scripts(dirs: Seq<DirView>) -> bool {
    forall|d: int, g: int, n: int|
        0 <= d < dirs.len() && 0 <= g < dirs[d].source_groups.len() && 0 <= n
            < dirs[d].source_groups[g].scripts.len() ==> (
        #[trigger] dirs[d].source_groups[g].scripts[n]).source == dirs[d].source_groups[g].id
}

/// Scripts are of the source that lists them in a list of directories as it is
/// read.
pub proof fn law_read_scripts_are_filed(scans: Seq<DirScan>)
    ensures
        filed_scripts(found_dirs(scans)),
{
    let dirs = found_dirs(scans);
    assert forall|d: int, g: int, n: int|
        0 <= d < dirs.len() && 0 <= g < dirs[d].source_groups.len() && 0 <= n
            < dirs[d].source_groups[g].scripts.len() implies (
    #[trigger] dirs[d].source_groups[g].scripts[n]).source == dirs[d].source_groups[g].id by {
        assert(dirs[d].source_groups == scans[d].groups());
    }
}

/// The script of a row is found among those of its source.
pub proof fn law_listed_scripts_are_found(
    registry: RegistryView,
    tree: TreeView,
    dir_index: int,
    source: Seq<char>,
    name: Seq<char>,
)
    requires
        tree.directories == registry.directories,
        distinct_sources(registry.directories),
        filed_scripts(registry.directories),
        tree.rows().contains(RowView::Script { dir_index, source, name }),
        source != AD_HOC@,
    ensures
        registry.script(dir_index, source, name) matches Some(script) && script.name == name
            && script.source == source,
{
    let row = RowView::Script { dir_index, source, name };
    lemma_row(tree, row);
    lemma_headed(tree, 0, AD_HOC@, "commands"@, tree.matching(tree.ad_hoc), row);
    let d = choose|d: int|
        0 <= d < tree.directories.len() && tree.dir_rows(
            d,
            #[trigger] tree.directories[d],
        ).contains(row);
    let dir = tree.directories[d];
    lemma_dir(tree, d, dir, row);
    lemma_children(tree, d, dir.source_groups, row);
    let g = choose|g: int|
        0 <= g < dir.source_groups.len() && tree.group_rows(
            d,
            #[trigger] dir.source_groups[g],
        ).contains(row);
    let group = dir.source_groups[g];
    let names = names_of(group.scripts);
    lemma_headed(tree, d, group.id, group.label, tree.matching(names), row);
    lemma_matching(tree, names, name);
    let n = choose|n: int| 0 <= n < names.len() && names[n] == name;
    assert forall|i: int, j: int|
        0 <= i < j < dir.source_groups.len() implies (#[trigger] dir.source_groups[i]).id != (
    #[trigger] dir.source_groups[j]).id by {
        assert(tree.directories[d].source_groups[i].id != tree.directories[d].source_groups[j].id);
    }
    lemma_group_found(dir.source_groups, g, 0);
    lemma_script_found(group.scripts, name, n, 0);
    let k = choose|k: int|
        0 <= k < group.scripts.len() && #[trigger] group.scripts[k] == script_from(
            group.scripts,
            name,
            0,
        )->0;
    assert(registry.directories[d].source_groups[g].scripts[k].source == group.id);
}

/// A name that is listed is found.
proof fn lemma_script_found(scripts: Seq<ScriptView>, name: Seq<char>, n: int, k: int)
    requires
        0 <= k <= n < scripts.len(),
        scripts[n].name == name,
    ensures
        script_from(scripts, name, k) is Some,
        script_from(scripts, name, k)->0.name == name,
        exists|i: int|
            0 <= i < scripts.len() && #[trigger] scripts[i] == script_from(scripts, name, k)->0,
    decreases n - k,
{
    if scripts[k].name != name {
        lemma_script_found(scripts, name, n, k + 1);
    }
}

// --- the commands run on the spot ---------------------------------------------------

/// A filter does not list a name twice.
proof fn lemma_matching_once(tree: TreeView, names: Seq<Seq<char>>)
    requires
        names.no_duplicates(),
    ensures
        tree.matching(names).no_duplicates(),
    decreases names.len(),
{
    reveal(Seq::filter);
    if names.len() > 0 {
        let shorter = names.drop_last();
        let rest = tree.matching(shorter);
        let kept = tree.matching(names);
        lemma_matching_once(tree, shorter);
        lemma_matching(tree, shorter, names.last());
        if shorter.contains(names.last()) {
            let i = choose|i: int| 0 <= i < shorter.len() && shorter[i] == names.last();
            assert(names[i] == names[names.len() - 1]);
        }
        if tree.shown(names.last()) {
            assert(kept == rest.push(names.last()));
            assert forall|i: int, j: int|
                0 <= i < kept.len() && 0 <= j < kept.len() && i != j implies kept[i]
                != kept[j] by {
                if i < rest.len() {
                    assert(rest.contains(rest[i]));
                }
                if j < rest.len() {
                    assert(rest.contains(rest[j]));
                }
            }
        }
    }
}

/// No command that was run on the spot has two rows, where no source of a directory
/// is of their kind.
pub proof fn law_commands_have_one_row(tree: TreeView, i: int, j: int)
    requires
        no_source_of_commands(tree.directories),
        tree.ad_hoc.no_duplicates(),
        0 <= i < tree.rows().len(),
        0 <= j < tree.rows().len(),
        tree.rows()[i] is Script,
        tree.rows()[i]->Script_source == AD_HOC@,
        tree.rows()[j] is Script,
        tree.rows()[j]->Script_source == AD_HOC@,
        tree.rows()[i]->Script_name == tree.rows()[j]->Script_name,
    ensures
        i == j,
{
    let names = tree.matching(tree.ad_hoc);
    let front = tree.dirs_rows(tree.directories.len() as int);
    lemma_matching_once(tree, tree.ad_hoc);
    lemma_command_place(tree, i);
    lemma_command_place(tree, j);
    let n = front.len() as int;
    assert(names[i - n - 1] == names[j - n - 1]);
}

/// The rows of the commands come after those of the directories.
proof fn lemma_command_place(tree: TreeView, i: int)
    requires
        no_source_of_commands(tree.directories),
        0 <= i < tree.rows().len(),
        tree.rows()[i] is Script,
        tree.rows()[i]->Script_source == AD_HOC@,
    ensures
        ({
            let n = tree.dirs_rows(tree.directories.len() as int).len();
            let names = tree.matching(tree.ad_hoc);
            &&& n < i <= n + names.len()
            &&& tree.rows()[i]->Script_name == names[i - n - 1]
        }),
{
    let front = tree.dirs_rows(tree.directories.len() as int);
    let row = tree.rows()[i];
    let names = tree.matching(tree.ad_hoc);
    if i < front.len() {
        assert(front[i] == row);
        lemma_no_command(tree, tree.directories.len() as int, row);
    } else {
        assert(tree.ad_hoc_rows()[i - front.len()] == row);
    }
}

/// The directories list no command.
proof fn lemma_no_command(tree: TreeView, n: int, row: RowView)
    requires
        no_source_of_commands(tree.directories),
        0 <= n <= tree.directories.len(),
        row is Script,
        row->Script_source == AD_HOC@,
    ensures
        !tree.dirs_rows(n).contains(row),
{
    lemma_dirs(tree, n, row);
    if tree.dirs_rows(n).contains(row) {
        let d = choose|d: int|
            0 <= d < n && tree.dir_rows(d, #[trigger] tree.directories[d]).contains(row);
        let dir = tree.directories[d];
        lemma_dir(tree, d, dir, row);
        lemma_children(tree, d, dir.source_groups, row);
        let g = choose|g: int|
            0 <= g < dir.source_groups.len() && tree.group_rows(
                d,
                #[trigger] dir.source_groups[g],
            ).contains(row);
        let group = dir.source_groups[g];
        let names = tree.matching(names_of(group.scripts));
        lemma_headed(tree, d, group.id, group.label, names, row);
        assert(tree.directories[d].source_groups[g].id != AD_HOC@);
    }
}

/// The command that was run last has the last row, where it is shown.
pub proof fn law_last_command_comes_last(tree: TreeView)
    requires
        tree.ad_hoc.len() > 0,
        tree.shown(tree.ad_hoc.last()),
        !tree.is_collapsed(KeyView::Source(0, AD_HOC@)),
    ensures
        tree.rows().len() > 0,
        tree.rows().last() == (RowView::Script {
            dir_index: 0,
            source: AD_HOC@,
            name: tree.ad_hoc.last(),
        }),
{
    reveal(Seq::filter);
    let names = tree.matching(tree.ad_hoc);
    assert(names.last() == tree.ad_hoc.last());
    let scripts = script_rows(0, AD_HOC@, names);
    assert(scripts.last() == (RowView::Script {
        dir_index: 0,
        source: AD_HOC@,
        name: names.last(),
    }));
    assert(tree.ad_hoc_rows().last() == scripts.last());
}

} // verus!
