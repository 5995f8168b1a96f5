//! What holds of the list of scripts, whatever is folded up or filtered.

use vstd::prelude::*;

use crate::rows::{names_of, script_rows, KeyView, RowView, TreeView};
use crate::source::registry::{found_dirs, DirScan, DirView, GroupView};
use crate::source::{package_json, scripts_json, AD_HOC};

verus! {

// --- where a row comes from -----------------------------------------------------

/// What there is in either of two lists is in their concatenation, and the other
/// way round.
proof fn lemma_concat_contains(a: Seq<RowView>, b: Seq<RowView>, row: RowView)
    ensures
        (a + b).contains(row) <==> a.contains(row) || b.contains(row),
{
    let both = a + b;
    if a.contains(row) {
        let i = choose|i: int| 0 <= i < a.len() && a[i] == row;
        assert(both[i] == row);
    }
    if b.contains(row) {
        let i = choose|i: int| 0 <= i < b.len() && b[i] == row;
        assert(both[a.len() + i] == row);
    }
    if both.contains(row) {
        let i = choose|i: int| 0 <= i < both.len() && both[i] == row;
        if i < a.len() {
            assert(a[i] == row);
        } else {
            assert(b[i - a.len()] == row);
        }
    }
}

/// The rows below a heading are one for each name.
pub(crate) proof fn lemma_headed(
    tree: TreeView,
    dir_index: int,
    source: Seq<char>,
    label: Seq<char>,
    names: Seq<Seq<char>>,
    row: RowView,
)
    ensures
        tree.headed(dir_index, source, label, names).contains(row) <==> {
            ||| row == (RowView::SourceHeader {
                dir_index,
                source,
                label,
                collapsed: tree.is_collapsed(KeyView::Source(dir_index, source)),
            })
            ||| !tree.is_collapsed(KeyView::Source(dir_index, source)) && (row matches
                RowView::Script { dir_index: d, source: s, name } && d == dir_index && s == source
                && names.contains(name))
        },
{
    let collapsed = tree.is_collapsed(KeyView::Source(dir_index, source));
    let header = RowView::SourceHeader { dir_index, source, label, collapsed };
    let below = if collapsed {
        Seq::empty()
    } else {
        script_rows(dir_index, source, names)
    };
    lemma_concat_contains(seq![header], below, row);
    assert(seq![header].contains(row) <==> row == header) by {
        assert(seq![header][0] == header);
    }
    if below.contains(row) {
        let i = choose|i: int| 0 <= i < below.len() && below[i] == row;
        assert(names.contains(names[i]));
    }
    if !collapsed && row is Script && row->Script_dir_index == dir_index && row->Script_source
        == source && names.contains(row->Script_name) {
        let i = choose|i: int| 0 <= i < names.len() && names[i] == row->Script_name;
        assert(below[i] == row);
    }
}

/// The names that a filter lets through are those of the list that it shows.
pub(crate) proof fn lemma_matching(tree: TreeView, names: Seq<Seq<char>>, name: Seq<char>)
    ensures
        tree.matching(names).contains(name) <==> names.contains(name) && tree.shown(name),
    decreases names.len(),
{
    reveal(Seq::filter);
    let kept = tree.matching(names);
    if names.len() > 0 {
        let shorter = names.drop_last();
        lemma_matching(tree, shorter, name);
        assert(names =~= shorter.push(names.last()));
        if names.contains(name) {
            let i = choose|i: int| 0 <= i < names.len() && names[i] == name;
            if i < shorter.len() {
                assert(shorter[i] == name);
            }
        }
        if shorter.contains(name) {
            let i = choose|i: int| 0 <= i < shorter.len() && shorter[i] == name;
            assert(names[i] == name);
        }
        assert(names[names.len() - 1] == names.last());
        let rest = tree.matching(shorter);
        if tree.shown(names.last()) {
            assert(kept == rest.push(names.last()));
            assert(kept[rest.len() as int] == names.last());
            if rest.contains(name) {
                let i = choose|i: int| 0 <= i < rest.len() && rest[i] == name;
                assert(kept[i] == name);
            }
            if kept.contains(name) {
                let i = choose|i: int| 0 <= i < kept.len() && kept[i] == name;
                if i < rest.len() {
                    assert(rest[i] == name);
                }
            }
        } else {
            assert(kept == rest);
        }
    }
}

/// The rows of some sources are those of each.
pub(crate) proof fn lemma_children(tree: TreeView, dir_index: int, groups: Seq<GroupView>, row: RowView)
    ensures
        tree.children(dir_index, groups).contains(row) <==> exists|g: int|
            0 <= g < groups.len() && tree.group_rows(dir_index, #[trigger] groups[g]).contains(row),
    decreases groups.len(),
{
    if groups.len() > 0 {
        let shorter = groups.drop_last();
        lemma_children(tree, dir_index, shorter, row);
        lemma_concat_contains(
            tree.children(dir_index, shorter),
            tree.group_rows(dir_index, groups.last()),
            row,
        );
        if tree.children(dir_index, shorter).contains(row) {
            let g = choose|g: int|
                0 <= g < shorter.len() && tree.group_rows(
                    dir_index,
                    #[trigger] shorter[g],
                ).contains(row);
            assert(groups[g] == shorter[g]);
        }
        if tree.group_rows(dir_index, groups.last()).contains(row) {
            assert(groups[groups.len() - 1] == groups.last());
        }
        if exists|g: int|
            0 <= g < groups.len() && tree.group_rows(dir_index, #[trigger] groups[g]).contains(
                row,
            ) {
            let g = choose|g: int|
                0 <= g < groups.len() && tree.group_rows(dir_index, #[trigger] groups[g]).contains(
                    row,
                );
            if g < shorter.len() {
                assert(shorter[g] == groups[g]);
            }
        }
    }
}

/// The rows of a directory are its heading and those of its sources.
pub(crate) proof fn lemma_dir(tree: TreeView, dir_index: int, dir: DirView, row: RowView)
    ensures
        tree.dir_rows(dir_index, dir).contains(row) <==> {
            let children = tree.children(dir_index, dir.source_groups);
            &&& !(tree.filtered() && children.len() == 0)
            &&& {
                ||| tree.multi() && row == (RowView::DirHeader {
                    dir_index,
                    label: dir.label,
                    collapsed: tree.dir_collapsed(dir_index),
                })
                ||| !tree.dir_collapsed(dir_index) && children.contains(row)
            }
        },
{
    let children = tree.children(dir_index, dir.source_groups);
    let collapsed = tree.dir_collapsed(dir_index);
    let head = if tree.multi() {
        seq![RowView::DirHeader { dir_index, label: dir.label, collapsed }]
    } else {
        Seq::empty()
    };
    let below = if collapsed {
        Seq::empty()
    } else {
        children
    };
    lemma_concat_contains(head, below, row);
    if tree.multi() {
        assert(head[0] == (RowView::DirHeader { dir_index, label: dir.label, collapsed }));
    }
}

/// The rows of some directories are those of each.
pub(crate) proof fn lemma_dirs(tree: TreeView, n: int, row: RowView)
    requires
        0 <= n <= tree.directories.len(),
    ensures
        tree.dirs_rows(n).contains(row) <==> exists|d: int|
            0 <= d < n && tree.dir_rows(d, #[trigger] tree.directories[d]).contains(row),
    decreases n,
{
    if n > 0 {
        lemma_dirs(tree, n - 1, row);
        lemma_concat_contains(
            tree.dirs_rows(n - 1),
            tree.dir_rows(n - 1, tree.directories[n - 1]),
            row,
        );
    }
}

/// A row of the list is a directory's heading, belongs to a source of a
/// directory that is open, or belongs to the commands.
pub(crate) proof fn lemma_row(tree: TreeView, row: RowView)
    ensures
        tree.rows().contains(row) <==> {
            ||| tree.ad_hoc_rows().contains(row)
            ||| exists|d: int|
                0 <= d < tree.directories.len() && tree.dir_rows(
                    d,
                    #[trigger] tree.directories[d],
                ).contains(row)
        },
{
    let n = tree.directories.len() as int;
    lemma_dirs(tree, n, row);
    lemma_concat_contains(tree.dirs_rows(n), tree.ad_hoc_rows(), row);
}

/// Where a script's row comes from.
proof fn lemma_script_row(tree: TreeView, row: RowView)
    requires
        row is Script,
        tree.rows().contains(row),
    ensures
        tree.shown(row->Script_name),
        !tree.is_collapsed(KeyView::Source(row->Script_dir_index, row->Script_source)),
        row->Script_source == AD_HOC@ || !tree.dir_collapsed(row->Script_dir_index),
{
    lemma_row(tree, row);
    if tree.ad_hoc_rows().contains(row) {
        let names = tree.matching(tree.ad_hoc);
        lemma_headed(tree, 0, AD_HOC@, "commands"@, names, row);
        lemma_matching(tree, tree.ad_hoc, row->Script_name);
    } else {
        let d = choose|d: int|
            0 <= d < tree.directories.len() && tree.dir_rows(
                d,
                #[trigger] tree.directories[d],
            ).contains(row);
        let dir = tree.directories[d];
        lemma_dir(tree, d, dir, row);
        lemma_children(tree, d, dir.source_groups, row);
        let g = choose|g: int|
            0 <= g < dir.source_groups.len() && tree.group_rows(
                d,
                #[trigger] dir.source_groups[g],
            ).contains(row);
        let group = dir.source_groups[g];
        let names = names_of(group.scripts);
        lemma_headed(tree, d, group.id, group.label, tree.matching(names), row);
        lemma_matching(tree, names, row->Script_name);
    }
}

// --- laws -----------------------------------------------------------------------

/// Every script that is listed is one that the filter lets through.
pub proof fn law_filter_lists_matches_only(tree: TreeView, i: int)
    requires
        0 <= i < tree.rows().len(),
        tree.rows()[i] is Script,
    ensures
        tree.shown(tree.rows()[i]->Script_name),
{
    assert(tree.rows().contains(tree.rows()[i]));
    lemma_script_row(tree, tree.rows()[i]);
}

/// Every script that the filter lets through is listed, unless it is folded up.
pub proof fn law_matches_are_listed(tree: TreeView, d: int, g: int, s: int)
    requires
        0 <= d < tree.directories.len(),
        0 <= g < tree.directories[d].source_groups.len(),
        0 <= s < tree.directories[d].source_groups[g].scripts.len(),
        tree.shown(tree.directories[d].source_groups[g].scripts[s].name),
        !tree.dir_collapsed(d),
        !tree.is_collapsed(KeyView::Source(d, tree.directories[d].source_groups[g].id)),
    ensures
        tree.rows().contains(
            RowView::Script {
                dir_index: d,
                source: tree.directories[d].source_groups[g].id,
                name: tree.directories[d].source_groups[g].scripts[s].name,
            },
        ),
{
    let dir = tree.directories[d];
    let group = dir.source_groups[g];
    let names = names_of(group.scripts);
    let row = RowView::Script { dir_index: d, source: group.id, name: group.scripts[s].name };
    assert(names[s] == group.scripts[s].name);
    lemma_matching(tree, names, group.scripts[s].name);
    lemma_headed(tree, d, group.id, group.label, tree.matching(names), row);
    assert(tree.group_rows(d, group).contains(row));
    lemma_children(tree, d, dir.source_groups, row);
    lemma_dir(tree, d, dir, row);
    lemma_row(tree, row);
}

/// Every command that was run on the spot and that the filter lets through is
/// listed, unless the commands are folded up.
pub proof fn law_commands_are_listed(tree: TreeView, c: int)
    requires
        0 <= c < tree.ad_hoc.len(),
        tree.shown(tree.ad_hoc[c]),
        !tree.is_collapsed(KeyView::Source(0, AD_HOC@)),
    ensures
        tree.rows().contains(
            RowView::Script { dir_index: 0, source: AD_HOC@, name: tree.ad_hoc[c] },
        ),
{
    let names = tree.matching(tree.ad_hoc);
    let row = RowView::Script { dir_index: 0, source: AD_HOC@, name: tree.ad_hoc[c] };
    lemma_matching(tree, tree.ad_hoc, tree.ad_hoc[c]);
    lemma_headed(tree, 0, AD_HOC@, "commands"@, names, row);
    lemma_row(tree, row);
}

/// Under a filter no heading is folded up.
pub proof fn law_filter_opens_headings(tree: TreeView, i: int)
    requires
        tree.filtered(),
        0 <= i < tree.rows().len(),
    ensures
        tree.rows()[i] matches RowView::DirHeader { collapsed, .. } ==> !collapsed,
        tree.rows()[i] matches RowView::SourceHeader { collapsed, .. } ==> !collapsed,
{
    let row = tree.rows()[i];
    assert(tree.rows().contains(row));
    lemma_header_state(tree, row);
}

/// A heading says of itself whether it is folded up.
pub proof fn law_headings_tell_what_is_folded(tree: TreeView, i: int)
    requires
        0 <= i < tree.rows().len(),
    ensures
        tree.rows()[i] matches RowView::DirHeader { dir_index, collapsed, .. } ==> collapsed
            == tree.is_collapsed(KeyView::Dir(dir_index)),
        tree.rows()[i] matches RowView::SourceHeader { dir_index, source, collapsed, .. }
            ==> collapsed == tree.is_collapsed(KeyView::Source(dir_index, source)),
{
    let row = tree.rows()[i];
    assert(tree.rows().contains(row));
    lemma_header_state(tree, row);
}

/// A heading says of itself whether it is folded up.
proof fn lemma_header_state(tree: TreeView, row: RowView)
    requires
        tree.rows().contains(row),
    ensures
        row matches RowView::DirHeader { dir_index, collapsed, .. } ==> tree.multi() && collapsed
            == tree.is_collapsed(KeyView::Dir(dir_index)),
        row matches RowView::SourceHeader { dir_index, source, collapsed, .. } ==> collapsed
            == tree.is_collapsed(KeyView::Source(dir_index, source)) && (source == AD_HOC@
            || !tree.dir_collapsed(dir_index)),
{
    lemma_row(tree, row);
    if tree.ad_hoc_rows().contains(row) {
        lemma_headed(tree, 0, AD_HOC@, "commands"@, tree.matching(tree.ad_hoc), row);
    } else {
        let d = choose|d: int|
            0 <= d < tree.directories.len() && tree.dir_rows(
                d,
                #[trigger] tree.directories[d],
            ).contains(row);
        let dir = tree.directories[d];
        lemma_dir(tree, d, dir, row);
        lemma_children(tree, d, dir.source_groups, row);
        if tree.children(d, dir.source_groups).contains(row) {
            let g = choose|g: int|
                0 <= g < dir.source_groups.len() && tree.group_rows(
                    d,
                    #[trigger] dir.source_groups[g],
                ).contains(row);
            let group = dir.source_groups[g];
            let names = tree.matching(names_of(group.scripts));
            lemma_headed(tree, d, group.id, group.label, names, row);
        }
    }
}

/// No script is listed below a heading that is folded up: neither its source's
/// nor its directory's.
pub proof fn law_folded_scripts_are_hidden(tree: TreeView, i: int)
    requires
        0 <= i < tree.rows().len(),
        tree.rows()[i] is Script,
    ensures
        ({
            let row = tree.rows()[i];
            &&& !tree.is_collapsed(KeyView::Source(row->Script_dir_index, row->Script_source))
            &&& row->Script_source == AD_HOC@ || !tree.dir_collapsed(row->Script_dir_index)
        }),
{
    assert(tree.rows().contains(tree.rows()[i]));
    lemma_script_row(tree, tree.rows()[i]);
}

/// Directories have headings where there are several, and only there; without a
/// filter every one of them has.
pub proof fn law_directory_headings(tree: TreeView)
    ensures
        !tree.multi() ==> forall|i: int|
            0 <= i < tree.rows().len() ==> !(#[trigger] tree.rows()[i] is DirHeader),
        tree.multi() && !tree.filtered() ==> forall|d: int|
            0 <= d < tree.directories.len() ==> #[trigger] tree.rows().contains(
                RowView::DirHeader {
                    dir_index: d,
                    label: tree.directories[d].label,
                    collapsed: tree.collapsed.contains(KeyView::Dir(d)),
                },
            ),
{
    assert forall|i: int| 0 <= i < tree.rows().len() && !tree.multi() implies !(
    #[trigger] tree.rows()[i] is DirHeader) by {
        assert(tree.rows().contains(tree.rows()[i]));
        lemma_header_state(tree, tree.rows()[i]);
    }
    assert forall|d: int|
        0 <= d < tree.directories.len() && tree.multi() && !tree.filtered() implies
        #[trigger] tree.rows().contains(
        RowView::DirHeader {
            dir_index: d,
            label: tree.directories[d].label,
            collapsed: tree.collapsed.contains(KeyView::Dir(d)),
        },
    ) by {
        let row = RowView::DirHeader {
            dir_index: d,
            label: tree.directories[d].label,
            collapsed: tree.collapsed.contains(KeyView::Dir(d)),
        };
        lemma_dir(tree, d, tree.directories[d], row);
        lemma_row(tree, row);
    }
}

// --- scripts stand below their headings -----------------------------------------

/// Row `j` is the heading of the script in row `i`, with scripts of the same
/// source alone between them.
pub open spec fn heads(rows: Seq<RowView>, j: int, i: int) -> bool {
    &&& 0 <= j < i < rows.len()
    &&& rows[i] is Script
    &&& rows[j] matches RowView::SourceHeader { dir_index, source, collapsed, .. } && !collapsed
        && dir_index == rows[i]->Script_dir_index && source == rows[i]->Script_source
    &&& forall|k: int|
        j < k < i ==> (#[trigger] rows[k] matches RowView::Script { dir_index, source, .. }
            && dir_index == rows[i]->Script_dir_index && source == rows[i]->Script_source)
}

/// Every script has its heading above it.
pub open spec fn well_headed(rows: Seq<RowView>) -> bool {
    forall|i: int|
        0 <= i < rows.len() && (#[trigger] rows[i]) is Script ==> exists|j: int| heads(rows, j, i)
}

proof fn lemma_well_headed_concat(a: Seq<RowView>, b: Seq<RowView>)
    requires
        well_headed(a),
        well_headed(b),
    ensures
        well_headed(a + b),
{
    let both = a + b;
    assert forall|i: int| 0 <= i < both.len() && (#[trigger] both[i]) is Script implies exists|
        j: int,
    | heads(both, j, i) by {
        if i < a.len() {
            assert(a[i] == both[i]);
            let j = choose|j: int| heads(a, j, i);
            assert(forall|k: int| 0 <= k < a.len() ==> #[trigger] both[k] == a[k]);
            assert(heads(both, j, i));
        } else {
            let n = a.len() as int;
            let at = i - n;
            assert(b[at] == both[i]);
            let j = choose|j: int| heads(b, j, at);
            assert(both[n + j] == b[j]);
            assert forall|k: int| n + j < k < i implies (#[trigger] both[k] matches
                RowView::Script { dir_index, source, .. } && dir_index
                == both[i]->Script_dir_index && source == both[i]->Script_source) by {
                assert(b[k - n] == both[k]);
            }
            assert(heads(both, n + j, i));
        }
    }
}

proof fn lemma_headed_well(
    tree: TreeView,
    dir_index: int,
    source: Seq<char>,
    label: Seq<char>,
    names: Seq<Seq<char>>,
)
    ensures
        well_headed(tree.headed(dir_index, source, label, names)),
{
    let rows = tree.headed(dir_index, source, label, names);
    assert forall|i: int| 0 <= i < rows.len() && (#[trigger] rows[i]) is Script implies exists|
        j: int,
    | heads(rows, j, i) by {
        assert(heads(rows, 0, i));
    }
}

proof fn lemma_children_well(tree: TreeView, dir_index: int, groups: Seq<GroupView>)
    ensures
        well_headed(tree.children(dir_index, groups)),
    decreases groups.len(),
{
    if groups.len() > 0 {
        let group = groups.last();
        lemma_children_well(tree, dir_index, groups.drop_last());
        lemma_headed_well(
            tree,
            dir_index,
            group.id,
            group.label,
            tree.matching(names_of(group.scripts)),
        );
        lemma_well_headed_concat(
            tree.children(dir_index, groups.drop_last()),
            tree.group_rows(dir_index, group),
        );
    }
}

proof fn lemma_dirs_well(tree: TreeView, n: int)
    requires
        0 <= n <= tree.directories.len(),
    ensures
        well_headed(tree.dirs_rows(n)),
    decreases n,
{
    if n > 0 {
        let dir = tree.directories[n - 1];
        let children = tree.children(n - 1, dir.source_groups);
        let collapsed = tree.dir_collapsed(n - 1);
        lemma_dirs_well(tree, n - 1);
        lemma_children_well(tree, n - 1, dir.source_groups);
        let head = if tree.multi() {
            seq![RowView::DirHeader { dir_index: n - 1, label: dir.label, collapsed }]
        } else {
            Seq::empty()
        };
        let below = if collapsed {
            Seq::empty()
        } else {
            children
        };
        assert(well_headed(head));
        assert(well_headed(below));
        lemma_well_headed_concat(head, below);
        lemma_well_headed_concat(tree.dirs_rows(n - 1), tree.dir_rows(n - 1, dir));
    }
}

/// Every script stands below the heading of its source, which is open, with
/// nothing but scripts of the same source between.
pub proof fn law_scripts_stand_below_their_heading(tree: TreeView, i: int)
    requires
        0 <= i < tree.rows().len(),
        tree.rows()[i] is Script,
    ensures
        exists|j: int| heads(tree.rows(), j, i),
{
    let n = tree.directories.len() as int;
    lemma_dirs_well(tree, n);
    lemma_headed_well(tree, 0, AD_HOC@, "commands"@, tree.matching(tree.ad_hoc));
    assert(well_headed(tree.ad_hoc_rows()));
    lemma_well_headed_concat(tree.dirs_rows(n), tree.ad_hoc_rows());
}

// --- headings under a filter ----------------------------------------------------------

/// Below every heading stands what it is the heading of: a script below a
/// source's, a source's heading below a directory's.
pub open spec fn backed(rows: Seq<RowView>) -> bool {
    &&& forall|i: int|
        0 <= i < rows.len() && (#[trigger] rows[i]) is SourceHeader ==> i + 1 < rows.len()
            && rows[i + 1] is Script
    &&& forall|i: int|
        0 <= i < rows.len() && (#[trigger] rows[i]) is DirHeader ==> i + 1 < rows.len()
            && rows[i + 1] is SourceHeader
}

proof fn lemma_backed_concat(a: Seq<RowView>, b: Seq<RowView>)
    requires
        backed(a),
        backed(b),
    ensures
        backed(a + b),
{
    let both = a + b;
    let n = a.len() as int;
    assert forall|i: int| 0 <= i < both.len() && (#[trigger] both[i]) is SourceHeader implies i + 1
        < both.len() && both[i + 1] is Script by {
        if i < n {
            assert(both[i] == a[i]);
            assert(both[i + 1] == a[i + 1]);
        } else {
            assert(both[i] == b[i - n]);
            assert(both[i + 1] == b[i - n + 1]);
        }
    }
    assert forall|i: int| 0 <= i < both.len() && (#[trigger] both[i]) is DirHeader implies i + 1
        < both.len() && both[i + 1] is SourceHeader by {
        if i < n {
            assert(both[i] == a[i]);
            assert(both[i + 1] == a[i + 1]);
        } else {
            assert(both[i] == b[i - n]);
            assert(both[i + 1] == b[i - n + 1]);
        }
    }
}

/// The rows below an open heading with some names are backed.
proof fn lemma_headed_backed(
    tree: TreeView,
    dir_index: int,
    source: Seq<char>,
    label: Seq<char>,
    names: Seq<Seq<char>>,
)
    requires
        tree.filtered(),
        names.len() > 0,
    ensures
        backed(tree.headed(dir_index, source, label, names)),
        tree.headed(dir_index, source, label, names)[0] is SourceHeader,
{
    let rows = tree.headed(dir_index, source, label, names);
    assert(rows[1] is Script);
    assert forall|i: int| 0 < i < rows.len() implies #[trigger] rows[i] is Script by {}
}

proof fn lemma_children_backed(tree: TreeView, dir_index: int, groups: Seq<GroupView>)
    requires
        tree.filtered(),
    ensures
        backed(tree.children(dir_index, groups)),
        tree.children(dir_index, groups).len() > 0 ==> tree.children(dir_index, groups)[0] is
            SourceHeader,
    decreases groups.len(),
{
    if groups.len() > 0 {
        let group = groups.last();
        let front = tree.children(dir_index, groups.drop_last());
        let back = tree.group_rows(dir_index, group);
        let names = tree.matching(names_of(group.scripts));
        lemma_children_backed(tree, dir_index, groups.drop_last());
        if names.len() > 0 {
            lemma_headed_backed(tree, dir_index, group.id, group.label, names);
        }
        lemma_backed_concat(front, back);
        if front.len() > 0 {
            assert((front + back)[0] == front[0]);
        } else if back.len() > 0 {
            assert((front + back)[0] == back[0]);
        }
    }
}

proof fn lemma_dirs_backed(tree: TreeView, n: int)
    requires
        tree.filtered(),
        0 <= n <= tree.directories.len(),
    ensures
        backed(tree.dirs_rows(n)),
    decreases n,
{
    if n > 0 {
        let dir = tree.directories[n - 1];
        let children = tree.children(n - 1, dir.source_groups);
        let rows = tree.dir_rows(n - 1, dir);
        lemma_dirs_backed(tree, n - 1);
        lemma_children_backed(tree, n - 1, dir.source_groups);
        if children.len() > 0 {
            if tree.multi() {
                assert forall|i: int| 0 < i < rows.len() implies #[trigger] rows[i] == children[i
                    - 1] by {}
                assert(rows[1] == children[0]);
                assert forall|i: int|
                    0 <= i < rows.len() && (#[trigger] rows[i]) is SourceHeader implies i + 1
                    < rows.len() && rows[i + 1] is Script by {
                    assert(rows[i] == children[i - 1]);
                    assert(rows[i + 1] == children[i]);
                }
                assert forall|i: int|
                    0 <= i < rows.len() && (#[trigger] rows[i]) is DirHeader implies i + 1
                    < rows.len() && rows[i + 1] is SourceHeader by {
                    if i > 0 {
                        assert(rows[i] == children[i - 1]);
                        assert(rows[i + 1] == children[i]);
                    }
                }
            } else {
                assert(rows =~= children);
            }
        }
        lemma_backed_concat(tree.dirs_rows(n - 1), rows);
    }
}

/// A filter leaves no heading without a script below it.
pub proof fn law_filter_leaves_no_empty_heading(tree: TreeView)
    requires
        tree.filtered(),
    ensures
        backed(tree.rows()),
{
    let n = tree.directories.len() as int;
    lemma_dirs_backed(tree, n);
    let names = tree.matching(tree.ad_hoc);
    if names.len() > 0 {
        lemma_headed_backed(tree, 0, AD_HOC@, "commands"@, names);
    }
    lemma_backed_concat(tree.dirs_rows(n), tree.ad_hoc_rows());
}

// --- headings are told apart ------------------------------------------------------

/// No two sources of a directory are of one kind, and none is of the kind of the
/// commands run on the spot.
pub open spec fn distinct_sources(dirs: Seq<DirView>) -> bool {
    &&& forall|d: int, g: int, h: int|
        0 <= d < dirs.len() && 0 <= g < h < dirs[d].source_groups.len() ==> (
        #[trigger] dirs[d].source_groups[g]).id != (#[trigger] dirs[d].source_groups[h]).id
    &&& no_source_of_commands(dirs)
}

/// No source of a directory is of the kind of the commands run on the spot.
pub open spec fn no_source_of_commands(dirs: Seq<DirView>) -> bool {
    forall|d: int, g: int|
        0 <= d < dirs.len() && 0 <= g < dirs[d].source_groups.len() ==> (
        #[trigger] dirs[d].source_groups[g]).id != AD_HOC@
}

/// No two rows are one heading.
pub open spec fn distinct_headings(rows: Seq<RowView>) -> bool {
    forall|i: int, j: int|
        0 <= i < j < rows.len() && (#[trigger] rows[i]).is_header() && (
        #[trigger] rows[j]).is_header() ==> rows[i].collapse_key() != rows[j].collapse_key()
}

proof fn lemma_distinct_concat(a: Seq<RowView>, b: Seq<RowView>)
    requires
        distinct_headings(a),
        distinct_headings(b),
        forall|i: int, j: int|
            0 <= i < a.len() && 0 <= j < b.len() && (#[trigger] a[i]).is_header() && (
            #[trigger] b[j]).is_header() ==> a[i].collapse_key() != b[j].collapse_key(),
    ensures
        distinct_headings(a + b),
{
    let both = a + b;
    let n = a.len() as int;
    assert forall|i: int, j: int|
        0 <= i < j < both.len() && (#[trigger] both[i]).is_header() && (
        #[trigger] both[j]).is_header() implies both[i].collapse_key()
        != both[j].collapse_key() by {
        if j < n {
            assert(both[i] == a[i] && both[j] == a[j]);
        } else if i < n {
            assert(both[i] == a[i] && both[j] == b[j - n]);
        } else {
            assert(both[i] == b[i - n] && both[j] == b[j - n]);
        }
    }
}

/// The only heading among the rows of a source is its own.
proof fn lemma_group_headings(tree: TreeView, dir_index: int, group: GroupView)
    ensures
        distinct_headings(tree.group_rows(dir_index, group)),
        forall|i: int|
            0 <= i < tree.group_rows(dir_index, group).len() && (#[trigger] tree.group_rows(
                dir_index,
                group,
            )[i]).is_header() ==> tree.group_rows(dir_index, group)[i].collapse_key() == Some(
                KeyView::Source(dir_index, group.id),
            ),
{
    let rows = tree.group_rows(dir_index, group);
    assert forall|i: int| 0 < i < rows.len() implies #[trigger] rows[i] is Script by {}
}

proof fn lemma_children_headings(tree: TreeView, d: int, groups: Seq<GroupView>)
    requires
        forall|g: int, h: int|
            0 <= g < h < groups.len() ==> (#[trigger] groups[g]).id != (#[trigger] groups[h]).id,
    ensures
        distinct_headings(tree.children(d, groups)),
        forall|i: int|
            0 <= i < tree.children(d, groups).len() && (#[trigger] tree.children(
                d,
                groups,
            )[i]).is_header() ==> exists|g: int|
                0 <= g < groups.len() && tree.children(d, groups)[i].collapse_key() == Some(
                    KeyView::Source(d, (#[trigger] groups[g]).id),
                ),
    decreases groups.len(),
{
    if groups.len() > 0 {
        let shorter = groups.drop_last();
        let front = tree.children(d, shorter);
        let back = tree.group_rows(d, groups.last());
        let rows = tree.children(d, groups);
        assert forall|g: int, h: int| 0 <= g < h < shorter.len() implies (
        #[trigger] shorter[g]).id != (#[trigger] shorter[h]).id by {
            assert(groups[g].id != groups[h].id);
        }
        lemma_children_headings(tree, d, shorter);
        lemma_group_headings(tree, d, groups.last());
        assert forall|i: int, j: int|
            0 <= i < front.len() && 0 <= j < back.len() && (#[trigger] front[i]).is_header() && (
            #[trigger] back[j]).is_header() implies front[i].collapse_key()
            != back[j].collapse_key() by {
            let g = choose|g: int|
                0 <= g < shorter.len() && front[i].collapse_key() == Some(
                    KeyView::Source(d, (#[trigger] shorter[g]).id),
                );
            assert(groups[g].id != groups[groups.len() - 1].id);
        }
        lemma_distinct_concat(front, back);
        assert forall|i: int| 0 <= i < rows.len() && (#[trigger] rows[i]).is_header() implies exists|
            g: int,
        |
            0 <= g < groups.len() && rows[i].collapse_key() == Some(
                KeyView::Source(d, (#[trigger] groups[g]).id),
            ) by {
            if i < front.len() {
                assert(rows[i] == front[i]);
                let g = choose|g: int|
                    0 <= g < shorter.len() && front[i].collapse_key() == Some(
                        KeyView::Source(d, (#[trigger] shorter[g]).id),
                    );
                assert(groups[g] == shorter[g]);
            } else {
                assert(rows[i] == back[i - front.len()]);
                assert(groups[groups.len() - 1] == groups.last());
            }
        }
    }
}

/// The headings among the rows of a directory are of that directory.
spec fn of_directory(row: RowView, d: int) -> bool {
    match row.collapse_key() {
        Some(KeyView::Dir(e)) => e == d,
        Some(KeyView::Source(e, source)) => e == d && source != AD_HOC@,
        None => true,
    }
}

/// The heading is of one of the first `n` directories.
spec fn of_some_directory(row: RowView, n: int) -> bool {
    exists|d: int| 0 <= d < n && #[trigger] of_directory(row, d)
}

proof fn lemma_dir_headings(tree: TreeView, d: int)
    requires
        distinct_sources(tree.directories),
        0 <= d < tree.directories.len(),
    ensures
        distinct_headings(tree.dir_rows(d, tree.directories[d])),
        forall|i: int|
            0 <= i < tree.dir_rows(d, tree.directories[d]).len() ==> of_directory(
                #[trigger] tree.dir_rows(d, tree.directories[d])[i],
                d,
            ),
{
    let dir = tree.directories[d];
    let groups = dir.source_groups;
    let children = tree.children(d, groups);
    let collapsed = tree.dir_collapsed(d);
    let rows = tree.dir_rows(d, dir);
    assert forall|g: int, h: int| 0 <= g < h < groups.len() implies (#[trigger] groups[g]).id != (
    #[trigger] groups[h]).id by {
        assert(tree.directories[d].source_groups[g].id != tree.directories[d].source_groups[h].id);
    }
    lemma_children_headings(tree, d, groups);
    assert forall|i: int| 0 <= i < children.len() implies of_directory(
        #[trigger] children[i],
        d,
    ) && !(children[i] is DirHeader) by {
        if children[i].is_header() {
            let g = choose|g: int|
                0 <= g < groups.len() && children[i].collapse_key() == Some(
                    KeyView::Source(d, (#[trigger] groups[g]).id),
                );
            assert(tree.directories[d].source_groups[g].id != AD_HOC@);
        }
    }
    let head = if tree.multi() {
        seq![RowView::DirHeader { dir_index: d, label: dir.label, collapsed }]
    } else {
        Seq::empty()
    };
    let below = if collapsed {
        Seq::empty()
    } else {
        children
    };
    assert forall|i: int, j: int|
        0 <= i < head.len() && 0 <= j < below.len() && (#[trigger] head[i]).is_header() && (
        #[trigger] below[j]).is_header() implies head[i].collapse_key()
        != below[j].collapse_key() by {
        assert(!(children[j] is DirHeader));
    }
    lemma_distinct_concat(head, below);
    assert forall|i: int| 0 <= i < rows.len() implies of_directory(#[trigger] rows[i], d) by {
        if i < head.len() {
            assert(rows[i] == head[i]);
        } else {
            assert(rows[i] == children[i - head.len()]);
        }
    }
}

proof fn lemma_dirs_headings(tree: TreeView, n: int)
    requires
        distinct_sources(tree.directories),
        0 <= n <= tree.directories.len(),
    ensures
        distinct_headings(tree.dirs_rows(n)),
        forall|i: int|
            0 <= i < tree.dirs_rows(n).len() ==> of_some_directory(
                #[trigger] tree.dirs_rows(n)[i],
                n,
            ),
    decreases n,
{
    if n > 0 {
        let front = tree.dirs_rows(n - 1);
        let back = tree.dir_rows(n - 1, tree.directories[n - 1]);
        let rows = tree.dirs_rows(n);
        lemma_dirs_headings(tree, n - 1);
        lemma_dir_headings(tree, n - 1);
        assert forall|i: int, j: int|
            0 <= i < front.len() && 0 <= j < back.len() && (#[trigger] front[i]).is_header() && (
            #[trigger] back[j]).is_header() implies front[i].collapse_key()
            != back[j].collapse_key() by {
            assert(of_some_directory(front[i], n - 1));
            assert(of_directory(back[j], n - 1));
        }
        lemma_distinct_concat(front, back);
        assert forall|i: int| 0 <= i < rows.len() implies of_some_directory(
            #[trigger] rows[i],
            n,
        ) by {
            if i < front.len() {
                assert(rows[i] == front[i]);
                assert(of_some_directory(front[i], n - 1));
                let d = choose|d: int| 0 <= d < n - 1 && #[trigger] of_directory(front[i], d);
                assert(of_directory(rows[i], d));
            } else {
                assert(rows[i] == back[i - front.len()]);
                assert(of_directory(rows[i], n - 1));
            }
        }
    }
}

/// No two rows are one heading, where sources are told apart.
pub proof fn law_headings_are_distinct(tree: TreeView)
    requires
        distinct_sources(tree.directories),
    ensures
        distinct_headings(tree.rows()),
{
    let n = tree.directories.len() as int;
    let front = tree.dirs_rows(n);
    let back = tree.ad_hoc_rows();
    lemma_dirs_headings(tree, n);
    assert forall|j: int| 0 <= j < back.len() && (#[trigger] back[j]).is_header() implies j == 0
        && back[j].collapse_key() == Some(KeyView::Source(0, AD_HOC@)) by {}
    assert forall|i: int, j: int|
        0 <= i < front.len() && 0 <= j < back.len() && (#[trigger] front[i]).is_header() && (
        #[trigger] back[j]).is_header() implies front[i].collapse_key()
        != back[j].collapse_key() by {
        assert(of_some_directory(front[i], n));
        assert(back[j].collapse_key() == Some(KeyView::Source(0, AD_HOC@)));
    }
    lemma_distinct_concat(front, back);
}

/// Sources are told apart in a list of directories as it is read.
pub proof fn law_read_sources_are_distinct(scans: Seq<DirScan>)
    ensures
        distinct_sources(found_dirs(scans)),
{
    reveal_strlit("package.json");
    reveal_strlit("scripts.json");
    reveal_strlit("commands");
    let dirs = found_dirs(scans);
    assert(package_json::ID@[0] == 'p');
    assert(scripts_json::ID@[0] == 's');
    assert(AD_HOC@[0] == 'c');
    assert forall|d: int, g: int|
        0 <= d < dirs.len() && 0 <= g < dirs[d].source_groups.len() implies (
    #[trigger] dirs[d].source_groups[g]).id != AD_HOC@ by {
        assert(dirs[d].source_groups == scans[d].groups());
    }
    assert forall|d: int, g: int, h: int|
        0 <= d < dirs.len() && 0 <= g < h < dirs[d].source_groups.len() implies (
    #[trigger] dirs[d].source_groups[g]).id != (#[trigger] dirs[d].source_groups[h]).id by {
        assert(dirs[d].source_groups == scans[d].groups());
    }
}

} // verus!
