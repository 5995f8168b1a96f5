//! The list of scripts as it is shown: headings and scripts, with what is folded
//! up or filtered out left away.

use vstd::prelude::*;
use vstd::string::*;

use crate::source::registry::{dir_views, group_views, DirGroup, DirView, GroupView, SourceGroup};
use crate::source::{ScriptView, SourceId, AD_HOC};
use crate::text::{contains, has_part, lower_text, texts};

verus! {

// --- rows ---------------------------------------------------------------------

/// One row of the list.
#[derive(Debug)]
pub enum Row {
    DirHeader { dir_index: usize, label: String, collapsed: bool },
    SourceHeader { dir_index: usize, source: SourceId, label: String, collapsed: bool },
    Script { dir_index: usize, source: SourceId, name: String },
}

/// A row by its texts.
#[verifier::ext_equal]
pub ghost enum RowView {
    DirHeader { dir_index: int, label: Seq<char>, collapsed: bool },
    SourceHeader { dir_index: int, source: Seq<char>, label: Seq<char>, collapsed: bool },
    Script { dir_index: int, source: Seq<char>, name: Seq<char> },
}

impl View for Row {
    type V = RowView;

    open spec fn view(&self) -> RowView {
        match self {
            Row::DirHeader { dir_index, label, collapsed } => RowView::DirHeader {
                dir_index: *dir_index as int,
                label: label@,
                collapsed: *collapsed,
            },
            Row::SourceHeader { dir_index, source, label, collapsed } => RowView::SourceHeader {
                dir_index: *dir_index as int,
                source: source@,
                label: label@,
                collapsed: *collapsed,
            },
            Row::Script { dir_index, source, name } => RowView::Script {
                dir_index: *dir_index as int,
                source: source@,
                name: name@,
            },
        }
    }
}

impl RowView {
    /// The row is a heading.
    pub open spec fn is_header(self) -> bool {
        self is DirHeader || self is SourceHeader
    }

    /// A heading that is folded up.
    pub open spec fn is_folded(self) -> bool {
        match self {
            RowView::DirHeader { collapsed, .. } => collapsed,
            RowView::SourceHeader { collapsed, .. } => collapsed,
            RowView::Script { .. } => false,
        }
    }

    /// What folding this row up would hide.
    pub open spec fn collapse_key(self) -> Option<KeyView> {
        match self {
            RowView::DirHeader { dir_index, .. } => Some(KeyView::Dir(dir_index)),
            RowView::SourceHeader { dir_index, source, .. } => Some(
                KeyView::Source(dir_index, source),
            ),
            RowView::Script { .. } => None,
        }
    }
}

impl Row {
    /// Whether the row is a script.
    pub fn is_script(&self) -> (r: bool)
        ensures
            r == (self@ is Script),
    {
        match self {
            Row::Script { .. } => true,
            _ => false,
        }
    }

    /// Whether the row is a heading that is folded up.
    pub fn is_folded(&self) -> (r: bool)
        ensures
            r == self@.is_folded(),
    {
        match self {
            Row::DirHeader { collapsed, .. } => *collapsed,
            Row::SourceHeader { collapsed, .. } => *collapsed,
            Row::Script { .. } => false,
        }
    }

    /// Whether the row is a heading.
    pub fn is_header(&self) -> (r: bool)
        ensures
            r == self@.is_header(),
    {
        match self {
            Row::DirHeader { .. } | Row::SourceHeader { .. } => true,
            _ => false,
        }
    }
}

/// The rows of a list, by their texts.
pub open spec fn row_views(rows: Seq<Row>) -> Seq<RowView> {
    rows.map_values(|r: Row| r@)
}

// --- what is folded up ----------------------------------------------------------

/// A heading that can be folded up.
#[derive(Clone, Copy, Debug, PartialEq, Eq, Hash)]
pub enum CollapseKey {
    Dir(usize),
    Source(usize, SourceId),
}

/// A heading by its texts.
#[verifier::ext_equal]
pub ghost enum KeyView {
    Dir(int),
    Source(int, Seq<char>),
}

impl View for CollapseKey {
    type V = KeyView;

    open spec fn view(&self) -> KeyView {
        match self {
            CollapseKey::Dir(dir_index) => KeyView::Dir(*dir_index as int),
            CollapseKey::Source(dir_index, source) => KeyView::Source(*dir_index as int, source@),
        }
    }
}

impl CollapseKey {
    /// Whether the two are one heading.
    pub fn same(self, other: CollapseKey) -> (r: bool)
        ensures
            r == (self@ == other@),
    {
        match (self, other) {
            (CollapseKey::Dir(a), CollapseKey::Dir(b)) => a == b,
            (CollapseKey::Source(a, s), CollapseKey::Source(b, t)) => a == b && s.same(t),
            _ => false,
        }
    }
}

/// The headings that are folded up, each of them once.
pub struct Collapsed {
    keys: Vec<CollapseKey>,
}

/// A heading is among the first `n` of a list.
spec fn among(keys: Seq<CollapseKey>, n: int, key: KeyView) -> bool {
    exists|i: int| 0 <= i < n && (#[trigger] keys[i])@ == key
}

/// No heading occurs twice.
spec fn all_differ(keys: Seq<CollapseKey>) -> bool {
    forall|i: int, j: int|
        0 <= i < j < keys.len() ==> (#[trigger] keys[i])@ != (#[trigger] keys[j])@
}

impl View for Collapsed {
    type V = Set<KeyView>;

    closed spec fn view(&self) -> Set<KeyView> {
        Set::new(|key: KeyView| among(self.keys@, self.keys@.len() as int, key))
    }
}

impl Collapsed {
    /// No heading is kept twice.
    #[verifier::type_invariant]
    spec fn kept_once(self) -> bool {
        all_differ(self.keys@)
    }

    /// Nothing is folded up.
    pub fn new() -> (set: Collapsed)
        ensures
            set@ == Set::<KeyView>::empty(),
    {
        let set = Collapsed { keys: Vec::new() };
        assert(set@ =~= Set::empty());
        set
    }

    /// Whether a heading is folded up.
    pub fn contains(&self, key: CollapseKey) -> (r: bool)
        ensures
            r == self@.contains(key@),
    {
        let mut i: usize = 0;
        while i < self.keys.len()
            invariant
                i <= self.keys.len(),
                !among(self.keys@, i as int, key@),
            decreases self.keys.len() - i,
        {
            if self.keys[i].same(key) {
                return true;
            }
            i += 1;
        }
        false
    }

    /// Folds a heading up.
    pub fn insert(&mut self, key: CollapseKey)
        ensures
            final(self)@ == old(self)@.insert(key@),
    {
        proof {
            use_type_invariant(&*self);
        }
        if self.contains(key) {
            assert(self@ =~= self@.insert(key@));
            return;
        }
        let ghost before = self.keys@;
        let mut keys: Vec<CollapseKey> = Vec::new();
        std::mem::swap(&mut keys, &mut self.keys);
        keys.push(key);
        proof {
            assert forall|k: KeyView|
                among(keys@, keys@.len() as int, k) == (among(before, before.len() as int, k) || k
                    == key@) by {
                assert(keys@[before.len() as int]@ == key@);
                if among(before, before.len() as int, k) {
                    let i = choose|i: int| 0 <= i < before.len() && (#[trigger] before[i])@ == k;
                    assert(keys@[i]@ == k);
                }
                if among(keys@, keys@.len() as int, k) {
                    let i = choose|i: int| 0 <= i < keys@.len() && (#[trigger] keys@[i])@ == k;
                    if i < before.len() {
                        assert(before[i]@ == k);
                    }
                }
            }
            assert forall|i: int, j: int| 0 <= i < j < keys@.len() implies (
            #[trigger] keys@[i])@ != (#[trigger] keys@[j])@ by {
                assert(keys@[i] == before[i]);
                if j < before.len() {
                    assert(keys@[j] == before[j]);
                }
            }
        }
        self.keys = keys;
        assert(self@ =~= old(self)@.insert(key@));
    }

    /// Opens a heading.
    pub fn remove(&mut self, key: CollapseKey)
        ensures
            final(self)@ == old(self)@.remove(key@),
    {
        proof {
            use_type_invariant(&*self);
        }
        let ghost all = self.keys@;
        let mut kept: Vec<CollapseKey> = Vec::new();
        let mut i: usize = 0;
        while i < self.keys.len()
            invariant
                i <= self.keys.len(),
                self.keys == old(self).keys,
                all == self.keys@,
                all_differ(all),
                all_differ(kept@),
                forall|k: KeyView| #[trigger]
                    among(kept@, kept@.len() as int, k) == (among(all, i as int, k) && k != key@),
            decreases self.keys.len() - i,
        {
            let ghost shorter = kept@;
            if !self.keys[i].same(key) {
                kept.push(self.keys[i]);
                proof {
                    assert forall|n: int| 0 <= n < shorter.len() implies (
                    #[trigger] shorter[n])@ != all[i as int]@ by {
                        assert(among(shorter, shorter.len() as int, shorter[n]@));
                    }
                    assert forall|n: int, m: int| 0 <= n < m < kept@.len() implies (
                    #[trigger] kept@[n])@ != (#[trigger] kept@[m])@ by {
                        assert(kept@[n] == shorter[n]);
                        if m < shorter.len() {
                            assert(kept@[m] == shorter[m]);
                        }
                    }
                }
            }
            proof {
                assert forall|k: KeyView| #[trigger]
                    among(kept@, kept@.len() as int, k) == (among(all, i + 1, k) && k != key@) by {
                    lemma_among_next(all, i as int, k);
                    if kept@.len() > shorter.len() {
                        assert(kept@.take(shorter.len() as int) =~= shorter);
                        lemma_among_prefix(kept@, shorter.len() as int, k);
                        lemma_among_next(kept@, shorter.len() as int, k);
                    }
                    assert(among(shorter, shorter.len() as int, k) == (among(all, i as int, k) && k
                        != key@));
                }
            }
            i += 1;
        }
        self.keys = kept;
        assert(self@ =~= old(self)@.remove(key@));
    }
}

proof fn lemma_among_next(keys: Seq<CollapseKey>, n: int, key: KeyView)
    requires
        0 <= n < keys.len(),
    ensures
        among(keys, n + 1, key) == (among(keys, n, key) || keys[n]@ == key),
{
    if among(keys, n, key) {
        let i = choose|i: int| 0 <= i < n && (#[trigger] keys[i])@ == key;
        assert(0 <= i < n + 1 && keys[i]@ == key);
    }
}

proof fn lemma_among_prefix(keys: Seq<CollapseKey>, n: int, key: KeyView)
    requires
        0 <= n <= keys.len(),
    ensures
        among(keys.take(n), n, key) == among(keys, n, key),
{
    if among(keys, n, key) {
        let i = choose|i: int| 0 <= i < n && (#[trigger] keys[i])@ == key;
        assert(keys.take(n)[i]@ == key);
    }
    if among(keys.take(n), n, key) {
        let i = choose|i: int| 0 <= i < n && (#[trigger] keys.take(n)[i])@ == key;
        assert(keys[i]@ == key);
    }
}

// --- which rows there are ---------------------------------------------------------

/// What decides which rows there are.
#[verifier::ext_equal]
pub ghost struct TreeView {
    pub directories: Seq<DirView>,
    pub collapsed: Set<KeyView>,
    /// The filter in lower case; empty where nothing is filtered.
    pub needle: Seq<char>,
    /// The commands that were run on the spot.
    pub ad_hoc: Seq<Seq<char>>,
}

impl TreeView {
    /// Directories have headings of their own.
    pub open spec fn multi(self) -> bool {
        self.directories.len() > 1
    }

    /// Something is filtered.
    pub open spec fn filtered(self) -> bool {
        self.needle.len() > 0
    }

    /// The filter lets a name through: case does not count.
    pub open spec fn shown(self, name: Seq<char>) -> bool {
        !self.filtered() || has_part(lower_text(name), self.needle)
    }

    /// The names that the filter lets through.
    pub open spec fn matching(self, names: Seq<Seq<char>>) -> Seq<Seq<char>> {
        names.filter(|name: Seq<char>| self.shown(name))
    }

    /// The heading is folded up. A filter opens all of them.
    pub open spec fn is_collapsed(self, key: KeyView) -> bool {
        !self.filtered() && self.collapsed.contains(key)
    }

    /// The directory's heading is there and folded up.
    pub open spec fn dir_collapsed(self, dir_index: int) -> bool {
        self.multi() && self.is_collapsed(KeyView::Dir(dir_index))
    }

    /// A heading, with a row for each name where it is open.
    pub open spec fn headed(
        self,
        dir_index: int,
        source: Seq<char>,
        label: Seq<char>,
        names: Seq<Seq<char>>,
    ) -> Seq<RowView> {
        let collapsed = self.is_collapsed(KeyView::Source(dir_index, source));
        let header = RowView::SourceHeader { dir_index, source, label, collapsed };
        seq![header] + if collapsed {
            Seq::empty()
        } else {
            script_rows(dir_index, source, names)
        }
    }

    /// The rows of one source. A filter leaves out a source with no match.
    pub open spec fn group_rows(self, dir_index: int, group: GroupView) -> Seq<RowView> {
        let names = self.matching(names_of(group.scripts));
        if self.filtered() && names.len() == 0 {
            Seq::empty()
        } else {
            self.headed(dir_index, group.id, group.label, names)
        }
    }

    /// The rows of some sources, one after the other.
    pub open spec fn children(self, dir_index: int, groups: Seq<GroupView>) -> Seq<RowView>
        decreases groups.len(),
    {
        if groups.len() == 0 {
            Seq::empty()
        } else {
            self.children(dir_index, groups.drop_last()) + self.group_rows(dir_index, groups.last())
        }
    }

    /// The rows of one directory. A filter leaves out a directory with no match.
    pub open spec fn dir_rows(self, dir_index: int, dir: DirView) -> Seq<RowView> {
        let children = self.children(dir_index, dir.source_groups);
        let collapsed = self.dir_collapsed(dir_index);
        if self.filtered() && children.len() == 0 {
            Seq::empty()
        } else {
            (if self.multi() {
                seq![RowView::DirHeader { dir_index, label: dir.label, collapsed }]
            } else {
                Seq::empty()
            }) + if collapsed {
                Seq::empty()
            } else {
                children
            }
        }
    }

    /// The rows of the first `n` directories.
    pub open spec fn dirs_rows(self, n: int) -> Seq<RowView>
        decreases n,
    {
        if n <= 0 {
            Seq::empty()
        } else {
            self.dirs_rows(n - 1) + self.dir_rows(n - 1, self.directories[n - 1])
        }
    }

    /// The rows of the commands that were run on the spot. They come last, and
    /// belong to no directory's heading.
    pub open spec fn ad_hoc_rows(self) -> Seq<RowView> {
        let names = self.matching(self.ad_hoc);
        if names.len() == 0 {
            Seq::empty()
        } else {
            self.headed(0, AD_HOC@, "commands"@, names)
        }
    }

    /// All rows.
    pub open spec fn rows(self) -> Seq<RowView> {
        self.dirs_rows(self.directories.len() as int) + self.ad_hoc_rows()
    }
}

/// The names of scripts.
pub open spec fn names_of(scripts: Seq<ScriptView>) -> Seq<Seq<char>> {
    scripts.map_values(|s: ScriptView| s.name)
}

/// A row for each name.
pub open spec fn script_rows(dir_index: int, source: Seq<char>, names: Seq<Seq<char>>) -> Seq<
    RowView,
> {
    names.map_values(|name: Seq<char>| RowView::Script { dir_index, source, name })
}

// --- building them ------------------------------------------------------------------

/// One more name, let through or not.
proof fn lemma_matching_push(tree: TreeView, names: Seq<Seq<char>>, name: Seq<char>)
    ensures
        tree.matching(names.push(name)) == if tree.shown(name) {
            tree.matching(names).push(name)
        } else {
            tree.matching(names)
        },
{
    reveal(Seq::filter);
    assert(names.push(name).drop_last() =~= names);
}

/// Whether a filter, given in lower case, lets a name through.
fn is_shown(name: &str, needle: &str) -> (r: bool)
    ensures
        r == (needle@.len() == 0 || has_part(lower_text(name@), needle@)),
{
    if needle.unicode_len() == 0 {
        true
    } else {
        contains(name.to_lowercase().as_str(), needle)
    }
}

/// Appends a heading, and a row for each name where it is open.
fn push_headed(
    rows: &mut Vec<Row>,
    dir_index: usize,
    source: SourceId,
    label: &str,
    names: &Vec<String>,
    collapsed: bool,
)
    ensures
        row_views(final(rows)@) == row_views(old(rows)@) + (seq![
            RowView::SourceHeader { dir_index: dir_index as int, source: source@, label: label@, collapsed },
        ] + if collapsed {
            Seq::empty()
        } else {
            script_rows(dir_index as int, source@, texts(names@))
        }),
{
    let header = Row::SourceHeader { dir_index, source, label: label.to_string(), collapsed };
    let ghost head = header@;
    rows.push(header);
    let ghost start = row_views(old(rows)@).push(head);
    assert(row_views(rows@) =~= start);
    if !collapsed {
        let mut i: usize = 0;
        assert(texts(names@.take(0)) =~= Seq::empty());
        assert(script_rows(dir_index as int, source@, texts(names@.take(0))) =~= Seq::empty());
        while i < names.len()
            invariant
                i <= names.len(),
                row_views(rows@) =~= start + script_rows(
                    dir_index as int,
                    source@,
                    texts(names@.take(i as int)),
                ),
            decreases names.len() - i,
        {
            let ghost before = rows@;
            let row = Row::Script { dir_index, source, name: names[i].clone() };
            let ghost last = row@;
            rows.push(row);
            proof {
                assert(row_views(rows@) =~= row_views(before).push(last));
                assert(script_rows(dir_index as int, source@, texts(names@.take(i + 1)))
                    =~= script_rows(dir_index as int, source@, texts(names@.take(i as int))).push(
                    last,
                ));
            }
            i += 1;
        }
        assert(names@.take(i as int) =~= names@);
    }
    assert(row_views(rows@) =~= row_views(old(rows)@) + (seq![head] + if collapsed {
        Seq::empty()
    } else {
        script_rows(dir_index as int, source@, texts(names@))
    }));
}

/// The names of a group's scripts that a filter lets through.
fn matching_scripts(group: &SourceGroup, needle: &str, Ghost(tree): Ghost<TreeView>) -> (names: Vec<
    String,
>)
    requires
        tree.needle == needle@,
    ensures
        texts(names@) == tree.matching(names_of(group@.scripts)),
{
    let mut names: Vec<String> = Vec::new();
    let ghost all = names_of(group@.scripts);
    let mut i: usize = 0;
    assert(all.take(0) =~= Seq::empty());
    assert(texts(names@) =~= tree.matching(all.take(0))) by {
        reveal(Seq::filter);
    }
    while i < group.scripts.len()
        invariant
            i <= group.scripts.len(),
            all == names_of(group@.scripts),
            all.len() == group.scripts@.len(),
            tree.needle == needle@,
            texts(names@) == tree.matching(all.take(i as int)),
        decreases group.scripts.len() - i,
    {
        let ghost before = names@;
        let name = &group.scripts[i].name;
        proof {
            assert(all[i as int] == name@);
            assert(all.take(i + 1) =~= all.take(i as int).push(name@));
            lemma_matching_push(tree, all.take(i as int), name@);
        }
        if is_shown(name.as_str(), needle) {
            names.push(name.clone());
            assert(texts(names@) =~= texts(before).push(name@));
        }
        i += 1;
    }
    assert(all.take(i as int) =~= all);
    names
}

/// The commands that a filter lets through.
fn matching_commands(commands: &Vec<String>, needle: &str, Ghost(tree): Ghost<TreeView>) -> (names:
    Vec<String>)
    requires
        tree.needle == needle@,
    ensures
        texts(names@) == tree.matching(texts(commands@)),
{
    let mut names: Vec<String> = Vec::new();
    let ghost all = texts(commands@);
    let mut i: usize = 0;
    assert(all.take(0) =~= Seq::empty());
    assert(texts(names@) =~= tree.matching(all.take(0))) by {
        reveal(Seq::filter);
    }
    while i < commands.len()
        invariant
            i <= commands.len(),
            all == texts(commands@),
            all.len() == commands@.len(),
            tree.needle == needle@,
            texts(names@) == tree.matching(all.take(i as int)),
        decreases commands.len() - i,
    {
        let ghost before = names@;
        let name = &commands[i];
        proof {
            assert(all[i as int] == name@);
            assert(all.take(i + 1) =~= all.take(i as int).push(name@));
            lemma_matching_push(tree, all.take(i as int), name@);
        }
        if is_shown(name.as_str(), needle) {
            names.push(name.clone());
            assert(texts(names@) =~= texts(before).push(name@));
        }
        i += 1;
    }
    assert(all.take(i as int) =~= all);
    names
}

/// The rows of a directory's sources.
fn child_rows(
    dir_index: usize,
    groups: &Vec<SourceGroup>,
    collapsed: &Collapsed,
    needle: &str,
    Ghost(tree): Ghost<TreeView>,
) -> (rows: Vec<Row>)
    requires
        tree.needle == needle@,
        tree.collapsed == collapsed@,
    ensures
        row_views(rows@) == tree.children(dir_index as int, group_views(groups@)),
{
    let filtered = needle.unicode_len() > 0;
    let mut rows: Vec<Row> = Vec::new();
    let ghost all = group_views(groups@);
    let mut i: usize = 0;
    assert(all.take(0) =~= Seq::empty());
    assert(row_views(rows@) =~= Seq::empty());
    while i < groups.len()
        invariant
            i <= groups.len(),
            all == group_views(groups@),
            all.len() == groups@.len(),
            filtered == tree.filtered(),
            tree.needle == needle@,
            tree.collapsed == collapsed@,
            row_views(rows@) == tree.children(dir_index as int, all.take(i as int)),
        decreases groups.len() - i,
    {
        let group = &groups[i];
        let ghost before = row_views(rows@);
        proof {
            assert(all[i as int] == group@);
            assert(all.take(i + 1).drop_last() =~= all.take(i as int));
            assert(all.take(i + 1).last() == group@);
        }
        let names = matching_scripts(group, needle, Ghost(tree));
        assert(texts(names@).len() == names@.len());
        if !(filtered && names.len() == 0) {
            let folded = !filtered && collapsed.contains(CollapseKey::Source(dir_index, group.id));
            push_headed(&mut rows, dir_index, group.id, group.label.as_str(), &names, folded);
        } else {
            assert(before + Seq::<RowView>::empty() =~= before);
        }
        i += 1;
    }
    assert(all.take(i as int) =~= all);
    rows
}

/// The rows of the list.
pub fn build_rows(
    directories: &Vec<DirGroup>,
    collapsed: &Collapsed,
    needle: &str,
    ad_hoc: &Vec<String>,
) -> (rows: Vec<Row>)
    ensures
        row_views(rows@) == (TreeView {
            directories: dir_views(directories@),
            collapsed: collapsed@,
            needle: needle@,
            ad_hoc: texts(ad_hoc@),
        }).rows(),
{
    let ghost tree = TreeView {
        directories: dir_views(directories@),
        collapsed: collapsed@,
        needle: needle@,
        ad_hoc: texts(ad_hoc@),
    };
    let multi = directories.len() > 1;
    let filtered = needle.unicode_len() > 0;
    let mut rows: Vec<Row> = Vec::new();
    let mut i: usize = 0;
    assert(row_views(rows@) =~= Seq::empty());
    while i < directories.len()
        invariant
            i <= directories.len(),
            tree.directories == dir_views(directories@),
            tree.collapsed == collapsed@,
            tree.needle == needle@,
            multi == tree.multi(),
            filtered == tree.filtered(),
            row_views(rows@) == tree.dirs_rows(i as int),
        decreases directories.len() - i,
    {
        let dir = &directories[i];
        assert(tree.directories[i as int] == dir@);
        let folded = !filtered && multi && collapsed.contains(CollapseKey::Dir(i));
        let ghost before = row_views(rows@);
        let mut children = child_rows(i, &dir.source_groups, collapsed, needle, Ghost(tree));
        let ghost below = row_views(children@);
        if !(filtered && children.len() == 0) {
            let ghost mut head = Seq::<RowView>::empty();
            if multi {
                let header = Row::DirHeader {
                    dir_index: i,
                    label: dir.label.clone(),
                    collapsed: folded,
                };
                proof {
                    head = seq![header@];
                }
                rows.push(header);
            }
            assert(row_views(rows@) =~= before + head);
            let ghost opened = rows@;
            let ghost inner = children@;
            if !folded {
                rows.append(&mut children);
                assert(rows@ == opened + inner);
                assert(row_views(rows@) =~= row_views(opened) + row_views(inner));
            }
            assert(row_views(rows@) =~= before + tree.dir_rows(i as int, dir@));
        } else {
            assert(tree.dir_rows(i as int, dir@) =~= Seq::empty());
            assert(row_views(rows@) =~= before + tree.dir_rows(i as int, dir@));
        }
        i += 1;
    }
    let commands = matching_commands(ad_hoc, needle, Ghost(tree));
    let ghost before = row_views(rows@);
    assert(texts(commands@).len() == commands@.len());
    if commands.len() > 0 {
        let folded = !filtered && collapsed.contains(CollapseKey::Source(0, SourceId(AD_HOC)));
        push_headed(&mut rows, 0, SourceId(AD_HOC), "commands", &commands, folded);
    }
    assert(row_views(rows@) =~= before + tree.ad_hoc_rows());
    rows
}

} // verus!
