//! The sources of every directory, and the scripts found in them.

use std::path::PathBuf;

use vstd::prelude::*;

use crate::json::{
    has_key, key_at, lemma_upsert_lookup, lemma_upsert_unique, lookup, nesting_limit, unique_keys,
    upsert, Json, Members,
};
use crate::source::ad_hoc::AdHocSource;
use crate::source::json_store::{law_rename_sets_command, opened, renamed, scripts_in};
use crate::source::package_json::{package_scripts, PackageJsonSource};
use crate::source::scripts_json::{loose_scripts, ScriptsJsonSource};
use crate::source::{
    listed, package_json, script_views, scripts_json, text_view, CommandSpec, CommandView, Script,
    ScriptSource, ScriptView, SourceError, SourceId, Surroundings, AD_HOC,
};
use crate::text::same_text;

verus! {

// --- groups -------------------------------------------------------------------

/// The scripts of one source in one directory, with their heading.
pub struct SourceGroup {
    pub id: SourceId,
    pub label: String,
    pub scripts: Vec<Script>,
}

/// A group by its texts.
#[verifier::ext_equal]
pub ghost struct GroupView {
    pub id: Seq<char>,
    pub label: Seq<char>,
    pub scripts: Seq<ScriptView>,
}

impl View for SourceGroup {
    type V = GroupView;

    open spec fn view(&self) -> GroupView {
        GroupView { id: self.id@, label: self.label@, scripts: script_views(self.scripts@) }
    }
}

/// One directory, with the groups of its sources.
pub struct DirGroup {
    pub label: String,
    pub source_groups: Vec<SourceGroup>,
}

/// A directory by its texts.
#[verifier::ext_equal]
pub ghost struct DirView {
    pub label: Seq<char>,
    pub source_groups: Seq<GroupView>,
}

/// The groups of a list, by their texts.
pub open spec fn group_views(groups: Seq<SourceGroup>) -> Seq<GroupView> {
    groups.map_values(|g: SourceGroup| g@)
}

impl View for DirGroup {
    type V = DirView;

    open spec fn view(&self) -> DirView {
        DirView { label: self.label@, source_groups: group_views(self.source_groups@) }
    }
}

/// The directories of a list, by their texts.
pub open spec fn dir_views(dirs: Seq<DirGroup>) -> Seq<DirView> {
    dirs.map_values(|d: DirGroup| d@)
}

// --- sources of any kind --------------------------------------------------------

/// A source of any kind.
pub enum AnySource {
    Package(PackageJsonSource),
    Scripts(ScriptsJsonSource),
    AdHoc(AdHocSource),
}

impl ScriptSource for AnySource {
    open spec fn kind(&self) -> Seq<char> {
        match self {
            AnySource::Package(s) => s.kind(),
            AnySource::Scripts(s) => s.kind(),
            AnySource::AdHoc(s) => s.kind(),
        }
    }

    open spec fn scripts(&self, text: Option<Seq<char>>) -> Result<Seq<ScriptView>, SourceError> {
        match self {
            AnySource::Package(s) => s.scripts(text),
            AnySource::Scripts(s) => s.scripts(text),
            AnySource::AdHoc(s) => s.scripts(text),
        }
    }

    open spec fn command(&self, script: ScriptView, around: Surroundings) -> CommandView {
        match self {
            AnySource::Package(s) => s.command(script, around),
            AnySource::Scripts(s) => s.command(script, around),
            AnySource::AdHoc(s) => s.command(script, around),
        }
    }

    open spec fn added(
        &self,
        text: Option<Seq<char>>,
        name: Seq<char>,
        command: Seq<char>,
    ) -> Result<Seq<char>, SourceError> {
        match self {
            AnySource::Package(s) => s.added(text, name, command),
            AnySource::Scripts(s) => s.added(text, name, command),
            AnySource::AdHoc(s) => s.added(text, name, command),
        }
    }

    open spec fn edited(
        &self,
        text: Option<Seq<char>>,
        old_name: Seq<char>,
        new_name: Seq<char>,
        command: Seq<char>,
    ) -> Result<Seq<char>, SourceError> {
        match self {
            AnySource::Package(s) => s.edited(text, old_name, new_name, command),
            AnySource::Scripts(s) => s.edited(text, old_name, new_name, command),
            AnySource::AdHoc(s) => s.edited(text, old_name, new_name, command),
        }
    }

    open spec fn lists_added(
        &self,
        text: Option<Seq<char>>,
        name: Seq<char>,
        command: Seq<char>,
        saved: Seq<char>,
    ) -> bool {
        match self {
            AnySource::Package(s) => s.lists_added(text, name, command, saved),
            AnySource::Scripts(s) => s.lists_added(text, name, command, saved),
            AnySource::AdHoc(s) => s.lists_added(text, name, command, saved),
        }
    }

    open spec fn lists_edited(
        &self,
        text: Option<Seq<char>>,
        old_name: Seq<char>,
        new_name: Seq<char>,
        command: Seq<char>,
        saved: Seq<char>,
    ) -> bool {
        match self {
            AnySource::Package(s) => s.lists_edited(text, old_name, new_name, command, saved),
            AnySource::Scripts(s) => s.lists_edited(text, old_name, new_name, command, saved),
            AnySource::AdHoc(s) => s.lists_edited(text, old_name, new_name, command, saved),
        }
    }

    fn id(&self) -> (id: SourceId) {
        match self {
            AnySource::Package(s) => s.id(),
            AnySource::Scripts(s) => s.id(),
            AnySource::AdHoc(s) => s.id(),
        }
    }

    fn label(&self) -> (label: &str) {
        match self {
            AnySource::Package(s) => s.label(),
            AnySource::Scripts(s) => s.label(),
            AnySource::AdHoc(s) => s.label(),
        }
    }

    fn discover(&self, text: Option<&str>) -> (found: Result<Vec<Script>, SourceError>) {
        match self {
            AnySource::Package(s) => s.discover(text),
            AnySource::Scripts(s) => s.discover(text),
            AnySource::AdHoc(s) => s.discover(text),
        }
    }

    fn build_command(&self, script: &Script, around: &Surroundings) -> (spec: CommandSpec) {
        match self {
            AnySource::Package(s) => s.build_command(script, around),
            AnySource::Scripts(s) => s.build_command(script, around),
            AnySource::AdHoc(s) => s.build_command(script, around),
        }
    }

    fn add_script(&self, text: Option<&str>, name: &str, command: &str) -> (saved: Result<
        String,
        SourceError,
    >) {
        match self {
            AnySource::Package(s) => s.add_script(text, name, command),
            AnySource::Scripts(s) => s.add_script(text, name, command),
            AnySource::AdHoc(s) => s.add_script(text, name, command),
        }
    }

    fn edit_script(&self, text: Option<&str>, old_name: &str, new_name: &str, command: &str) -> (saved:
        Result<String, SourceError>) {
        match self {
            AnySource::Package(s) => s.edit_script(text, old_name, new_name, command),
            AnySource::Scripts(s) => s.edit_script(text, old_name, new_name, command),
            AnySource::AdHoc(s) => s.edit_script(text, old_name, new_name, command),
        }
    }
}

// --- directories as they are found ----------------------------------------------

/// What is found in a directory.
pub struct DirScan {
    pub root: PathBuf,
    /// The last part of the canonical path, where there is one and it is text.
    pub canonical_name: Option<String>,
    /// The last part of the path as given, where there is one and it is text.
    pub own_name: Option<String>,
    /// The path as given, for display.
    pub display: String,
    /// Whether there is a package.json.
    pub has_package_json: bool,
    /// The text of package.json, where it can be read.
    pub package_json: Option<String>,
    /// The text of scripts.json, where it can be read.
    pub scripts_json: Option<String>,
}

/// The text of a file, where it can be read.
pub open spec fn file_text(text: Option<String>) -> Option<Seq<char>> {
    match text {
        Some(t) => Some(t@),
        None => None,
    }
}

impl DirScan {
    /// What the directory is called: the last part of its canonical path, else
    /// the last part of its path as given, else that path.
    pub open spec fn label(self) -> Seq<char> {
        match self.canonical_name {
            Some(name) => name@,
            None => match self.own_name {
                Some(name) => name@,
                None => self.display@,
            },
        }
    }

    /// The group of package.json.
    pub open spec fn package_group(self) -> GroupView {
        GroupView {
            id: package_json::ID@,
            label: package_json::ID@,
            scripts: match self.package_json {
                Some(text) => package_scripts(text@),
                None => Seq::empty(),
            },
        }
    }

    /// The group of scripts.json.
    pub open spec fn scripts_group(self) -> GroupView {
        GroupView {
            id: scripts_json::ID@,
            label: scripts_json::ID@,
            scripts: match self.scripts_json {
                Some(text) => loose_scripts(text@),
                None => Seq::empty(),
            },
        }
    }

    /// The groups of the directory. That of scripts.json is always there, also
    /// where there is no such file yet.
    pub open spec fn groups(self) -> Seq<GroupView> {
        if self.has_package_json {
            seq![self.package_group(), self.scripts_group()]
        } else {
            seq![self.scripts_group()]
        }
    }

    /// The sources of the directory.
    pub open spec fn sources(self, i: usize) -> Seq<(usize, AnySource)> {
        let rest = seq![
            (i, AnySource::Scripts(ScriptsJsonSource { root: self.root })),
            (i, AnySource::AdHoc(AdHocSource { root: self.root })),
        ];
        if self.has_package_json {
            seq![(i, AnySource::Package(PackageJsonSource { root: self.root }))] + rest
        } else {
            rest
        }
    }
}

/// The directories as they are listed.
pub open spec fn found_dirs(scans: Seq<DirScan>) -> Seq<DirView> {
    scans.map_values(|s: DirScan| DirView { label: s.label(), source_groups: s.groups() })
}

/// The sources of all directories, one directory after the other.
pub open spec fn found_sources(scans: Seq<DirScan>) -> Seq<(usize, AnySource)>
    decreases scans.len(),
{
    if scans.len() == 0 {
        Seq::empty()
    } else {
        found_sources(scans.drop_last()) + scans.last().sources((scans.len() - 1) as usize)
    }
}

/// What a directory is called.
pub fn dir_label(scan: &DirScan) -> (label: String)
    ensures
        label@ == scan.label(),
{
    if let Some(name) = &scan.canonical_name {
        return name.clone();
    }
    if let Some(name) = &scan.own_name {
        return name.clone();
    }
    scan.display.clone()
}

// --- the registry ---------------------------------------------------------------

/// The sources of every directory, and the scripts found in them.
pub struct Registry {
    /// The sources, each with the index of its directory.
    pub sources: Vec<(usize, AnySource)>,
    pub directories: Vec<DirGroup>,
}

/// A registry by its texts.
#[verifier::ext_equal]
pub ghost struct RegistryView {
    pub sources: Seq<(usize, AnySource)>,
    pub directories: Seq<DirView>,
}

impl View for Registry {
    type V = RegistryView;

    open spec fn view(&self) -> RegistryView {
        RegistryView { sources: self.sources@, directories: dir_views(self.directories@) }
    }
}

/// The source of a kind in a directory, looked for from position `k` on.
pub open spec fn source_from(
    sources: Seq<(usize, AnySource)>,
    dir_index: usize,
    id: Seq<char>,
    k: int,
) -> Option<AnySource>
    decreases sources.len() - k,
{
    if k < 0 || k >= sources.len() {
        None
    } else if sources[k].0 == dir_index && sources[k].1.kind() == id {
        Some(sources[k].1)
    } else {
        source_from(sources, dir_index, id, k + 1)
    }
}

/// The first group of a kind, looked for from position `k` on.
pub open spec fn group_from(groups: Seq<GroupView>, id: Seq<char>, k: int) -> Option<GroupView>
    decreases groups.len() - k,
{
    if k < 0 || k >= groups.len() {
        None
    } else if groups[k].id == id {
        Some(groups[k])
    } else {
        group_from(groups, id, k + 1)
    }
}

/// The first script of a name, looked for from position `k` on.
pub open spec fn script_from(scripts: Seq<ScriptView>, name: Seq<char>, k: int) -> Option<ScriptView>
    decreases scripts.len() - k,
{
    if k < 0 || k >= scripts.len() {
        None
    } else if scripts[k].name == name {
        Some(scripts[k])
    } else {
        script_from(scripts, name, k + 1)
    }
}

impl RegistryView {
    /// What is made of the directories as they are found.
    pub open spec fn discovered(scans: Seq<DirScan>) -> RegistryView {
        RegistryView { sources: found_sources(scans), directories: found_dirs(scans) }
    }

    /// No directory has a group.
    pub open spec fn is_empty(self) -> bool {
        forall|i: int|
            0 <= i < self.directories.len() ==> (
            #[trigger] self.directories[i]).source_groups.len() == 0
    }

    /// There are several directories.
    pub open spec fn is_multi(self) -> bool {
        self.directories.len() > 1
    }

    /// The script of a name, in a source of a directory.
    pub open spec fn script(self, dir_index: int, source: Seq<char>, name: Seq<char>) -> Option<
        ScriptView,
    > {
        if 0 <= dir_index < self.directories.len() {
            match group_from(self.directories[dir_index].source_groups, source, 0) {
                Some(group) => script_from(group.scripts, name, 0),
                None => None,
            }
        } else {
            None
        }
    }

    /// The source of a kind in a directory.
    pub open spec fn source(self, dir_index: usize, id: Seq<char>) -> Option<AnySource> {
        source_from(self.sources, dir_index, id, 0)
    }

    /// What a file is to hold once a script was added.
    pub open spec fn added(
        self,
        dir_index: usize,
        source: SourceId,
        text: Option<Seq<char>>,
        name: Seq<char>,
        command: Seq<char>,
    ) -> Result<Seq<char>, SourceError> {
        if source@ == AD_HOC@ {
            Err(SourceError::NotSaved)
        } else {
            match self.source(dir_index, source@) {
                Some(found) => found.added(text, name, command),
                None => Err(SourceError::Unknown { source, dir_index }),
            }
        }
    }

    /// What a file is to hold once a script was changed.
    pub open spec fn edited(
        self,
        dir_index: usize,
        source: SourceId,
        text: Option<Seq<char>>,
        old_name: Seq<char>,
        new_name: Seq<char>,
        command: Seq<char>,
    ) -> Result<Seq<char>, SourceError> {
        if source@ == AD_HOC@ {
            Err(SourceError::NotEditable)
        } else {
            match self.source(dir_index, source@) {
                Some(found) => found.edited(text, old_name, new_name, command),
                None => Err(SourceError::Unknown { source, dir_index }),
            }
        }
    }
}

/// The group of a source, with the scripts of its file, or none where the file
/// cannot be read.
fn group_of(source: &AnySource, text: &Option<String>) -> (group: SourceGroup)
    ensures
        group@.id == source.kind(),
        group@.label == source.kind(),
        group@.scripts == match source.scripts(file_text(*text)) {
            Ok(scripts) => scripts,
            Err(_) => Seq::empty(),
        },
{
    let found = match text {
        Some(t) => source.discover(Some(t.as_str())),
        None => source.discover(None),
    };
    let scripts = match found {
        Ok(scripts) => scripts,
        Err(_) => Vec::new(),
    };
    let group = SourceGroup { id: source.id(), label: source.label().to_string(), scripts };
    assert(group@.scripts =~= match source.scripts(file_text(*text)) {
        Ok(scripts) => scripts,
        Err(_) => Seq::empty(),
    });
    group
}

impl Registry {
    /// Lists the scripts of every directory, package.json before scripts.json.
    /// The commands of a directory have a source, but no group: the application
    /// keeps their list.
    pub fn discover(scans: &Vec<DirScan>) -> (registry: Registry)
        ensures
            registry@ == RegistryView::discovered(scans@),
    {
        let mut sources: Vec<(usize, AnySource)> = Vec::new();
        let mut directories: Vec<DirGroup> = Vec::new();
        let mut i: usize = 0;
        assert(scans@.take(0) =~= Seq::empty());
        assert(dir_views(directories@) =~= found_dirs(scans@.take(0)));
        while i < scans.len()
            invariant
                i <= scans.len(),
                sources@ == found_sources(scans@.take(i as int)),
                directories@.len() == i,
                dir_views(directories@) == found_dirs(scans@.take(i as int)),
            decreases scans.len() - i,
        {
            let scan = &scans[i];
            let ghost before = sources@;
            let ghost dirs = directories@;
            let mut source_groups: Vec<SourceGroup> = Vec::new();
            if scan.has_package_json {
                let source = AnySource::Package(PackageJsonSource::new(scan.root.clone()));
                source_groups.push(group_of(&source, &scan.package_json));
                sources.push((i, source));
            }
            let source = AnySource::Scripts(ScriptsJsonSource::new(scan.root.clone()));
            source_groups.push(group_of(&source, &scan.scripts_json));
            sources.push((i, source));
            sources.push((i, AnySource::AdHoc(AdHocSource::new(scan.root.clone()))));
            directories.push(DirGroup { label: dir_label(scan), source_groups });
            proof {
                let longer = scans@.take(i + 1);
                assert(longer.drop_last() =~= scans@.take(i as int));
                assert(longer.last() == *scan);
                assert(sources@ =~= before + scan.sources(i));
                assert(group_views(source_groups@) =~= scan.groups());
                let dir = directories@.last()@;
                assert(dir == (DirView { label: scan.label(), source_groups: scan.groups() }));
                assert(dir_views(directories@) =~= dir_views(dirs).push(dir));
                assert(found_dirs(longer) =~= found_dirs(scans@.take(i as int)).push(dir));
            }
            i += 1;
        }
        assert(scans@.take(i as int) =~= scans@);
        Registry { sources, directories }
    }

    /// Whether no directory has a source.
    pub fn is_empty(&self) -> (r: bool)
        ensures
            r == self@.is_empty(),
    {
        let mut i: usize = 0;
        while i < self.directories.len()
            invariant
                i <= self.directories.len(),
                forall|k: int|
                    0 <= k < i ==> (#[trigger] self@.directories[k]).source_groups.len() == 0,
            decreases self.directories.len() - i,
        {
            assert(self@.directories[i as int] == self.directories@[i as int]@);
            if self.directories[i].source_groups.len() > 0 {
                return false;
            }
            i += 1;
        }
        true
    }

    /// Whether several directories are shown.
    pub fn is_multi(&self) -> (r: bool)
        ensures
            r == self@.is_multi(),
    {
        self.directories.len() > 1
    }

    /// The script of a name, in a source of a directory.
    pub fn script(&self, dir_index: usize, source: SourceId, name: &str) -> (found: Option<&Script>)
        ensures
            found is Some <==> self@.script(dir_index as int, source@, name@) is Some,
            found matches Some(s) ==> self@.script(dir_index as int, source@, name@) == Some(s@),
    {
        if dir_index >= self.directories.len() {
            return None;
        }
        let dir = &self.directories[dir_index];
        assert(self@.directories[dir_index as int] == dir@);
        let mut i: usize = 0;
        while i < dir.source_groups.len()
            invariant
                i <= dir.source_groups.len(),
                group_from(dir@.source_groups, source@, 0) == group_from(
                    dir@.source_groups,
                    source@,
                    i as int,
                ),
                dir_index < self@.directories.len(),
                self@.directories[dir_index as int] == dir@,
            decreases dir.source_groups.len() - i,
        {
            let group = &dir.source_groups[i];
            assert(dir@.source_groups[i as int] == group@);
            if group.id.same(source) {
                let mut k: usize = 0;
                while k < group.scripts.len()
                    invariant
                        k <= group.scripts.len(),
                        script_from(group@.scripts, name@, 0) == script_from(
                            group@.scripts,
                            name@,
                            k as int,
                        ),
                        self@.script(dir_index as int, source@, name@) == script_from(
                            group@.scripts,
                            name@,
                            0,
                        ),
                    decreases group.scripts.len() - k,
                {
                    let script = &group.scripts[k];
                    assert(group@.scripts[k as int] == script@);
                    if same_text(script.name.as_str(), name) {
                        return Some(script);
                    }
                    k += 1;
                }
                return None;
            }
            i += 1;
        }
        None
    }

    /// The source of a kind in a directory.
    fn source(&self, dir_index: usize, id: SourceId) -> (found: Option<&AnySource>)
        ensures
            found is Some <==> self@.source(dir_index, id@) is Some,
            found matches Some(s) ==> self@.source(dir_index, id@) == Some(*s),
    {
        let mut i: usize = 0;
        while i < self.sources.len()
            invariant
                i <= self.sources.len(),
                self@.source(dir_index, id@) == source_from(
                    self.sources@,
                    dir_index,
                    id@,
                    i as int,
                ),
            decreases self.sources.len() - i,
        {
            let entry = &self.sources[i];
            if entry.0 == dir_index && entry.1.id().same(id) {
                return Some(&entry.1);
            }
            i += 1;
        }
        None
    }

    /// How a script of a directory is run; nothing where the directory has no
    /// source of the script's kind.
    pub fn build_command(&self, dir_index: usize, script: &Script, around: &Surroundings) -> (spec:
        Option<CommandSpec>)
        ensures
            spec is Some <==> self@.source(dir_index, script.source@) is Some,
            spec matches Some(s) ==> s@ == self@.source(dir_index, script.source@)->0.command(
                script@,
                *around,
            ),
    {
        match self.source(dir_index, script.source) {
            Some(source) => Some(source.build_command(script, around)),
            None => None,
        }
    }

    /// The text to write to a source's file so that a script is added, from the
    /// text that the file has.
    pub fn add_script(
        &self,
        dir_index: usize,
        source: SourceId,
        text: Option<&str>,
        name: &str,
        command: &str,
    ) -> (saved: Result<String, SourceError>)
        ensures
            saved matches Ok(s) ==> self@.added(dir_index, source, text_view(text), name@, command@)
                == Ok::<Seq<char>, SourceError>(s@) && self@.source(
                dir_index,
                source@,
            )->0.lists_added(text_view(text), name@, command@, s@),
            saved matches Err(e) ==> self@.added(
                dir_index,
                source,
                text_view(text),
                name@,
                command@,
            ) == Err::<Seq<char>, SourceError>(e),
    {
        if source.same(SourceId(AD_HOC)) {
            return Err(SourceError::NotSaved);
        }
        match self.source(dir_index, source) {
            Some(found) => found.add_script(text, name, command),
            None => Err(SourceError::Unknown { source, dir_index }),
        }
    }

    /// The text to write to a source's file so that a script has another name
    /// and another command, from the text that the file has.
    pub fn edit_script(
        &self,
        dir_index: usize,
        source: SourceId,
        text: Option<&str>,
        old_name: &str,
        new_name: &str,
        command: &str,
    ) -> (saved: Result<String, SourceError>)
        ensures
            saved matches Ok(s) ==> self@.edited(
                dir_index,
                source,
                text_view(text),
                old_name@,
                new_name@,
                command@,
            ) == Ok::<Seq<char>, SourceError>(s@) && self@.source(
                dir_index,
                source@,
            )->0.lists_edited(text_view(text), old_name@, new_name@, command@, s@),
            saved matches Err(e) ==> self@.edited(
                dir_index,
                source,
                text_view(text),
                old_name@,
                new_name@,
                command@,
            ) == Err::<Seq<char>, SourceError>(e),
    {
        if source.same(SourceId(AD_HOC)) {
            return Err(SourceError::NotEditable);
        }
        match self.source(dir_index, source) {
            Some(found) => found.edit_script(text, old_name, new_name, command),
            None => Err(SourceError::Unknown { source, dir_index }),
        }
    }

    /// A registry that lists given directories and has no sources.
    pub fn from_directories(directories: Vec<DirGroup>) -> (registry: Registry)
        ensures
            registry@ == (RegistryView {
                sources: Seq::empty(),
                directories: dir_views(directories@),
            }),
    {
        Registry { sources: Vec::new(), directories }
    }
}

// --- laws -----------------------------------------------------------------------

/// Every directory has a source for its scripts.json and for its commands, and
/// one for its package.json where there is one; each works in the directory that
/// it was found in. No other source is found.
pub proof fn law_discovered_sources(scans: Seq<DirScan>, dir_index: usize, id: Seq<char>)
    requires
        scans.len() <= usize::MAX,
    ensures
        RegistryView::discovered(scans).source(dir_index, id) == if dir_index >= scans.len() {
            None
        } else if id == package_json::ID@ && scans[dir_index as int].has_package_json {
            Some(AnySource::Package(PackageJsonSource { root: scans[dir_index as int].root }))
        } else if id == scripts_json::ID@ {
            Some(AnySource::Scripts(ScriptsJsonSource { root: scans[dir_index as int].root }))
        } else if id == AD_HOC@ {
            Some(AnySource::AdHoc(AdHocSource { root: scans[dir_index as int].root }))
        } else {
            None
        },
    decreases scans.len(),
{
    reveal_strlit("package.json");
    reveal_strlit("scripts.json");
    reveal_strlit("commands");
    assert(package_json::ID@[0] == 'p');
    assert(scripts_json::ID@[0] == 's');
    assert(AD_HOC@[0] == 'c');
    if scans.len() > 0 {
        let shorter = scans.drop_last();
        let scan = scans.last();
        let i = (scans.len() - 1) as usize;
        let front = found_sources(shorter);
        let back = scan.sources(i);
        law_discovered_sources(shorter, dir_index, id);
        lemma_source_split(front, back, dir_index, id, 0);
        reveal_with_fuel(source_from, 4);
        assert(front + back == found_sources(scans));
        if dir_index < i {
            assert(shorter[dir_index as int] == scans[dir_index as int]);
        }
    }
}

/// A source is looked for in the front of a list first.
proof fn lemma_source_split(
    front: Seq<(usize, AnySource)>,
    back: Seq<(usize, AnySource)>,
    dir_index: usize,
    id: Seq<char>,
    k: int,
)
    requires
        0 <= k <= front.len(),
    ensures
        source_from(front + back, dir_index, id, k) == match source_from(front, dir_index, id, k) {
            Some(found) => Some(found),
            None => source_from(back, dir_index, id, 0),
        },
    decreases front.len() - k,
{
    if k < front.len() {
        assert((front + back)[k] == front[k]);
        lemma_source_split(front, back, dir_index, id, k + 1);
    } else {
        lemma_source_shift(front, back, dir_index, id, 0);
    }
}

/// A source is found in the back of a list as in the back alone.
proof fn lemma_source_shift(
    front: Seq<(usize, AnySource)>,
    back: Seq<(usize, AnySource)>,
    dir_index: usize,
    id: Seq<char>,
    k: int,
)
    requires
        0 <= k <= back.len(),
    ensures
        source_from(front + back, dir_index, id, front.len() + k) == source_from(
            back,
            dir_index,
            id,
            k,
        ),
    decreases back.len() - k,
{
    if k < back.len() {
        assert((front + back)[front.len() + k] == back[k]);
        lemma_source_shift(front, back, dir_index, id, k + 1);
    }
}

/// A script that a package.json holds is found, with its command.
pub proof fn law_package_script_is_found(
    scans: Seq<DirScan>,
    d: int,
    ms: Members,
    name: Seq<char>,
    command: Seq<char>,
)
    requires
        0 <= d < scans.len(),
        scans[d].has_package_json,
        scans[d].package_group().scripts == listed(ms, package_json::ID@),
        unique_keys(ms),
        lookup(ms, name) == Some(Json::Str(command)),
    ensures
        RegistryView::discovered(scans).script(d, package_json::ID@, name) == Some(
            ScriptView { name, source: package_json::ID@, command },
        ),
{
    lemma_package_group(scans, d);
    lemma_listed_is_found(ms, package_json::ID@, name, command, 0);
}

/// A script that a scripts.json holds is found, with its command.
pub proof fn law_loose_script_is_found(
    scans: Seq<DirScan>,
    d: int,
    ms: Members,
    name: Seq<char>,
    command: Seq<char>,
)
    requires
        0 <= d < scans.len(),
        scans[d].scripts_group().scripts == listed(ms, scripts_json::ID@),
        unique_keys(ms),
        lookup(ms, name) == Some(Json::Str(command)),
    ensures
        RegistryView::discovered(scans).script(d, scripts_json::ID@, name) == Some(
            ScriptView { name, source: scripts_json::ID@, command },
        ),
{
    lemma_scripts_group(scans, d);
    lemma_listed_is_found(ms, scripts_json::ID@, name, command, 0);
}

/// The group of a directory's package.json is found.
proof fn lemma_package_group(scans: Seq<DirScan>, d: int)
    requires
        0 <= d < scans.len(),
        scans[d].has_package_json,
    ensures
        group_from(
            RegistryView::discovered(scans).directories[d].source_groups,
            package_json::ID@,
            0,
        ) == Some(scans[d].package_group()),
{
    let groups = scans[d].groups();
    assert(RegistryView::discovered(scans).directories[d].source_groups == groups);
    assert(groups[0] == scans[d].package_group());
}

/// The group of a directory's scripts.json is found.
proof fn lemma_scripts_group(scans: Seq<DirScan>, d: int)
    requires
        0 <= d < scans.len(),
    ensures
        group_from(
            RegistryView::discovered(scans).directories[d].source_groups,
            scripts_json::ID@,
            0,
        ) == Some(scans[d].scripts_group()),
{
    reveal_strlit("package.json");
    reveal_strlit("scripts.json");
    let groups = scans[d].groups();
    assert(RegistryView::discovered(scans).directories[d].source_groups == groups);
    assert(package_json::ID@[0] == 'p');
    assert(scripts_json::ID@[0] == 's');
    reveal_with_fuel(group_from, 3);
    assert(groups.last() == scans[d].scripts_group());
}

/// The text that a directory's file of a kind holds, where it can be read.
pub open spec fn held_text(scan: DirScan, source: AnySource) -> Option<Seq<char>> {
    match source {
        AnySource::Package(_) => if scan.has_package_json {
            file_text(scan.package_json)
        } else {
            None
        },
        AnySource::Scripts(_) => file_text(scan.scripts_json),
        AnySource::AdHoc(_) => None,
    }
}

/// The members under which a source keeps its scripts.
pub open spec fn kept_scripts(source: AnySource, text: Option<Seq<char>>) -> Members {
    match source {
        AnySource::Package(_) => scripts_in(opened(text), Some(package_json::KEY@)),
        _ => scripts_in(opened(text), scripts_json::read_key(opened(text))),
    }
}

/// A script that was added is found with its command once its file was written
/// and the directories were read anew; every other script is found as before. Left
/// out are files that may not read back: nested too deep, or with a number whose
/// exponent is above ninety-nine.
pub proof fn law_added_script_is_found(
    scans: Seq<DirScan>,
    d: int,
    source: AnySource,
    text: Option<Seq<char>>,
    name: Seq<char>,
    command: Seq<char>,
    saved: Seq<char>,
)
    requires
        0 <= d < scans.len(),
        opened(text).plain(nesting_limit()),
        source.lists_added(text, name, command, saved),
        held_text(scans[d], source) == Some(saved),
    ensures
        RegistryView::discovered(scans).script(d, source.kind(), name) == Some(
            ScriptView { name, source: source.kind(), command },
        ),
        forall|other: Seq<char>|
            other != name && (lookup(kept_scripts(source, text), other) matches Some(value) && value
                is Str) ==> #[trigger] RegistryView::discovered(scans).script(
                d,
                source.kind(),
                other,
            ) == Some(
                ScriptView {
                    name: other,
                    source: source.kind(),
                    command: lookup(kept_scripts(source, text), other)->0->Str_0,
                },
            ),
{
    let before = kept_scripts(source, text);
    let ms = upsert(before, name, Json::Str(command));
    lemma_upsert_unique(before, name, Json::Str(command));
    lemma_upsert_lookup(before, name, Json::Str(command));
    lemma_held_is_found(scans, d, source, ms, name, command);
    assert forall|other: Seq<char>|
        other != name && (lookup(before, other) matches Some(value) && value is Str) implies
        #[trigger] RegistryView::discovered(scans).script(d, source.kind(), other) == Some(
        ScriptView {
            name: other,
            source: source.kind(),
            command: lookup(before, other)->0->Str_0,
        },
    ) by {
        assert(lookup(ms, other) == lookup(before, other));
        lemma_held_is_found(scans, d, source, ms, other, lookup(before, other)->0->Str_0);
    }
}

/// A script that was changed is found under its new name and with its new command
/// once its file was written and the directories were read anew, and no longer
/// under its old name; every other script is found as before. Left out are files
/// that may not read back.
pub proof fn law_edited_script_is_found(
    scans: Seq<DirScan>,
    d: int,
    source: AnySource,
    text: Option<Seq<char>>,
    old_name: Seq<char>,
    new_name: Seq<char>,
    command: Seq<char>,
    saved: Seq<char>,
)
    requires
        0 <= d < scans.len(),
        opened(text).plain(nesting_limit()),
        source.lists_edited(text, old_name, new_name, command, saved),
        held_text(scans[d], source) == Some(saved),
    ensures
        RegistryView::discovered(scans).script(d, source.kind(), new_name) == Some(
            ScriptView { name: new_name, source: source.kind(), command },
        ),
        old_name != new_name ==> RegistryView::discovered(scans).script(
            d,
            source.kind(),
            old_name,
        ) is None,
        forall|other: Seq<char>|
            other != old_name && other != new_name && (lookup(
                kept_scripts(source, text),
                other,
            ) matches Some(value) && value is Str) ==> #[trigger] RegistryView::discovered(
                scans,
            ).script(d, source.kind(), other) == Some(
                ScriptView {
                    name: other,
                    source: source.kind(),
                    command: lookup(kept_scripts(source, text), other)->0->Str_0,
                },
            ),
{
    let before = kept_scripts(source, text);
    let ms = renamed(before, old_name, new_name, command);
    law_rename_sets_command(before, old_name, new_name, command);
    lemma_held_is_found(scans, d, source, ms, new_name, command);
    if old_name != new_name {
        lemma_held_group(scans, d, source, ms);
        lemma_unlisted_is_missing(ms, source.kind(), old_name, 0);
    }
    assert forall|other: Seq<char>|
        other != old_name && other != new_name && (lookup(before, other) matches Some(value)
            && value is Str) implies #[trigger] RegistryView::discovered(scans).script(
        d,
        source.kind(),
        other,
    ) == Some(
        ScriptView {
            name: other,
            source: source.kind(),
            command: lookup(before, other)->0->Str_0,
        },
    ) by {
        assert(lookup(ms, other) == lookup(before, other));
        lemma_held_is_found(scans, d, source, ms, other, lookup(before, other)->0->Str_0);
    }
}

/// The group of a directory's file is found, with what the file holds.
proof fn lemma_held_group(scans: Seq<DirScan>, d: int, source: AnySource, ms: Members)
    requires
        0 <= d < scans.len(),
        held_text(scans[d], source) is Some,
        source is Package ==> package_scripts(held_text(scans[d], source)->0) == listed(
            ms,
            package_json::ID@,
        ),
        source is Scripts ==> loose_scripts(held_text(scans[d], source)->0) == listed(
            ms,
            scripts_json::ID@,
        ),
    ensures
        group_from(
            RegistryView::discovered(scans).directories[d].source_groups,
            source.kind(),
            0,
        ) matches Some(group) && group.scripts == listed(ms, source.kind()),
        RegistryView::discovered(scans).directories.len() == scans.len(),
{
    match source {
        AnySource::Package(_) => lemma_package_group(scans, d),
        AnySource::Scripts(_) => lemma_scripts_group(scans, d),
        AnySource::AdHoc(_) => {},
    }
}

/// A script that a directory's file holds is found.
proof fn lemma_held_is_found(
    scans: Seq<DirScan>,
    d: int,
    source: AnySource,
    ms: Members,
    name: Seq<char>,
    command: Seq<char>,
)
    requires
        0 <= d < scans.len(),
        held_text(scans[d], source) is Some,
        source is Package ==> package_scripts(held_text(scans[d], source)->0) == listed(
            ms,
            package_json::ID@,
        ),
        source is Scripts ==> loose_scripts(held_text(scans[d], source)->0) == listed(
            ms,
            scripts_json::ID@,
        ),
        unique_keys(ms),
        lookup(ms, name) == Some(Json::Str(command)),
    ensures
        RegistryView::discovered(scans).script(d, source.kind(), name) == Some(
            ScriptView { name, source: source.kind(), command },
        ),
{
    lemma_held_group(scans, d, source, ms);
    lemma_listed_is_found(ms, source.kind(), name, command, 0);
}

/// A name that no member has is not found among the scripts.
proof fn lemma_unlisted_is_missing(ms: Members, source: Seq<char>, name: Seq<char>, k: int)
    requires
        !has_key(ms, name),
        0 <= k <= ms.len(),
    ensures
        script_from(listed(ms, source), name, k) is None,
    decreases ms.len() - k,
{
    if k < ms.len() {
        assert(ms[k].0 != name);
        assert(listed(ms, source)[k].name == ms[k].0);
        lemma_unlisted_is_missing(ms, source, name, k + 1);
    }
}

/// The script of a member is found among those that its object lists.
proof fn lemma_listed_is_found(
    ms: Members,
    source: Seq<char>,
    name: Seq<char>,
    command: Seq<char>,
    k: int,
)
    requires
        unique_keys(ms),
        lookup(ms, name) == Some(Json::Str(command)),
        0 <= k <= key_at(ms, name),
    ensures
        script_from(listed(ms, source), name, k) == Some(ScriptView { name, source, command }),
    decreases ms.len() - k,
{
    let at = key_at(ms, name);
    assert(ms[at].0 == name);
    assert(listed(ms, source)[k].name == ms[k].0);
    if k < at {
        assert(ms[k].0 != ms[at].0);
        lemma_listed_is_found(ms, source, name, command, k + 1);
    }
}

/// Every directory is listed, in order, and has a group for its scripts.json:
/// only a registry of no directories is empty.
pub proof fn law_discovered_directories(scans: Seq<DirScan>)
    ensures
        RegistryView::discovered(scans).directories.len() == scans.len(),
        RegistryView::discovered(scans).is_empty() <==> scans.len() == 0,
        forall|i: int|
            0 <= i < scans.len() ==> (#[trigger] RegistryView::discovered(
                scans,
            ).directories[i]).source_groups.last() == scans[i].scripts_group(),
{
    let found = RegistryView::discovered(scans);
    if scans.len() > 0 {
        assert(found.directories[0].source_groups == scans[0].groups());
        assert(found.directories[0].source_groups.len() > 0);
    }
}

} // verus!
