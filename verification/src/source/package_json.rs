//! The scripts of a package.json, in the order of the file. They are run by npm,
//! pnpm or yarn, as the packageManager field or a lock file says.

use std::path::PathBuf;

use serde_json::Value;
use vstd::prelude::*;

use crate::json::{
    json_parsed, json_tree, lemma_upsert_unique, member, nesting_limit, parse, reads_back,
    unique_keys, upsert, Json, Members,
};
use crate::source::json_store::{
    law_other_members_stay, lemma_alike_lists, lemma_proper_scripts, lemma_rename_plain, lemma_set_plain, opened, read,
    rename_script, renamed, script_renamed, script_set, scripts_in, set_script, stored,
    with_scripts,
};
use crate::source::{
    join_path, list_members, listed, path_joined, script_views, text_view, CommandSpec,
    CommandView, Script, ScriptSource, ScriptView, SourceError, SourceId, Surroundings,
};
use crate::text::{has_start, starts_with};

verus! {

/// The kind of this source, which is also the name of its file.
pub const ID: &'static str = "package.json";

/// Where the scripts stand in the file.
pub const KEY: &'static str = "scripts";

/// The program that runs a package's scripts.
#[derive(Clone, Copy, PartialEq, Eq, Debug)]
pub enum PackageManager {
    Npm,
    Pnpm,
    Yarn,
}

/// The package.json of a directory.
pub struct PackageJsonSource {
    pub root: PathBuf,
}

// --- what a package.json says -------------------------------------------------

/// The scripts in a document: those under the key.
pub open spec fn document_scripts(doc: Json) -> Seq<ScriptView> {
    listed(scripts_in(doc, Some(KEY@)), ID@)
}

/// The scripts in a text: none where it is not JSON.
pub open spec fn package_scripts(text: Seq<char>) -> Seq<ScriptView> {
    match json_parsed(text) {
        Some(doc) => document_scripts(doc),
        None => Seq::empty(),
    }
}

/// The packageManager field of a text.
pub open spec fn manager_field(text: Seq<char>) -> Option<Seq<char>> {
    match json_parsed(text) {
        Some(doc) => match doc.member("packageManager"@) {
            Some(Json::Str(field)) => Some(field),
            _ => None,
        },
        None => None,
    }
}

/// The manager that a packageManager field names.
pub open spec fn manager_named(field: Seq<char>) -> Option<PackageManager> {
    if has_start(field, "pnpm"@) {
        Some(PackageManager::Pnpm)
    } else if has_start(field, "yarn"@) {
        Some(PackageManager::Yarn)
    } else if has_start(field, "npm"@) {
        Some(PackageManager::Npm)
    } else {
        None
    }
}

/// The manager that the lock files speak for.
pub open spec fn manager_locked(pnpm_lock: bool, yarn_lock: bool) -> PackageManager {
    if pnpm_lock {
        PackageManager::Pnpm
    } else if yarn_lock {
        PackageManager::Yarn
    } else {
        PackageManager::Npm
    }
}

/// The manager of a package: the one that its field names, or the one that its
/// lock files speak for.
pub open spec fn manager_of(text: Seq<char>, pnpm_lock: bool, yarn_lock: bool) -> PackageManager {
    manager_by(manager_field(text), pnpm_lock, yarn_lock)
}

/// The manager that a field names, or the one that the lock files speak for.
pub open spec fn manager_by(
    field: Option<Seq<char>>,
    pnpm_lock: bool,
    yarn_lock: bool,
) -> PackageManager {
    match field {
        Some(field) => match manager_named(field) {
            Some(manager) => manager,
            None => manager_locked(pnpm_lock, yarn_lock),
        },
        None => manager_locked(pnpm_lock, yarn_lock),
    }
}

/// How a manager runs a script.
pub open spec fn managed(manager: PackageManager, name: Seq<char>, cwd: PathBuf) -> CommandView {
    CommandView {
        program: match manager {
            PackageManager::Npm => "npm"@,
            PackageManager::Pnpm => "pnpm"@,
            PackageManager::Yarn => "yarn"@,
        },
        args: match manager {
            PackageManager::Yarn => seq![name],
            _ => seq!["run"@, name],
        },
        cwd,
        env: Seq::empty(),
    }
}

/// The text of a package.json, or none where it cannot be read.
pub open spec fn package_text(around: Surroundings) -> Seq<char> {
    match around.package_json {
        Some(text) => text@,
        None => Seq::empty(),
    }
}

// --- reading it -----------------------------------------------------------------

/// The scripts in a document, in order.
pub fn scripts_of(json: &Value) -> (scripts: Vec<Script>)
    ensures
        script_views(scripts@) == document_scripts(json_tree(*json)),
{
    if let Some(inner) = member(json, KEY) {
        if let Some(scripts) = inner.as_object() {
            return list_members(scripts, SourceId(ID));
        }
    }
    let none: Vec<Script> = Vec::new();
    assert(script_views(none@) =~= document_scripts(json_tree(*json)));
    none
}

/// The scripts in a text, in order.
pub fn parse_scripts(text: &str) -> (scripts: Vec<Script>)
    ensures
        script_views(scripts@) == package_scripts(text@),
{
    match parse(text) {
        Some(json) => scripts_of(&json),
        None => {
            let none: Vec<Script> = Vec::new();
            assert(script_views(none@) =~= Seq::empty());
            none
        },
    }
}

/// The manager that a packageManager field names. Where there is none, or it names
/// none that is known, a lock file decides; npm is the default.
pub fn choose_manager(field: Option<&str>, pnpm_lock: bool, yarn_lock: bool) -> (manager:
    PackageManager)
    ensures
        manager == manager_by(text_view(field), pnpm_lock, yarn_lock),
{
    if let Some(name) = field {
        if starts_with(name, "pnpm") {
            return PackageManager::Pnpm;
        }
        if starts_with(name, "yarn") {
            return PackageManager::Yarn;
        }
        if starts_with(name, "npm") {
            return PackageManager::Npm;
        }
    }
    if pnpm_lock {
        return PackageManager::Pnpm;
    }
    if yarn_lock {
        return PackageManager::Yarn;
    }
    PackageManager::Npm
}

/// The manager of a package, from the text of its package.json and the lock
/// files beside it.
pub fn detect_pm(package_json_text: &str, pnpm_lock: bool, yarn_lock: bool) -> (manager:
    PackageManager)
    ensures
        manager == manager_of(package_json_text@, pnpm_lock, yarn_lock),
{
    if let Some(json) = parse(package_json_text) {
        if let Some(value) = member(&json, "packageManager") {
            if let Some(field) = value.as_str() {
                return choose_manager(Some(field), pnpm_lock, yarn_lock);
            }
        }
    }
    choose_manager(None, pnpm_lock, yarn_lock)
}

/// How a manager runs a script of a directory.
pub fn managed_command(manager: PackageManager, name: &str, cwd: PathBuf) -> (spec: CommandSpec)
    ensures
        spec@ == managed(manager, name@, cwd),
{
    let mut args: Vec<String> = Vec::new();
    let program = match manager {
        PackageManager::Pnpm => {
            args.push("run".to_string());
            "pnpm"
        },
        PackageManager::Npm => {
            args.push("run".to_string());
            "npm"
        },
        PackageManager::Yarn => "yarn",
    };
    args.push(name.to_string());
    let spec = CommandSpec { program: program.to_string(), args, cwd, env: Vec::new() };
    assert(spec@ =~= managed(manager, name@, cwd));
    spec
}

impl PackageJsonSource {
    pub fn new(root: PathBuf) -> (source: PackageJsonSource)
        ensures
            source.root == root,
    {
        PackageJsonSource { root }
    }
}

impl ScriptSource for PackageJsonSource {
    open spec fn kind(&self) -> Seq<char> {
        ID@
    }

    open spec fn scripts(&self, text: Option<Seq<char>>) -> Result<Seq<ScriptView>, SourceError> {
        match text {
            Some(t) => Ok(package_scripts(t)),
            None => Err(SourceError::Unreadable { path: path_joined(self.root, ID@) }),
        }
    }

    open spec fn command(&self, script: ScriptView, around: Surroundings) -> CommandView {
        managed(
            manager_of(package_text(around), around.pnpm_lock, around.yarn_lock),
            script.name,
            self.root,
        )
    }

    open spec fn added(
        &self,
        text: Option<Seq<char>>,
        name: Seq<char>,
        command: Seq<char>,
    ) -> Result<Seq<char>, SourceError> {
        Ok(stored(script_set(opened(text), Some(KEY@), name, command)))
    }

    open spec fn edited(
        &self,
        text: Option<Seq<char>>,
        old_name: Seq<char>,
        new_name: Seq<char>,
        command: Seq<char>,
    ) -> Result<Seq<char>, SourceError> {
        Ok(stored(script_renamed(opened(text), Some(KEY@), old_name, new_name, command)))
    }

    open spec fn lists_added(
        &self,
        text: Option<Seq<char>>,
        name: Seq<char>,
        command: Seq<char>,
        saved: Seq<char>,
    ) -> bool {
        &&& unique_keys(scripts_in(opened(text), Some(KEY@)))
        &&& opened(text).plain(nesting_limit()) ==> package_scripts(saved) == listed(
            upsert(scripts_in(opened(text), Some(KEY@)), name, Json::Str(command)),
            ID@,
        )
    }

    open spec fn lists_edited(
        &self,
        text: Option<Seq<char>>,
        old_name: Seq<char>,
        new_name: Seq<char>,
        command: Seq<char>,
        saved: Seq<char>,
    ) -> bool {
        &&& unique_keys(scripts_in(opened(text), Some(KEY@)))
        &&& opened(text).plain(nesting_limit()) ==> package_scripts(saved) == listed(
            renamed(scripts_in(opened(text), Some(KEY@)), old_name, new_name, command),
            ID@,
        )
    }

    fn id(&self) -> (id: SourceId) {
        SourceId(ID)
    }

    fn label(&self) -> (label: &str) {
        ID
    }

    fn discover(&self, text: Option<&str>) -> (found: Result<Vec<Script>, SourceError>) {
        match text {
            Some(t) => Ok(parse_scripts(t)),
            None => Err(SourceError::Unreadable { path: join_path(&self.root, ID) }),
        }
    }

    fn build_command(&self, script: &Script, around: &Surroundings) -> (spec: CommandSpec) {
        let manager = match &around.package_json {
            Some(text) => detect_pm(text.as_str(), around.pnpm_lock, around.yarn_lock),
            None => {
                assert(""@ =~= Seq::<char>::empty()) by {
                    reveal_strlit("");
                }
                detect_pm("", around.pnpm_lock, around.yarn_lock)
            },
        };
        managed_command(manager, script.name.as_str(), self.root.clone())
    }

    fn add_script(&self, text: Option<&str>, name: &str, command: &str) -> (saved: Result<
        String,
        SourceError,
    >) {
        let mut value = read(text);
        let ghost doc = json_tree(value);
        set_script(&mut value, Some(KEY), name, command);
        let saved = crate::source::json_store::write(&value);
        proof {
            let ms = upsert(scripts_in(doc, Some(KEY@)), name@, Json::Str(command@));
            lemma_proper_scripts(doc, Some(KEY@));
            lemma_lists_back(doc, ms, saved@);
            if doc.plain(nesting_limit()) {
                lemma_set_plain(doc, Some(KEY@), name@, command@);
            }
        }
        Ok(saved)
    }

    fn edit_script(&self, text: Option<&str>, old_name: &str, new_name: &str, command: &str) -> (
    saved: Result<String, SourceError>) {
        let mut value = read(text);
        let ghost doc = json_tree(value);
        rename_script(&mut value, Some(KEY), old_name, new_name, command);
        let saved = crate::source::json_store::write(&value);
        proof {
            let ms = renamed(scripts_in(doc, Some(KEY@)), old_name@, new_name@, command@);
            lemma_proper_scripts(doc, Some(KEY@));
            lemma_lists_back(doc, ms, saved@);
            if doc.plain(nesting_limit()) {
                lemma_rename_plain(doc, Some(KEY@), old_name@, new_name@, command@);
            }
        }
        Ok(saved)
    }
}

/// A text that reads back as a document with these scripts lists them.
proof fn lemma_lists_back(doc: Json, ms: Members, text: Seq<char>)
    requires
        unique_keys(doc.members()),
    ensures
        reads_back(text, with_scripts(doc, Some(KEY@), ms)) ==> package_scripts(text) == listed(ms, ID@),
{
    let after = with_scripts(doc, Some(KEY@), ms);
    law_other_members_stay(doc, KEY@, ms);
    lemma_upsert_unique(doc.members(), KEY@, Json::Object(ms));
    if let Some(back) = json_parsed(text) {
        if after.alike(back) {
            lemma_alike_lists(after, back, Some(KEY@), ID@);
        }
    }
}

// --- laws -----------------------------------------------------------------------

/// A packageManager field that names a manager decides, whatever lock files
/// there are.
pub proof fn law_field_wins_over_lock_files(text: Seq<char>, pnpm_lock: bool, yarn_lock: bool)
    requires
        manager_field(text) is Some,
        manager_named(manager_field(text)->0) is Some,
    ensures
        manager_of(text, pnpm_lock, yarn_lock) == manager_named(manager_field(text)->0)->0,
{
}

/// With no field that names one and no lock file, the manager is npm.
pub proof fn law_npm_by_default(text: Seq<char>)
    requires
        manager_field(text) matches Some(field) ==> manager_named(field) is None,
    ensures
        manager_of(text, false, false) == PackageManager::Npm,
{
}

} // verus!
