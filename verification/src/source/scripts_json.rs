//! The scripts of a scripts.json: names and raw commands, which go to the user's
//! shell. They stand under a "scripts" key, or at the top level.

use std::path::PathBuf;

use serde_json::Value;
use vstd::prelude::*;

use crate::json::{
    has_key, json_parsed, json_tree, lemma_upsert_lookup, lemma_upsert_unique, lookup, member,
    nesting_limit, parse, reads_back, unique_keys, upsert, Json, Members,
};
use crate::source::json_store::{
    law_other_members_stay, lemma_alike_lists, lemma_proper_scripts, lemma_rename_plain, lemma_renamed_lookup,
    lemma_set_plain, opened, read, rename_script, renamed, script_renamed, script_set, scripts_in,
    set_script, stored, with_scripts,
};
use crate::source::{
    join_path, list_members, listed, path_joined, script_views, shell_command, shelled, text_view,
    CommandSpec, CommandView, Script, ScriptSource, ScriptView, SourceError, SourceId,
    Surroundings,
};

verus! {

/// The kind of this source, which is also the name of its file.
pub const ID: &'static str = "scripts.json";

/// Where scripts stand in a file of the regular form.
pub const KEY: &'static str = "scripts";

/// The scripts.json of a directory.
pub struct ScriptsJsonSource {
    pub root: PathBuf,
}

// --- what a scripts.json says ---------------------------------------------------

/// An object stands under the "scripts" key.
pub open spec fn has_scripts_key(doc: Json) -> bool {
    doc.member(KEY@) matches Some(inner) && inner is Object
}

/// Where scripts are read from: under the key, or at the top level.
pub open spec fn read_key(doc: Json) -> Option<Seq<char>> {
    if has_scripts_key(doc) {
        Some(KEY@)
    } else {
        None
    }
}

/// Where scripts are written to: as they are read, but under the key where there
/// is nothing yet.
pub open spec fn write_key(doc: Json) -> Option<Seq<char>> {
    if doc.members().len() == 0 {
        Some(KEY@)
    } else {
        read_key(doc)
    }
}

/// The scripts in a document: those under the key, or those at the top level.
pub open spec fn document_scripts(doc: Json) -> Seq<ScriptView> {
    listed(scripts_in(doc, read_key(doc)), ID@)
}

/// The scripts in a text: none where it is not JSON.
pub open spec fn loose_scripts(text: Seq<char>) -> Seq<ScriptView> {
    match json_parsed(text) {
        Some(doc) => document_scripts(doc),
        None => Seq::empty(),
    }
}

// --- reading it -----------------------------------------------------------------

/// Where scripts are to be written, by the form of the file.
pub fn scripts_key(value: &Value) -> (key: Option<&'static str>)
    ensures
        text_view(key) == write_key(json_tree(*value)),
{
    let under_key = match member(value, KEY) {
        Some(inner) => inner.is_object(),
        None => false,
    };
    if under_key {
        return Some(KEY);
    }
    if let Some(map) = value.as_object() {
        if !map.is_empty() {
            return None;
        }
    }
    Some(KEY)
}

/// The scripts in a document, in order: those under the "scripts" key, or those at
/// the top level where there is no such key.
pub fn scripts_of(json: &Value) -> (scripts: Vec<Script>)
    ensures
        script_views(scripts@) == document_scripts(json_tree(*json)),
{
    if let Some(inner) = member(json, KEY) {
        if let Some(scripts) = inner.as_object() {
            return list_members(scripts, SourceId(ID));
        }
    }
    if let Some(map) = json.as_object() {
        return list_members(map, SourceId(ID));
    }
    let none: Vec<Script> = Vec::new();
    assert(script_views(none@) =~= document_scripts(json_tree(*json)));
    none
}

/// The scripts in a text, in order.
pub fn parse_scripts(text: &str) -> (scripts: Vec<Script>)
    ensures
        script_views(scripts@) == loose_scripts(text@),
{
    match parse(text) {
        Some(json) => scripts_of(&json),
        None => {
            let none: Vec<Script> = Vec::new();
            assert(script_views(none@) =~= Seq::empty());
            none
        },
    }
}

impl ScriptsJsonSource {
    pub fn new(root: PathBuf) -> (source: ScriptsJsonSource)
        ensures
            source.root == root,
    {
        ScriptsJsonSource { root }
    }
}

impl ScriptSource for ScriptsJsonSource {
    open spec fn kind(&self) -> Seq<char> {
        ID@
    }

    open spec fn scripts(&self, text: Option<Seq<char>>) -> Result<Seq<ScriptView>, SourceError> {
        match text {
            Some(t) => Ok(loose_scripts(t)),
            None => Err(SourceError::Unreadable { path: path_joined(self.root, ID@) }),
        }
    }

    open spec fn command(&self, script: ScriptView, around: Surroundings) -> CommandView {
        shelled(script.command, self.root, around.shell)
    }

    open spec fn added(
        &self,
        text: Option<Seq<char>>,
        name: Seq<char>,
        command: Seq<char>,
    ) -> Result<Seq<char>, SourceError> {
        let doc = opened(text);
        Ok(stored(script_set(doc, write_key(doc), name, command)))
    }

    open spec fn edited(
        &self,
        text: Option<Seq<char>>,
        old_name: Seq<char>,
        new_name: Seq<char>,
        command: Seq<char>,
    ) -> Result<Seq<char>, SourceError> {
        let doc = opened(text);
        Ok(stored(script_renamed(doc, write_key(doc), old_name, new_name, command)))
    }

    open spec fn lists_added(
        &self,
        text: Option<Seq<char>>,
        name: Seq<char>,
        command: Seq<char>,
        saved: Seq<char>,
    ) -> bool {
        &&& unique_keys(scripts_in(opened(text), read_key(opened(text))))
        &&& opened(text).plain(nesting_limit()) ==> loose_scripts(saved) == listed(
            upsert(scripts_in(opened(text), read_key(opened(text))), name, Json::Str(command)),
            ID@,
        )
    }

    open spec fn lists_edited(
        &self,
        text: Option<Seq<char>>,
        old_name: Seq<char>,
        new_name: Seq<char>,
        command: Seq<char>,
        saved: Seq<char>,
    ) -> bool {
        &&& unique_keys(scripts_in(opened(text), read_key(opened(text))))
        &&& opened(text).plain(nesting_limit()) ==> loose_scripts(saved) == listed(
            renamed(scripts_in(opened(text), read_key(opened(text))), old_name, new_name, command),
            ID@,
        )
    }

    fn id(&self) -> (id: SourceId) {
        SourceId(ID)
    }

    fn label(&self) -> (label: &str) {
        ID
    }

    fn discover(&self, text: Option<&str>) -> (found: Result<Vec<Script>, SourceError>) {
        match text {
            Some(t) => Ok(parse_scripts(t)),
            None => Err(SourceError::Unreadable { path: join_path(&self.root, ID) }),
        }
    }

    fn build_command(&self, script: &Script, around: &Surroundings) -> (spec: CommandSpec) {
        shell_command(script.command.as_str(), self.root.clone(), &around.shell)
    }

    fn add_script(&self, text: Option<&str>, name: &str, command: &str) -> (saved: Result<
        String,
        SourceError,
    >) {
        let mut value = read(text);
        let ghost doc = json_tree(value);
        let key = scripts_key(&value);
        set_script(&mut value, key, name, command);
        let saved = crate::source::json_store::write(&value);
        proof {
            let before = scripts_in(doc, write_key(doc));
            let ms = upsert(before, name@, Json::Str(command@));
            lemma_same_scripts(doc);
            lemma_proper_scripts(doc, read_key(doc));
            if write_key(doc) is None {
                lemma_upsert_lookup(before, name@, Json::Str(command@));
                lemma_upsert_unique(before, name@, Json::Str(command@));
            }
            lemma_lists_back(doc, ms, saved@);
            if doc.plain(nesting_limit()) {
                lemma_set_plain(doc, write_key(doc), name@, command@);
            }
        }
        Ok(saved)
    }

    fn edit_script(&self, text: Option<&str>, old_name: &str, new_name: &str, command: &str) -> (
    saved: Result<String, SourceError>) {
        let mut value = read(text);
        let ghost doc = json_tree(value);
        let key = scripts_key(&value);
        rename_script(&mut value, key, old_name, new_name, command);
        let saved = crate::source::json_store::write(&value);
        proof {
            let before = scripts_in(doc, write_key(doc));
            let ms = renamed(before, old_name@, new_name@, command@);
            lemma_same_scripts(doc);
            lemma_proper_scripts(doc, read_key(doc));
            if write_key(doc) is None {
                lemma_renamed_lookup(before, old_name@, new_name@, command@);
            }
            lemma_lists_back(doc, ms, saved@);
            if doc.plain(nesting_limit()) {
                lemma_rename_plain(doc, write_key(doc), old_name@, new_name@, command@);
            }
        }
        Ok(saved)
    }
}

/// Scripts are written where they are read.
proof fn lemma_same_scripts(doc: Json)
    ensures
        scripts_in(doc, write_key(doc)) == scripts_in(doc, read_key(doc)),
{
    if doc.members().len() == 0 {
        assert(!has_key(doc.members(), KEY@));
        assert(doc.members() =~= Members::empty());
    }
}

/// A text that reads back as a document with these scripts lists them.
proof fn lemma_lists_back(doc: Json, ms: Members, text: Seq<char>)
    requires
        unique_keys(doc.members()),
        write_key(doc) is None ==> unique_keys(ms) && (lookup(ms, KEY@) matches Some(inner)
            ==> inner !is Object),
    ensures
        reads_back(text, with_scripts(doc, write_key(doc), ms)) ==> loose_scripts(text) == listed(
            ms,
            ID@,
        ),
{
    let after = with_scripts(doc, write_key(doc), ms);
    law_other_members_stay(doc, KEY@, ms);
    lemma_upsert_unique(doc.members(), KEY@, Json::Object(ms));
    if let Some(back) = json_parsed(text) {
        if after.alike(back) {
            lemma_alike_lists(after, back, Some(KEY@), ID@);
            lemma_alike_lists(after, back, None, ID@);
            assert(read_key(after) == write_key(doc));
            assert(read_key(back) == read_key(after));
        }
    }
}

} // verus!
