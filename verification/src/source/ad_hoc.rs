//! Commands run on the spot. They belong to no file: the list of them is kept by
//! the application, and only how they are run is said here.

use std::path::PathBuf;

use vstd::prelude::*;

use crate::source::{
    script_views, shell_command, shelled, CommandSpec, CommandView, Script, ScriptSource,
    ScriptView, SourceError, SourceId, Surroundings, AD_HOC,
};

verus! {

/// The commands of a directory.
pub struct AdHocSource {
    pub root: PathBuf,
}

impl AdHocSource {
    pub fn new(root: PathBuf) -> (source: AdHocSource)
        ensures
            source.root == root,
    {
        AdHocSource { root }
    }
}

impl ScriptSource for AdHocSource {
    open spec fn kind(&self) -> Seq<char> {
        AD_HOC@
    }

    open spec fn scripts(&self, text: Option<Seq<char>>) -> Result<Seq<ScriptView>, SourceError> {
        Ok(Seq::empty())
    }

    open spec fn command(&self, script: ScriptView, around: Surroundings) -> CommandView {
        shelled(script.command, self.root, around.shell)
    }

    open spec fn added(
        &self,
        text: Option<Seq<char>>,
        name: Seq<char>,
        command: Seq<char>,
    ) -> Result<Seq<char>, SourceError> {
        Err(SourceError::NotSaved)
    }

    open spec fn edited(
        &self,
        text: Option<Seq<char>>,
        old_name: Seq<char>,
        new_name: Seq<char>,
        command: Seq<char>,
    ) -> Result<Seq<char>, SourceError> {
        Err(SourceError::NotEditable)
    }

    open spec fn lists_added(
        &self,
        text: Option<Seq<char>>,
        name: Seq<char>,
        command: Seq<char>,
        saved: Seq<char>,
    ) -> bool {
        false
    }

    open spec fn lists_edited(
        &self,
        text: Option<Seq<char>>,
        old_name: Seq<char>,
        new_name: Seq<char>,
        command: Seq<char>,
        saved: Seq<char>,
    ) -> bool {
        false
    }

    fn id(&self) -> (id: SourceId) {
        SourceId(AD_HOC)
    }

    fn label(&self) -> (label: &str) {
        AD_HOC
    }

    fn discover(&self, _text: Option<&str>) -> (found: Result<Vec<Script>, SourceError>) {
        let none: Vec<Script> = Vec::new();
        assert(script_views(none@) =~= Seq::empty());
        Ok(none)
    }

    fn build_command(&self, script: &Script, around: &Surroundings) -> (spec: CommandSpec) {
        shell_command(script.command.as_str(), self.root.clone(), &around.shell)
    }

    fn add_script(&self, _text: Option<&str>, _name: &str, _command: &str) -> (saved: Result<
        String,
        SourceError,
    >) {
        Err(SourceError::NotSaved)
    }

    fn edit_script(&self, _text: Option<&str>, _old_name: &str, _new_name: &str, _command: &str) -> (
    saved: Result<String, SourceError>) {
        Err(SourceError::NotEditable)
    }
}

} // verus!
