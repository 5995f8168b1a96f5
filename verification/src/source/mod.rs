//! Where scripts come from. How a script is run is known to its source alone.

pub mod ad_hoc;
pub mod json_store;
pub mod package_json;
pub mod registry;
pub mod scripts_json;

use std::path::PathBuf;

use serde_json::Value;
use vstd::prelude::*;

use crate::json::{json_tree, member_list, pair_views, Json, Members};
use crate::number::{decimal, digits_of};
use crate::text::{same_text, texts};

verus! {

/// `std::path::PathBuf`: carried from the command line to the commands that run
/// there.
#[verifier::external_type_specification]
#[verifier::external_body]
pub struct ExPathBuf(PathBuf);

/// `PathBuf::clone`: the same path.
pub assume_specification[ <PathBuf as Clone>::clone ](path: &PathBuf) -> (copy: PathBuf)
    ensures
        copy == *path,
;

/// The path that `Path::join` makes of a directory's path and the name of a file.
pub uninterp spec fn path_joined(dir: PathBuf, name: Seq<char>) -> PathBuf;

/// Calls `Path::join`, which puts a name behind a path. How the two are joined is
/// left to it.
#[verifier::external_body]
pub(crate) fn join_path(dir: &PathBuf, name: &str) -> (path: PathBuf)
    ensures
        path == path_joined(*dir, name@),
{
    dir.join(name)
}

/// The text that `Path::display` shows of a path.
pub uninterp spec fn path_text(path: PathBuf) -> Seq<char>;

/// Calls `Path::display` and collects what it shows. What it shows of a path that
/// is not Unicode is left to it.
#[verifier::external_body]
fn show_path(path: &PathBuf) -> (text: String)
    ensures
        text@ == path_text(*path),
{
    path.display().to_string()
}

// --- scripts ------------------------------------------------------------------

/// Identifies a kind of source, such as "package.json".
#[derive(Clone, Copy, PartialEq, Eq, Hash, Debug)]
pub struct SourceId(pub &'static str);

impl View for SourceId {
    type V = Seq<char>;

    open spec fn view(&self) -> Seq<char> {
        self.0@
    }
}

impl SourceId {
    /// Whether the two identify one kind of source.
    pub fn same(self, other: SourceId) -> (r: bool)
        ensures
            r == (self@ == other@),
    {
        same_text(self.0, other.0)
    }
}

/// The kind of commands run on the spot: a group in memory, tied to no file.
pub const AD_HOC: &'static str = "commands";

/// One script of the list.
#[derive(Debug, PartialEq, Eq)]
pub struct Script {
    pub name: String,
    pub source: SourceId,
    /// What the script runs, for display.
    pub command: String,
}

/// A script by its texts.
#[verifier::ext_equal]
pub ghost struct ScriptView {
    pub name: Seq<char>,
    pub source: Seq<char>,
    pub command: Seq<char>,
}

impl View for Script {
    type V = ScriptView;

    open spec fn view(&self) -> ScriptView {
        ScriptView { name: self.name@, source: self.source@, command: self.command@ }
    }
}

impl Clone for Script {
    fn clone(&self) -> (copy: Script)
        ensures
            copy@ == self@,
            copy.source == self.source,
    {
        Script {
            name: self.name.clone(),
            source: self.source,
            command: self.command.clone(),
        }
    }
}

/// The scripts of a list, by their texts.
pub open spec fn script_views(scripts: Seq<Script>) -> Seq<ScriptView> {
    scripts.map_values(|s: Script| s@)
}

/// The scripts that the members of an object stand for: each name, with the
/// text of its value, or no text where the value is none.
pub open spec fn listed(ms: Members, source: Seq<char>) -> Seq<ScriptView> {
    ms.map_values(
        |m: (Seq<char>, Json)|
            ScriptView {
                name: m.0,
                source,
                command: match m.1 {
                    Json::Str(text) => text,
                    _ => Seq::empty(),
                },
            },
    )
}

/// The scripts that the members of an object stand for, in order.
pub(crate) fn list_members(map: &serde_json::Map<String, Value>, source: SourceId) -> (scripts: Vec<
    Script,
>)
    ensures
        script_views(scripts@) == listed(crate::json::map_entries(*map), source@),
{
    let pairs = member_list(map);
    let mut scripts: Vec<Script> = Vec::new();
    let mut n: usize = 0;
    while n < pairs.len()
        invariant
            n <= pairs.len(),
            pair_views(pairs@) == crate::json::map_entries(*map),
            scripts@.len() == n,
            forall|i: int|
                0 <= i < n ==> (#[trigger] scripts@[i])@ == listed(
                    crate::json::map_entries(*map),
                    source@,
                )[i],
        decreases pairs.len() - n,
    {
        let command = match pairs[n].1.as_str() {
            Some(text) => text.to_string(),
            None => String::new(),
        };
        let script = Script { name: pairs[n].0.clone(), source, command };
        assert(script@ == listed(crate::json::map_entries(*map), source@)[n as int]) by {
            assert(pair_views(pairs@)[n as int] == (
                pairs@[n as int].0@,
                json_tree(*pairs@[n as int].1),
            ));
        }
        scripts.push(script);
        n += 1;
    }
    assert(script_views(scripts@) =~= listed(crate::json::map_entries(*map), source@));
    scripts
}

// --- commands -------------------------------------------------------------------

/// What is run, whichever source it comes from.
#[derive(Debug, PartialEq, Eq)]
pub struct CommandSpec {
    pub program: String,
    pub args: Vec<String>,
    pub cwd: PathBuf,
    pub env: Vec<(String, String)>,
}

/// A command by its texts.
#[verifier::ext_equal]
pub ghost struct CommandView {
    pub program: Seq<char>,
    pub args: Seq<Seq<char>>,
    pub cwd: PathBuf,
    pub env: Seq<(Seq<char>, Seq<char>)>,
}

impl View for CommandSpec {
    type V = CommandView;

    open spec fn view(&self) -> CommandView {
        CommandView {
            program: self.program@,
            args: texts(self.args@),
            cwd: self.cwd,
            env: self.env@.map_values(|e: (String, String)| (e.0@, e.1@)),
        }
    }
}

/// The shell that raw commands go to.
pub enum Shell {
    /// The shell named by the user's environment, where it names one.
    Posix(Option<String>),
    /// The Windows command interpreter.
    Windows,
}

/// What surrounds a directory when one of its scripts is run.
pub struct Surroundings {
    /// The text of its package.json, where it can be read.
    pub package_json: Option<String>,
    /// Whether it holds pnpm-lock.yaml.
    pub pnpm_lock: bool,
    /// Whether it holds yarn.lock.
    pub yarn_lock: bool,
    pub shell: Shell,
}

/// The program and the leading arguments that hand a raw command to a shell.
pub open spec fn shell_words(shell: Shell) -> (Seq<char>, Seq<Seq<char>>) {
    match shell {
        Shell::Posix(Some(program)) => (program@, seq!["-i"@, "-c"@]),
        Shell::Posix(None) => ("sh"@, seq!["-i"@, "-c"@]),
        Shell::Windows => ("cmd"@, seq!["/C"@]),
    }
}

/// A raw command, run by a shell in `cwd`.
pub open spec fn shelled(command: Seq<char>, cwd: PathBuf, shell: Shell) -> CommandView {
    CommandView {
        program: shell_words(shell).0,
        args: shell_words(shell).1.push(command),
        cwd,
        env: Seq::empty(),
    }
}

/// Runs a raw command in the user's shell. A POSIX shell is started
/// interactively, so that it reads the user's settings and knows their aliases.
pub fn shell_command(command: &str, cwd: PathBuf, shell: &Shell) -> (spec: CommandSpec)
    ensures
        spec@ == shelled(command@, cwd, *shell),
{
    let mut args: Vec<String> = Vec::new();
    let program = match shell {
        Shell::Posix(named) => {
            args.push("-i".to_string());
            args.push("-c".to_string());
            match named {
                Some(program) => program.clone(),
                None => "sh".to_string(),
            }
        },
        Shell::Windows => {
            args.push("/C".to_string());
            "cmd".to_string()
        },
    };
    args.push(command.to_string());
    let spec = CommandSpec { program, args, cwd, env: Vec::new() };
    assert(spec@.args =~= shell_words(*shell).1.push(command@));
    assert(spec@.env =~= Seq::empty());
    spec
}

// --- sources --------------------------------------------------------------------

/// Why a source did not do what it was asked.
#[derive(Clone, Debug, PartialEq, Eq)]
pub enum SourceError {
    /// The source's file could not be read.
    Unreadable { path: PathBuf },
    /// The directory has no such source.
    Unknown { source: SourceId, dir_index: usize },
    /// Commands run on the spot are not saved.
    NotSaved,
    /// Commands run on the spot are not edited.
    NotEditable,
}

impl SourceError {
    /// What is shown of the error.
    pub open spec fn text(self) -> Seq<char> {
        match self {
            SourceError::Unreadable { path } => "read "@ + path_text(path),
            SourceError::Unknown { source, dir_index } => "unknown source: "@ + source@ + " (#"@
                + digits_of(dir_index as int) + ")"@,
            SourceError::NotSaved => "ad-hoc コマンドは保存されません"@,
            SourceError::NotEditable => "ad-hoc コマンドは編集できません"@,
        }
    }

    /// What is shown of the error.
    pub fn message(&self) -> (text: String)
        ensures
            text@ == self.text(),
    {
        match self {
            SourceError::Unreadable { path } => {
                let mut text = "read ".to_string();
                text.append(show_path(path).as_str());
                text
            },
            SourceError::Unknown { source, dir_index } => {
                let mut text = "unknown source: ".to_string();
                text.append(source.0);
                text.append(" (#");
                text.append(decimal(*dir_index as u64).as_str());
                text.append(")");
                text
            },
            SourceError::NotSaved => "ad-hoc コマンドは保存されません".to_string(),
            SourceError::NotEditable => "ad-hoc コマンドは編集できません".to_string(),
        }
    }
}

/// The optional text's characters.
pub open spec fn text_view(text: Option<&str>) -> Option<Seq<char>> {
    match text {
        Some(t) => Some(t@),
        None => None,
    }
}

/// A kind of file, or of list, that scripts come from.
pub trait ScriptSource {
    /// Its kind.
    spec fn kind(&self) -> Seq<char>;

    /// The scripts in a file of this text; `None` where it could not be read.
    spec fn scripts(&self, text: Option<Seq<char>>) -> Result<Seq<ScriptView>, SourceError>;

    /// How a script is run.
    spec fn command(&self, script: ScriptView, around: Surroundings) -> CommandView;

    /// What the file is to hold once a script was added.
    spec fn added(
        &self,
        text: Option<Seq<char>>,
        name: Seq<char>,
        command: Seq<char>,
    ) -> Result<Seq<char>, SourceError>;

    /// What the file is to hold once a script was changed.
    spec fn edited(
        &self,
        text: Option<Seq<char>>,
        old_name: Seq<char>,
        new_name: Seq<char>,
        command: Seq<char>,
    ) -> Result<Seq<char>, SourceError>;

    /// A file that holds the text saved lists the scripts as before, with this one
    /// added.
    spec fn lists_added(
        &self,
        text: Option<Seq<char>>,
        name: Seq<char>,
        command: Seq<char>,
        saved: Seq<char>,
    ) -> bool;

    /// A file that holds the text saved lists the scripts as before, with this one
    /// changed.
    spec fn lists_edited(
        &self,
        text: Option<Seq<char>>,
        old_name: Seq<char>,
        new_name: Seq<char>,
        command: Seq<char>,
        saved: Seq<char>,
    ) -> bool;

    fn id(&self) -> (id: SourceId)
        ensures
            id@ == self.kind(),
    ;

    /// What heads its group in the list.
    fn label(&self) -> (label: &str)
        ensures
            label@ == self.kind(),
    ;

    /// The scripts in its file, whose text is given where it can be read.
    fn discover(&self, text: Option<&str>) -> (found: Result<Vec<Script>, SourceError>)
        ensures
            found matches Ok(scripts) ==> self.scripts(text_view(text)) == Ok::<
                Seq<ScriptView>,
                SourceError,
            >(script_views(scripts@)),
            found matches Err(e) ==> self.scripts(text_view(text)) == Err::<
                Seq<ScriptView>,
                SourceError,
            >(e),
    ;

    /// How a script is run.
    fn build_command(&self, script: &Script, around: &Surroundings) -> (spec: CommandSpec)
        ensures
            spec@ == self.command(script@, *around),
    ;

    /// The text to write to its file so that a script is added.
    fn add_script(&self, text: Option<&str>, name: &str, command: &str) -> (saved: Result<
        String,
        SourceError,
    >)
        ensures
            saved matches Ok(s) ==> self.added(text_view(text), name@, command@) == Ok::<
                Seq<char>,
                SourceError,
            >(s@) && self.lists_added(text_view(text), name@, command@, s@),
            saved matches Err(e) ==> self.added(text_view(text), name@, command@) == Err::<
                Seq<char>,
                SourceError,
            >(e),
    ;

    /// The text to write to its file so that a script has another name and
    /// another command.
    fn edit_script(&self, text: Option<&str>, old_name: &str, new_name: &str, command: &str) -> (saved:
        Result<String, SourceError>)
        ensures
            saved matches Ok(s) ==> self.edited(text_view(text), old_name@, new_name@, command@)
                == Ok::<Seq<char>, SourceError>(s@) && self.lists_edited(
                text_view(text),
                old_name@,
                new_name@,
                command@,
                s@,
            ),
            saved matches Err(e) ==> self.edited(text_view(text), old_name@, new_name@, command@)
                == Err::<Seq<char>, SourceError>(e),
    ;
}

} // verus!
