//! What scripts are read from a file, and how a script is run.

use std::path::PathBuf;

use vstd::prelude::*;
use vstd::utf8::encode_utf8;

use crate::clipboard::{base64_text, osc52};
use crate::events::is_script_file;
use crate::json::{json_parsed, unique_keys, upsert, Json, Members};
use crate::runner::{ended, process_env, ProcStatus, Waited};
use crate::source::ad_hoc::AdHocSource;
use crate::source::json_store::{
    law_other_members_stay, law_set_keeps_the_rest, opened, script_renamed, script_set, scripts_in,
    stored,
};
use crate::source::package_json::{package_scripts, PackageJsonSource};
use crate::source::registry::{law_discovered_sources, DirScan, RegistryView};
use crate::source::scripts_json::{loose_scripts, write_key, ScriptsJsonSource};
use crate::source::{
    CommandView, ScriptSource, ScriptView, Shell, SourceError, SourceId, Surroundings, AD_HOC,
};

verus! {

// --- reading --------------------------------------------------------------------------

/// The scripts are those that the members of an object stand for: each member's name, in
/// order, with its text; a member that is no text has no command.
pub open spec fn stand_for(scripts: Seq<ScriptView>, ms: Members, source: Seq<char>) -> bool {
    &&& scripts.len() == ms.len()
    &&& forall|i: int|
        0 <= i < ms.len() ==> {
            &&& (#[trigger] scripts[i]).name == ms[i].0
            &&& scripts[i].source == source
            &&& ms[i].1 is Str ==> scripts[i].command == ms[i].1->Str_0
            &&& !(ms[i].1 is Str) ==> scripts[i].command.len() == 0
        }
}

/// A package.json lists what its member "scripts" holds, and nothing where there is no
/// such object or the text is not JSON.
pub proof fn law_scripts_of_a_package_json(text: Seq<char>)
    ensures
        ({
            let scripts = package_scripts(text);
            match json_parsed(text) {
                Some(doc) => match doc.member("scripts"@) {
                    Some(Json::Object(ms)) => stand_for(scripts, ms, "package.json"@),
                    _ => scripts.len() == 0,
                },
                None => scripts.len() == 0,
            }
        }),
{
}

/// A scripts.json lists what its member "scripts" holds, where that is an object, and else
/// its own members.
pub proof fn law_scripts_of_a_scripts_json(text: Seq<char>)
    ensures
        ({
            let scripts = loose_scripts(text);
            match json_parsed(text) {
                Some(doc) => match doc.member("scripts"@) {
                    Some(Json::Object(ms)) => stand_for(scripts, ms, "scripts.json"@),
                    _ => match doc {
                        Json::Object(ms) => stand_for(scripts, ms, "scripts.json"@),
                        _ => scripts.len() == 0,
                    },
                },
                None => scripts.len() == 0,
            }
        }),
{
}

// --- writing --------------------------------------------------------------------------

/// A scripts.json keeps its form when it is written: scripts under "scripts" stay there,
/// scripts at the top level stay there, and an empty or missing file gets them under
/// "scripts".
pub proof fn law_scripts_json_keeps_its_form(doc: Json)
    ensures
        doc.member("scripts"@) matches Some(Json::Object(_)) ==> write_key(doc) == Some(
            "scripts"@,
        ),
        doc matches Json::Object(ms) && ms.len() > 0 && !(doc.member("scripts"@) matches Some(
            Json::Object(_),
        )) ==> write_key(doc) is None,
        doc matches Json::Object(ms) && ms.len() == 0 ==> write_key(doc) == Some("scripts"@),
        !(doc is Object) ==> write_key(doc) == Some("scripts"@),
{
}

/// What is written ends with a line feed. A file that is missing or no JSON counts as
/// empty.
pub proof fn law_what_is_written(doc: Json, text: Option<Seq<char>>)
    ensures
        stored(doc).len() > 0,
        stored(doc).last() == '\n',
        text is None ==> opened(text) == Json::Object(Seq::empty()),
        text matches Some(t) ==> opened(text) == match json_parsed(t) {
            Some(read) => read,
            None => Json::Object(Seq::empty()),
        },
{
    assert(crate::json::json_pretty(doc).push('\n').last() == '\n');
}

/// A script is written to the source that was asked for. Commands run on the spot are
/// never written, and a source that the directory does not have is an error that names
/// it.
pub proof fn law_where_a_script_is_written(
    scans: Seq<DirScan>,
    dir_index: usize,
    source: SourceId,
    text: Option<Seq<char>>,
    old_name: Seq<char>,
    name: Seq<char>,
    command: Seq<char>,
)
    requires
        scans.len() <= usize::MAX,
    ensures
        ({
            let registry = RegistryView::discovered(scans);
            let added = registry.added(dir_index, source, text, name, command);
            let edited = registry.edited(dir_index, source, text, old_name, name, command);
            let doc = opened(text);
            let known = dir_index < scans.len();
            let package = source@ == "package.json"@ && known
                && scans[dir_index as int].has_package_json;
            let loose = source@ == "scripts.json"@ && known;
            &&& source@ == AD_HOC@ ==> added == Err::<Seq<char>, SourceError>(
                SourceError::NotSaved,
            ) && edited == Err::<Seq<char>, SourceError>(SourceError::NotEditable)
            &&& package ==> added == Ok::<Seq<char>, SourceError>(
                stored(script_set(doc, Some("scripts"@), name, command)),
            ) && edited == Ok::<Seq<char>, SourceError>(
                stored(script_renamed(doc, Some("scripts"@), old_name, name, command)),
            )
            &&& loose ==> added == Ok::<Seq<char>, SourceError>(
                stored(script_set(doc, write_key(doc), name, command)),
            ) && edited == Ok::<Seq<char>, SourceError>(
                stored(script_renamed(doc, write_key(doc), old_name, name, command)),
            )
            &&& source@ != AD_HOC@ && !package && !loose ==> added == Err::<
                Seq<char>,
                SourceError,
            >(SourceError::Unknown { source, dir_index }) && edited == added
        }),
{
    law_discovered_sources(scans, dir_index, source@);
    reveal_strlit("package.json");
    reveal_strlit("scripts.json");
    reveal_strlit("commands");
    assert("package.json"@[0] == 'p');
    assert("scripts.json"@[0] == 's');
    assert(AD_HOC@[0] == 'c');
}

/// Adding a script to a document under a key sets that script there, and leaves the other
/// members of the document and the other scripts as they are.
pub proof fn law_adding_changes_one_script(
    doc: Json,
    key: Seq<char>,
    name: Seq<char>,
    command: Seq<char>,
)
    requires
        unique_keys(doc.members()),
        unique_keys(scripts_in(doc, Some(key))),
    ensures
        ({
            let after = script_set(doc, Some(key), name, command);
            &&& after.member(key) matches Some(Json::Object(ms))
            &&& Json::Object(ms).member(name) == Some(Json::Str(command))
            &&& forall|other: Seq<char>|
                other != name ==> #[trigger] Json::Object(ms).member(other) == Json::Object(
                    scripts_in(doc, Some(key)),
                ).member(other)
            &&& forall|other: Seq<char>|
                other != key ==> #[trigger] after.member(other) == doc.member(other)
        }),
{
    let scripts = scripts_in(doc, Some(key));
    let ms = upsert(scripts, name, Json::Str(command));
    law_set_keeps_the_rest(scripts, name, command);
    law_other_members_stay(doc, key, ms);
}

// --- running --------------------------------------------------------------------------

/// A text begins with another.
pub open spec fn begins(text: Seq<char>, start: Seq<char>) -> bool {
    &&& start.len() <= text.len()
    &&& forall|i: int| 0 <= i < start.len() ==> #[trigger] text[i] == start[i]
}

/// The packageManager field of the package.json, where it is a text. One that cannot be
/// read counts as empty.
pub open spec fn field_of(around: Surroundings) -> Option<Seq<char>> {
    let text = match around.package_json {
        Some(text) => text@,
        None => Seq::empty(),
    };
    match json_parsed(text) {
        Some(doc) => match doc.member("packageManager"@) {
            Some(Json::Str(field)) => Some(field),
            _ => None,
        },
        None => None,
    }
}

/// A package's script is run by its manager, by its name and in its directory: `npm run`,
/// `pnpm run` or `yarn`. The manager is the one that the packageManager field begins with;
/// where it names none, pnpm where there is a lock file of pnpm, yarn where there is one
/// of yarn, and else npm.
pub proof fn law_how_a_package_script_is_run(
    source: PackageJsonSource,
    script: ScriptView,
    around: Surroundings,
)
    ensures
        ({
            let run = source.command(script, around);
            let field = field_of(around);
            let says_pnpm = field matches Some(f) && begins(f, "pnpm"@);
            let says_yarn = field matches Some(f) && begins(f, "yarn"@);
            let says_npm = field matches Some(f) && begins(f, "npm"@);
            let silent = !says_pnpm && !says_yarn && !says_npm;
            let pnpm = says_pnpm || silent && around.pnpm_lock;
            let yarn = says_yarn || silent && !around.pnpm_lock && around.yarn_lock;
            &&& run.cwd == source.root
            &&& run.env.len() == 0
            &&& pnpm ==> run.program == "pnpm"@ && run.args == seq!["run"@, script.name]
            &&& yarn ==> run.program == "yarn"@ && run.args == seq![script.name]
            &&& !pnpm && !yarn ==> run.program == "npm"@ && run.args == seq!["run"@, script.name]
        }),
{
    reveal_strlit("pnpm");
    reveal_strlit("yarn");
    reveal_strlit("npm");
    assert("pnpm"@[0] == 'p');
    assert("yarn"@[0] == 'y');
    assert("npm"@[0] == 'n');
    if let Some(f) = field_of(around) {
        lemma_begins(f, "pnpm"@);
        lemma_begins(f, "yarn"@);
        lemma_begins(f, "npm"@);
    }
}

proof fn lemma_begins(text: Seq<char>, start: Seq<char>)
    ensures
        begins(text, start) == crate::text::has_start(text, start),
{
    if begins(text, start) {
        assert(text.take(start.len() as int) =~= start);
    }
    if crate::text::has_start(text, start) {
        assert forall|i: int| 0 <= i < start.len() implies #[trigger] text[i] == start[i] by {
            assert(text.take(start.len() as int)[i] == text[i]);
        }
    }
}

/// The command is handed as it is to the user's shell, in a directory. A POSIX shell is
/// started interactively.
pub open spec fn runs_in_shell(
    run: CommandView,
    command: Seq<char>,
    cwd: PathBuf,
    shell: Shell,
) -> bool {
    &&& run.cwd == cwd
    &&& run.env.len() == 0
    &&& run.args.last() == command
    &&& shell matches Shell::Posix(named) ==> run.args == seq!["-i"@, "-c"@, command] && (
    named matches Some(program) ==> run.program == program@) && (named is None ==> run.program
        == "sh"@)
    &&& shell is Windows ==> run.args == seq!["/C"@, command] && run.program == "cmd"@
}

/// A script of a scripts.json, and a command run on the spot, is handed to the shell: the
/// command, not the name, in the directory of its source.
pub proof fn law_how_a_command_is_run(
    loose: ScriptsJsonSource,
    typed: AdHocSource,
    script: ScriptView,
    around: Surroundings,
)
    ensures
        runs_in_shell(loose.command(script, around), script.command, loose.root, around.shell),
        runs_in_shell(typed.command(script, around), script.command, typed.root, around.shell),
{
    assert(seq!["-i"@, "-c"@].push(script.command) =~= seq!["-i"@, "-c"@, script.command]);
    assert(seq!["/C"@].push(script.command) =~= seq!["/C"@, script.command]);
}

/// Every script is run in the directory that it was found in, whatever its source.
pub proof fn law_scripts_run_in_their_directory(
    scans: Seq<DirScan>,
    dir_index: usize,
    id: Seq<char>,
    script: ScriptView,
    around: Surroundings,
)
    requires
        scans.len() <= usize::MAX,
    ensures
        RegistryView::discovered(scans).source(dir_index, id) matches Some(source) ==> dir_index
            < scans.len() && source.kind() == id && source.command(script, around).cwd
            == scans[dir_index as int].root,
        dir_index < scans.len() ==> RegistryView::discovered(scans).source(
            dir_index,
            AD_HOC@,
        ) is Some,
{
    law_discovered_sources(scans, dir_index, id);
    law_discovered_sources(scans, dir_index, AD_HOC@);
    reveal_strlit("package.json");
    reveal_strlit("scripts.json");
    reveal_strlit("commands");
    assert("package.json"@[0] == 'p');
    assert("scripts.json"@[0] == 's');
    assert(AD_HOC@[0] == 'c');
}

/// A process knows what terminal it runs in, and has the settings of its command besides.
pub proof fn law_what_a_process_is_given(command: CommandView)
    ensures
        process_env(command).len() == command.env.len() + 1,
        process_env(command)[0] == ("TERM"@, "xterm-256color"@),
        forall|i: int|
            0 <= i < command.env.len() ==> #[trigger] process_env(command)[i + 1]
                == command.env[i],
{
}

/// How a process ended: well with code 0, else with its code; one that a signal ended, or
/// of which nothing is known, has failed.
pub proof fn law_how_a_process_ended(waited: Option<Waited>)
    ensures
        ended(waited) == ProcStatus::Failed <==> (waited matches Some(w) ==> !w.success
            && w.signalled),
        waited matches Some(w) && w.success ==> ended(waited) == ProcStatus::Exited(0),
        waited matches Some(w) ==> (!w.success && !w.signalled ==> ended(waited)
            == ProcStatus::Exited(w.code as i32)),
{
}

/// What is sent to the terminal to copy a text: the encoded bytes of the text between the
/// start and the end of the sequence, and nothing else.
pub proof fn law_what_the_terminal_is_sent(text: Seq<char>)
    ensures
        ({
            let sent = osc52(text);
            let encoded = base64_text(encode_utf8(text));
            &&& sent.len() == encoded.len() + 8
            &&& sent[0] == '\x1b' && sent[1] == ']' && sent[2] == '5' && sent[3] == '2'
            &&& sent[4] == ';' && sent[5] == 'c' && sent[6] == ';'
            &&& sent.subrange(7, 7 + encoded.len() as int) == encoded
            &&& sent.last() == '\x07'
        }),
{
    reveal_strlit("\x1b]52;c;");
    reveal_strlit("\x07");
    let encoded = base64_text(encode_utf8(text));
    assert(osc52(text).subrange(7, 7 + encoded.len() as int) =~= encoded);
}

/// A directory is called by the last part of its real path, else by the last part of the
/// path that was given, else by that path. Its sources are listed in order: package.json,
/// where there is one, and scripts.json, each with what its file holds.
pub proof fn law_what_is_found_in_a_directory(scans: Seq<DirScan>, d: int)
    requires
        0 <= d < scans.len(),
    ensures
        ({
            let dirs = RegistryView::discovered(scans).directories;
            let scan = scans[d];
            let groups = dirs[d].source_groups;
            &&& dirs.len() == scans.len()
            &&& scan.canonical_name matches Some(name) ==> dirs[d].label == name@
            &&& scan.canonical_name is None ==> (scan.own_name matches Some(name) ==> dirs[d].label
                == name@)
            &&& scan.canonical_name is None && scan.own_name is None ==> dirs[d].label
                == scan.display@
            &&& groups.len() == if scan.has_package_json {
                2int
            } else {
                1int
            }
            &&& scan.has_package_json ==> groups[0].id == "package.json"@ && groups[0].label
                == "package.json"@ && groups[0].scripts == match scan.package_json {
                Some(text) => package_scripts(text@),
                None => Seq::empty(),
            }
            &&& groups.last().id == "scripts.json"@ && groups.last().label == "scripts.json"@
            &&& groups.last().scripts == match scan.scripts_json {
                Some(text) => loose_scripts(text@),
                None => Seq::empty(),
            }
        }),
{
    assert(RegistryView::discovered(scans).directories[d].source_groups == scans[d].groups());
}

/// The list can change where a package.json or a scripts.json has, and nowhere else.
pub proof fn law_files_that_count(name: Seq<char>)
    ensures
        is_script_file(name) <==> name == "package.json"@ || name == "scripts.json"@,
{
}

} // verus!
