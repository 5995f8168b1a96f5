use std::path::PathBuf;

use lazyscript::source::ad_hoc::AdHocSource;
use lazyscript::source::scripts_json::{parse_scripts, scripts_key, ScriptsJsonSource, ID};
use lazyscript::source::{
    shell_command, Script, ScriptSource, Shell, SourceError, SourceId, Surroundings, AD_HOC,
};

fn around(shell: Shell) -> Surroundings {
    Surroundings { package_json: None, pnpm_lock: false, yarn_lock: false, shell }
}

#[test]
fn parses_scripts_key() {
    let text = r#"{ "scripts": { "deploy": "./deploy.sh", "gen": "cargo run" } }"#;
    let scripts = parse_scripts(text);
    assert_eq!(scripts.len(), 2);
    assert_eq!(scripts[0].name, "deploy");
    assert_eq!(scripts[0].command, "./deploy.sh");
}

#[test]
fn parses_top_level_when_no_scripts_key() {
    let text = r#"{ "deploy": "./deploy.sh" }"#;
    let scripts = parse_scripts(text);
    assert_eq!(scripts.len(), 1);
    assert_eq!(scripts[0].name, "deploy");
    assert_eq!(scripts[0].command, "./deploy.sh");
}

#[test]
fn add_creates_file_when_missing() {
    let source = ScriptsJsonSource::new(PathBuf::from("/dir"));
    let text = source.add_script(None, "deploy", "./deploy.sh").unwrap();
    let names: Vec<_> =
        source.discover(Some(&text)).unwrap().into_iter().map(|s| s.name).collect();
    assert_eq!(names, ["deploy"]);
    assert_eq!(text, "{\n  \"scripts\": {\n    \"deploy\": \"./deploy.sh\"\n  }\n}\n");
}

#[test]
fn build_command_runs_raw_via_shell() {
    let source = ScriptsJsonSource::new(PathBuf::from("/tmp"));
    let script = Script {
        name: "deploy".to_string(),
        source: SourceId(ID),
        command: "echo hi && ls".to_string(),
    };
    let facts = around(Shell::Posix(Some("/bin/zsh".to_string())));
    let spec = source.build_command(&script, &facts);
    assert_eq!(spec.program, "/bin/zsh");
    assert_eq!(spec.args, ["-i", "-c", "echo hi && ls"]);
    assert_eq!(spec.cwd, PathBuf::from("/tmp"));
}

#[test]
fn shells_by_platform() {
    let plain = shell_command("ls", PathBuf::from("/d"), &Shell::Posix(None));
    assert_eq!(plain.program, "sh");
    assert_eq!(plain.args, ["-i", "-c", "ls"]);
    let windows = shell_command("dir", PathBuf::from("/d"), &Shell::Windows);
    assert_eq!(windows.program, "cmd");
    assert_eq!(windows.args, ["/C", "dir"]);
}

#[test]
fn scripts_are_written_where_they_are_read() {
    let key = |text: &str| {
        let value: serde_json::Value = serde_json::from_str(text).unwrap();
        scripts_key(&value)
    };
    assert_eq!(key(r#"{"scripts":{}}"#), Some("scripts"));
    assert_eq!(key(r#"{"a":"b"}"#), None);
    assert_eq!(key(r#"{"scripts":"b"}"#), None);
    assert_eq!(key("{}"), Some("scripts"));
    assert_eq!(key("[]"), Some("scripts"));
}

#[test]
fn top_level_files_stay_top_level() {
    let source = ScriptsJsonSource::new(PathBuf::from("/dir"));
    let text = source.add_script(Some(r#"{"a":"1"}"#), "b", "2").unwrap();
    assert_eq!(text, "{\n  \"a\": \"1\",\n  \"b\": \"2\"\n}\n");
    let text = source.edit_script(Some(&text), "a", "c", "3").unwrap();
    let scripts = parse_scripts(&text);
    assert_eq!(scripts[0].name, "c");
    assert_eq!(scripts[0].command, "3");
    assert_eq!(scripts[1].name, "b");
}

#[test]
fn a_top_level_script_may_be_called_scripts() {
    let source = ScriptsJsonSource::new(PathBuf::from("/dir"));
    let text = source.add_script(Some(r#"{"a":"1"}"#), "scripts", "2").unwrap();
    let names: Vec<_> = parse_scripts(&text).into_iter().map(|s| s.name).collect();
    assert_eq!(names, ["a", "scripts"]);
}

#[test]
fn unreadable_scripts_json_is_an_error() {
    let source = ScriptsJsonSource::new(PathBuf::from("/dir"));
    let error = source.discover(None).unwrap_err();
    assert_eq!(error, SourceError::Unreadable { path: PathBuf::from("/dir/scripts.json") });
    assert_eq!(error.message(), "read /dir/scripts.json");
    assert!(parse_scripts("[1]").is_empty());
    assert!(parse_scripts("").is_empty());
}

#[test]
fn commands_are_neither_listed_nor_saved() {
    let source = AdHocSource::new(PathBuf::from("/dir"));
    assert_eq!(source.id(), SourceId(AD_HOC));
    assert_eq!(source.label(), "commands");
    assert_eq!(source.discover(None).unwrap(), []);
    assert_eq!(source.add_script(None, "a", "b"), Err(SourceError::NotSaved));
    assert_eq!(source.edit_script(None, "a", "b", "c"), Err(SourceError::NotEditable));
    assert_eq!(SourceError::NotSaved.message(), "ad-hoc コマンドは保存されません");
    assert_eq!(SourceError::NotEditable.message(), "ad-hoc コマンドは編集できません");
    let script = Script {
        name: "ls".to_string(),
        source: SourceId(AD_HOC),
        command: "ls".to_string(),
    };
    let spec = source.build_command(&script, &around(Shell::Posix(None)));
    assert_eq!(spec.args, ["-i", "-c", "ls"]);
    assert_eq!(spec.cwd, PathBuf::from("/dir"));
}
