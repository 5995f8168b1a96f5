use std::path::PathBuf;

use lazyscript::source::package_json::{
    choose_manager, detect_pm, managed_command, parse_scripts, scripts_of, PackageJsonSource,
    PackageManager, ID,
};
use lazyscript::source::{Script, ScriptSource, Shell, SourceError, SourceId, Surroundings};

fn around(package_json: Option<&str>, pnpm_lock: bool, yarn_lock: bool) -> Surroundings {
    Surroundings {
        package_json: package_json.map(|t| t.to_string()),
        pnpm_lock,
        yarn_lock,
        shell: Shell::Posix(None),
    }
}

fn script(name: &str) -> Script {
    Script { name: name.to_string(), source: SourceId(ID), command: "x".to_string() }
}

#[test]
fn parses_scripts_in_file_order() {
    let text = r#"{ "scripts": { "dev": "x", "build": "y", "test": "z" } }"#;
    let names: Vec<_> = parse_scripts(text).into_iter().map(|s| s.name).collect();
    assert_eq!(names, ["dev", "build", "test"]);
}

#[test]
fn no_scripts_field_yields_empty() {
    assert!(parse_scripts(r#"{ "name": "x" }"#).is_empty());
    assert!(parse_scripts("not json").is_empty());
}

#[test]
fn package_manager_field_wins_over_lockfile() {
    let pm = detect_pm(r#"{ "packageManager": "pnpm@9.0.0" }"#, false, true);
    assert_eq!(pm, PackageManager::Pnpm);
}

#[test]
fn lockfile_detects_manager() {
    assert_eq!(detect_pm("{}", true, false), PackageManager::Pnpm);
}

#[test]
fn defaults_to_npm() {
    assert_eq!(detect_pm("{}", false, false), PackageManager::Npm);
}

#[test]
fn build_command_uses_run_for_npm() {
    let dir = PathBuf::from("/project");
    let source = PackageJsonSource::new(dir.clone());
    let facts = around(Some(r#"{ "scripts": { "dev": "x" } }"#), false, false);
    let spec = source.build_command(&script("dev"), &facts);
    assert_eq!(spec.program, "npm");
    assert_eq!(spec.args, ["run", "dev"]);
    assert_eq!(spec.cwd, dir);
    assert!(spec.env.is_empty());
}

#[test]
fn add_and_edit_roundtrip_preserves_other_fields() {
    let source = PackageJsonSource::new(PathBuf::from("/project"));
    let text = r#"{ "name": "x", "scripts": { "dev": "vite" } }"#;

    let text = source.add_script(Some(text), "build", "vite build").unwrap();
    let text = source.edit_script(Some(&text), "dev", "start", "vite serve").unwrap();

    let names: Vec<_> =
        source.discover(Some(&text)).unwrap().into_iter().map(|s| s.name).collect();
    assert_eq!(names, ["start", "build"]);

    assert!(text.contains("\"name\""));
    assert!(text.contains("vite serve"));
}

#[test]
fn a_script_renamed_to_a_taken_name_has_the_typed_command() {
    let source = PackageJsonSource::new(PathBuf::from("/project"));
    let text = r#"{ "scripts": { "a": "1", "b": "2" } }"#;
    for (from, to) in [("a", "b"), ("b", "a")] {
        let saved = source.edit_script(Some(text), from, to, "9").unwrap();
        let scripts = source.discover(Some(&saved)).unwrap();
        assert_eq!(scripts.len(), 1);
        assert_eq!((scripts[0].name.as_str(), scripts[0].command.as_str()), (to, "9"));
    }
}

#[test]
fn every_manager_is_detected() {
    assert_eq!(detect_pm(r#"{"packageManager":"yarn@4"}"#, true, false), PackageManager::Yarn);
    assert_eq!(detect_pm(r#"{"packageManager":"npm@10"}"#, true, true), PackageManager::Npm);
    assert_eq!(detect_pm(r#"{"packageManager":"bun@1"}"#, false, true), PackageManager::Yarn);
    assert_eq!(detect_pm(r#"{"packageManager":7}"#, true, true), PackageManager::Pnpm);
    assert_eq!(detect_pm("broken", false, false), PackageManager::Npm);
}

#[test]
fn yarn_runs_scripts_without_run() {
    let source = PackageJsonSource::new(PathBuf::from("/p"));
    let spec = source.build_command(&script("dev"), &around(None, false, true));
    assert_eq!(spec.program, "yarn");
    assert_eq!(spec.args, ["dev"]);
    let spec = source.build_command(&script("dev"), &around(None, true, true));
    assert_eq!(spec.program, "pnpm");
    assert_eq!(spec.args, ["run", "dev"]);
}

#[test]
fn values_that_are_no_text_have_no_command() {
    let scripts = parse_scripts(r#"{"scripts":{"a":1,"b":"x"}}"#);
    assert_eq!(scripts[0].command, "");
    assert_eq!(scripts[1].command, "x");
    assert_eq!(scripts[1].source, SourceId("package.json"));
}

#[test]
fn unreadable_package_json_is_an_error() {
    let source = PackageJsonSource::new(PathBuf::from("/p"));
    let error = source.discover(None).unwrap_err();
    assert_eq!(error, SourceError::Unreadable { path: PathBuf::from("/p/package.json") });
    assert_eq!(error.message(), "read /p/package.json");
    assert_eq!(source.id(), SourceId("package.json"));
    assert_eq!(source.label(), "package.json");
}

#[test]
fn added_script_is_listed_last_and_fractions_stay() {
    let source = PackageJsonSource::new(PathBuf::from("/p"));
    let text = r#"{"ratio":0.25,"scripts":{"a":"1"}}"#;
    let saved = source.add_script(Some(text), "b", "2\n\"q\"").unwrap();
    let scripts = parse_scripts(&saved);
    assert_eq!(scripts.len(), 2);
    assert_eq!(scripts[1].name, "b");
    assert_eq!(scripts[1].command, "2\n\"q\"");
    assert!(saved.contains("0.25"));
}

#[test]
fn managers_are_chosen_by_field_then_lock_file() {
    assert_eq!(choose_manager(Some("pnpm@9"), false, true), PackageManager::Pnpm);
    assert_eq!(choose_manager(Some("deno"), false, true), PackageManager::Yarn);
    assert_eq!(choose_manager(None, true, true), PackageManager::Pnpm);
    assert_eq!(choose_manager(None, false, false), PackageManager::Npm);
    let spec = managed_command(PackageManager::Yarn, "dev", PathBuf::from("/p"));
    assert_eq!(spec.program, "yarn");
    assert_eq!(spec.args, ["dev"]);
}

#[test]
fn scripts_of_a_document() {
    let value: serde_json::Value =
        serde_json::from_str(r#"{"scripts":{"z":"1","a":"2"}}"#).unwrap();
    let names: Vec<_> = scripts_of(&value).into_iter().map(|s| s.name).collect();
    assert_eq!(names, ["z", "a"]);
}
