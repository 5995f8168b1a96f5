use std::path::PathBuf;

use lazyscript::source::registry::{dir_label, DirScan, Registry};
use lazyscript::source::{Script, Shell, SourceError, SourceId, Surroundings, AD_HOC};

fn scan(root: &str, package: Option<&str>, scripts: Option<&str>) -> DirScan {
    DirScan {
        root: PathBuf::from(root),
        canonical_name: Some(format!("c{root}")),
        own_name: None,
        display: root.to_string(),
        has_package_json: package.is_some(),
        package_json: package.map(|t| t.to_string()),
        scripts_json: scripts.map(|t| t.to_string()),
    }
}

fn around() -> Surroundings {
    Surroundings { package_json: None, pnpm_lock: false, yarn_lock: false, shell: Shell::Posix(None) }
}

fn sample() -> Registry {
    Registry::discover(&vec![
        scan("a", Some(r#"{"scripts":{"dev":"x","build":"y"}}"#), None),
        scan("b", None, Some(r#"{"deploy":"./d.sh"}"#)),
    ])
}

#[test]
fn directories_list_their_sources() {
    let registry = sample();
    assert!(registry.is_multi());
    assert!(!registry.is_empty());
    let a = &registry.directories[0];
    assert_eq!(a.label, "ca");
    let ids: Vec<_> = a.source_groups.iter().map(|g| g.id.0).collect();
    assert_eq!(ids, ["package.json", "scripts.json"]);
    assert_eq!(a.source_groups[0].scripts.len(), 2);
    assert!(a.source_groups[1].scripts.is_empty());
    let b = &registry.directories[1];
    assert_eq!(b.source_groups.len(), 1);
    assert_eq!(b.source_groups[0].scripts[0].command, "./d.sh");
}

#[test]
fn no_directories_are_empty() {
    let registry = Registry::discover(&Vec::new());
    assert!(registry.is_empty());
    assert!(!registry.is_multi());
    assert!(Registry::from_directories(Vec::new()).is_empty());
}

#[test]
fn scripts_are_found_by_directory_source_and_name() {
    let registry = sample();
    let id = SourceId("package.json");
    assert_eq!(registry.script(0, id, "build").unwrap().command, "y");
    assert!(registry.script(0, id, "deploy").is_none());
    assert!(registry.script(1, id, "build").is_none());
    assert!(registry.script(9, id, "build").is_none());
}

#[test]
fn commands_run_in_their_directory() {
    let registry = sample();
    let script = registry.script(0, SourceId("package.json"), "dev").unwrap().clone();
    let spec = registry.build_command(0, &script, &around()).unwrap();
    assert_eq!(spec.program, "npm");
    assert_eq!(spec.cwd, PathBuf::from("a"));
    assert!(registry.build_command(1, &script, &around()).is_none());
    let typed = Script {
        name: "ls".to_string(),
        source: SourceId(AD_HOC),
        command: "ls".to_string(),
    };
    let spec = registry.build_command(1, &typed, &around()).unwrap();
    assert_eq!(spec.program, "sh");
    assert_eq!(spec.cwd, PathBuf::from("b"));
    assert!(registry.build_command(2, &typed, &around()).is_none());
}

#[test]
fn saving_goes_to_the_source() {
    let registry = sample();
    let text = registry
        .add_script(1, SourceId("scripts.json"), Some(r#"{"deploy":"d"}"#), "x", "y")
        .unwrap();
    assert_eq!(text, "{\n  \"deploy\": \"d\",\n  \"x\": \"y\"\n}\n");
    let text = registry
        .edit_script(0, SourceId("package.json"), Some(r#"{"scripts":{"a":"1"}}"#), "a", "b", "2")
        .unwrap();
    assert_eq!(text, "{\n  \"scripts\": {\n    \"b\": \"2\"\n  }\n}\n");
}

#[test]
fn saving_elsewhere_is_refused() {
    let registry = sample();
    let id = SourceId("package.json");
    let unknown = SourceError::Unknown { source: id, dir_index: 1 };
    assert_eq!(registry.add_script(1, id, None, "x", "y"), Err(unknown.clone()));
    assert_eq!(registry.edit_script(1, id, None, "w", "x", "y"), Err(unknown.clone()));
    assert_eq!(unknown.message(), "unknown source: package.json (#1)");
    let typed = SourceId(AD_HOC);
    assert_eq!(registry.add_script(0, typed, None, "x", "y"), Err(SourceError::NotSaved));
    assert_eq!(registry.edit_script(0, typed, None, "w", "x", "y"), Err(SourceError::NotEditable));
}

#[test]
fn labels_fall_back() {
    let mut dir = scan("x", None, None);
    assert_eq!(dir_label(&dir), "cx");
    dir.canonical_name = None;
    dir.own_name = Some("own".to_string());
    assert_eq!(dir_label(&dir), "own");
    dir.own_name = None;
    assert_eq!(dir_label(&dir), "x");
}

#[test]
fn package_json_that_cannot_be_read_has_no_scripts() {
    let mut dir = scan("x", None, None);
    dir.has_package_json = true;
    let registry = Registry::discover(&vec![dir]);
    assert_eq!(registry.directories[0].source_groups.len(), 2);
    assert!(registry.directories[0].source_groups[0].scripts.is_empty());
}

#[test]
fn saved_scripts_are_found_after_reading_anew() {
    let text = r#"{"name":"x","scripts":{"dev":"1","test":"2"}}"#;
    let registry = Registry::discover(&vec![scan("a", Some(text), None)]);
    let id = SourceId("package.json");
    let added = registry.add_script(0, id, Some(text), "lint", "3").unwrap();
    let again = Registry::discover(&vec![scan("a", Some(&added), None)]);
    assert_eq!(again.script(0, id, "lint").unwrap().command, "3");
    assert_eq!(again.script(0, id, "dev").unwrap().command, "1");
    let edited = again.edit_script(0, id, Some(&added), "dev", "start", "4").unwrap();
    let last = Registry::discover(&vec![scan("a", Some(&edited), None)]);
    assert_eq!(last.script(0, id, "start").unwrap().command, "4");
    assert!(last.script(0, id, "dev").is_none());
    let names: Vec<_> =
        last.directories[0].source_groups[0].scripts.iter().map(|s| s.name.as_str()).collect();
    assert_eq!(names, ["start", "test", "lint"]);
}

#[test]
fn numbers_with_exponents_survive_a_save() {
    let text = r#"{"big":1e30,"small":2.5e-7,"scripts":{"a":"1"}}"#;
    let registry = Registry::discover(&vec![scan("a", Some(text), None)]);
    let id = SourceId("package.json");
    let added = registry.add_script(0, id, Some(text), "b", "2").unwrap();
    let again = Registry::discover(&vec![scan("a", Some(&added), None)]);
    assert_eq!(again.script(0, id, "b").unwrap().command, "2");
}
