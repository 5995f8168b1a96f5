use lazyscript::source::json_store::{self, read, rename_script, set_script};
use serde_json::Value;

#[test]
fn set_appends_and_updates_in_place() {
    let mut v: Value = serde_json::from_str(r#"{"scripts":{"a":"1","b":"2"}}"#).unwrap();
    set_script(&mut v, Some("scripts"), "c", "3");
    set_script(&mut v, Some("scripts"), "a", "9");
    let s = serde_json::to_string(&v["scripts"]).unwrap();
    assert_eq!(s, r#"{"a":"9","b":"2","c":"3"}"#);
}

#[test]
fn rename_keeps_position() {
    let mut v: Value = serde_json::from_str(r#"{"scripts":{"a":"1","b":"2","c":"3"}}"#).unwrap();
    rename_script(&mut v, Some("scripts"), "b", "bb", "22");
    let s = serde_json::to_string(&v["scripts"]).unwrap();
    assert_eq!(s, r#"{"a":"1","bb":"22","c":"3"}"#);
}

#[test]
fn set_creates_object_and_key_when_missing() {
    let mut v = Value::Object(serde_json::Map::new());
    set_script(&mut v, Some("scripts"), "x", "y");
    assert_eq!(v["scripts"]["x"], Value::String("y".into()));
}

#[test]
fn top_level_layout() {
    let mut v: Value = serde_json::from_str(r#"{"deploy":"./d.sh"}"#).unwrap();
    set_script(&mut v, None, "gen", "cargo run");
    let s = serde_json::to_string(&v).unwrap();
    assert_eq!(s, r#"{"deploy":"./d.sh","gen":"cargo run"}"#);
}

fn renamed(doc: &str, old: &str, new: &str) -> String {
    let mut v: Value = serde_json::from_str(doc).unwrap();
    rename_script(&mut v, None, old, new, "X");
    serde_json::to_string(&v).unwrap()
}

#[test]
fn renaming_to_itself_sets_the_command() {
    assert_eq!(renamed(r#"{"a":"1","b":"2"}"#, "a", "a"), r#"{"a":"X","b":"2"}"#);
}

#[test]
fn renaming_what_is_missing_adds_it() {
    assert_eq!(renamed(r#"{"a":"1"}"#, "zz", "b"), r#"{"a":"1","b":"X"}"#);
    assert_eq!(renamed(r#"{"a":"1","b":"2"}"#, "zz", "a"), r#"{"a":"X","b":"2"}"#);
}

#[test]
fn renaming_to_a_name_that_is_taken() {
    assert_eq!(renamed(r#"{"a":"1","b":"2","c":"3"}"#, "c", "a"), r#"{"a":"X","b":"2"}"#);
    assert_eq!(renamed(r#"{"a":"1","b":"2","c":"3"}"#, "a", "c"), r#"{"c":"X","b":"2"}"#);
}

#[test]
fn what_is_no_object_is_replaced() {
    let mut v: Value = serde_json::from_str(r#"{"n":1,"scripts":[1],"m":2}"#).unwrap();
    set_script(&mut v, Some("scripts"), "x", "y");
    assert_eq!(serde_json::to_string(&v).unwrap(), r#"{"n":1,"scripts":{"x":"y"},"m":2}"#);
    let mut list: Value = serde_json::from_str("[1]").unwrap();
    set_script(&mut list, None, "x", "y");
    assert_eq!(serde_json::to_string(&list).unwrap(), r#"{"x":"y"}"#);
}

#[test]
fn unreadable_files_read_as_empty() {
    assert_eq!(read(None), Value::Object(serde_json::Map::new()));
    assert_eq!(read(Some("not json")), Value::Object(serde_json::Map::new()));
    assert_eq!(read(Some("[1]")), serde_json::from_str::<Value>("[1]").unwrap());
}

#[test]
fn files_are_indented_and_end_with_a_line_break() {
    let v = read(Some(r#"{"b":{"x":"1"},"a":2.5}"#));
    let text = json_store::write(&v);
    assert_eq!(text, "{\n  \"b\": {\n    \"x\": \"1\"\n  },\n  \"a\": 2.5\n}\n");
    assert_eq!(read(Some(&text)), v);
}
