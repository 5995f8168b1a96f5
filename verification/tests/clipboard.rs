use lazyscript::clipboard::{copy, osc52_sequence};
use lazyscript::config::ClipboardSink;

#[test]
fn both_sinks_get_the_text() {
    let plan = copy("hello world", ClipboardSink::Both);
    assert_eq!(plan.terminal.as_deref(), Some("\x1b]52;c;aGVsbG8gd29ybGQ=\x07"));
    assert_eq!(plan.system.as_deref(), Some("hello world"));
}

#[test]
fn single_sinks_get_the_text_alone() {
    let system = copy("x", ClipboardSink::System);
    assert!(system.terminal.is_none());
    assert_eq!(system.system.as_deref(), Some("x"));
    let terminal = copy("あ", ClipboardSink::Osc52);
    assert_eq!(terminal.terminal.as_deref(), Some("\x1b]52;c;44GC\x07"));
    assert!(terminal.system.is_none());
}

#[test]
fn sequence_frames_what_is_encoded() {
    assert_eq!(osc52_sequence("QUJD"), "\x1b]52;c;QUJD\x07");
}
