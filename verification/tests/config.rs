use std::path::PathBuf;

use lazyscript::config::{
    config_path, load, ClipboardSink, Config, RawConfig, RawTheme, Theme, DEFAULT_SCROLLBACK,
};
use lazyscript::style::Color;

fn raw() -> RawConfig {
    RawConfig {
        theme: RawTheme {
            cursor: None,
            search: None,
            running: None,
            failed: None,
            focus: None,
            selection: None,
        },
        clipboard: None,
        scrollback: None,
    }
}

#[test]
fn parses_theme_clipboard_scrollback() {
    let mut file = raw();
    file.theme.cursor = Some("#ff0000".to_string());
    file.theme.running = Some("blue".to_string());
    file.clipboard = Some("system".to_string());
    file.scrollback = Some(500);
    let cfg = file.into_config();
    assert_eq!(cfg.theme.cursor, Color::Rgb(255, 0, 0));
    assert_eq!(cfg.theme.running, Color::Blue);
    assert_eq!(cfg.theme.search, Theme::default().search);
    assert!(matches!(cfg.clipboard, ClipboardSink::System));
    assert_eq!(cfg.scrollback, 500);
}

#[test]
fn empty_json_yields_defaults() {
    let cfg = raw().into_config();
    assert_eq!(cfg.scrollback, 10_000);
    assert!(matches!(cfg.clipboard, ClipboardSink::Both));
    assert_eq!(cfg.theme.cursor, Color::Yellow);
}

#[test]
fn invalid_color_falls_back() {
    let mut file = raw();
    file.theme.cursor = Some("not-a-color".to_string());
    let cfg = file.into_config();
    assert_eq!(cfg.theme.cursor, Color::Yellow);
}

#[test]
fn selection_has_no_default_color() {
    assert_eq!(raw().into_config().theme.selection, None);
    let mut file = raw();
    file.theme.selection = Some("42".to_string());
    assert_eq!(file.into_config().theme.selection, Some(Color::Indexed(42)));
    let mut broken = raw();
    broken.theme.selection = Some("nope".to_string());
    assert_eq!(broken.into_config().theme.selection, None);
}

#[test]
fn colors_are_read_by_name_and_number() {
    let mut file = raw();
    file.theme.search = Some("lightgreen".to_string());
    file.theme.failed = Some("#0a0b0c".to_string());
    file.theme.focus = Some("7".to_string());
    let theme = file.into_config().theme;
    assert_eq!(theme.search, Color::LightGreen);
    assert_eq!(theme.failed, Color::Rgb(10, 11, 12));
    assert_eq!(theme.focus, Color::Indexed(7));
    assert_eq!(theme.cursor, Color::Yellow);
}

#[test]
fn clipboard_names() {
    let mut file = raw();
    file.clipboard = Some("osc52".to_string());
    assert_eq!(file.into_config().clipboard, ClipboardSink::Osc52);
    let mut other = raw();
    other.clipboard = Some("elsewhere".to_string());
    assert_eq!(other.into_config().clipboard, ClipboardSink::Both);
}

#[test]
fn zero_scrollback_is_the_default() {
    let mut file = raw();
    file.scrollback = Some(0);
    assert_eq!(file.into_config().scrollback, DEFAULT_SCROLLBACK);
    let mut one = raw();
    one.scrollback = Some(1);
    assert_eq!(one.into_config().scrollback, 1);
}

#[test]
fn missing_file_yields_defaults() {
    assert_eq!(load(None), Config::default());
    let mut file = raw();
    file.scrollback = Some(9);
    assert_eq!(load(Some(file)).scrollback, 9);
}

#[test]
fn settings_path() {
    let both = config_path(Some(PathBuf::from("/x")), Some(PathBuf::from("/h"))).unwrap();
    assert_eq!(both.base, PathBuf::from("/x"));
    assert_eq!(both.parts, ["lazyscript", "setting.json"]);
    let home = config_path(None, Some(PathBuf::from("/h"))).unwrap();
    assert_eq!(home.base, PathBuf::from("/h"));
    assert_eq!(home.parts, [".config", "lazyscript", "setting.json"]);
    assert!(config_path(None, None).is_none());
}
