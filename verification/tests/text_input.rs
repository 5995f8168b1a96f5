use lazyscript::keys::KeyCode;
use lazyscript::text_input::TextInput;

#[test]
fn insert_and_move_and_delete() {
    let mut t = TextInput::new();
    for c in "abc".chars() {
        t.handle_key(KeyCode::Char(c));
    }
    assert_eq!(t.as_str(), "abc");
    assert_eq!(t.cursor(), 3);

    t.handle_key(KeyCode::Left);
    t.handle_key(KeyCode::Left);
    t.handle_key(KeyCode::Char('X'));
    assert_eq!(t.as_str(), "aXbc");
    assert_eq!(t.cursor(), 2);

    t.handle_key(KeyCode::Backspace);
    assert_eq!(t.as_str(), "abc");

    t.handle_key(KeyCode::Home);
    t.handle_key(KeyCode::Delete);
    assert_eq!(t.as_str(), "bc");
    assert_eq!(t.cursor(), 0);

    t.handle_key(KeyCode::End);
    assert_eq!(t.cursor(), 2);
}

#[test]
fn non_edit_key_returns_false() {
    let mut t = TextInput::new();
    assert!(!t.handle_key(KeyCode::Enter));
    assert!(!t.handle_key(KeyCode::Esc));
    assert!(!t.handle_key(KeyCode::Tab));
}

#[test]
fn wide_characters_count_once() {
    let mut t = TextInput::seeded("日本語".to_string());
    assert_eq!(t.cursor(), 3);
    t.handle_key(KeyCode::Left);
    t.handle_key(KeyCode::Char('x'));
    assert_eq!(t.as_str(), "日本x語");
    t.handle_key(KeyCode::Backspace);
    t.handle_key(KeyCode::Backspace);
    assert_eq!(t.as_str(), "日語");
    assert_eq!(t.cursor(), 1);
    t.handle_key(KeyCode::Delete);
    assert_eq!(t.as_str(), "日");
}

#[test]
fn backspace_undoes_a_typed_character() {
    let mut t = TextInput::seeded("ab".to_string());
    t.handle_key(KeyCode::Left);
    assert!(t.handle_key(KeyCode::Char('é')));
    assert!(t.handle_key(KeyCode::Backspace));
    assert_eq!(t.as_str(), "ab");
    assert_eq!(t.cursor(), 1);
}

#[test]
fn ends_of_the_text_hold() {
    let mut t = TextInput::seeded("a".to_string());
    t.handle_key(KeyCode::Right);
    assert_eq!(t.cursor(), 1);
    t.handle_key(KeyCode::Delete);
    assert_eq!(t.as_str(), "a");
    t.handle_key(KeyCode::Home);
    t.handle_key(KeyCode::Left);
    assert_eq!(t.cursor(), 0);
    t.handle_key(KeyCode::Backspace);
    assert_eq!(t.as_str(), "a");
    t.clear();
    assert_eq!(t.as_str(), "");
    assert_eq!(t.cursor(), 0);
}
