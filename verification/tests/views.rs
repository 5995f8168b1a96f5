use lazyscript::app::{App, Mode};
use lazyscript::config::{Config, Theme};
use lazyscript::draw::Area;
use lazyscript::edit::{EditField, EditOutcome, EditState};
use lazyscript::grid::{Grid, GridCell};
use lazyscript::keys::{KeyCode, KeyModifiers};
use lazyscript::lines::{cursor_spans, wrap_line_chars, Line, Span};
use lazyscript::modals::{centered_rect, edit_title, modal_width, run_modal};
use lazyscript::number::{decimal, decimal_signed, parse_usize};
use lazyscript::panes::{border_style, position_style, status_icon, status_label, OutputBody};
use lazyscript::runner::ProcStatus;
use lazyscript::source::registry::{DirGroup, Registry, SourceGroup};
use lazyscript::source::{Script, SourceId};
use lazyscript::style::{Color, Style};
use lazyscript::text_input::TextInput;

fn group(id: &'static str, names: &[&str]) -> SourceGroup {
    SourceGroup {
        id: SourceId(id),
        label: id.to_string(),
        scripts: names
            .iter()
            .map(|name| Script {
                name: name.to_string(),
                source: SourceId(id),
                command: format!("echo {name}"),
            })
            .collect(),
    }
}

fn app() -> App {
    let registry = Registry::from_directories(vec![DirGroup {
        label: "dir".to_string(),
        source_groups: vec![group("package.json", &["dev", "build", "test"])],
    }]);
    App::new(registry, 80, 24, Config::default())
}

fn text(line: &Line) -> String {
    line.spans.iter().map(|s| s.text.as_str()).collect()
}

fn texts(lines: &[Line]) -> Vec<String> {
    lines.iter().map(text).collect()
}

fn start(app: &mut App, id: u64) {
    let (dir_index, script) = app.selected_script().unwrap();
    app.next_id = id + 1;
    app.spawned(dir_index, &script, id);
}

#[test]
fn status_in_words_and_signs() {
    let theme = Theme::default();
    assert_eq!(status_label(ProcStatus::Running), "running");
    assert_eq!(status_label(ProcStatus::Exited(0)), "exited");
    assert_eq!(status_label(ProcStatus::Exited(-3)), "failed (-3)");
    assert_eq!(status_label(ProcStatus::Exited(127)), "failed (127)");
    assert_eq!(status_label(ProcStatus::Failed), "failed");
    assert_eq!(status_icon(Some(ProcStatus::Running), &theme), Some(("●", Color::Green)));
    assert_eq!(status_icon(Some(ProcStatus::Exited(0)), &theme), Some(("✓", Color::Green)));
    assert_eq!(status_icon(Some(ProcStatus::Exited(1)), &theme), Some(("✗", Color::Red)));
    assert_eq!(status_icon(Some(ProcStatus::Failed), &theme), Some(("✗", Color::Red)));
    assert_eq!(status_icon(None, &theme), None);
}

#[test]
fn borders_show_the_focus() {
    assert_eq!(border_style(true, Color::Cyan), Style::plain().fg(Color::Cyan));
    assert_eq!(border_style(false, Color::Cyan), Style::plain());
    let position = position_style(&Theme::default());
    assert_eq!(position, Style::plain().bg(Color::Yellow).fg(Color::Black).bold());
}

#[test]
fn rows_are_drawn_with_their_status() {
    let mut app = app();
    start(&mut app, 1);
    let pane = app.scripts_pane(10);
    assert_eq!(texts(&pane.lines), ["  ▾ package.json", "    dev ●", "    build", "    test"]);
    assert_eq!(pane.lines[1].style, Style::plain().reversed());
    assert_eq!(pane.lines[0].style, Style::plain());
    assert!(pane.lines[0].spans[2].style.bold);
    assert_eq!(pane.lines[1].spans[3].style.fg, Some(Color::Green));
    app.config.theme.selection = Some(Color::Blue);
    assert_eq!(app.script_line(1).style, Style::plain().bg(Color::Blue));
}

#[test]
fn commands_stand_further_out() {
    let mut app = app();
    app.add_adhoc("ls".to_string());
    app.select_header();
    let pane = app.scripts_pane(10);
    assert_eq!(texts(&pane.lines)[4..], ["▾ commands", "  ls"]);
    app.toggle_collapse_current();
    assert_eq!(texts(&app.scripts_pane(10).lines)[4], "▸ commands");
}

#[test]
fn the_selected_row_is_in_view() {
    let mut app = app();
    app.select_next();
    app.select_next();
    assert_eq!(app.selected, 3);
    assert_eq!(texts(&app.scripts_pane(2).lines), ["    build", "    test"]);
    assert_eq!(texts(&app.scripts_pane(1).lines), ["    test"]);
    assert!(app.scripts_pane(0).lines.is_empty());
}

#[test]
fn nothing_found_is_said() {
    let app = App::new(Registry::from_directories(Vec::new()), 80, 24, Config::default());
    let pane = app.scripts_pane(5);
    assert_eq!(
        texts(&pane.lines),
        ["No scripts found.", "(no package.json with scripts here)"]
    );
    assert_eq!(pane.style, Style::plain().fg(Color::DarkGray));
}

#[test]
fn the_box_says_what_is_selected() {
    let paths = vec!["/a".to_string(), "/b".to_string()];
    let mut app = app();
    assert_eq!(
        app.command_box(&paths),
        (" Dir: /a File: package.json ".to_string(), "Command: echo dev".to_string())
    );
    app.select_header();
    assert_eq!(
        app.command_box(&paths),
        (" Dir: /a ".to_string(), "File: package.json".to_string())
    );
    let registry = Registry::from_directories(vec![
        DirGroup { label: "a".to_string(), source_groups: vec![group("package.json", &["x"])] },
        DirGroup { label: "b".to_string(), source_groups: Vec::new() },
    ]);
    let mut multi = App::new(registry, 80, 24, Config::default());
    multi.select_next();
    assert_eq!(multi.command_box(&paths), (String::new(), "Dir: /b".to_string()));
    assert_eq!(multi.command_box(&Vec::new()), (String::new(), "Dir: ?".to_string()));
    let none = App::new(Registry::from_directories(Vec::new()), 80, 24, Config::default());
    assert_eq!(none.command_box(&paths), (" Command ".to_string(), String::new()));
}

#[test]
fn the_output_has_a_title_and_a_body() {
    let mut app = app();
    assert_eq!(app.output_title(), " Output");
    assert!(matches!(app.output_body(), OutputBody::Message(m)
        if m == "Press enter/space to run the selected script."));
    app.spawn_failed("dev", "gone");
    assert!(matches!(app.output_body(), OutputBody::Message(m)
        if m == "failed to start `dev`: gone"));
    start(&mut app, 4);
    assert_eq!(app.output_title(), " Output: dev [running]");
    assert!(matches!(app.output_body(), OutputBody::Screen(4)));
    assert!(app.scripts_focused());
    assert_eq!(app.output_position(), None);
    app.enter_copy_mode(Grid { rows: vec![vec![GridCell::blank()], vec![GridCell::blank()]], width: 1 });
    assert_eq!(app.output_title(), " Output: dev [running] — copy-mode");
    assert_eq!(app.output_position().as_deref(), Some(" 1/2 "));
    assert!(matches!(app.output_body(), OutputBody::Copy));
    assert!(!app.scripts_focused());
}

#[test]
fn hints_follow_the_mode() {
    let mut app = app();
    let bar = Style::plain().reversed();
    assert!(text(&app.bar()).starts_with(" j/k: move"));
    assert_eq!(app.bar().style, bar);
    app.begin_run();
    assert!(app.hint().starts_with(" run command — "));
    app.begin_add();
    assert!(app.hint().starts_with(" add script — "));
    app.begin_edit();
    assert!(app.hint().starts_with(" edit script — "));
    app.mode = Mode::Normal;
    app.start_filter();
    app.filter_key(KeyCode::Char('d'));
    let line = app.bar();
    assert_eq!(text(&line), " filter: d    (Enter: keep   Esc: clear) ");
    assert_eq!(line.spans[0].style, bar);
    assert_eq!(line.spans[2].style, Style::plain().bg(Color::Yellow).fg(Color::Black));
}

#[test]
fn copy_hints_count_matches() {
    let mut app = app();
    let cells: Vec<GridCell> = "abab"
        .chars()
        .map(|c| {
            let mut cell = GridCell::blank();
            cell.symbol = c.to_string();
            cell
        })
        .collect();
    app.enter_copy_mode(Grid { rows: vec![cells], width: 4 });
    assert!(app.hint().starts_with(" hjkl: move"));
    for c in "/b".chars() {
        app.on_key(KeyCode::Char(c), KeyModifiers::none());
    }
    assert_eq!(app.hint(), " /b   2 matches   (Enter: jump   Esc: cancel) ");
    app.on_key(KeyCode::Enter, KeyModifiers::none());
    assert_eq!(app.hint(), " [1/2] \"b\"   n/N: next   y: yank   Esc: clear   q: exit ");
}

#[test]
fn cursors_stand_on_a_character_or_a_blank() {
    let base = Style::plain();
    let mark = Style::plain().reversed();
    let inside: Vec<String> =
        cursor_spans("abc", 1, base, mark).into_iter().map(|s| s.text).collect();
    assert_eq!(inside, ["a", "b", "c"]);
    let last: Vec<String> = cursor_spans("abc", 2, base, mark).into_iter().map(|s| s.text).collect();
    assert_eq!(last, ["ab", "c"]);
    let behind = cursor_spans("abc", 9, base, mark);
    assert_eq!(behind[0].text, "abc");
    assert_eq!(behind[1].text, " ");
    assert_eq!(behind[1].style, mark);
    assert_eq!(behind.len(), 2);
}

#[test]
fn lines_are_broken_by_characters() {
    let red = Style::plain().fg(Color::Red);
    let line = Line::from_spans(vec![
        Span::raw("ab"),
        Span::raw("c"),
        Span::styled("def", red),
        Span::raw(""),
        Span::raw("g"),
    ]);
    let lines = wrap_line_chars(&line, 4);
    assert_eq!(texts(&lines), ["abcd", "efg"]);
    assert_eq!(lines[0].spans.len(), 2);
    assert_eq!(lines[0].spans[0].text, "abc");
    assert_eq!(lines[0].spans[1].style, red);
    assert_eq!(lines[1].spans[0].text, "ef");
    assert_eq!(texts(&wrap_line_chars(&line, 0)), ["a", "b", "c", "d", "e", "f", "g"]);
    assert_eq!(texts(&wrap_line_chars(&line, 7)), ["abcdefg"]);
    let empty = Line::from_spans(Vec::new());
    assert_eq!(texts(&wrap_line_chars(&empty, 4)), [""]);
}

#[test]
fn dialogs_fit_their_content() {
    assert_eq!(modal_width(10, 200, 30), 30);
    assert_eq!(modal_width(50, 200, 30), 52);
    assert_eq!(modal_width(500, 200, 30), 100);
    assert_eq!(modal_width(500, 40, 30), 30);
    assert_eq!(modal_width(0, 10, 30), 30);
    assert_eq!(modal_width(1, 8, 3), 3);
    assert_eq!(modal_width(2, 8, 3), 4);
    assert_eq!(modal_width(65536, 200, 30), 100);
    assert_eq!(modal_width(u128::MAX, 65535, 30), 32767);
    let area = Area { x: 0, y: 0, width: 80, height: 24 };
    assert_eq!(centered_rect(30, 3, area), Area { x: 25, y: 10, width: 30, height: 3 });
    assert_eq!(centered_rect(100, 30, area), area);
}

#[test]
fn the_run_dialog_grows_with_its_command() {
    let area = Area { x: 0, y: 0, width: 80, height: 24 };
    let theme = Theme::default();
    let short = run_modal(&TextInput::seeded("ls".to_string()), area, &theme);
    assert_eq!(short.area, Area { x: 25, y: 10, width: 30, height: 3 });
    assert_eq!(short.inside, Area { x: 26, y: 11, width: 28, height: 1 });
    assert_eq!(texts(&short.lines), ["ls "]);
    let long = run_modal(&TextInput::seeded("x".repeat(76)), area, &theme);
    assert_eq!((long.area.width, long.area.height), (40, 5));
    assert_eq!(long.lines.len(), 3);
    assert_eq!(text(&long.lines[2]), " ");
    let longest = run_modal(&TextInput::seeded("x".repeat(65537)), area, &theme);
    assert_eq!((longest.area.width, longest.area.height), (40, 24));
    assert_eq!(longest.lines.len(), 1725);
}

#[test]
fn the_edit_dialog_shows_both_fields() {
    let app = app();
    let state = EditState {
        dir_index: 0,
        source: SourceId("package.json"),
        original: None,
        name: TextInput::seeded("dev".to_string()),
        command: TextInput::seeded("vite".to_string()),
        field: EditField::Name,
    };
    let area = Area { x: 0, y: 0, width: 80, height: 24 };
    let modal = app.edit_modal(&state, &vec!["/p".to_string()], area);
    assert_eq!(
        texts(&modal.lines),
        ["Source:  /p/package.json", "", "Name:    dev ", "Command: vite"]
    );
    assert_eq!((modal.area.width, modal.area.height), (40, 6));
    assert_eq!(modal.lines[2].spans[0].style, Style::plain().fg(Color::DarkGray));
    assert_eq!(edit_title(&state), " Add script ");
    let elsewhere = EditState { dir_index: 3, original: Some("dev".to_string()), ..state };
    let modal = app.edit_modal(&elsewhere, &vec!["/p".to_string()], area);
    assert_eq!(text(&modal.lines[0]), "Source:  ?/package.json");
    assert_eq!(edit_title(&elsewhere), " Edit script ");
}

#[test]
fn edit_keys_go_to_the_field() {
    let mut state = EditState {
        dir_index: 0,
        source: SourceId("package.json"),
        original: None,
        name: TextInput::new(),
        command: TextInput::new(),
        field: EditField::Name,
    };
    assert_eq!(state.handle_key(KeyCode::Enter), EditOutcome::Stay);
    assert_eq!(state.field, EditField::Command);
    assert_eq!(state.handle_key(KeyCode::Char('x')), EditOutcome::Stay);
    assert_eq!(state.handle_key(KeyCode::Enter), EditOutcome::Stay);
    assert_eq!(state.handle_key(KeyCode::Tab), EditOutcome::Stay);
    assert_eq!(state.handle_key(KeyCode::Char('n')), EditOutcome::Stay);
    assert_eq!(state.handle_key(KeyCode::Tab), EditOutcome::Stay);
    assert_eq!(state.handle_key(KeyCode::Enter), EditOutcome::Commit);
    assert_eq!(state.name.as_str(), "n");
    assert_eq!(state.command.as_str(), "x");
    assert_eq!(state.handle_key(KeyCode::Esc), EditOutcome::Cancel);
}

#[test]
fn numbers_are_written_and_read() {
    assert_eq!(decimal(0), "0");
    assert_eq!(decimal(u64::MAX), "18446744073709551615");
    assert_eq!(decimal_signed(i32::MIN), "-2147483648");
    assert_eq!(decimal_signed(7), "7");
    assert_eq!(parse_usize("42"), Some(42));
    assert_eq!(parse_usize(""), None);
    assert_eq!(parse_usize("99999999999999999999999"), None);
}
