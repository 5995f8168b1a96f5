use std::path::PathBuf;

use lazyscript::app::{App, Mode};
use lazyscript::config::Config;
use lazyscript::edit::EditField;
use lazyscript::events::{touches_scripts, Action, SaveRequest, StartRequest};
use lazyscript::grid::{Grid, GridCell};
use lazyscript::keys::{KeyCode, KeyModifiers};
use lazyscript::runner::{ProcEvent, ProcStatus};
use lazyscript::source::registry::{DirScan, Registry};
use lazyscript::source::{Shell, SourceError, SourceId, Surroundings, AD_HOC};

fn scan(scripts: &str) -> DirScan {
    DirScan {
        root: PathBuf::from("/p"),
        canonical_name: Some("p".to_string()),
        own_name: None,
        display: "/p".to_string(),
        has_package_json: true,
        package_json: Some(format!("{{\"scripts\":{scripts}}}")),
        scripts_json: None,
    }
}

fn app() -> App {
    let registry = Registry::discover(&vec![scan(r#"{"dev":"vite","test":"jest"}"#)]);
    App::new(registry, 80, 24, Config::default())
}

fn around() -> Surroundings {
    Surroundings { package_json: None, pnpm_lock: false, yarn_lock: false, shell: Shell::Posix(None) }
}

fn key(app: &mut App, c: char) -> Action {
    app.on_key(KeyCode::Char(c), KeyModifiers::none())
}

fn press(app: &mut App, code: KeyCode) -> Action {
    app.on_key(code, KeyModifiers::none())
}

fn start(action: Action) -> StartRequest {
    match action {
        Action::Start(request) => request,
        _ => panic!("nothing was started"),
    }
}

fn save(action: Action) -> SaveRequest {
    match action {
        Action::Save(request) => request,
        _ => panic!("nothing was saved"),
    }
}

/// Starts the selected script and says that it runs.
fn run(app: &mut App) -> u64 {
    let request = start(key(app, ' '));
    let launch = app.launch(request.dir_index, &request.script, &around()).unwrap();
    app.spawned(request.dir_index, &request.script, launch.id);
    launch.id
}

#[test]
fn control_c_quits_everywhere() {
    let ctrl_c = |app: &mut App| app.on_key(KeyCode::Char('c'), KeyModifiers::ctrl());
    let mut app = app();
    assert!(matches!(ctrl_c(&mut app), Action::Quit));
    key(&mut app, '!');
    assert!(matches!(ctrl_c(&mut app), Action::Quit));
    press(&mut app, KeyCode::Esc);
    key(&mut app, '/');
    assert!(matches!(ctrl_c(&mut app), Action::Quit));
    press(&mut app, KeyCode::Esc);
    assert!(matches!(key(&mut app, 'q'), Action::Quit));
}

#[test]
fn list_keys_move() {
    let mut app = app();
    assert_eq!(app.selected, 1);
    key(&mut app, 'j');
    assert_eq!(app.selected, 2);
    press(&mut app, KeyCode::Up);
    key(&mut app, 'h');
    assert_eq!(app.selected, 0);
    key(&mut app, 'l');
    assert_eq!(app.selected, 1);
    press(&mut app, KeyCode::Down);
    press(&mut app, KeyCode::Left);
    press(&mut app, KeyCode::Right);
    assert_eq!(app.selected, 1);
}

#[test]
fn z_folds() {
    let mut app = app();
    key(&mut app, 'h');
    let rows = app.rows.len();
    key(&mut app, 'z');
    key(&mut app, 'c');
    assert_eq!(app.rows.len(), rows - 2);
    key(&mut app, 'z');
    key(&mut app, 'c');
    assert_eq!(app.rows.len(), rows - 2);
    key(&mut app, 'z');
    key(&mut app, 'o');
    assert_eq!(app.rows.len(), rows);
    key(&mut app, 'z');
    key(&mut app, 'a');
    assert_eq!(app.rows.len(), rows - 2);
    press(&mut app, KeyCode::Enter);
    assert_eq!(app.rows.len(), rows);
    key(&mut app, 'z');
    key(&mut app, 'j');
    key(&mut app, 'a');
    assert!(matches!(app.mode, Mode::Edit(_)));
}

#[test]
fn space_starts_and_stops() {
    let mut app = app();
    let request = start(key(&mut app, ' '));
    assert_eq!(request.script.name, "dev");
    assert_eq!(request.kill, None);
    let launch = app.launch(request.dir_index, &request.script, &around()).unwrap();
    assert_eq!(launch.id, 1);
    assert_eq!(launch.spec.program, "npm");
    assert_eq!((launch.rows, launch.cols), (app.out_rows, app.out_cols));
    assert_eq!(launch.scrollback, 10_000);
    app.spawned(request.dir_index, &request.script, launch.id);
    assert_eq!(app.focused_id(), Some(1));
    assert_eq!(app.focused_proc().unwrap().status, ProcStatus::Running);

    assert!(matches!(press(&mut app, KeyCode::Enter), Action::Interrupt(1)));
    app.on_proc(ProcEvent::Exited { id: 1, status: ProcStatus::Exited(2) });
    assert_eq!(app.status_of(0, SourceId("package.json"), "dev"), Some(ProcStatus::Exited(2)));

    let again = start(key(&mut app, ' '));
    assert_eq!(again.kill, Some(1));
    assert_eq!(app.focused_id(), None);
    let launch = app.launch(again.dir_index, &again.script, &around()).unwrap();
    assert_eq!(launch.id, 2);
}

#[test]
fn scripts_have_processes_of_their_own() {
    let mut app = app();
    let first = run(&mut app);
    key(&mut app, 'j');
    let second = run(&mut app);
    assert!(first != second);
    app.on_proc(ProcEvent::Exited { id: second, status: ProcStatus::Failed });
    app.on_proc(ProcEvent::Exited { id: 99, status: ProcStatus::Failed });
    let id = SourceId("package.json");
    assert_eq!(app.status_of(0, id, "dev"), Some(ProcStatus::Running));
    assert_eq!(app.status_of(0, id, "test"), Some(ProcStatus::Failed));
    assert_eq!(app.status_of(0, id, "nope"), None);
    let again = start(key(&mut app, ' '));
    assert_eq!(again.kill, Some(second));
    assert_eq!(app.status_of(0, id, "dev"), Some(ProcStatus::Running));
}

#[test]
fn a_start_that_fails_is_reported() {
    let mut app = app();
    let request = start(key(&mut app, ' '));
    app.launch(request.dir_index, &request.script, &around()).unwrap();
    app.spawn_failed(&request.script.name, "no such file");
    assert_eq!(app.error.as_deref(), Some("failed to start `dev`: no such file"));
    let id = run(&mut app);
    assert_eq!(id, 2);
    assert_eq!(app.error, None);
}

#[test]
fn a_typed_command_is_started() {
    let mut app = app();
    key(&mut app, '!');
    for c in "  ls -l ".chars() {
        key(&mut app, c);
    }
    let request = start(press(&mut app, KeyCode::Enter));
    assert_eq!(request.script.name, "ls -l");
    assert_eq!(request.script.source, SourceId(AD_HOC));
    assert_eq!(request.dir_index, 0);
    assert!(matches!(app.mode, Mode::Normal));
    let launch = app.launch(0, &request.script, &around()).unwrap();
    assert_eq!(launch.spec.args, ["-i", "-c", "ls -l"]);
}

#[test]
fn a_blank_command_is_not_started() {
    let mut app = app();
    key(&mut app, '!');
    key(&mut app, ' ');
    assert!(matches!(press(&mut app, KeyCode::Enter), Action::Nothing));
    assert!(matches!(app.mode, Mode::Normal));
    key(&mut app, '!');
    key(&mut app, 'x');
    assert!(matches!(press(&mut app, KeyCode::Esc), Action::Nothing));
    assert!(matches!(app.mode, Mode::Normal));
    assert!(app.ad_hoc.is_empty());
}

#[test]
fn adding_asks_for_name_and_command() {
    let mut app = app();
    key(&mut app, 'a');
    press(&mut app, KeyCode::Enter);
    assert!(matches!(press(&mut app, KeyCode::Enter), Action::Nothing));
    press(&mut app, KeyCode::Tab);
    for c in " lint ".chars() {
        key(&mut app, c);
    }
    press(&mut app, KeyCode::Enter);
    for c in "eslint .".chars() {
        key(&mut app, c);
    }
    let request = save(press(&mut app, KeyCode::Enter));
    assert_eq!(request.original, None);
    assert_eq!(request.name, "lint");
    assert_eq!(request.command, "eslint .");
    assert_eq!(request.source, SourceId("package.json"));
    let text = app.save(&request, Some(r#"{"scripts":{"dev":"vite"}}"#)).unwrap();
    assert!(text.contains("\"lint\": \"eslint .\""));
    app.saved(Registry::discover(&vec![scan(r#"{"dev":"vite","test":"jest","lint":"eslint ."}"#)]));
    assert_eq!(app.selected_command(), Some("vite"));
    assert_eq!(app.rows.len(), 5);
}

#[test]
fn editing_starts_from_the_script() {
    let mut app = app();
    key(&mut app, 'e');
    match &app.mode {
        Mode::Edit(state) => {
            assert_eq!(state.original.as_deref(), Some("dev"));
            assert_eq!(state.name.as_str(), "dev");
            assert_eq!(state.command.as_str(), "vite");
            assert_eq!(state.field, EditField::Name);
        }
        _ => panic!("no dialog"),
    }
    key(&mut app, '2');
    press(&mut app, KeyCode::Tab);
    key(&mut app, '!');
    let request = save(press(&mut app, KeyCode::Enter));
    assert_eq!(request.original.as_deref(), Some("dev"));
    assert_eq!(request.name, "dev2");
    assert_eq!(request.command, "vite!");
    let text = app.save(&request, Some(r#"{"scripts":{"dev":"vite"}}"#)).unwrap();
    assert!(text.contains("\"dev2\": \"vite!\""));
    assert!(!text.contains("\"dev\""));
}

#[test]
fn a_save_that_fails_is_reported() {
    let mut app = app();
    let request = SaveRequest {
        dir_index: 7,
        source: SourceId("package.json"),
        original: None,
        name: "x".to_string(),
        command: "y".to_string(),
    };
    let error = app.save(&request, None).unwrap_err();
    assert_eq!(error, SourceError::Unknown { source: SourceId("package.json"), dir_index: 7 });
    app.save_failed(&error.message());
    assert_eq!(app.error.as_deref(), Some("save failed: unknown source: package.json (#7)"));
    app.saved(Registry::discover(&vec![scan("{}")]));
    assert_eq!(app.error, None);
}

#[test]
fn commands_are_neither_added_to_nor_edited() {
    let mut app = app();
    app.add_adhoc("ls".to_string());
    key(&mut app, 'e');
    assert!(matches!(app.mode, Mode::Normal));
    key(&mut app, 'a');
    assert!(matches!(app.mode, Mode::Normal));
}

#[test]
fn filter_keys_stay_in_the_filter() {
    let mut app = app();
    key(&mut app, '/');
    key(&mut app, 'q');
    assert_eq!(app.filter_query(), "q");
    press(&mut app, KeyCode::Backspace);
    key(&mut app, 't');
    press(&mut app, KeyCode::Enter);
    assert!(!app.is_filtering());
    assert_eq!(app.filter_query(), "t");
    assert_eq!(app.rows.len(), 2);
    key(&mut app, '/');
    assert_eq!(app.filter_query(), "");
    press(&mut app, KeyCode::Esc);
    assert_eq!(app.rows.len(), 4);
}

#[test]
fn output_is_frozen_for_copying() {
    let mut app = app();
    assert!(matches!(key(&mut app, 'v'), Action::Nothing));
    let id = run(&mut app);
    match key(&mut app, 'v') {
        Action::Freeze(frozen) => assert_eq!(frozen, id),
        _ => panic!("nothing was frozen"),
    }
    let mut row: Vec<GridCell> = Vec::new();
    for c in "hello".chars() {
        let mut cell = GridCell::blank();
        cell.symbol = c.to_string();
        row.push(cell);
    }
    app.enter_copy_mode(Grid { rows: vec![row], width: 5 });
    key(&mut app, 'v');
    key(&mut app, '$');
    match key(&mut app, 'y') {
        Action::Copy(text) => assert_eq!(text, "hello"),
        _ => panic!("nothing was copied"),
    }
    assert!(matches!(app.mode, Mode::Normal));
}

#[test]
fn leaving_copy_mode_copies_nothing() {
    let mut app = app();
    app.enter_copy_mode(Grid { rows: vec![vec![GridCell::blank()]], width: 1 });
    assert!(matches!(press(&mut app, KeyCode::Esc), Action::Nothing));
    assert!(matches!(app.mode, Mode::Copy(_)));
    assert!(matches!(key(&mut app, 'q'), Action::Nothing));
    assert!(matches!(app.mode, Mode::Normal));
}

#[test]
fn a_new_size_reaches_the_output() {
    let mut app = app();
    app.on_resize(120, 40);
    assert_eq!((app.out_cols, app.out_rows), (120 - 18 - 2, 34));
    app.on_rediscover(Registry::discover(&vec![scan(r#"{"a-rather-long-name":"x"}"#)]));
    assert_eq!(app.out_cols, 120 - 26 - 2);
}

#[test]
fn changes_of_script_files_matter() {
    let names = |list: &[&str]| list.iter().map(|n| n.to_string()).collect::<Vec<String>>();
    assert!(touches_scripts(&names(&["README.md", "package.json"])));
    assert!(touches_scripts(&names(&["scripts.json"])));
    assert!(!touches_scripts(&names(&["package-lock.json", "scripts.json.bak"])));
    assert!(!touches_scripts(&Vec::new()));
}

#[test]
fn a_script_of_an_unknown_source_is_not_launched() {
    let mut app = app();
    let request = start(key(&mut app, ' '));
    assert!(app.launch(5, &request.script, &around()).is_none());
    assert_eq!(app.next_id, 1);
}
