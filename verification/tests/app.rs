use lazyscript::app::App;
use lazyscript::config::Config;
use lazyscript::keys::KeyCode;
use lazyscript::rows::Row;
use lazyscript::source::registry::{DirGroup, Registry, SourceGroup};
use lazyscript::source::{Script, SourceId};

type Dirs<'a> = Vec<(&'static str, Vec<(&'static str, Vec<&'a str>)>)>;

fn registry(dirs: Dirs) -> Registry {
    let directories = dirs
        .into_iter()
        .map(|(label, sources)| DirGroup {
            label: label.to_string(),
            source_groups: sources
                .into_iter()
                .map(|(id, scripts)| SourceGroup {
                    id: SourceId(id),
                    label: id.to_string(),
                    scripts: scripts
                        .into_iter()
                        .map(|name| Script {
                            name: name.to_string(),
                            source: SourceId(id),
                            command: format!("echo {name}"),
                        })
                        .collect(),
                })
                .collect(),
        })
        .collect();
    Registry::from_directories(directories)
}

fn app() -> App {
    App::new(
        registry(vec![(
            "dir",
            vec![
                ("package.json", vec!["dev", "build", "test"]),
                ("scripts.json", vec!["deploy"]),
            ],
        )]),
        80,
        24,
        Config::default(),
    )
}

fn multi_app() -> App {
    App::new(
        registry(vec![
            ("a", vec![("package.json", vec!["dev", "build"])]),
            ("b", vec![("scripts.json", vec!["deploy"])]),
        ]),
        80,
        24,
        Config::default(),
    )
}

fn names(app: &App) -> Vec<String> {
    app.rows
        .iter()
        .map(|r| match r {
            Row::DirHeader { label, collapsed, .. } => {
                format!("[D{}{}]", if *collapsed { "+" } else { "-" }, label)
            }
            Row::SourceHeader { label, collapsed, .. } => {
                format!("[{}{}]", if *collapsed { "+" } else { "-" }, label)
            }
            Row::Script { name, .. } => name.clone(),
        })
        .collect()
}

#[test]
fn rows_have_headers_and_scripts() {
    let app = app();
    assert_eq!(
        names(&app),
        ["[-package.json]", "dev", "build", "test", "[-scripts.json]", "deploy"]
    );
}

#[test]
fn selection_starts_on_first_script() {
    let app = app();
    assert_eq!(app.selected_script().map(|(_, s)| s.name), Some("dev".into()));
}

#[test]
fn selected_command_reflects_script_body() {
    let app = app();
    assert_eq!(app.selected_command(), Some("echo dev"));
}

#[test]
fn scripts_width_fits_widest_label() {
    let app = app();
    assert_eq!(app.scripts_width(), 18);
}

#[test]
fn navigation_visits_headers_and_scripts() {
    let mut app = app();
    assert_eq!(app.selected, 1);
    app.select_prev();
    assert_eq!(app.selected, 0);
    assert!(app.selected_is_header());
    for _ in 0..5 {
        app.select_next();
    }
    assert_eq!(app.selected, 5);
    assert_eq!(app.selected_script().map(|(_, s)| s.name), Some("deploy".into()));
    app.select_next();
    assert_eq!(app.selected, 5);
}

#[test]
fn reload_updates_list_and_keeps_selection() {
    let mut app = app();
    app.select_next();
    assert_eq!(app.selected_script().map(|(_, s)| s.name), Some("build".into()));
    app.reload(registry(vec![(
        "dir",
        vec![
            ("package.json", vec!["dev", "build", "lint", "test"]),
            ("scripts.json", vec!["deploy"]),
        ],
    )]));
    assert_eq!(app.selected_script().map(|(_, s)| s.name), Some("build".into()));
    assert!(names(&app).iter().any(|n| n == "lint"));
}

#[test]
fn filter_limits_to_matching_scripts() {
    let mut app = app();
    app.start_filter();
    for c in "de".chars() {
        app.filter_key(KeyCode::Char(c));
    }
    assert_eq!(names(&app), ["[-package.json]", "dev", "[-scripts.json]", "deploy"]);
    app.cancel_filter();
    assert!(names(&app).iter().any(|n| n == "build"));
}

#[test]
fn select_header_and_first_child() {
    let mut app = app();
    app.select_header();
    assert!(app.selected_is_header());
    assert_eq!(app.selected, 0);
    app.select_first_child();
    assert_eq!(app.selected_script().map(|(_, s)| s.name), Some("dev".into()));
}

#[test]
fn collapse_header_hides_its_scripts() {
    let mut app = app();
    app.select_prev();
    assert!(app.selected_is_header());
    app.toggle_collapse_current();
    assert_eq!(names(&app), ["[+package.json]", "[-scripts.json]", "deploy"]);
    assert_eq!(app.selected, 0);
    app.toggle_collapse_current();
    assert_eq!(
        names(&app),
        ["[-package.json]", "dev", "build", "test", "[-scripts.json]", "deploy"]
    );
}

#[test]
fn multi_dir_emits_dir_headers() {
    let app = multi_app();
    assert_eq!(
        names(&app),
        ["[D-a]", "[-package.json]", "dev", "build", "[D-b]", "[-scripts.json]", "deploy"]
    );
}

#[test]
fn multi_dir_h_steps_up_to_dir_header() {
    let mut app = multi_app();
    assert_eq!(app.selected, 2);
    app.select_header();
    assert_eq!(app.selected, 1);
    app.select_header();
    assert_eq!(app.selected, 0);
    app.select_header();
    assert_eq!(app.selected, 0);
}

#[test]
fn multi_dir_l_drills_down_dir_then_source() {
    let mut app = multi_app();
    app.select_prev();
    app.select_prev();
    assert_eq!(app.selected, 0);
    app.select_first_child();
    assert_eq!(app.selected, 1);
    app.select_first_child();
    assert_eq!(app.selected, 2);
    assert_eq!(app.selected_script().map(|(_, s)| s.name), Some("dev".into()));
}

#[test]
fn multi_dir_collapse_dir_hides_all_children() {
    let mut app = multi_app();
    app.select_prev();
    app.select_prev();
    app.toggle_collapse_current();
    assert_eq!(names(&app), ["[D+a]", "[D-b]", "[-scripts.json]", "deploy"]);
}

#[test]
fn l_opens_what_is_folded_up() {
    let mut app = multi_app();
    app.select_header();
    app.set_collapse_current(true);
    assert_eq!(names(&app)[..3], ["[D-a]", "[+package.json]", "[D-b]"]);
    app.select_first_child();
    assert_eq!(app.selected, 2);
    assert_eq!(names(&app)[1], "[-package.json]");
    app.set_collapse_current(true);
    assert_eq!(names(&app)[1], "[-package.json]");
}

#[test]
fn filter_ignores_case_and_opens_headings() {
    let mut app = multi_app();
    app.select_header();
    app.set_collapse_current(true);
    app.select_header();
    app.set_collapse_current(true);
    assert_eq!(names(&app), ["[D+a]", "[D-b]", "[-scripts.json]", "deploy"]);
    app.start_filter();
    for c in "BUI".chars() {
        app.filter_key(KeyCode::Char(c));
    }
    assert_eq!(names(&app), ["[D-a]", "[-package.json]", "build"]);
    assert_eq!(app.filter_query(), "BUI");
    assert_eq!(app.filter_cursor(), 3);
    app.confirm_filter();
    assert!(!app.is_filtering());
    assert_eq!(names(&app).len(), 3);
    app.cancel_filter();
    assert_eq!(names(&app), ["[D+a]", "[D-b]", "[-scripts.json]", "deploy"]);
}

#[test]
fn filter_without_matches_lists_nothing() {
    let mut app = app();
    app.start_filter();
    app.filter_key(KeyCode::Char('?'));
    assert!(app.rows.is_empty());
    assert_eq!(app.selected, 0);
    assert!(app.selected_script().is_none());
    assert!(!app.selected_is_header());
    app.select_next();
    app.select_prev();
    app.select_header();
    app.select_first_child();
    app.toggle_collapse_current();
    assert_eq!(app.selected, 0);
}

#[test]
fn commands_are_listed_last_and_once() {
    let mut app = multi_app();
    app.add_adhoc("ls".to_string());
    app.add_adhoc("pwd".to_string());
    app.add_adhoc("ls".to_string());
    let rows = names(&app);
    assert_eq!(rows[7..], ["[-commands]", "ls", "pwd"]);
    assert_eq!(app.selected, 8);
    assert_eq!(app.selected_command(), Some("ls"));
    let (dir_index, script) = app.selected_script().unwrap();
    assert_eq!(dir_index, 0);
    assert_eq!(script.command, "ls");
}

#[test]
fn commands_belong_to_no_directory() {
    let mut app = multi_app();
    app.add_adhoc("ls".to_string());
    assert_eq!(app.selected, 8);
    app.select_header();
    assert_eq!(app.selected, 7);
    app.select_header();
    assert_eq!(app.selected, 7);
    app.select_first_child();
    assert_eq!(app.selected, 8);
}

#[test]
fn nothing_stands_below_an_empty_directory() {
    let mut app = App::new(
        registry(vec![("a", vec![("package.json", vec!["dev"])]), ("b", vec![])]),
        80,
        24,
        Config::default(),
    );
    app.add_adhoc("ls".to_string());
    assert_eq!(names(&app), ["[D-a]", "[-package.json]", "dev", "[D-b]", "[-commands]", "ls"]);
    app.selected = 3;
    app.select_first_child();
    assert_eq!(app.selected, 3);
    app.select_header();
    assert_eq!(app.selected, 3);
}

#[test]
fn first_child_and_back() {
    let mut app = multi_app();
    app.selected = 0;
    app.toggle_collapse_current();
    app.select_first_child();
    assert_eq!(app.selected, 1);
    assert_eq!(names(&app)[..3], ["[D-a]", "[-package.json]", "dev"]);
    app.select_header();
    assert_eq!(app.selected, 0);
    app.select_first_child();
    app.select_first_child();
    assert_eq!(app.selected, 2);
    app.select_first_child();
    assert_eq!(app.selected, 2);
    app.select_header();
    assert_eq!(app.selected, 1);
}

#[test]
fn a_command_keeps_its_place_when_it_is_run_again() {
    let mut app = app();
    for command in ["ls", "pwd", "ls"] {
        app.add_adhoc(command.to_string());
    }
    assert_eq!(names(&app)[6..], ["[-commands]", "ls", "pwd"]);
    assert_eq!(app.selected, 7);
    app.add_adhoc("date".to_string());
    assert_eq!(names(&app)[6..], ["[-commands]", "ls", "pwd", "date"]);
    assert_eq!(app.selected, 9);
}

#[test]
fn a_cancelled_filter_lists_everything_again() {
    let mut app = multi_app();
    app.selected = 0;
    app.set_collapse_current(true);
    app.set_collapse_current(true);
    let folded = names(&app);
    app.start_filter();
    app.filter_key(KeyCode::Char('d'));
    app.confirm_filter();
    assert_ne!(names(&app), folded);
    app.start_filter();
    app.filter_key(KeyCode::Char('x'));
    app.cancel_filter();
    assert_eq!(names(&app), folded);
    app.selected = 0;
    app.set_collapse_current(false);
    assert_eq!(names(&app), names(&multi_app()));
}

#[test]
fn selection_moves_back_when_rows_vanish() {
    let mut app = app();
    for _ in 0..9 {
        app.select_next();
    }
    app.reload(registry(vec![("dir", vec![("package.json", vec!["dev"])])]));
    assert_eq!(app.selected, 1);
    assert_eq!(names(&app), ["[-package.json]", "dev"]);
}

#[test]
fn empty_registry_has_a_modest_width() {
    let app = App::new(Registry::from_directories(Vec::new()), 100, 24, Config::default());
    assert_eq!(app.scripts_width(), 32);
    let narrow = App::new(Registry::from_directories(Vec::new()), 40, 24, Config::default());
    assert_eq!(narrow.scripts_width(), 16);
    let tiny = App::new(Registry::from_directories(Vec::new()), 10, 3, Config::default());
    assert_eq!(tiny.scripts_width(), 12);
    assert_eq!((tiny.out_cols, tiny.out_rows), (1, 1));
}

#[test]
fn output_takes_what_the_list_leaves() {
    let app = app();
    assert_eq!((app.out_cols, app.out_rows), (80 - 18 - 2, 24 - 1 - 3 - 2));
    let multi = multi_app();
    assert_eq!(multi.scripts_width(), 20);
}

#[test]
fn wide_names_are_cut_at_two_fifths() {
    let app = App::new(
        registry(vec![("d", vec![("package.json", vec!["a-very-long-name-for-a-script-indeed"])])]),
        60,
        24,
        Config::default(),
    );
    assert_eq!(app.scripts_width(), 24);
    let wide = App::new(
        registry(vec![("d", vec![("package.json", vec!["a-very-long-name-for-a-script-indeed"])])]),
        65535,
        24,
        Config::default(),
    );
    assert_eq!(wide.scripts_width(), 36 + 2 + 2 + 4);
}
