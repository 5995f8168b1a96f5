use lazyscript::app::App;
use lazyscript::config::Config;
use lazyscript::draw::Area;
use lazyscript::layout::{output_size, place_panes};
use lazyscript::source::registry::Registry;

fn at(x: u16, y: u16, width: u16, height: u16) -> Area {
    Area { x, y, width, height }
}

#[test]
fn panes_of_an_ordinary_terminal() {
    let panes = place_panes(at(0, 0, 80, 24), 18);
    assert_eq!(panes.scripts, at(0, 0, 18, 23));
    assert_eq!(panes.scripts_inside, at(2, 1, 14, 21));
    assert_eq!(panes.command, at(18, 0, 62, 3));
    assert_eq!(panes.output, at(18, 3, 62, 20));
    assert_eq!(panes.output_inside, at(19, 4, 60, 18));
    assert_eq!(panes.hints, at(0, 23, 80, 1));
}

#[test]
fn panes_elsewhere_than_in_the_corner() {
    let panes = place_panes(at(5, 7, 40, 10), 12);
    assert_eq!(panes.scripts, at(5, 7, 12, 9));
    assert_eq!(panes.command, at(17, 7, 28, 3));
    assert_eq!(panes.output, at(17, 10, 28, 6));
    assert_eq!(panes.hints, at(5, 16, 40, 1));
}

#[test]
fn panes_at_the_limit_of_coordinates() {
    let panes = place_panes(at(0, 0, 65535, 65535), 65535);
    assert_eq!(panes.scripts, at(0, 0, 65535, 65534));
    assert_eq!(panes.output, at(65535, 3, 0, 65531));
    assert_eq!(panes.output_inside, at(65535, 4, 0, 65529));
    let panes = place_panes(at(65530, 65530, 10, 10), 2);
    assert_eq!(panes.scripts, at(65530, 65530, 2, 4));
    assert_eq!(panes.output, at(65532, 65533, 3, 1));
    assert_eq!(panes.output_inside, at(65533, 65534, 1, 0));
    assert_eq!(panes.hints, at(65530, 65534, 10, 1));
}

#[test]
fn the_output_is_drawn_in_the_size_of_its_process() {
    for cols in 0..45 {
        for rows in 0..12 {
            for list in [0, 1, 12, 18, 44] {
                let panes = place_panes(at(0, 0, cols, rows), list);
                let drawn = panes.output_inside;
                assert_eq!(
                    output_size(cols, rows, list),
                    (drawn.width.max(1), drawn.height.max(1)),
                    "{cols} {rows} {list}"
                );
                assert_eq!(panes.scripts.width, list.min(cols));
                assert_eq!(panes.scripts.width + panes.output.width, cols);
                assert_eq!(panes.hints.height, rows.min(1));
                assert_eq!(panes.command.height, rows.saturating_sub(1).min(3));
                assert_eq!(
                    panes.command.height + panes.output.height + panes.hints.height,
                    rows
                );
            }
        }
    }
}

#[test]
fn an_application_places_its_panes() {
    let app = App::new(Registry::from_directories(vec![]), 100, 30, Config::default());
    let panes = app.pane_areas(at(0, 0, 100, 30));
    assert_eq!(panes.scripts.width, 32);
    assert_eq!((panes.output_inside.width, panes.output_inside.height), (66, 24));
    assert_eq!((app.out_cols, app.out_rows), (66, 24));
}
