use lazyscript::draw::{Area, DrawCell};
use lazyscript::screen::render_screen;
use lazyscript::style::Color;

struct Drawn {
    cells: Vec<DrawCell>,
}

impl Drawn {
    fn symbol(&self, x: u16, y: u16) -> &str {
        self.cells
            .iter()
            .find(|c| c.x == x && c.y == y)
            .map(|c| c.symbol.as_str())
            .unwrap_or(" ")
    }

    fn cell(&self, x: u16, y: u16) -> &DrawCell {
        self.cells.iter().find(|c| c.x == x && c.y == y).unwrap()
    }
}

fn render(bytes: &[u8], rows: u16, cols: u16) -> Drawn {
    let mut parser = vt100::Parser::new(rows, cols, 100);
    parser.process(bytes);
    let area = Area { x: 0, y: 0, width: cols, height: rows };
    Drawn { cells: render_screen(parser.screen(), area) }
}

#[test]
fn renders_plain_text() {
    let buf = render(b"hi", 1, 5);
    assert_eq!(buf.symbol(0, 0), "h");
    assert_eq!(buf.symbol(1, 0), "i");
}

#[test]
fn applies_fg_color_and_bold() {
    let buf = render(b"\x1b[1;31mX\x1b[0m", 1, 5);
    let cell = buf.cell(0, 0);
    assert_eq!(cell.symbol, "X");
    assert_eq!(cell.style.fg, Some(Color::Indexed(1)));
    assert!(cell.style.bold);
}

#[test]
fn carriage_return_overwrites_in_place() {
    let buf = render(b"abc\rX", 1, 5);
    assert_eq!(buf.symbol(0, 0), "X");
    assert_eq!(buf.symbol(1, 0), "b");
    assert_eq!(buf.symbol(2, 0), "c");
}

#[test]
fn skips_wide_continuation_cell() {
    let buf = render("あ".as_bytes(), 1, 5);
    assert_eq!(buf.symbol(0, 0), "あ");
    assert_eq!(buf.symbol(1, 0), " ");
    assert!(!buf.cells.iter().any(|c| c.x == 1 && c.y == 0));
}

#[test]
fn every_attribute_is_carried_over() {
    let buf = render(b"\x1b[3;4;7;38;2;1;2;3;48;5;200mX", 1, 3);
    let style = buf.cell(0, 0).style;
    assert!(style.italic && style.underlined && style.reversed && !style.bold && !style.dim);
    assert_eq!(style.fg, Some(Color::Rgb(1, 2, 3)));
    assert_eq!(style.bg, Some(Color::Indexed(200)));
    assert_eq!(buf.cell(1, 0).style.fg, Some(Color::Reset));
}

#[test]
fn an_area_cuts_the_screen_off() {
    let mut parser = vt100::Parser::new(3, 4, 0);
    parser.process(b"abcd\r\nefgh");
    let area = Area { x: 10, y: 20, width: 2, height: 2 };
    let drawn = Drawn { cells: render_screen(parser.screen(), area) };
    assert_eq!(drawn.cells.len(), 4);
    assert_eq!(drawn.symbol(10, 20), "a");
    assert_eq!(drawn.symbol(11, 21), "f");
}
