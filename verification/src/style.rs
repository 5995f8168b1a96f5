//! Colours and text styles.

use ratatui::style::Color as TuiColor;
use vstd::prelude::*;

use crate::number::digits_of;

verus! {

/// A terminal colour.
#[derive(Clone, Copy, Debug, PartialEq, Eq, Structural)]
pub enum Color {
    /// The terminal's own colour.
    Reset,
    Black,
    Red,
    Green,
    Yellow,
    Blue,
    Magenta,
    Cyan,
    Gray,
    DarkGray,
    LightRed,
    LightGreen,
    LightYellow,
    LightBlue,
    LightMagenta,
    LightCyan,
    White,
    Rgb(u8, u8, u8),
    Indexed(u8),
}

/// The colour that `ratatui::style::Color::from_str` reads in a text, if it reads one.
pub uninterp spec fn color_named(text: Seq<char>) -> Option<Color>;

/// The value of a hexadecimal digit.
pub open spec fn hex_digit(c: char) -> Option<int> {
    if '0' <= c <= '9' {
        Some(c as int - '0' as int)
    } else if 'a' <= c <= 'f' {
        Some(c as int - 'a' as int + 10)
    } else if 'A' <= c <= 'F' {
        Some(c as int - 'A' as int + 10)
    } else {
        None
    }
}

/// The value of the two hexadecimal digits from position `at` on.
pub open spec fn hex_byte(text: Seq<char>, at: int) -> Option<u8> {
    match (hex_digit(text[at]), hex_digit(text[at + 1])) {
        (Some(high), Some(low)) => Some((high * 16 + low) as u8),
        _ => None,
    }
}

/// The colour of a text `#rrggbb`.
pub open spec fn hex_color(text: Seq<char>) -> Option<Color> {
    if text.len() == 7 && text[0] == '#' {
        match (hex_byte(text, 1), hex_byte(text, 3), hex_byte(text, 5)) {
            (Some(r), Some(g), Some(b)) => Some(Color::Rgb(r, g, b)),
            _ => None,
        }
    } else {
        None
    }
}

/// The colour of a plain name.
pub open spec fn plain_color(text: Seq<char>) -> Option<Color> {
    if text == "black"@ {
        Some(Color::Black)
    } else if text == "red"@ {
        Some(Color::Red)
    } else if text == "green"@ {
        Some(Color::Green)
    } else if text == "yellow"@ {
        Some(Color::Yellow)
    } else if text == "blue"@ {
        Some(Color::Blue)
    } else if text == "magenta"@ {
        Some(Color::Magenta)
    } else if text == "cyan"@ {
        Some(Color::Cyan)
    } else if text == "white"@ {
        Some(Color::White)
    } else {
        None
    }
}

/// Calls `ratatui::style::Color::from_str` and carries the colour over, variant by variant.
///
/// The text alone decides the colour. Plain names, `#rrggbb` and the numbers from 0 to 255
/// are read as what they say. Other spellings that it reads are left to that function.
#[verifier::external_body]
pub(crate) fn parse_color(text: &str) -> (color: Option<Color>)
    ensures
        color == color_named(text@),
        plain_color(text@) is Some ==> color == plain_color(text@),
        hex_color(text@) is Some ==> color == hex_color(text@),
        forall|n: u8| text@ == #[trigger] digits_of(n as int) ==> color == Some(Color::Indexed(n)),
{
    let found: TuiColor = text.parse().ok()?;
    Some(match found {
        TuiColor::Reset => Color::Reset, TuiColor::Black => Color::Black,
        TuiColor::Red => Color::Red, TuiColor::Green => Color::Green,
        TuiColor::Yellow => Color::Yellow, TuiColor::Blue => Color::Blue,
        TuiColor::Magenta => Color::Magenta, TuiColor::Cyan => Color::Cyan,
        TuiColor::Gray => Color::Gray, TuiColor::DarkGray => Color::DarkGray,
        TuiColor::LightRed => Color::LightRed, TuiColor::LightGreen => Color::LightGreen,
        TuiColor::LightYellow => Color::LightYellow, TuiColor::LightBlue => Color::LightBlue,
        TuiColor::LightMagenta => Color::LightMagenta, TuiColor::LightCyan => Color::LightCyan,
        TuiColor::White => Color::White, TuiColor::Rgb(r, g, b) => Color::Rgb(r, g, b),
        TuiColor::Indexed(i) => Color::Indexed(i),
    })
}

/// How a piece of text looks. A colour that is not set is left to what lies beneath.
#[derive(Clone, Copy, Debug, PartialEq, Eq, Structural)]
pub struct Style {
    pub fg: Option<Color>,
    pub bg: Option<Color>,
    pub bold: bool,
    pub dim: bool,
    pub italic: bool,
    pub underlined: bool,
    pub reversed: bool,
}

/// The style that sets nothing.
pub open spec fn plain_style() -> Style {
    Style {
        fg: None,
        bg: None,
        bold: false,
        dim: false,
        italic: false,
        underlined: false,
        reversed: false,
    }
}

impl Style {
    /// The style that sets nothing.
    pub fn plain() -> (style: Style)
        ensures
            style == plain_style(),
    {
        Style {
            fg: None,
            bg: None,
            bold: false,
            dim: false,
            italic: false,
            underlined: false,
            reversed: false,
        }
    }

    /// This style with another text colour.
    pub fn fg(self, color: Color) -> (style: Style)
        ensures
            style == (Style { fg: Some(color), ..self }),
    {
        Style { fg: Some(color), ..self }
    }

    /// This style with another background.
    pub fn bg(self, color: Color) -> (style: Style)
        ensures
            style == (Style { bg: Some(color), ..self }),
    {
        Style { bg: Some(color), ..self }
    }

    /// This style in bold.
    pub fn bold(self) -> (style: Style)
        ensures
            style == (Style { bold: true, ..self }),
    {
        Style { bold: true, ..self }
    }

    /// This style with text and background swapped.
    pub fn reversed(self) -> (style: Style)
        ensures
            style == (Style { reversed: true, ..self }),
    {
        Style { reversed: true, ..self }
    }
}

/// A character is a hexadecimal digit of a value, as a small letter or as a capital one.
pub open spec fn is_hex(c: char, value: int) -> bool {
    ||| 0 <= value < 10 && c as int == 48 + value
    ||| 10 <= value < 16 && (c as int == 87 + value || c as int == 55 + value)
}

/// A colour that is written in hexadecimal gives its red, its green and its blue, each by
/// two digits with the higher one first.
pub proof fn law_colors_in_hexadecimal(text: Seq<char>, r: u8, g: u8, b: u8)
    requires
        text.len() == 7,
        text[0] == '#',
        is_hex(text[1], r as int / 16) && is_hex(text[2], r as int % 16),
        is_hex(text[3], g as int / 16) && is_hex(text[4], g as int % 16),
        is_hex(text[5], b as int / 16) && is_hex(text[6], b as int % 16),
    ensures
        hex_color(text) == Some(Color::Rgb(r, g, b)),
{
}

} // verus!
