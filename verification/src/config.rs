//! Settings. What a settings file leaves out, or says in a way that cannot be
//! read, keeps its default.

use std::path::PathBuf;

use vstd::prelude::*;

use crate::number::digits_of;
use crate::style::{color_named, hex_color, parse_color, plain_color, Color};
use crate::text::{same_text, texts};

verus! {

/// Where copied text goes.
#[derive(Clone, Copy, Debug, PartialEq, Eq, Structural)]
pub enum ClipboardSink {
    System,
    Osc52,
    Both,
}

/// Colours.
#[derive(Clone, Copy, Debug, PartialEq, Eq, Structural)]
pub struct Theme {
    pub cursor: Color,
    pub search: Color,
    pub running: Color,
    pub failed: Color,
    pub focus: Color,
    /// The background of what is selected. Without one it is shown reversed.
    pub selection: Option<Color>,
}

/// The colours where none are set.
pub open spec fn default_theme() -> Theme {
    Theme {
        cursor: Color::Yellow,
        search: Color::Cyan,
        running: Color::Green,
        failed: Color::Red,
        focus: Color::Cyan,
        selection: None,
    }
}

impl Default for Theme {
    fn default() -> (theme: Theme)
        ensures
            theme == default_theme(),
    {
        Theme {
            cursor: Color::Yellow,
            search: Color::Cyan,
            running: Color::Green,
            failed: Color::Red,
            focus: Color::Cyan,
            selection: None,
        }
    }
}

/// The lines of output kept of a process where the settings say nothing.
pub const DEFAULT_SCROLLBACK: usize = 10_000;

/// Settings in force.
#[derive(Clone, Copy, Debug, PartialEq, Eq, Structural)]
pub struct Config {
    pub theme: Theme,
    pub clipboard: ClipboardSink,
    /// The lines of output kept of each process.
    pub scrollback: usize,
}

/// The settings where none are made.
pub open spec fn default_config() -> Config {
    Config {
        theme: default_theme(),
        clipboard: ClipboardSink::Both,
        scrollback: DEFAULT_SCROLLBACK,
    }
}

impl Default for Config {
    fn default() -> (config: Config)
        ensures
            config == default_config(),
    {
        Config {
            theme: Theme::default(),
            clipboard: ClipboardSink::Both,
            scrollback: DEFAULT_SCROLLBACK,
        }
    }
}

// --- settings as they are written -----------------------------------------------

/// The colours of a settings file.
pub struct RawTheme {
    pub cursor: Option<String>,
    pub search: Option<String>,
    pub running: Option<String>,
    pub failed: Option<String>,
    pub focus: Option<String>,
    pub selection: Option<String>,
}

/// A settings file.
pub struct RawConfig {
    pub theme: RawTheme,
    pub clipboard: Option<String>,
    pub scrollback: Option<usize>,
}

/// The colour that a text names.
pub open spec fn color_in(value: Option<String>) -> Option<Color> {
    match value {
        Some(text) => color_named(text@),
        None => None,
    }
}

/// The colour that a text names, or the default.
pub open spec fn color_over(value: Option<String>, default: Color) -> Color {
    match color_in(value) {
        Some(color) => color,
        None => default,
    }
}

/// Where a text is a plain name, `#rrggbb` or a number up to 255, the colour is what it
/// says.
pub open spec fn as_written(value: Option<String>, color: Option<Color>) -> bool {
    value matches Some(text) ==> {
        &&& plain_color(text@) is Some ==> color == plain_color(text@)
        &&& hex_color(text@) is Some ==> color == hex_color(text@)
        &&& forall|n: u8|
            text@ == #[trigger] digits_of(n as int) ==> color == Some(Color::Indexed(n))
    }
}

/// Where a text sends copies: anything but the two single sinks means both.
pub open spec fn sink_named(value: Option<String>) -> ClipboardSink {
    match value {
        Some(text) => if text@ == "system"@ {
            ClipboardSink::System
        } else if text@ == "osc52"@ {
            ClipboardSink::Osc52
        } else {
            ClipboardSink::Both
        },
        None => ClipboardSink::Both,
    }
}

/// The lines to keep: a number above zero, or the default.
pub open spec fn scrollback_over(value: Option<usize>) -> usize {
    match value {
        Some(n) => if n > 0 {
            n
        } else {
            DEFAULT_SCROLLBACK
        },
        None => DEFAULT_SCROLLBACK,
    }
}

impl RawConfig {
    /// The settings that a file makes.
    pub open spec fn config(self) -> Config {
        Config {
            theme: Theme {
                cursor: color_over(self.theme.cursor, default_theme().cursor),
                search: color_over(self.theme.search, default_theme().search),
                running: color_over(self.theme.running, default_theme().running),
                failed: color_over(self.theme.failed, default_theme().failed),
                focus: color_over(self.theme.focus, default_theme().focus),
                selection: color_in(self.theme.selection),
            },
            clipboard: sink_named(self.clipboard),
            scrollback: scrollback_over(self.scrollback),
        }
    }

    /// The settings that a file makes.
    pub fn into_config(self) -> (config: Config)
        ensures
            config == self.config(),
            config.scrollback > 0,
            as_written(self.theme.cursor, Some(config.theme.cursor)),
            as_written(self.theme.search, Some(config.theme.search)),
            as_written(self.theme.running, Some(config.theme.running)),
            as_written(self.theme.failed, Some(config.theme.failed)),
            as_written(self.theme.focus, Some(config.theme.focus)),
            as_written(self.theme.selection, config.theme.selection),
    {
        let d = Theme::default();
        let selection = match &self.theme.selection {
            Some(text) => parse_color(text.as_str()),
            None => None,
        };
        let theme = Theme {
            cursor: color_or(&self.theme.cursor, d.cursor),
            search: color_or(&self.theme.search, d.search),
            running: color_or(&self.theme.running, d.running),
            failed: color_or(&self.theme.failed, d.failed),
            focus: color_or(&self.theme.focus, d.focus),
            selection,
        };
        let clipboard = match &self.clipboard {
            Some(text) => if same_text(text.as_str(), "system") {
                ClipboardSink::System
            } else if same_text(text.as_str(), "osc52") {
                ClipboardSink::Osc52
            } else {
                ClipboardSink::Both
            },
            None => ClipboardSink::Both,
        };
        let scrollback: usize = match self.scrollback {
            Some(n) => if n > 0 {
                n
            } else {
                DEFAULT_SCROLLBACK
            },
            None => DEFAULT_SCROLLBACK,
        };
        Config { theme, clipboard, scrollback }
    }
}

/// The colour that a text such as "red", "#00ff00" or "42" names, or the default.
fn color_or(value: &Option<String>, default: Color) -> (color: Color)
    ensures
        color == color_over(*value, default),
        as_written(*value, Some(color)),
{
    match value {
        Some(text) => color_over_default(parse_color(text.as_str()), default),
        None => default,
    }
}

/// The colour that was read, or the default where none was.
pub fn color_over_default(read: Option<Color>, default: Color) -> (color: Color)
    ensures
        color == match read {
            Some(c) => c,
            None => default,
        },
{
    match read {
        Some(color) => color,
        None => default,
    }
}

/// The settings in force: those of the file, or the defaults where there is none
/// or it cannot be read.
pub fn load(raw: Option<RawConfig>) -> (config: Config)
    ensures
        config == match raw {
            Some(r) => r.config(),
            None => default_config(),
        },
        config.scrollback > 0,
{
    match raw {
        Some(r) => r.into_config(),
        None => Config::default(),
    }
}

/// Where the settings file is: a directory, and the parts of the path below it.
pub struct ConfigPath {
    pub base: PathBuf,
    pub parts: Vec<String>,
}

/// The settings file stands below the configuration directory of the user's
/// environment, else below .config in their home.
pub fn config_path(xdg_config_home: Option<PathBuf>, home: Option<PathBuf>) -> (path: Option<
    ConfigPath,
>)
    ensures
        xdg_config_home matches Some(dir) ==> (path matches Some(p) && p.base == dir && texts(
            p.parts@,
        ) == seq!["lazyscript"@, "setting.json"@]),
        xdg_config_home is None ==> (home matches Some(dir) ==> (path matches Some(p) && p.base
            == dir && texts(p.parts@) == seq![".config"@, "lazyscript"@, "setting.json"@])),
        xdg_config_home is None && home is None ==> path is None,
{
    let mut parts: Vec<String> = Vec::new();
    let base = match xdg_config_home {
        Some(dir) => dir,
        None => match home {
            Some(dir) => {
                parts.push(".config".to_string());
                dir
            },
            None => {
                return None;
            },
        },
    };
    parts.push("lazyscript".to_string());
    parts.push("setting.json".to_string());
    assert(xdg_config_home is Some ==> texts(parts@) =~= seq!["lazyscript"@, "setting.json"@]);
    assert(xdg_config_home is None ==> texts(parts@) =~= seq![
        ".config"@,
        "lazyscript"@,
        "setting.json"@,
    ]);
    Some(ConfigPath { base, parts })
}

} // verus!
