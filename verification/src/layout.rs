//! How wide the list of scripts is, what that leaves for the output, and where the
//! panes lie.

use ratatui::layout::{Constraint, Layout, Rect};
use ratatui::widgets::{Block, Padding};
use vstd::math::{max, min};
use vstd::prelude::*;
use vstd::string::*;

use crate::draw::Area;
use crate::source::registry::{dir_views, group_views, DirGroup, DirView, GroupView, SourceGroup};
use crate::source::ScriptView;
use crate::text::texts;

verus! {

/// The least width of the list, borders included.
pub const MIN_SCRIPTS_WIDTH: u16 = 12;

/// The space kept free on either side inside the list's border.
pub const SCRIPTS_PADDING: u16 = 1;

/// The height of the box above the output, borders included.
pub const COMMAND_BOX_HEIGHT: u16 = 3;

/// How far sources and scripts stand in below a directory's heading.
pub const MULTI_SOURCE_INDENT: u16 = 2;

pub const MULTI_SCRIPT_INDENT: u16 = 4;

/// How far scripts stand in where directories have no headings.
pub const SINGLE_SCRIPT_INDENT: u16 = 2;

/// The content's width where there is nothing to list.
pub const EMPTY_WIDTH: u16 = 28;

// --- widths -------------------------------------------------------------------

/// The cells that a text takes: its characters, counted up to a limit.
pub open spec fn width_of(text: Seq<char>) -> int {
    if text.len() > u16::MAX {
        u16::MAX as int
    } else {
        text.len() as int
    }
}

/// The width of the widest script, with its indent and its status.
pub open spec fn scripts_span(scripts: Seq<ScriptView>, indent: int) -> int
    decreases scripts.len(),
{
    if scripts.len() == 0 {
        0
    } else {
        max(
            scripts_span(scripts.drop_last(), indent),
            indent + width_of(scripts.last().name) + 2,
        )
    }
}

/// The width of the widest row of some sources.
pub open spec fn groups_span(groups: Seq<GroupView>, multi: bool) -> int
    decreases groups.len(),
{
    if groups.len() == 0 {
        0
    } else {
        let source_indent: int = if multi {
            MULTI_SOURCE_INDENT as int
        } else {
            0
        };
        let script_indent: int = if multi {
            MULTI_SCRIPT_INDENT as int
        } else {
            SINGLE_SCRIPT_INDENT as int
        };
        max(
            groups_span(groups.drop_last(), multi),
            max(
                source_indent + 2 + width_of(groups.last().label),
                scripts_span(groups.last().scripts, script_indent),
            ),
        )
    }
}

/// The width of the widest row of some directories.
pub open spec fn dirs_span(dirs: Seq<DirView>, multi: bool) -> int
    decreases dirs.len(),
{
    if dirs.len() == 0 {
        0
    } else {
        let heading: int = if multi {
            2 + width_of(dirs.last().label)
        } else {
            0
        };
        max(
            dirs_span(dirs.drop_last(), multi),
            max(heading, groups_span(dirs.last().source_groups, multi)),
        )
    }
}

/// The width of the widest command.
pub open spec fn commands_span(commands: Seq<Seq<char>>) -> int
    decreases commands.len(),
{
    if commands.len() == 0 {
        0
    } else {
        max(
            commands_span(commands.drop_last()),
            SINGLE_SCRIPT_INDENT + width_of(commands.last()) + 2,
        )
    }
}

/// The width of the widest row, folded up or not.
pub open spec fn content_span(dirs: Seq<DirView>, commands: Seq<Seq<char>>) -> int {
    let listed = dirs_span(dirs, dirs.len() > 1);
    if commands.len() == 0 {
        listed
    } else {
        max(listed, max(2 + width_of("commands"@), commands_span(commands)))
    }
}

/// The width of the list in a terminal, borders included: that of its content,
/// but no more than two fifths of the terminal, and never below the least.
pub open spec fn list_width(content: int, term_cols: int) -> int {
    let most = max(term_cols * 2 / 5, MIN_SCRIPTS_WIDTH as int);
    let wanted = content + 2 + SCRIPTS_PADDING * 2;
    if wanted < MIN_SCRIPTS_WIDTH {
        MIN_SCRIPTS_WIDTH as int
    } else if wanted > most {
        most
    } else {
        wanted
    }
}

/// The columns left inside the output's border.
pub open spec fn output_cols(term_cols: int, list_width: int) -> int {
    max(term_cols - list_width - 2, 1)
}

/// The rows left inside the output's border, below the command and above the
/// hints.
pub open spec fn output_rows(term_rows: int) -> int {
    max(term_rows - 1 - COMMAND_BOX_HEIGHT - 2, 1)
}

// --- measuring ------------------------------------------------------------------

/// The cells that a text takes, about: names and labels are mostly of narrow
/// characters.
pub fn display_width(s: &str) -> (width: u16)
    ensures
        width == width_of(s@),
{
    let n: usize = s.unicode_len();
    if n > 65535 {
        65535
    } else {
        n as u16
    }
}

fn max_of(a: u32, b: u32) -> (m: u32)
    ensures
        m == max(a as int, b as int),
{
    if a >= b {
        a
    } else {
        b
    }
}

/// The width of the widest row of a source.
fn group_width(group: &SourceGroup, multi: bool) -> (width: u32)
    ensures
        width <= 65545,
        width == {
            let source_indent: int = if multi {
                MULTI_SOURCE_INDENT as int
            } else {
                0
            };
            let script_indent: int = if multi {
                MULTI_SCRIPT_INDENT as int
            } else {
                SINGLE_SCRIPT_INDENT as int
            };
            max(
                source_indent + 2 + width_of(group@.label),
                scripts_span(group@.scripts, script_indent),
            )
        },
{
    let source_indent: u32 = if multi {
        MULTI_SOURCE_INDENT as u32
    } else {
        0
    };
    let script_indent: u32 = if multi {
        MULTI_SCRIPT_INDENT as u32
    } else {
        SINGLE_SCRIPT_INDENT as u32
    };
    let mut widest: u32 = 0;
    let ghost all = group@.scripts;
    let mut i: usize = 0;
    assert(all.take(0) =~= Seq::empty());
    while i < group.scripts.len()
        invariant
            i <= group.scripts.len(),
            all == group@.scripts,
            all.len() == group.scripts@.len(),
            script_indent <= 4,
            widest <= 65545,
            widest == scripts_span(all.take(i as int), script_indent as int),
        decreases group.scripts.len() - i,
    {
        let script = &group.scripts[i];
        proof {
            assert(all[i as int] == script@);
            assert(all.take(i + 1).drop_last() =~= all.take(i as int));
            assert(all.take(i + 1).last() == script@);
        }
        widest = max_of(widest, script_indent + display_width(script.name.as_str()) as u32 + 2);
        i += 1;
    }
    assert(all.take(i as int) =~= all);
    max_of(source_indent + 2 + display_width(group.label.as_str()) as u32, widest)
}

/// The width of the widest row of a directory's sources.
fn groups_width(groups: &Vec<SourceGroup>, multi: bool) -> (width: u32)
    ensures
        width <= 65545,
        width == groups_span(group_views(groups@), multi),
{
    let mut widest: u32 = 0;
    let ghost all = group_views(groups@);
    let mut i: usize = 0;
    assert(all.take(0) =~= Seq::empty());
    while i < groups.len()
        invariant
            i <= groups.len(),
            all == group_views(groups@),
            all.len() == groups@.len(),
            widest <= 65545,
            widest == groups_span(all.take(i as int), multi),
        decreases groups.len() - i,
    {
        let group = &groups[i];
        proof {
            assert(all[i as int] == group@);
            assert(all.take(i + 1).drop_last() =~= all.take(i as int));
            assert(all.take(i + 1).last() == group@);
        }
        widest = max_of(widest, group_width(group, multi));
        i += 1;
    }
    assert(all.take(i as int) =~= all);
    widest
}

/// The width of the widest row, folded up or not.
pub fn content_width(dirs: &Vec<DirGroup>, commands: &Vec<String>) -> (width: u32)
    ensures
        width <= 65545,
        width == content_span(dir_views(dirs@), texts(commands@)),
{
    let multi = dirs.len() > 1;
    let mut widest: u32 = 0;
    let ghost all = dir_views(dirs@);
    let mut i: usize = 0;
    assert(all.take(0) =~= Seq::empty());
    while i < dirs.len()
        invariant
            i <= dirs.len(),
            all == dir_views(dirs@),
            all.len() == dirs@.len(),
            widest <= 65545,
            widest == dirs_span(all.take(i as int), multi),
        decreases dirs.len() - i,
    {
        let dir = &dirs[i];
        proof {
            assert(all[i as int] == dir@);
            assert(all.take(i + 1).drop_last() =~= all.take(i as int));
            assert(all.take(i + 1).last() == dir@);
        }
        let heading: u32 = if multi {
            2 + display_width(dir.label.as_str()) as u32
        } else {
            0
        };
        widest = max_of(widest, max_of(heading, groups_width(&dir.source_groups, multi)));
        i += 1;
    }
    assert(all.take(i as int) =~= all);
    if commands.len() > 0 {
        let mut longest: u32 = 0;
        let ghost names = texts(commands@);
        let mut k: usize = 0;
        assert(names.take(0) =~= Seq::empty());
        while k < commands.len()
            invariant
                k <= commands.len(),
                names == texts(commands@),
                names.len() == commands@.len(),
                longest <= 65545,
                longest == commands_span(names.take(k as int)),
            decreases commands.len() - k,
        {
            let command = &commands[k];
            proof {
                assert(names[k as int] == command@);
                assert(names.take(k + 1).drop_last() =~= names.take(k as int));
                assert(names.take(k + 1).last() == command@);
            }
            longest = max_of(
                longest,
                SINGLE_SCRIPT_INDENT as u32 + display_width(command.as_str()) as u32 + 2,
            );
            k += 1;
        }
        assert(names.take(k as int) =~= names);
        assert("commands"@.len() == 8) by {
            reveal_strlit("commands");
        }
        widest = max_of(widest, max_of(2 + display_width("commands") as u32, longest));
    }
    widest
}

/// The width of the list in a terminal, borders included.
pub fn fit_list(content: u32, term_cols: u16) -> (width: u16)
    ensures
        width == list_width(content as int, term_cols as int),
{
    let share: u32 = term_cols as u32 * 2 / 5;
    let most: u32 = max_of(share, MIN_SCRIPTS_WIDTH as u32);
    let wanted: u64 = content as u64 + 2 + SCRIPTS_PADDING as u64 * 2;
    if wanted < MIN_SCRIPTS_WIDTH as u64 {
        MIN_SCRIPTS_WIDTH
    } else if wanted > most as u64 {
        most as u16
    } else {
        wanted as u16
    }
}

/// The columns and rows left inside the output's border.
pub fn output_size(term_cols: u16, term_rows: u16, list_width: u16) -> (size: (u16, u16))
    ensures
        size.0 == output_cols(term_cols as int, list_width as int),
        size.1 == output_rows(term_rows as int),
        size.0 >= 1,
        size.1 >= 1,
{
    let cols: u16 = term_cols.saturating_sub(list_width).saturating_sub(2);
    let rows: u16 = term_rows.saturating_sub(1).saturating_sub(COMMAND_BOX_HEIGHT).saturating_sub(
        2,
    );
    (
        if cols > 1 {
            cols
        } else {
            1
        },
        if rows > 1 {
            rows
        } else {
            1
        },
    )
}

// --- where the panes lie ----------------------------------------------------------

/// How many of `len` cells from `start` on have coordinates that can be reached.
pub open spec fn reach(start: int, len: int) -> int {
    min(start + len, u16::MAX as int) - start
}

/// An area in two parts, side by side: the left one so many columns wide, as far as
/// there are any, and the right one with what is left.
pub open spec fn side_by_side(area: Area, left: int) -> (Area, Area) {
    let all = reach(area.x as int, area.width as int);
    let part = min(left, all);
    (
        Area { width: part as u16, ..area },
        Area { x: (area.x + part) as u16, width: (all - part) as u16, ..area },
    )
}

/// An area in two parts, one above the other, the upper one so many rows high.
pub open spec fn stacked(area: Area, upper: int) -> (Area, Area) {
    let all = reach(area.y as int, area.height as int);
    let part = min(upper, all);
    (
        Area { height: part as u16, ..area },
        Area { y: (area.y + part) as u16, height: (all - part) as u16, ..area },
    )
}

/// What lies inside a border, with some columns kept free on either side.
pub open spec fn inside(area: Area, padding: int) -> Area {
    let top_left = (min(area.x + 1, area.x + reach(area.x as int, area.width as int)), min(
        area.y + 1,
        area.y + reach(area.y as int, area.height as int),
    ));
    Area {
        x: min(top_left.0 + padding, u16::MAX as int) as u16,
        y: top_left.1 as u16,
        width: max(area.width - 2 - 2 * padding, 0) as u16,
        height: max(area.height - 2, 0) as u16,
    }
}

/// Calls `Layout::horizontal` of ratatui on a length and a part with no least size.
/// The length is given first, as far as there is room, since it is the stronger of
/// the two wishes; the other part gets the rest. Columns count up to the right end
/// that ratatui gives the area.
#[verifier::external_body]
fn split_columns(area: Area, left: u16) -> (parts: (Area, Area))
    ensures
        parts == side_by_side(area, left as int),
{
    let rect = Rect { x: area.x, y: area.y, width: area.width, height: area.height };
    let [a, b]: [Rect; 2] =
        Layout::horizontal([Constraint::Length(left), Constraint::Min(0)]).areas(rect);
    (
        Area { x: a.x, y: a.y, width: a.width, height: a.height },
        Area { x: b.x, y: b.y, width: b.width, height: b.height },
    )
}

/// Calls `Layout::vertical` of ratatui in the same way, with the length above.
#[verifier::external_body]
fn split_rows(area: Area, upper: u16) -> (parts: (Area, Area))
    ensures
        parts == stacked(area, upper as int),
{
    let rect = Rect { x: area.x, y: area.y, width: area.width, height: area.height };
    let [a, b]: [Rect; 2] =
        Layout::vertical([Constraint::Length(upper), Constraint::Min(0)]).areas(rect);
    (
        Area { x: a.x, y: a.y, width: a.width, height: a.height },
        Area { x: b.x, y: b.y, width: b.width, height: b.height },
    )
}

/// Calls `Layout::vertical` of ratatui in the same way, with the length below.
#[verifier::external_body]
fn split_rows_below(area: Area, lower: u16) -> (parts: (Area, Area))
    ensures
        parts == ({
            let all = reach(area.y as int, area.height as int);
            stacked(area, max(all - lower, 0))
        }),
{
    let rect = Rect { x: area.x, y: area.y, width: area.width, height: area.height };
    let [a, b]: [Rect; 2] =
        Layout::vertical([Constraint::Min(0), Constraint::Length(lower)]).areas(rect);
    (
        Area { x: a.x, y: a.y, width: a.width, height: a.height },
        Area { x: b.x, y: b.y, width: b.width, height: b.height },
    )
}

/// Calls `Block::inner` of ratatui on a block with a border on all sides: one cell is
/// taken off on each side, and the padding on the left and the right.
#[verifier::external_body]
pub(crate) fn inside_of(area: Area, padding: u16) -> (inner: Area)
    requires
        2 * padding <= u16::MAX,
    ensures
        inner == inside(area, padding as int),
{
    let rect = Rect { x: area.x, y: area.y, width: area.width, height: area.height };
    let inner = Block::bordered().padding(Padding::horizontal(padding)).inner(rect);
    Area { x: inner.x, y: inner.y, width: inner.width, height: inner.height }
}

/// Where the panes lie, borders included, and what lies inside their borders.
#[derive(Clone, Copy, Debug, PartialEq, Eq, Structural)]
pub struct PaneAreas {
    pub scripts: Area,
    pub scripts_inside: Area,
    pub command: Area,
    pub output: Area,
    pub output_inside: Area,
    /// The line at the bottom.
    pub hints: Area,
}

/// Where the panes lie in a terminal, with a list of some width: the hints in the
/// last row, the list on the left, and the command above the output.
pub open spec fn panes_in(area: Area, list_width: int) -> PaneAreas {
    let rows = reach(area.y as int, area.height as int);
    let (upper, hints) = stacked(area, max(rows - 1, 0));
    let (scripts, right) = side_by_side(upper, list_width);
    let (command, output) = stacked(right, COMMAND_BOX_HEIGHT as int);
    PaneAreas {
        scripts,
        scripts_inside: inside(scripts, SCRIPTS_PADDING as int),
        command,
        output,
        output_inside: inside(output, 0),
        hints,
    }
}

/// Where the panes lie in a terminal, with a list of some width.
pub fn place_panes(area: Area, list_width: u16) -> (panes: PaneAreas)
    ensures
        panes == panes_in(area, list_width as int),
        panes.output_inside.fits(),
{
    let (upper, hints) = split_rows_below(area, 1);
    let (scripts, right) = split_columns(upper, list_width);
    let (command, output) = split_rows(right, COMMAND_BOX_HEIGHT);
    PaneAreas {
        scripts,
        scripts_inside: inside_of(scripts, SCRIPTS_PADDING),
        command,
        output,
        output_inside: inside_of(output, 0),
        hints,
    }
}

// --- laws -----------------------------------------------------------------------

/// The list is never narrower than its least width, and never wider than two
/// fifths of the terminal but where the least width asks for it.
pub proof fn law_list_width_bounds(content: int, term_cols: int)
    requires
        content >= 0,
        term_cols >= 0,
    ensures
        list_width(content, term_cols) >= MIN_SCRIPTS_WIDTH,
        list_width(content, term_cols) == MIN_SCRIPTS_WIDTH || list_width(content, term_cols)
            <= term_cols * 2 / 5,
{
}

/// A script's row fits the list, unless the list is as wide as the terminal
/// allows.
pub proof fn law_scripts_fit_the_list(
    dirs: Seq<DirView>,
    commands: Seq<Seq<char>>,
    term_cols: int,
    d: int,
    g: int,
    s: int,
)
    requires
        term_cols >= 0,
        0 <= d < dirs.len(),
        0 <= g < dirs[d].source_groups.len(),
        0 <= s < dirs[d].source_groups[g].scripts.len(),
    ensures
        ({
            let indent = if dirs.len() > 1 {
                MULTI_SCRIPT_INDENT
            } else {
                SINGLE_SCRIPT_INDENT
            };
            let row = indent + width_of(dirs[d].source_groups[g].scripts[s].name) + 2;
            let width = list_width(content_span(dirs, commands), term_cols);
            width >= row + 2 + SCRIPTS_PADDING * 2 || width == max(
                term_cols * 2 / 5,
                MIN_SCRIPTS_WIDTH as int,
            )
        }),
{
    let multi = dirs.len() > 1;
    let indent = if multi {
        MULTI_SCRIPT_INDENT as int
    } else {
        SINGLE_SCRIPT_INDENT as int
    };
    lemma_dirs_span(dirs, multi, d);
    lemma_groups_span(dirs[d].source_groups, multi, g);
    lemma_scripts_span(dirs[d].source_groups[g].scripts, indent, s);
}

proof fn lemma_scripts_span(scripts: Seq<ScriptView>, indent: int, s: int)
    requires
        0 <= s < scripts.len(),
    ensures
        scripts_span(scripts, indent) >= indent + width_of(scripts[s].name) + 2,
    decreases scripts.len(),
{
    if s < scripts.len() - 1 {
        lemma_scripts_span(scripts.drop_last(), indent, s);
    }
}

proof fn lemma_groups_span(groups: Seq<GroupView>, multi: bool, g: int)
    requires
        0 <= g < groups.len(),
    ensures
        groups_span(groups, multi) >= scripts_span(
            groups[g].scripts,
            if multi {
                MULTI_SCRIPT_INDENT as int
            } else {
                SINGLE_SCRIPT_INDENT as int
            },
        ),
    decreases groups.len(),
{
    if g < groups.len() - 1 {
        lemma_groups_span(groups.drop_last(), multi, g);
    }
}

proof fn lemma_dirs_span(dirs: Seq<DirView>, multi: bool, d: int)
    requires
        0 <= d < dirs.len(),
    ensures
        dirs_span(dirs, multi) >= groups_span(dirs[d].source_groups, multi),
    decreases dirs.len(),
{
    if d < dirs.len() - 1 {
        lemma_dirs_span(dirs.drop_last(), multi, d);
    }
}

/// List, output and the output's border fill the terminal's width, where there
/// is room for any output.
pub proof fn law_output_takes_what_is_left(term_cols: int, list: int)
    requires
        term_cols >= list + 3,
    ensures
        list + 2 + output_cols(term_cols, list) == term_cols,
{
}

/// What is drawn of the output has the size that processes are given, but that
/// these are never given less than one cell.
pub proof fn law_output_is_drawn_in_its_size(term_cols: u16, term_rows: u16, list: int)
    requires
        0 <= list,
    ensures
        ({
            let area = Area { x: 0, y: 0, width: term_cols, height: term_rows };
            let drawn = panes_in(area, list).output_inside;
            &&& output_cols(term_cols as int, list) == max(drawn.width as int, 1)
            &&& output_rows(term_rows as int) == max(drawn.height as int, 1)
        }),
{
}

/// The panes fill the terminal and do not overlap: the list and the output lie side
/// by side, the command above the output, and the hints below them all.
pub proof fn law_panes_fill_the_terminal(term_cols: u16, term_rows: u16, list: int)
    requires
        0 <= list,
    ensures
        ({
            let area = Area { x: 0, y: 0, width: term_cols, height: term_rows };
            let panes = panes_in(area, list);
            &&& panes.scripts.x == 0 && panes.scripts.y == 0
            &&& panes.output.x == panes.scripts.width && panes.command.x == panes.scripts.width
            &&& panes.scripts.width + panes.output.width == term_cols
            &&& panes.command.width == panes.output.width && panes.command.y == 0
            &&& panes.output.y == panes.command.height
            &&& panes.command.height + panes.output.height == panes.scripts.height
            &&& panes.hints.y == panes.scripts.height && panes.hints.width == term_cols
            &&& panes.scripts.height + panes.hints.height == term_rows
            &&& panes.hints.height == min(term_rows as int, 1)
        }),
{
}

/// The list is as wide as its widest row asks for: every heading and every command fits,
/// unless the list is as wide as the terminal allows.
pub proof fn law_headings_fit_the_list(
    dirs: Seq<DirView>,
    commands: Seq<Seq<char>>,
    d: int,
    g: int,
    c: int,
)
    ensures
        ({
            let span = content_span(dirs, commands);
            &&& dirs.len() > 1 && 0 <= d < dirs.len() ==> span >= 2 + width_of(dirs[d].label)
            &&& 0 <= d < dirs.len() && 0 <= g < dirs[d].source_groups.len() ==> span >= (if dirs.len()
                > 1 {
                2int
            } else {
                0int
            }) + 2 + width_of(dirs[d].source_groups[g].label)
            &&& 0 <= c < commands.len() ==> span >= 2 + width_of(commands[c]) + 2
        }),
{
    let multi = dirs.len() > 1;
    if 0 <= d < dirs.len() {
        lemma_dirs_span(dirs, multi, d);
        lemma_dir_label(dirs, multi, d);
        if 0 <= g < dirs[d].source_groups.len() {
            lemma_group_label(dirs[d].source_groups, multi, g);
        }
    }
    if 0 <= c < commands.len() {
        lemma_command_width(commands, c);
    }
}

proof fn lemma_dir_label(dirs: Seq<DirView>, multi: bool, d: int)
    requires
        0 <= d < dirs.len(),
    ensures
        multi ==> dirs_span(dirs, multi) >= 2 + width_of(dirs[d].label),
    decreases dirs.len(),
{
    if d < dirs.len() - 1 {
        lemma_dir_label(dirs.drop_last(), multi, d);
    }
}

proof fn lemma_group_label(groups: Seq<GroupView>, multi: bool, g: int)
    requires
        0 <= g < groups.len(),
    ensures
        groups_span(groups, multi) >= (if multi {
            2int
        } else {
            0int
        }) + 2 + width_of(groups[g].label),
    decreases groups.len(),
{
    if g < groups.len() - 1 {
        lemma_group_label(groups.drop_last(), multi, g);
    }
}

proof fn lemma_command_width(commands: Seq<Seq<char>>, c: int)
    requires
        0 <= c < commands.len(),
    ensures
        commands_span(commands) >= 2 + width_of(commands[c]) + 2,
    decreases commands.len(),
{
    if c < commands.len() - 1 {
        lemma_command_width(commands.drop_last(), c);
    }
}

/// The width of a row of the list, with what stands in front of it and behind it.
pub open spec fn rows_within(dirs: Seq<DirView>, commands: Seq<Seq<char>>, most: int) -> bool {
    let multi = dirs.len() > 1;
    let step: int = if multi {
        2
    } else {
        0
    };
    &&& most >= 0
    &&& multi ==> forall|d: int|
        0 <= d < dirs.len() ==> 2 + width_of((#[trigger] dirs[d]).label) <= most
    &&& forall|d: int, g: int|
        0 <= d < dirs.len() && 0 <= g < dirs[d].source_groups.len() ==> step + 2 + width_of(
            (#[trigger] dirs[d].source_groups[g]).label,
        ) <= most
    &&& forall|d: int, g: int, s: int|
        0 <= d < dirs.len() && 0 <= g < dirs[d].source_groups.len() && 0 <= s
            < dirs[d].source_groups[g].scripts.len() ==> step + 2 + width_of(
            (#[trigger] dirs[d].source_groups[g].scripts[s]).name,
        ) + 2 <= most
    &&& commands.len() > 0 ==> 10 <= most
    &&& forall|c: int| 0 <= c < commands.len() ==> 2 + width_of(#[trigger] commands[c]) + 2 <= most
}

/// The list is no wider than its rows ask for.
pub proof fn law_list_is_no_wider_than_needed(
    dirs: Seq<DirView>,
    commands: Seq<Seq<char>>,
    most: int,
)
    requires
        rows_within(dirs, commands, most),
    ensures
        content_span(dirs, commands) <= most,
{
    let multi = dirs.len() > 1;
    let n = dirs.len() as int;
    assert(dirs.take(n) =~= dirs);
    lemma_dirs_within(dirs, commands, most, n);
    lemma_commands_within(commands, most);
    assert("commands"@.len() == 8) by {
        reveal_strlit("commands");
    }
}

proof fn lemma_dirs_within(dirs: Seq<DirView>, commands: Seq<Seq<char>>, most: int, n: int)
    requires
        rows_within(dirs, commands, most),
        0 <= n <= dirs.len(),
    ensures
        dirs_span(dirs.take(n), dirs.len() > 1) <= most,
    decreases n,
{
    if n > 0 {
        lemma_dirs_within(dirs, commands, most, n - 1);
        assert(dirs.take(n).drop_last() =~= dirs.take(n - 1));
        assert(dirs.take(n).last() == dirs[n - 1]);
        let groups = dirs[n - 1].source_groups;
        lemma_groups_within(dirs, commands, most, n - 1, groups.len() as int);
        assert(groups.take(groups.len() as int) =~= groups);
    }
}

proof fn lemma_groups_within(
    dirs: Seq<DirView>,
    commands: Seq<Seq<char>>,
    most: int,
    d: int,
    n: int,
)
    requires
        rows_within(dirs, commands, most),
        0 <= d < dirs.len(),
        0 <= n <= dirs[d].source_groups.len(),
    ensures
        groups_span(dirs[d].source_groups.take(n), dirs.len() > 1) <= most,
    decreases n,
{
    if n > 0 {
        let groups = dirs[d].source_groups;
        lemma_groups_within(dirs, commands, most, d, n - 1);
        assert(groups.take(n).drop_last() =~= groups.take(n - 1));
        assert(groups.take(n).last() == groups[n - 1]);
        assert(width_of(dirs[d].source_groups[n - 1].label) >= 0);
        let scripts = groups[n - 1].scripts;
        lemma_scripts_within(dirs, commands, most, d, n - 1, scripts.len() as int);
        assert(scripts.take(scripts.len() as int) =~= scripts);
    }
}

proof fn lemma_scripts_within(
    dirs: Seq<DirView>,
    commands: Seq<Seq<char>>,
    most: int,
    d: int,
    g: int,
    n: int,
)
    requires
        rows_within(dirs, commands, most),
        0 <= d < dirs.len(),
        0 <= g < dirs[d].source_groups.len(),
        0 <= n <= dirs[d].source_groups[g].scripts.len(),
    ensures
        scripts_span(
            dirs[d].source_groups[g].scripts.take(n),
            if dirs.len() > 1 {
                4int
            } else {
                2int
            },
        ) <= most,
    decreases n,
{
    if n > 0 {
        let scripts = dirs[d].source_groups[g].scripts;
        lemma_scripts_within(dirs, commands, most, d, g, n - 1);
        assert(scripts.take(n).drop_last() =~= scripts.take(n - 1));
        assert(scripts.take(n).last() == dirs[d].source_groups[g].scripts[n - 1]);
    }
}

proof fn lemma_commands_within(commands: Seq<Seq<char>>, most: int)
    requires
        most >= 0,
        forall|c: int| 0 <= c < commands.len() ==> 2 + width_of(#[trigger] commands[c]) + 2 <= most,
    ensures
        commands_span(commands) <= most,
    decreases commands.len(),
{
    if commands.len() > 0 {
        let front = commands.drop_last();
        assert forall|c: int| 0 <= c < front.len() implies 2 + width_of(#[trigger] front[c]) + 2
            <= most by {
            assert(front[c] == commands[c]);
        }
        lemma_commands_within(front, most);
        assert(commands.last() == commands[commands.len() - 1]);
    }
}

/// The list is as wide as its content, its border and the space at its sides ask for, where
/// that is neither below the least nor above two fifths of the terminal.
pub proof fn law_list_takes_what_it_asks_for(content: int, term_cols: int)
    requires
        0 <= content,
        0 <= term_cols,
        12 <= content + 4 <= term_cols * 2 / 5,
    ensures
        list_width(content, term_cols) == content + 4,
{
}

/// Inside a border there is one cell less at each side, and at the left and the right as many
/// cells less again as are left blank there.
pub proof fn law_inside_of_a_border(area: Area, padding: int)
    requires
        area.fits(),
        0 <= padding,
        2 + 2 * padding <= area.width,
        2 <= area.height,
    ensures
        ({
            let within = inside(area, padding);
            &&& within.x == area.x + 1 + padding
            &&& within.x + within.width + 1 + padding == area.x + area.width
            &&& within.y == area.y + 1
            &&& within.y + within.height + 1 == area.y + area.height
        }),
{
}

} // verus!
