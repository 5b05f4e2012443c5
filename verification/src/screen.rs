//! The dashboard's geometry: which layout a terminal of a given size gets, where the
//! centred column sits, which blocks fit, how many table rows remain, the header line
//! with its right-aligned clock and which footer is shown.

use vstd::prelude::*;
use crate::cellwidth::{clamp_line_to_cols, clamp_spec, visible_cell_width, visible_width};
use crate::meter::GraphSymbol;
use crate::processes::SortMetric;
use crate::text::{chars_eq, chars_of, push_repeat, push_str, repeat_char};

verus! {

/// The display mode the command-line flags select: compact, then mini, then tiny take
/// precedence in that order; hero otherwise.
pub fn display_mode(compact: bool, mini: bool, tiny: bool) -> (r: &'static str)
    ensures
        r@ == if compact {
            "compact"@
        } else if mini {
            "mini"@
        } else if tiny {
            "tiny"@
        } else {
            "hero"@
        },
{
    if compact {
        "compact"
    } else if mini {
        "mini"
    } else if tiny {
        "tiny"
    } else {
        "hero"
    }
}

/// The gauge glyphs a `--symbol` value names: braille for "braille", blocks otherwise.
pub fn symbol_named(name: &str) -> (r: GraphSymbol)
    ensures
        r == if name@ == "braille"@ {
            GraphSymbol::Braille
        } else {
            GraphSymbol::Block
        },
{
    let n = chars_of(name);
    let b = chars_of("braille");
    if chars_eq(n.as_slice(), b.as_slice()) {
        GraphSymbol::Braille
    } else {
        GraphSymbol::Block
    }
}

/// The ranking a `--sort` value names: "pss", "uss", "name", else resident size.
pub fn sort_metric_named(name: &str) -> (r: SortMetric)
    ensures
        r == if name@ == "pss"@ {
            SortMetric::Pss
        } else if name@ == "uss"@ {
            SortMetric::Uss
        } else if name@ == "name"@ {
            SortMetric::Name
        } else {
            SortMetric::Rss
        },
{
    let n = chars_of(name);
    let pss = chars_of("pss");
    let uss = chars_of("uss");
    let nm = chars_of("name");
    if chars_eq(n.as_slice(), pss.as_slice()) {
        SortMetric::Pss
    } else if chars_eq(n.as_slice(), uss.as_slice()) {
        SortMetric::Uss
    } else if chars_eq(n.as_slice(), nm.as_slice()) {
        SortMetric::Name
    } else {
        SortMetric::Rss
    }
}

/// The three layouts of a frame.
#[derive(PartialEq, Eq, Structural, Clone, Copy, Debug)]
pub enum ScreenMode {
    /// One line of plain text.
    Tiny,
    /// One gauge line.
    Mini,
    /// The full dashboard.
    Full,
}

pub open spec fn screen_mode_spec(mode: Seq<char>, rows: nat) -> ScreenMode {
    if mode == "tiny"@ || rows <= 3 {
        ScreenMode::Tiny
    } else if mode == "mini"@ || rows < 7 {
        ScreenMode::Mini
    } else {
        ScreenMode::Full
    }
}

/// The layout for display mode `mode` on `rows` rows: the tiny text in "tiny" mode or
/// on three rows or fewer, the mini gauge in "mini" mode or under seven rows, else the
/// full dashboard.
pub fn screen_mode(mode: &str, rows: usize) -> (r: ScreenMode)
    ensures
        r == screen_mode_spec(mode@, rows as nat),
{
    let m = chars_of(mode);
    let tiny = chars_of("tiny");
    let mini = chars_of("mini");
    proof {
        reveal_strlit("tiny");
        reveal_strlit("mini");
    }
    if chars_eq(m.as_slice(), tiny.as_slice()) || rows <= 3 {
        ScreenMode::Tiny
    } else if chars_eq(m.as_slice(), mini.as_slice()) || rows < 7 {
        ScreenMode::Mini
    } else {
        ScreenMode::Full
    }
}

/// `x` held within `lo..=hi` (`lo <= hi`).
pub open spec fn clamp_between(x: int, lo: int, hi: int) -> int {
    if x < lo {
        lo
    } else if x > hi {
        hi
    } else {
        x
    }
}

/// `a - b`, or 0 when `b` is larger.
pub open spec fn minus(a: int, b: int) -> int {
    if a >= b {
        a - b
    } else {
        0
    }
}

fn clamp_usize(x: usize, lo: usize, hi: usize) -> (r: usize)
    requires
        lo <= hi,
    ensures
        r == clamp_between(x as int, lo as int, hi as int),
{
    if x < lo {
        lo
    } else if x > hi {
        hi
    } else {
        x
    }
}

/// Geometry of the mini gauge line.
#[derive(PartialEq, Eq, Structural, Clone, Copy, Debug)]
pub struct MiniLayout {
    /// Width of the centred column (at most 64).
    pub ui_cols: usize,
    /// Spaces left of the column.
    pub pad_left: usize,
    /// Cells of the gauge.
    pub bar_width: usize,
}

/// The mini line on `cols` columns: a column of at most 64 centred, with a gauge of
/// the column less 28 cells, held within 4..=44.
pub fn mini_layout(cols: usize) -> (r: MiniLayout)
    ensures
        r.ui_cols == if cols < 64 {
            cols
        } else {
            64
        },
        r.pad_left == (cols - r.ui_cols) / 2,
        r.bar_width == clamp_between(minus(r.ui_cols as int, 28), 4, 44),
{
    let ui_cols = if cols < 64 {
        cols
    } else {
        64
    };
    MiniLayout {
        ui_cols,
        pad_left: (cols - ui_cols) / 2,
        bar_width: clamp_usize(ui_cols.saturating_sub(28), 4, 44),
    }
}

/// How the memory figures under the gauge are laid out.
#[derive(PartialEq, Eq, Structural, Clone, Copy, Debug)]
pub enum StatsGrid {
    /// Not shown: the rows are needed for the footer.
    Hidden,
    /// Six columns (used, available, total, commit, cached, swap), on two lines.
    Six,
    /// Three columns (used, available, total), on two lines.
    Three,
    /// One line of used and available.
    Inline,
}

/// Geometry of the full dashboard.
#[derive(PartialEq, Eq, Structural, Clone, Copy, Debug)]
pub struct FullLayout {
    /// Width of the centred column (at most 80).
    pub ui_cols: usize,
    /// Spaces left of the column.
    pub pad_left: usize,
    /// The six-line banner and its blank line are drawn.
    pub banner: bool,
    /// Spaces left of the banner within the column.
    pub banner_pad: usize,
    /// Cells of the main gauge.
    pub bar_width: usize,
    /// The trend line is drawn.
    pub sparkline: bool,
    /// Cells of the trend line.
    pub spark_width: usize,
    /// The memory figures.
    pub stats: StatsGrid,
    /// A blank line precedes the memory figures.
    pub stats_gap: bool,
    /// Rows left for the process table, its header and the footer taken off.
    pub table_slots: usize,
    /// A blank line precedes the process table.
    pub table_gap: bool,
}

/// Lines above the memory figures: the banner with its blank line, the header, the
/// rule, the gauge, the percentage line and the trend line.
pub open spec fn head_lines(banner: bool, sparkline: bool) -> nat {
    (if banner {
        7nat
    } else {
        0nat
    }) + 4 + (if sparkline {
        1nat
    } else {
        0nat
    })
}

/// The memory figures fit when two lines and the two footer lines remain after the
/// head; their form follows the column's width.
pub open spec fn stats_grid_spec(ui_cols: nat, rows: nat, head: nat) -> StatsGrid {
    if rows >= head + 4 {
        if ui_cols >= 76 {
            StatsGrid::Six
        } else if ui_cols >= 44 {
            StatsGrid::Three
        } else {
            StatsGrid::Inline
        }
    } else {
        StatsGrid::Hidden
    }
}

pub open spec fn stats_lines(grid: StatsGrid, gap: bool) -> nat {
    match grid {
        StatsGrid::Hidden => 0,
        StatsGrid::Inline => (if gap {
            1nat
        } else {
            0nat
        }) + 1,
        _ => (if gap {
            1nat
        } else {
            0nat
        }) + 2,
    }
}

/// The full dashboard's geometry on `cols` x `rows` cells: a column of at most 80
/// centred; the banner in hero mode from 60 columns and 28 rows; the trend line when
/// it has samples and there are 14 rows (any number in hero mode); the memory figures
/// when they and the footer fit; the rest of the rows for the process table.
pub open spec fn full_layout_spec(cols: usize, rows: usize, hero: bool, sparkline_ready: bool) -> FullLayout {
    let ui_cols: usize = if cols < 80 {
        cols
    } else {
        80
    };
    let banner = hero && ui_cols >= 60 && rows >= 28;
    let sparkline = sparkline_ready && (rows >= 14 || hero);
    let stats = stats_grid_spec(ui_cols as nat, rows as nat, head_lines(banner, sparkline));
    let stats_gap = stats != StatsGrid::Hidden && rows >= 22;
    FullLayout {
        ui_cols,
        pad_left: ((cols - ui_cols) / 2) as usize,
        banner,
        banner_pad: (minus(ui_cols as int, 51) / 2) as usize,
        bar_width: clamp_between(minus(ui_cols as int, 16), 4, 64) as usize,
        sparkline,
        spark_width: clamp_between(minus(ui_cols as int, 24), 6, 48) as usize,
        stats,
        stats_gap,
        table_slots: minus(rows as int, (head_lines(banner, sparkline) + stats_lines(stats, stats_gap) + 3) as int)
            as usize,
        table_gap: rows >= 24,
    }
}

/// The full dashboard on `cols` x `rows` cells. `hero` is the hero mode (banner, table);
/// `sparkline_ready` says the trend line is on and has samples.
pub fn full_layout(cols: usize, rows: usize, hero: bool, sparkline_ready: bool) -> (r: FullLayout)
    ensures
        r == full_layout_spec(cols, rows, hero, sparkline_ready),
{
    let ui_cols = if cols < 80 {
        cols
    } else {
        80
    };
    let banner = hero && ui_cols >= 60 && rows >= 28;
    let sparkline = sparkline_ready && (rows >= 14 || hero);
    let mut lines: usize = 4;
    if banner {
        lines = lines + 7;
    }
    if sparkline {
        lines = lines + 1;
    }
    let stats = if rows >= lines + 4 {
        if ui_cols >= 76 {
            StatsGrid::Six
        } else if ui_cols >= 44 {
            StatsGrid::Three
        } else {
            StatsGrid::Inline
        }
    } else {
        StatsGrid::Hidden
    };
    let stats_gap = !(stats == StatsGrid::Hidden) && rows >= 22;
    if stats_gap {
        lines = lines + 1;
    }
    match stats {
        StatsGrid::Hidden => {},
        StatsGrid::Inline => {
            lines = lines + 1;
        },
        _ => {
            lines = lines + 2;
        },
    }
    FullLayout {
        ui_cols,
        pad_left: (cols - ui_cols) / 2,
        banner,
        banner_pad: ui_cols.saturating_sub(51) / 2,
        bar_width: clamp_usize(ui_cols.saturating_sub(16), 4, 64),
        sparkline,
        spark_width: clamp_usize(ui_cols.saturating_sub(24), 6, 48),
        stats,
        stats_gap,
        table_slots: rows.saturating_sub(lines).saturating_sub(3),
        table_gap: rows >= 24,
    }
}

/// The header: the left part, then the clock pushed to the column's right edge when
/// both fit with two cells to spare; else the left part alone, cut to the column when
/// it is wider.
pub open spec fn header_line_spec(left: Seq<char>, clock: Seq<char>, ui_cols: nat) -> Seq<char> {
    let lw = visible_width(left);
    let cw = visible_width(clock);
    if lw + cw + 2 <= ui_cols {
        left + repeat_char(' ', (ui_cols - lw - cw) as nat) + clock
    } else if lw <= ui_cols {
        left
    } else {
        clamp_spec(left, ui_cols)
    }
}

pub fn header_line(left: &str, clock: &str, ui_cols: usize) -> (r: String)
    requires
        left@.len() <= usize::MAX / 3,
        clock@.len() <= usize::MAX / 3,
    ensures
        r@ == header_line_spec(left@, clock@, ui_cols as nat),
{
    let lw = visible_cell_width(left);
    let cw = visible_cell_width(clock);
    if lw <= ui_cols && cw <= ui_cols - lw && 2 <= ui_cols - lw - cw {
        let mut s = String::new();
        push_str(&mut s, left);
        push_repeat(&mut s, ' ', ui_cols - lw - cw);
        push_str(&mut s, clock);
        s
    } else if lw <= ui_cols {
        let mut s = String::new();
        push_str(&mut s, left);
        s
    } else {
        clamp_line_to_cols(left, ui_cols)
    }
}

/// How much the header says besides the name and the theme.
#[derive(PartialEq, Eq, Structural, Clone, Copy, Debug)]
pub enum HeaderDetail {
    /// Host name, theme, operating system and mode.
    Full,
    /// Theme and mode.
    ThemeAndMode,
    /// Theme only.
    ThemeOnly,
}

/// The header's detail on a column of `ui_cols` cells: all of it from 64 cells, theme
/// and mode from 44, else the theme alone.
pub fn header_detail(ui_cols: usize) -> (r: HeaderDetail)
    ensures
        r == if ui_cols >= 64 {
            HeaderDetail::Full
        } else if ui_cols >= 44 {
            HeaderDetail::ThemeAndMode
        } else {
            HeaderDetail::ThemeOnly
        },
{
    if ui_cols >= 64 {
        HeaderDetail::Full
    } else if ui_cols >= 44 {
        HeaderDetail::ThemeAndMode
    } else {
        HeaderDetail::ThemeOnly
    }
}

/// The last line of the dashboard.
#[derive(PartialEq, Eq, Structural, Clone, Copy, Debug)]
pub enum FooterKind {
    /// The kill confirmation question.
    KillPrompt,
    /// The search being typed.
    Search,
    /// The filter in force.
    Filter,
    /// The full list of keys.
    Help,
    /// The short key hints.
    Hints,
}

/// Which footer is shown: a pending kill confirmation first, then a search being typed,
/// then a filter in force, then the help, else the hints.
pub fn footer_kind(kill_pending: bool, search_active: bool, filtering: bool, show_help: bool) -> (r: FooterKind)
    ensures
        r == if kill_pending {
            FooterKind::KillPrompt
        } else if search_active {
            FooterKind::Search
        } else if filtering {
            FooterKind::Filter
        } else if show_help {
            FooterKind::Help
        } else {
            FooterKind::Hints
        },
{
    if kill_pending {
        FooterKind::KillPrompt
    } else if search_active {
        FooterKind::Search
    } else if filtering {
        FooterKind::Filter
    } else if show_help {
        FooterKind::Help
    } else {
        FooterKind::Hints
    }
}

/// The full dashboard's blocks fit the terminal: with room for the table, the lines
/// above it, its header, its rows and the footer fill the rows exactly; shown memory
/// figures leave room for the footer; the banner is drawn only where it fits the column.
pub proof fn law_layout_fits(cols: usize, rows: usize, hero: bool, sparkline_ready: bool)
    ensures
        ({
            let r = full_layout_spec(cols, rows, hero, sparkline_ready);
            &&& r.table_slots > 0 ==> head_lines(r.banner, r.sparkline) + stats_lines(r.stats, r.stats_gap) + 3
                + r.table_slots == rows
            &&& r.stats != StatsGrid::Hidden ==> head_lines(r.banner, r.sparkline) + stats_lines(
                r.stats,
                r.stats_gap,
            ) + 2 <= rows
            &&& r.banner ==> r.ui_cols >= 51
            &&& r.pad_left + r.ui_cols <= cols
        }),
{
}

} // verus!
