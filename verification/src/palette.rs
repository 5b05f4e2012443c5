//! Colour palettes: the 24-bit colours of each theme as ANSI escapes, and the
//! gradient stops used by meters and banners.

use vstd::prelude::*;
use crate::ansi::{fg_rgb, fg_rgb_spec, lemma_fg_rgb_pure, pure_escape};
use crate::themes::{index_from, lemma_index_from, theme_index, theme_names};

verus! {

pub type Rgb = (u8, u8, u8);

/// A resolved colour palette with ANSI escape codes. Gradient stops are
/// (position in hundredths of the gradient, colour).
#[derive(Debug, Clone)]
pub struct Palette {
    pub reset: &'static str,
    pub bold: &'static str,
    pub dim: String,
    pub header: String,
    pub accent: String,
    pub good: String,
    pub warning: String,
    pub critical: String,
    pub muted: String,
    pub track: String,
    pub text: String,
    pub stops: Vec<(u8, Rgb)>,
}

#[verifier::ext_equal]
pub ghost struct PaletteView {
    pub reset: Seq<char>,
    pub bold: Seq<char>,
    pub dim: Seq<char>,
    pub header: Seq<char>,
    pub accent: Seq<char>,
    pub good: Seq<char>,
    pub warning: Seq<char>,
    pub critical: Seq<char>,
    pub muted: Seq<char>,
    pub track: Seq<char>,
    pub text: Seq<char>,
    pub stops: Seq<(u8, Rgb)>,
}

impl View for Palette {
    type V = PaletteView;

    open spec fn view(&self) -> PaletteView {
        PaletteView {
            reset: self.reset@,
            bold: self.bold@,
            dim: self.dim@,
            header: self.header@,
            accent: self.accent@,
            good: self.good@,
            warning: self.warning@,
            critical: self.critical@,
            muted: self.muted@,
            track: self.track@,
            text: self.text@,
            stops: self.stops@,
        }
    }
}

pub ghost struct ThemeColors {
    pub header: Rgb,
    pub accent: Rgb,
    pub good: Rgb,
    pub warning: Rgb,
    pub critical: Rgb,
    pub muted: Rgb,
    pub track: Rgb,
    pub text: Rgb,
    pub stops: Seq<(u8, Rgb)>,
}

struct ThemeRgb {
    header: Rgb,
    accent: Rgb,
    good: Rgb,
    warning: Rgb,
    critical: Rgb,
    muted: Rgb,
    track: Rgb,
    text: Rgb,
    stops: Vec<(u8, Rgb)>,
}

impl View for ThemeRgb {
    type V = ThemeColors;

    closed spec fn view(&self) -> ThemeColors {
        ThemeColors {
            header: self.header,
            accent: self.accent,
            good: self.good,
            warning: self.warning,
            critical: self.critical,
            muted: self.muted,
            track: self.track,
            text: self.text,
            stops: self.stops@,
        }
    }
}

/// The colours of theme `i` (in display order; "monochrome", the last, has none):
/// header, accent, good, warning, critical, muted, track and text, and the gradient
/// stops as (position in hundredths, colour).
pub open spec fn theme_colors(i: int) -> ThemeColors {
    if i == 0 {
        // default
        ThemeColors {
            header: (219, 31, 255),
            accent: (112, 48, 239),
            good: (80, 220, 100),
            warning: (240, 200, 60),
            critical: (235, 64, 52),
            muted: (140, 130, 175),
            track: (35, 25, 58),
            text: (240, 235, 255),
            stops: seq![(0, (80, 220, 100)), (60, (240, 200, 60)), (85, (235, 64, 52)), (100, (235, 64, 52))],
        }
    } else if i == 1 {
        // dracula
        ThemeColors {
            header: (189, 147, 249),
            accent: (255, 121, 198),
            good: (80, 250, 123),
            warning: (255, 184, 108),
            critical: (255, 85, 85),
            muted: (98, 114, 164),
            track: (68, 71, 90),
            text: (248, 248, 242),
            stops: seq![(0, (139, 233, 253)), (30, (189, 147, 249)), (60, (255, 121, 198)), (85, (255, 184, 108)), (100, (255, 85, 85))],
        }
    } else if i == 2 {
        // catppuccin
        ThemeColors {
            header: (203, 166, 247),
            accent: (116, 199, 236),
            good: (166, 227, 161),
            warning: (249, 226, 175),
            critical: (243, 139, 168),
            muted: (108, 112, 134),
            track: (49, 50, 68),
            text: (205, 214, 244),
            stops: seq![(0, (116, 199, 236)), (30, (148, 226, 213)), (60, (203, 166, 247)), (85, (245, 194, 231)), (100, (243, 139, 168))],
        }
    } else if i == 3 {
        // nord
        ThemeColors {
            header: (136, 192, 208),
            accent: (129, 161, 193),
            good: (163, 190, 140),
            warning: (235, 203, 139),
            critical: (191, 97, 106),
            muted: (123, 136, 161),
            track: (59, 66, 82),
            text: (236, 239, 244),
            stops: seq![(0, (143, 188, 187)), (30, (136, 192, 208)), (60, (129, 161, 193)), (80, (180, 142, 173)), (100, (191, 97, 106))],
        }
    } else if i == 4 {
        // tokyo-night
        ThemeColors {
            header: (125, 207, 255),
            accent: (187, 154, 247),
            good: (158, 206, 106),
            warning: (224, 175, 104),
            critical: (247, 118, 142),
            muted: (86, 95, 137),
            track: (41, 46, 66),
            text: (192, 202, 245),
            stops: seq![(0, (125, 207, 255)), (35, (122, 162, 247)), (65, (187, 154, 247)), (85, (255, 158, 100)), (100, (247, 118, 142))],
        }
    } else if i == 5 {
        // gruvbox
        ThemeColors {
            header: (254, 128, 25),
            accent: (142, 192, 124),
            good: (184, 187, 38),
            warning: (250, 189, 47),
            critical: (251, 73, 52),
            muted: (146, 131, 116),
            track: (60, 56, 54),
            text: (235, 219, 178),
            stops: seq![(0, (142, 192, 124)), (30, (184, 187, 38)), (60, (250, 189, 47)), (85, (254, 128, 25)), (100, (251, 73, 52))],
        }
    } else if i == 6 {
        // cyberpunk
        ThemeColors {
            header: (0, 240, 255),
            accent: (255, 0, 127),
            good: (0, 240, 255),
            warning: (254, 232, 1),
            critical: (255, 0, 60),
            muted: (153, 0, 255),
            track: (45, 18, 77),
            text: (240, 246, 252),
            stops: seq![(0, (0, 240, 255)), (30, (254, 232, 1)), (60, (255, 0, 127)), (85, (153, 0, 255)), (100, (255, 0, 60))],
        }
    } else if i == 7 {
        // rose-pine
        ThemeColors {
            header: (196, 167, 231),
            accent: (156, 207, 216),
            good: (156, 207, 216),
            warning: (246, 193, 119),
            critical: (235, 111, 146),
            muted: (110, 106, 134),
            track: (38, 35, 58),
            text: (224, 222, 244),
            stops: seq![(0, (156, 207, 216)), (30, (196, 167, 231)), (60, (246, 193, 119)), (85, (235, 188, 186)), (100, (235, 111, 146))],
        }
    } else if i == 8 {
        // everforest
        ThemeColors {
            header: (167, 192, 128),
            accent: (135, 192, 149),
            good: (167, 192, 128),
            warning: (219, 188, 127),
            critical: (230, 126, 128),
            muted: (133, 146, 137),
            track: (55, 65, 69),
            text: (211, 198, 170),
            stops: seq![(0, (135, 192, 149)), (30, (167, 192, 128)), (60, (219, 188, 127)), (85, (230, 152, 117)), (100, (230, 126, 128))],
        }
    } else if i == 9 {
        // kanagawa
        ThemeColors {
            header: (126, 156, 216),
            accent: (210, 126, 153),
            good: (152, 187, 108),
            warning: (230, 195, 132),
            critical: (195, 64, 67),
            muted: (114, 113, 105),
            track: (34, 50, 73),
            text: (220, 215, 186),
            stops: seq![(0, (126, 156, 216)), (30, (152, 187, 108)), (60, (230, 195, 132)), (85, (210, 126, 153)), (100, (195, 64, 67))],
        }
    } else if i == 10 {
        // monokai
        ThemeColors {
            header: (255, 97, 136),
            accent: (120, 220, 232),
            good: (169, 220, 118),
            warning: (255, 216, 102),
            critical: (255, 97, 136),
            muted: (114, 112, 114),
            track: (64, 62, 65),
            text: (252, 252, 250),
            stops: seq![(0, (120, 220, 232)), (30, (169, 220, 118)), (60, (255, 216, 102)), (85, (252, 152, 103)), (100, (255, 97, 136))],
        }
    } else if i == 11 {
        // solarized
        ThemeColors {
            header: (42, 161, 152),
            accent: (38, 139, 210),
            good: (133, 153, 0),
            warning: (181, 137, 0),
            critical: (220, 50, 47),
            muted: (101, 123, 131),
            track: (7, 54, 66),
            text: (147, 161, 161),
            stops: seq![(0, (42, 161, 152)), (30, (38, 139, 210)), (60, (108, 113, 196)), (85, (181, 137, 0)), (100, (220, 50, 47))],
        }
    } else {
        ThemeColors {
            header: (0, 0, 0),
            accent: (0, 0, 0),
            good: (0, 0, 0),
            warning: (0, 0, 0),
            critical: (0, 0, 0),
            muted: (0, 0, 0),
            track: (0, 0, 0),
            text: (0, 0, 0),
            stops: Seq::empty(),
        }
    }
}

fn theme_colors_exec(i: usize) -> (r: ThemeRgb)
    requires
        i < 12,
    ensures
        r@ == theme_colors(i as int),
{
    let (c, stops): ([(u8, u8, u8); 8], Vec<(u8, (u8, u8, u8))>) = match i {
        0 => (
            [(219, 31, 255), (112, 48, 239), (80, 220, 100), (240, 200, 60), (235, 64, 52), (140, 130, 175), (35, 25, 58), (240, 235, 255)],
            vec![(0, (80, 220, 100)), (60, (240, 200, 60)), (85, (235, 64, 52)), (100, (235, 64, 52))],
        ),
        1 => (
            [(189, 147, 249), (255, 121, 198), (80, 250, 123), (255, 184, 108), (255, 85, 85), (98, 114, 164), (68, 71, 90), (248, 248, 242)],
            vec![(0, (139, 233, 253)), (30, (189, 147, 249)), (60, (255, 121, 198)), (85, (255, 184, 108)), (100, (255, 85, 85))],
        ),
        2 => (
            [(203, 166, 247), (116, 199, 236), (166, 227, 161), (249, 226, 175), (243, 139, 168), (108, 112, 134), (49, 50, 68), (205, 214, 244)],
            vec![(0, (116, 199, 236)), (30, (148, 226, 213)), (60, (203, 166, 247)), (85, (245, 194, 231)), (100, (243, 139, 168))],
        ),
        3 => (
            [(136, 192, 208), (129, 161, 193), (163, 190, 140), (235, 203, 139), (191, 97, 106), (123, 136, 161), (59, 66, 82), (236, 239, 244)],
            vec![(0, (143, 188, 187)), (30, (136, 192, 208)), (60, (129, 161, 193)), (80, (180, 142, 173)), (100, (191, 97, 106))],
        ),
        4 => (
            [(125, 207, 255), (187, 154, 247), (158, 206, 106), (224, 175, 104), (247, 118, 142), (86, 95, 137), (41, 46, 66), (192, 202, 245)],
            vec![(0, (125, 207, 255)), (35, (122, 162, 247)), (65, (187, 154, 247)), (85, (255, 158, 100)), (100, (247, 118, 142))],
        ),
        5 => (
            [(254, 128, 25), (142, 192, 124), (184, 187, 38), (250, 189, 47), (251, 73, 52), (146, 131, 116), (60, 56, 54), (235, 219, 178)],
            vec![(0, (142, 192, 124)), (30, (184, 187, 38)), (60, (250, 189, 47)), (85, (254, 128, 25)), (100, (251, 73, 52))],
        ),
        6 => (
            [(0, 240, 255), (255, 0, 127), (0, 240, 255), (254, 232, 1), (255, 0, 60), (153, 0, 255), (45, 18, 77), (240, 246, 252)],
            vec![(0, (0, 240, 255)), (30, (254, 232, 1)), (60, (255, 0, 127)), (85, (153, 0, 255)), (100, (255, 0, 60))],
        ),
        7 => (
            [(196, 167, 231), (156, 207, 216), (156, 207, 216), (246, 193, 119), (235, 111, 146), (110, 106, 134), (38, 35, 58), (224, 222, 244)],
            vec![(0, (156, 207, 216)), (30, (196, 167, 231)), (60, (246, 193, 119)), (85, (235, 188, 186)), (100, (235, 111, 146))],
        ),
        8 => (
            [(167, 192, 128), (135, 192, 149), (167, 192, 128), (219, 188, 127), (230, 126, 128), (133, 146, 137), (55, 65, 69), (211, 198, 170)],
            vec![(0, (135, 192, 149)), (30, (167, 192, 128)), (60, (219, 188, 127)), (85, (230, 152, 117)), (100, (230, 126, 128))],
        ),
        9 => (
            [(126, 156, 216), (210, 126, 153), (152, 187, 108), (230, 195, 132), (195, 64, 67), (114, 113, 105), (34, 50, 73), (220, 215, 186)],
            vec![(0, (126, 156, 216)), (30, (152, 187, 108)), (60, (230, 195, 132)), (85, (210, 126, 153)), (100, (195, 64, 67))],
        ),
        10 => (
            [(255, 97, 136), (120, 220, 232), (169, 220, 118), (255, 216, 102), (255, 97, 136), (114, 112, 114), (64, 62, 65), (252, 252, 250)],
            vec![(0, (120, 220, 232)), (30, (169, 220, 118)), (60, (255, 216, 102)), (85, (252, 152, 103)), (100, (255, 97, 136))],
        ),
        _ => (
            [(42, 161, 152), (38, 139, 210), (133, 153, 0), (181, 137, 0), (220, 50, 47), (101, 123, 131), (7, 54, 66), (147, 161, 161)],
            vec![(0, (42, 161, 152)), (30, (38, 139, 210)), (60, (108, 113, 196)), (85, (181, 137, 0)), (100, (220, 50, 47))],
        ),
    };
    let r = ThemeRgb {
        header: c[0],
        accent: c[1],
        good: c[2],
        warning: c[3],
        critical: c[4],
        muted: c[5],
        track: c[6],
        text: c[7],
        stops,
    };
    assert(r.stops@ =~= theme_colors(i as int).stops);
    r
}

pub open spec fn escape_of(c: Rgb) -> Seq<char> {
    fg_rgb_spec(c.0, c.1, c.2)
}

/// The palette without colour: every escape empty, no gradient.
pub open spec fn monochrome_view() -> PaletteView {
    PaletteView {
        reset: Seq::empty(),
        bold: Seq::empty(),
        dim: Seq::empty(),
        header: Seq::empty(),
        accent: Seq::empty(),
        good: Seq::empty(),
        warning: Seq::empty(),
        critical: Seq::empty(),
        muted: Seq::empty(),
        track: Seq::empty(),
        text: Seq::empty(),
        stops: Seq::empty(),
    }
}

/// The palette for a theme name: monochrome when colour is off, for "monochrome" and
/// for names that are no theme; else the theme's colours as foreground escapes.
pub open spec fn palette_spec(theme: Seq<char>, enable_color: bool) -> PaletteView {
    let k = index_from(theme_names(), theme, 0);
    if !enable_color || k < 0 || k >= 12 {
        monochrome_view()
    } else {
        let c = theme_colors(k);
        PaletteView {
            reset: "\x1b[0m"@,
            bold: "\x1b[1m"@,
            dim: "\x1b[2m"@,
            header: escape_of(c.header),
            accent: escape_of(c.accent),
            good: escape_of(c.good),
            warning: escape_of(c.warning),
            critical: escape_of(c.critical),
            muted: escape_of(c.muted),
            track: escape_of(c.track),
            text: escape_of(c.text),
            stops: c.stops,
        }
    }
}

fn escape_exec(c: Rgb) -> (r: String)
    ensures
        r@ == escape_of(c),
{
    fg_rgb(c.0, c.1, c.2)
}

impl Palette {
    pub fn monochrome() -> (r: Self)
        ensures
            r@ == monochrome_view(),
    {
        let r = Palette {
            reset: "",
            bold: "",
            dim: String::new(),
            header: String::new(),
            accent: String::new(),
            good: String::new(),
            warning: String::new(),
            critical: String::new(),
            muted: String::new(),
            track: String::new(),
            text: String::new(),
            stops: Vec::new(),
        };
        proof {
            reveal_strlit("");
        }
        assert(r@ =~= monochrome_view());
        r
    }
}

/// Build palette for a given theme name.
pub fn get_palette(theme: &str, enable_color: bool) -> (r: Palette)
    ensures
        r@ == palette_spec(theme@, enable_color),
{
    if !enable_color {
        return Palette::monochrome();
    }
    let k = match theme_index(theme) {
        Some(k) => k,
        None => return Palette::monochrome(),
    };
    if k >= 12 {
        return Palette::monochrome();
    }
    let c = theme_colors_exec(k);
    Palette {
        reset: "\x1b[0m",
        bold: "\x1b[1m",
        dim: String::from_str("\x1b[2m"),
        header: escape_exec(c.header),
        accent: escape_exec(c.accent),
        good: escape_exec(c.good),
        warning: escape_exec(c.warning),
        critical: escape_exec(c.critical),
        muted: escape_exec(c.muted),
        track: escape_exec(c.track),
        text: escape_exec(c.text),
        stops: c.stops,
    }
}

/// Every theme but "monochrome" has a gradient; "monochrome" and colour-off give the
/// empty palette.
pub proof fn law_theme_gradients(i: int, enable_color: bool)
    requires
        0 <= i < 13,
    ensures
        (enable_color && i < 12) ==> palette_spec(theme_names()[i], enable_color).stops.len() > 0,
        !(enable_color && i < 12) ==> palette_spec(theme_names()[i], enable_color) == monochrome_view(),
{
    crate::themes::lemma_theme_index_of(i);
}

/// With colour on, the default theme shows health as a traffic light: good is green,
/// warning yellow and critical red, and its gauge gradient runs from green through
/// yellow at 60% to red at 85%.
pub proof fn law_default_health_colors()
    ensures
        ({
            let c = theme_colors(0);
            let p = palette_spec(theme_names()[0], true);
            &&& p.good == escape_of(c.good) && p.warning == escape_of(c.warning) && p.critical == escape_of(
                c.critical,
            )
            &&& c.good.1 > c.good.0 && c.good.1 > c.good.2
            &&& c.warning.0 > c.warning.2 && c.warning.1 > c.warning.2
            &&& c.critical.0 > c.critical.1 && c.critical.0 > c.critical.2
            &&& c.stops.len() == 4 && c.stops[0].1 == c.good && c.stops[1] == (60u8, c.warning) && c.stops[2] == (
                85u8,
                c.critical,
            )
        }),
{
    crate::themes::lemma_theme_index_of(0);
}

/// Every escape of the palette is empty or one complete ANSI escape sequence.
pub open spec fn palette_pure(p: PaletteView) -> bool {
    &&& pure_escape(p.reset)
    &&& pure_escape(p.bold)
    &&& pure_escape(p.dim)
    &&& pure_escape(p.header)
    &&& pure_escape(p.accent)
    &&& pure_escape(p.good)
    &&& pure_escape(p.warning)
    &&& pure_escape(p.critical)
    &&& pure_escape(p.muted)
    &&& pure_escape(p.track)
    &&& pure_escape(p.text)
}

/// The palettes this library makes hold escape sequences only.
pub proof fn lemma_palette_spec_pure(theme: Seq<char>, enable_color: bool)
    ensures
        palette_pure(palette_spec(theme, enable_color)),
{
    lemma_escapes_pure();
    lemma_style_escapes_pure();
}

proof fn lemma_escapes_pure()
    ensures
        forall|c: Rgb| pure_escape(#[trigger] escape_of(c)),
{
    assert forall|c: Rgb| pure_escape(#[trigger] escape_of(c)) by {
        lemma_fg_rgb_pure(c.0, c.1, c.2);
    }
}

proof fn lemma_style_escapes_pure()
    ensures
        pure_escape("\x1b[0m"@),
        pure_escape("\x1b[1m"@),
        pure_escape("\x1b[2m"@),
{
    reveal_strlit("\x1b[0m");
    reveal_strlit("\x1b[1m");
    reveal_strlit("\x1b[2m");
    reveal_with_fuel(crate::ansi::skip_params, 3);
    reveal_with_fuel(crate::ansi::skip_intermediates, 2);
}

/// A colour escape is at most 19 characters long.
pub proof fn lemma_escape_len(c: Rgb)
    ensures
        escape_of(c).len() <= 19,
{
    crate::text::lemma_decimal_len(c.0 as nat);
    crate::text::lemma_decimal_len(c.1 as nat);
    crate::text::lemma_decimal_len(c.2 as nat);
    reveal_strlit("\x1b[38;2;");
    reveal_strlit(";");
    reveal_strlit("m");
}

/// Every palette's accent escape is short.
pub proof fn lemma_palette_accent_len(theme: Seq<char>, enable_color: bool)
    ensures
        palette_spec(theme, enable_color).accent.len() <= 19,
{
    let k = index_from(theme_names(), theme, 0);
    if enable_color && 0 <= k < 12 {
        lemma_escape_len(theme_colors(k).accent);
    }
}

} // verus!
