//! Screen layout pieces: fitting a frame's lines to the terminal height, joining them,
//! and the standalone theme selector window.

use vstd::prelude::*;
use crate::ansi::{lemma_strip_escape_prefix, lemma_strip_plain_prefix, pure_escape, strip_ansi_spec};
use crate::cellwidth::{
    clamp_line_to_cols, clamp_spec, frame_glyphs_narrow, lemma_cells_append, lemma_narrow_plain, narrow_plain,
    visible_width,
};
use crate::palette::{get_palette, palette_pure, palette_spec, Palette, PaletteView};
use crate::text::{push_repeat, push_str, repeat_char};
use crate::themes::{theme_name, theme_names};

verus! {

/// The lines that fit `rows` rows: cut to `rows`, or, when centring and there is room,
/// preceded by half the free rows as blank lines.
pub open spec fn fit_rows(lines: Seq<Seq<char>>, rows: nat, center_vertical: bool) -> Seq<Seq<char>> {
    if lines.len() > rows {
        lines.take(rows as int)
    } else if center_vertical && rows > lines.len() {
        Seq::new(((rows - lines.len()) / 2) as nat, |_i: int| Seq::<char>::empty()) + lines
    } else {
        lines
    }
}

/// The lines joined with '\n' between them.
pub open spec fn join_lines(lines: Seq<Seq<char>>) -> Seq<char>
    decreases lines.len(),
{
    if lines.len() == 0 {
        Seq::<char>::empty()
    } else if lines.len() == 1 {
        lines[0]
    } else {
        join_lines(lines.drop_last()) + seq!['\n'] + lines.last()
    }
}

pub open spec fn string_views(s: Seq<String>) -> Seq<Seq<char>> {
    s.map_values(|x: String| x@)
}

/// Fits the frame's lines to the terminal height (see `fit_rows`).
pub fn fit_to_rows(lines: Vec<String>, rows: usize, center_vertical: bool) -> (r: Vec<String>)
    ensures
        string_views(r@) == fit_rows(string_views(lines@), rows as nat, center_vertical),
{
    let ghost orig = lines@;
    let mut lines = lines;
    if lines.len() > rows {
        lines.truncate(rows);
        assert(string_views(lines@) =~= string_views(orig).take(rows as int));
        lines
    } else if center_vertical && rows > lines.len() {
        let pad_top = (rows - lines.len()) / 2;
        let mut out: Vec<String> = Vec::new();
        let mut i: usize = 0;
        while i < pad_top
            invariant
                i <= pad_top,
                string_views(out@) == Seq::new(i as nat, |_i: int| Seq::<char>::empty()),
            decreases pad_top - i,
        {
            let ghost before = string_views(out@);
            let e = String::new();
            assert(e@ =~= Seq::<char>::empty());
            out.push(e);
            assert(string_views(out@) =~= before.push(Seq::<char>::empty()));
            assert(string_views(out@) =~= Seq::new((i + 1) as nat, |_i: int| Seq::<char>::empty()));
            i += 1;
        }
        let ghost head = string_views(out@);
        let ghost tail = string_views(lines@);
        let mut j: usize = 0;
        let n = lines.len();
        let mut src = lines;
        while src.len() > 0
            invariant
                j <= n,
                src@.len() + j == n,
                tail.len() == n,
                string_views(src@) == tail.skip(j as int),
                string_views(out@) == head + tail.take(j as int),
            decreases src.len(),
        {
            let ghost before = src@;
            let line = src.remove(0);
            assert(string_views(before)[0] == tail.skip(j as int)[0]);
            let ghost out_before = string_views(out@);
            out.push(line);
            proof {
                assert(string_views(out@) =~= out_before.push(tail[j as int]));
                assert(tail.take(j + 1) =~= tail.take(j as int).push(tail[j as int]));
                assert(string_views(out@) =~= head + tail.take(j + 1));
                assert forall|k: int| 0 <= k < src@.len() implies #[trigger] string_views(src@)[k]
                    == tail.skip(j + 1)[k] by {
                    assert(src@[k] == before[k + 1]);
                    assert(string_views(before)[k + 1] == tail.skip(j as int)[k + 1]);
                }
                assert(string_views(src@) =~= tail.skip(j + 1));
            }
            j += 1;
        }
        assert(tail.take(n as int) =~= tail);
        out
    } else {
        lines
    }
}

/// Joins the lines with '\n'.
pub fn join_with_newlines(lines: &Vec<String>) -> (r: String)
    ensures
        r@ == join_lines(string_views(lines@)),
{
    let ghost all = string_views(lines@);
    let mut out = String::new();
    let mut i: usize = 0;
    assert(all.take(0) =~= Seq::<Seq<char>>::empty());
    while i < lines.len()
        invariant
            i <= lines@.len(),
            all == string_views(lines@),
            out@ == join_lines(all.take(i as int)),
        decreases lines.len() - i,
    {
        if i > 0 {
            push_str(&mut out, "\n");
            proof {
                reveal_strlit("\n");
            }
        }
        push_str(&mut out, lines[i].as_str());
        proof {
            let t = all.take(i + 1);
            assert(t.drop_last() =~= all.take(i as int));
            assert(t.last() == lines@[i as int]@);
            if i == 0 {
                assert(all.take(0) =~= Seq::<Seq<char>>::empty());
            }
            assert(out@ =~= join_lines(t));
        }
        i += 1;
    }
    assert(all.take(lines.len() as int) =~= all);
    out
}

// ---------------------------------------------------------------------------
// The theme selector window
// ---------------------------------------------------------------------------

pub open spec fn spaces(n: nat) -> Seq<char> {
    repeat_char(' ', n)
}

/// `s` padded with spaces to `w` characters (`format!("{:<w$}")`).
pub open spec fn pad_to(s: Seq<char>, w: nat) -> Seq<char> {
    if s.len() < w {
        s + spaces((w - s.len()) as nat)
    } else {
        s
    }
}

/// The escapes of a palette are of a size a line can hold.
pub open spec fn palette_fits(p: PaletteView) -> bool {
    &&& p.reset.len() <= usize::MAX / 128
    &&& p.bold.len() <= usize::MAX / 128
    &&& p.dim.len() <= usize::MAX / 128
    &&& p.header.len() <= usize::MAX / 128
    &&& p.accent.len() <= usize::MAX / 128
    &&& p.muted.len() <= usize::MAX / 128
    &&& p.text.len() <= usize::MAX / 128
}

/// The row of the selector for theme `i`: a marker when selected, a dot in the
/// theme's accent colour, its name padded to 16 characters, inside the box borders.
pub open spec fn theme_row(
    i: int,
    theme_idx: usize,
    p: PaletteView,
    pad_box: Seq<char>,
    ui_cols: nat,
    enable_color: bool,
) -> Seq<char> {
    let name = theme_names()[i];
    let sel = i == theme_idx;
    let prefix = if sel {
        p.bold + p.accent + "▶ "@ + p.reset
    } else {
        "  "@
    };
    let dot = palette_spec(name, enable_color).accent + "●"@ + p.reset;
    let styled = if sel {
        p.bold + p.accent + pad_to(name, 16) + p.reset
    } else {
        p.text + pad_to(name, 16) + p.reset
    };
    clamp_spec(
        pad_box + p.accent + "│"@ + p.reset + "  "@ + prefix + dot + " "@ + styled + "                "@
            + p.accent + "│"@ + p.reset,
        ui_cols,
    )
}

/// The selector's lines before the outer margin: title, box top, a blank box row, one
/// row per theme, a blank box row, a rule, the key help, the box bottom.
pub open spec fn theme_window_body(
    theme_idx: usize,
    p: PaletteView,
    ui_cols: nat,
    enable_color: bool,
) -> Seq<Seq<char>> {
    let pad_box = spaces(
        if ui_cols >= 42 {
            ((ui_cols - 42) / 2) as nat
        } else {
            0
        },
    );
    let r = p.reset;
    let a = p.accent;
    let blank_row = clamp_spec(pad_box + a + "│"@ + r + "                                      "@ + a + "│"@ + r, ui_cols);
    seq![
        clamp_spec(
            pad_box + p.header + p.bold + "RAM-TUI"@ + r + "  "@ + p.muted + "\u{00b7}"@ + r + "  "@
                + a + "THEME SELECTOR"@ + r,
            ui_cols,
        ),
        Seq::<char>::empty(),
        clamp_spec(pad_box + a + "┌─ SELECT PALETTE (13 Themes) ─────────┐"@ + r, ui_cols),
        blank_row,
    ] + Seq::new(13, |i: int| theme_row(i, theme_idx, p, pad_box, ui_cols, enable_color)) + seq![
        blank_row,
        clamp_spec(pad_box + a + "├──────────────────────────────────────┤"@ + r, ui_cols),
        clamp_spec(
            pad_box + a + "│"@ + r + " "@ + p.dim + "↑/↓ navigate  Enter apply  Esc cancel"@ + r + a
                + "│"@ + r,
            ui_cols,
        ),
        clamp_spec(pad_box + a + "└──────────────────────────────────────┘"@ + r, ui_cols),
    ]
}

/// A line as a list of pieces, each plain text (`true`) or an escape (`false`).
pub open spec fn cat(ps: Seq<(Seq<char>, bool)>) -> Seq<char>
    decreases ps.len(),
{
    if ps.len() == 0 {
        Seq::<char>::empty()
    } else {
        ps[0].0 + cat(ps.drop_first())
    }
}

/// A plain piece is one-cell text without ESC; any other is a whole escape.
pub open spec fn piece_ok(x: (Seq<char>, bool)) -> bool {
    if x.1 {
        narrow_plain(x.0)
    } else {
        pure_escape(x.0)
    }
}

/// Characters a piece shows.
pub open spec fn piece_len(x: (Seq<char>, bool)) -> nat {
    if x.1 {
        x.0.len()
    } else {
        0
    }
}

/// Every piece is well formed.
pub open spec fn pieces_ok(ps: Seq<(Seq<char>, bool)>) -> bool
    decreases ps.len(),
{
    ps.len() == 0 || (piece_ok(ps[0]) && pieces_ok(ps.drop_first()))
}

/// Characters in the plain pieces.
pub open spec fn plain_len(ps: Seq<(Seq<char>, bool)>) -> nat
    decreases ps.len(),
{
    if ps.len() == 0 {
        0
    } else {
        piece_len(ps[0]) + plain_len(ps.drop_first())
    }
}

proof fn lemma_cat_width(ps: Seq<(Seq<char>, bool)>)
    requires
        pieces_ok(ps),
    ensures
        visible_width(cat(ps)) == plain_len(ps),
    decreases ps.len(),
{
    if ps.len() > 0 {
        let rest = ps.drop_first();
        lemma_cat_width(rest);
        let p = ps[0];
        if p.1 {
            lemma_narrow_plain(p.0);
            lemma_strip_plain_prefix(p.0, cat(rest));
            lemma_cells_append(p.0, strip_ansi_spec(cat(rest)));
        } else {
            lemma_strip_escape_prefix(p.0, cat(rest));
        }
    }
}

#[verifier::spinoff_prover]
#[verifier::rlimit(40)]
proof fn lemma_theme_names_narrow(i: int)
    requires
        0 <= i < 13,
    ensures
        narrow_plain(theme_names()[i]),
{
    reveal_strlit("default");
    reveal_strlit("dracula");
    reveal_strlit("catppuccin");
    reveal_strlit("nord");
    reveal_strlit("tokyo-night");
    reveal_strlit("gruvbox");
    reveal_strlit("cyberpunk");
    reveal_strlit("rose-pine");
    reveal_strlit("everforest");
    reveal_strlit("kanagawa");
    reveal_strlit("monokai");
    reveal_strlit("solarized");
    reveal_strlit("monochrome");
    reveal_with_fuel(narrow_plain, 12);
}

#[verifier::spinoff_prover]
#[verifier::rlimit(40)]
proof fn lemma_top_border_text()
    requires
        frame_glyphs_narrow(),
    ensures
        narrow_plain("┌─ SELECT PALETTE (13 Themes) ─────────┐"@),
        "┌─ SELECT PALETTE (13 Themes) ─────────┐"@.len() == 40,
{
    reveal_strlit("┌─ SELECT PALETTE (13 Themes) ─────────┐");
    reveal_with_fuel(narrow_plain, 41);
}

#[verifier::spinoff_prover]
#[verifier::rlimit(40)]
proof fn lemma_rule_text()
    requires
        frame_glyphs_narrow(),
    ensures
        narrow_plain("├──────────────────────────────────────┤"@),
        "├──────────────────────────────────────┤"@.len() == 40,
{
    reveal_strlit("├──────────────────────────────────────┤");
    reveal_with_fuel(narrow_plain, 41);
}

#[verifier::spinoff_prover]
#[verifier::rlimit(40)]
proof fn lemma_bottom_border_text()
    requires
        frame_glyphs_narrow(),
    ensures
        narrow_plain("└──────────────────────────────────────┘"@),
        "└──────────────────────────────────────┘"@.len() == 40,
{
    reveal_strlit("└──────────────────────────────────────┘");
    reveal_with_fuel(narrow_plain, 41);
}

#[verifier::spinoff_prover]
#[verifier::rlimit(40)]
proof fn lemma_box_row_texts()
    requires
        frame_glyphs_narrow(),
    ensures
        narrow_plain("│"@) && "│"@.len() == 1,
        narrow_plain(" "@) && " "@.len() == 1,
        narrow_plain("  "@) && "  "@.len() == 2,
        narrow_plain("▶ "@) && "▶ "@.len() == 2,
        narrow_plain("●"@) && "●"@.len() == 1,
        narrow_plain("                "@) && "                "@.len() == 16,
        narrow_plain("                                      "@) && "                                      "@.len()
            == 38,
        narrow_plain("↑/↓ navigate  Enter apply  Esc cancel"@) && "↑/↓ navigate  Enter apply  Esc cancel"@.len()
            == 37,
{
    reveal_strlit("│");
    reveal_strlit(" ");
    reveal_strlit("  ");
    reveal_strlit("▶ ");
    reveal_strlit("●");
    reveal_strlit("                ");
    reveal_strlit("                                      ");
    reveal_strlit("↑/↓ navigate  Enter apply  Esc cancel");
    reveal_with_fuel(narrow_plain, 39);
}

proof fn lemma_cat_append(a: Seq<(Seq<char>, bool)>, b: Seq<(Seq<char>, bool)>)
    ensures
        cat(a + b) == cat(a) + cat(b),
        pieces_ok(a + b) == (pieces_ok(a) && pieces_ok(b)),
        plain_len(a + b) == plain_len(a) + plain_len(b),
    decreases a.len(),
{
    if a.len() == 0 {
        assert(a + b =~= b);
        assert(cat(a) + cat(b) =~= cat(b));
    } else {
        lemma_cat_append(a.drop_first(), b);
        assert((a + b)[0] == a[0]);
        assert((a + b).drop_first() =~= a.drop_first() + b);
        assert(cat(a) + cat(b) =~= a[0].0 + (cat(a.drop_first()) + cat(b)));
    }
}

/// `ps` with `x` added at the end, and what that adds.
proof fn push_piece(ps: Seq<(Seq<char>, bool)>, x: (Seq<char>, bool)) -> (r: Seq<(Seq<char>, bool)>)
    ensures
        r == ps.push(x),
        cat(r) == cat(ps) + x.0,
        pieces_ok(r) == (pieces_ok(ps) && piece_ok(x)),
        plain_len(r) == plain_len(ps) + piece_len(x),
{
    let one = seq![x];
    reveal_with_fuel(cat, 2);
    reveal_with_fuel(pieces_ok, 2);
    reveal_with_fuel(plain_len, 2);
    assert(one.drop_first() =~= Seq::<(Seq<char>, bool)>::empty());
    assert(cat(one) =~= x.0);
    lemma_cat_append(ps, one);
    assert(ps + one =~= ps.push(x));
    ps.push(x)
}

proof fn lemma_line_fits(ps: Seq<(Seq<char>, bool)>, ui_cols: nat)
    requires
        ui_cols > 0,
        pieces_ok(ps),
        plain_len(ps) <= ui_cols,
    ensures
        clamp_spec(cat(ps), ui_cols) == cat(ps),
        visible_width(cat(ps)) == plain_len(ps),
{
    lemma_cat_width(ps);
}

proof fn first_piece(x: (Seq<char>, bool)) -> (r: Seq<(Seq<char>, bool)>)
    ensures
        r == seq![x],
        cat(r) == x.0,
        pieces_ok(r) == piece_ok(x),
        plain_len(r) == piece_len(x),
{
    let r = seq![x];
    reveal_with_fuel(cat, 2);
    reveal_with_fuel(pieces_ok, 2);
    reveal_with_fuel(plain_len, 2);
    assert(r.drop_first() =~= Seq::<(Seq<char>, bool)>::empty());
    assert(cat(r) =~= x.0);
    r
}

proof fn lemma_border_width(pad_box: Seq<char>, p: PaletteView, text: Seq<char>, ui_cols: nat)
    requires
        narrow_plain(pad_box),
        narrow_plain(text),
        text.len() == 40,
        palette_pure(p),
        pad_box.len() + 40 <= ui_cols,
    ensures
        visible_width(clamp_spec(pad_box + p.accent + text + p.reset, ui_cols)) == pad_box.len() + 40,
{
    let s1 = first_piece((pad_box, true));
    let s2 = push_piece(s1, (p.accent, false));
    let s3 = push_piece(s2, (text, true));
    let s4 = push_piece(s3, (p.reset, false));
    lemma_line_fits(s4, ui_cols);
}

#[verifier::spinoff_prover]
#[verifier::rlimit(40)]
proof fn lemma_blank_width(pad_box: Seq<char>, p: PaletteView, ui_cols: nat)
    requires
        narrow_plain(pad_box),
        palette_pure(p),
        frame_glyphs_narrow(),
        pad_box.len() + 40 <= ui_cols,
    ensures
        visible_width(
            clamp_spec(pad_box + p.accent + "│"@ + p.reset + "                                      "@ + p.accent
                + "│"@ + p.reset, ui_cols),
        ) == pad_box.len() + 40,
{
    lemma_box_row_texts();
    let s1 = first_piece((pad_box, true));
    let s2 = push_piece(s1, (p.accent, false));
    let s3 = push_piece(s2, ("│"@, true));
    let s4 = push_piece(s3, (p.reset, false));
    let s5 = push_piece(s4, ("                                      "@, true));
    let s6 = push_piece(s5, (p.accent, false));
    let s7 = push_piece(s6, ("│"@, true));
    let s8 = push_piece(s7, (p.reset, false));
    lemma_line_fits(s8, ui_cols);
}

#[verifier::spinoff_prover]
#[verifier::rlimit(40)]
proof fn lemma_help_width(pad_box: Seq<char>, p: PaletteView, ui_cols: nat)
    requires
        narrow_plain(pad_box),
        palette_pure(p),
        frame_glyphs_narrow(),
        pad_box.len() + 40 <= ui_cols,
    ensures
        visible_width(
            clamp_spec(pad_box + p.accent + "│"@ + p.reset + " "@ + p.dim + "↑/↓ navigate  Enter apply  Esc cancel"@
                + p.reset + p.accent + "│"@ + p.reset, ui_cols),
        ) == pad_box.len() + 40,
{
    lemma_box_row_texts();
    let s1 = first_piece((pad_box, true));
    let s2 = push_piece(s1, (p.accent, false));
    let s3 = push_piece(s2, ("│"@, true));
    let s4 = push_piece(s3, (p.reset, false));
    let s5 = push_piece(s4, (" "@, true));
    let s6 = push_piece(s5, (p.dim, false));
    let s7 = push_piece(s6, ("↑/↓ navigate  Enter apply  Esc cancel"@, true));
    let s8 = push_piece(s7, (p.reset, false));
    let s9 = push_piece(s8, (p.accent, false));
    let s10 = push_piece(s9, ("│"@, true));
    let s11 = push_piece(s10, (p.reset, false));
    lemma_line_fits(s11, ui_cols);
}

proof fn lemma_padded_name(i: int)
    requires
        0 <= i < 13,
    ensures
        narrow_plain(pad_to(theme_names()[i], 16)),
        pad_to(theme_names()[i], 16).len() == 16,
{
    let nm = theme_names()[i];
    crate::themes::lemma_theme_name_len(i);
    lemma_theme_names_narrow(i);
    crate::cellwidth::lemma_narrow_spaces((16 - nm.len()) as nat);
    crate::cellwidth::lemma_narrow_concat(nm, spaces((16 - nm.len()) as nat));
}

/// The row's pieces up to the marker: padding, border, two spaces.
#[verifier::spinoff_prover]
#[verifier::rlimit(40)]
proof fn row_head(pad_box: Seq<char>, p: PaletteView) -> (r: Seq<(Seq<char>, bool)>)
    requires
        narrow_plain(pad_box),
        palette_pure(p),
        frame_glyphs_narrow(),
    ensures
        cat(r) == pad_box + p.accent + "│"@ + p.reset + "  "@,
        pieces_ok(r),
        plain_len(r) == pad_box.len() + 3,
{
    lemma_box_row_texts();
    let s1 = first_piece((pad_box, true));
    let s2 = push_piece(s1, (p.accent, false));
    let s3 = push_piece(s2, ("│"@, true));
    let s4 = push_piece(s3, (p.reset, false));
    push_piece(s4, ("  "@, true))
}

/// A row's pieces from the name on: the name, the fill, the closing border.
#[verifier::spinoff_prover]
#[verifier::rlimit(40)]
proof fn row_tail(ps: Seq<(Seq<char>, bool)>, p: PaletteView, padded: Seq<char>) -> (r: Seq<(Seq<char>, bool)>)
    requires
        pieces_ok(ps),
        narrow_plain(padded),
        palette_pure(p),
        frame_glyphs_narrow(),
    ensures
        cat(r) == cat(ps) + padded + p.reset + "                "@ + p.accent + "│"@ + p.reset,
        pieces_ok(r),
        plain_len(r) == plain_len(ps) + padded.len() + 17,
{
    lemma_box_row_texts();
    let w3 = push_piece(ps, (padded, true));
    let w4 = push_piece(w3, (p.reset, false));
    let e1 = push_piece(w4, ("                "@, true));
    let e2 = push_piece(e1, (p.accent, false));
    let e3 = push_piece(e2, ("│"@, true));
    push_piece(e3, (p.reset, false))
}

/// The dot in the theme's colour and the space after it.
#[verifier::spinoff_prover]
#[verifier::rlimit(40)]
proof fn row_dot(ps: Seq<(Seq<char>, bool)>, p: PaletteView, dot_color: Seq<char>) -> (r: Seq<(Seq<char>, bool)>)
    requires
        pieces_ok(ps),
        pure_escape(dot_color),
        palette_pure(p),
        frame_glyphs_narrow(),
    ensures
        cat(r) == cat(ps) + (dot_color + "●"@ + p.reset) + " "@,
        pieces_ok(r),
        plain_len(r) == plain_len(ps) + 2,
{
    lemma_box_row_texts();
    let u1 = push_piece(ps, (dot_color, false));
    let u2 = push_piece(u1, ("●"@, true));
    let u3 = push_piece(u2, (p.reset, false));
    assert(cat(u3) =~= cat(ps) + (dot_color + "●"@ + p.reset));
    push_piece(u3, (" "@, true))
}

/// A row's visible width, for a dot escape given as is.
#[verifier::spinoff_prover]
#[verifier::rlimit(40)]
proof fn lemma_row_parts_width(
    sel: bool,
    p: PaletteView,
    pad_box: Seq<char>,
    padded: Seq<char>,
    dot_color: Seq<char>,
    ui_cols: nat,
)
    requires
        narrow_plain(pad_box),
        narrow_plain(padded),
        padded.len() == 16,
        pure_escape(dot_color),
        palette_pure(p),
        frame_glyphs_narrow(),
        pad_box.len() + 40 <= ui_cols,
    ensures
        ({
            let prefix = if sel {
                p.bold + p.accent + "▶ "@ + p.reset
            } else {
                "  "@
            };
            let styled = if sel {
                p.bold + p.accent + padded + p.reset
            } else {
                p.text + padded + p.reset
            };
            let raw = pad_box + p.accent + "│"@ + p.reset + "  "@ + prefix + (dot_color + "●"@ + p.reset) + " "@
                + styled + "                "@ + p.accent + "│"@ + p.reset;
            visible_width(clamp_spec(raw, ui_cols)) == pad_box.len() + 40
        }),
{
    lemma_box_row_texts();
    let head = row_head(pad_box, p);
    let x = cat(head);
    if sel {
        let prefix = p.bold + p.accent + "▶ "@ + p.reset;
        let t1 = push_piece(head, (p.bold, false));
        let t2 = push_piece(t1, (p.accent, false));
        let t3 = push_piece(t2, ("▶ "@, true));
        let t4 = push_piece(t3, (p.reset, false));
        assert(cat(t4) =~= x + prefix);
        let d = row_dot(t4, p, dot_color);
        let y = cat(d);
        let w1 = push_piece(d, (p.bold, false));
        let w2 = push_piece(w1, (p.accent, false));
        let r = row_tail(w2, p, padded);
        assert(cat(r) =~= y + (p.bold + p.accent + padded + p.reset) + "                "@ + p.accent + "│"@ + p.reset);
        lemma_line_fits(r, ui_cols);
    } else {
        let t1 = push_piece(head, ("  "@, true));
        let d = row_dot(t1, p, dot_color);
        let y = cat(d);
        let w1 = push_piece(d, (p.text, false));
        let r = row_tail(w1, p, padded);
        assert(cat(r) =~= y + (p.text + padded + p.reset) + "                "@ + p.accent + "│"@ + p.reset);
        lemma_line_fits(r, ui_cols);
    }
}

proof fn lemma_row_width(
    i: int,
    theme_idx: usize,
    p: PaletteView,
    pad_box: Seq<char>,
    ui_cols: nat,
    enable_color: bool,
)
    requires
        0 <= i < 13,
        narrow_plain(pad_box),
        palette_pure(p),
        frame_glyphs_narrow(),
        pad_box.len() + 40 <= ui_cols,
    ensures
        visible_width(theme_row(i, theme_idx, p, pad_box, ui_cols, enable_color)) == pad_box.len() + 40,
{
    let nm = theme_names()[i];
    lemma_padded_name(i);
    crate::palette::lemma_palette_spec_pure(nm, enable_color);
    let dot_color = palette_spec(nm, enable_color).accent;
    lemma_row_parts_width(i == theme_idx, p, pad_box, pad_to(nm, 16), dot_color, ui_cols);
}

/// The theme selector's box lines up: for palettes made of escape sequences, every
/// line from the top border to the bottom border is the box's left padding plus 40
/// cells wide, on a window of at least 42 columns.
pub proof fn law_theme_box_aligned(theme_idx: usize, p: PaletteView, ui_cols: nat, enable_color: bool)
    requires
        palette_pure(p),
        frame_glyphs_narrow(),
        42 <= ui_cols,
    ensures
        forall|k: int|
            2 <= k <= 20 ==> visible_width(#[trigger] theme_window_body(theme_idx, p, ui_cols, enable_color)[k])
                == (ui_cols - 42) / 2 + 40,
{
    let n = ((ui_cols - 42) / 2) as nat;
    let pad_box = spaces(n);
    crate::cellwidth::lemma_narrow_spaces(n);
    lemma_top_border_text();
    lemma_rule_text();
    lemma_bottom_border_text();
    let body = theme_window_body(theme_idx, p, ui_cols, enable_color);
    lemma_border_width(pad_box, p, "┌─ SELECT PALETTE (13 Themes) ─────────┐"@, ui_cols);
    lemma_border_width(pad_box, p, "├──────────────────────────────────────┤"@, ui_cols);
    lemma_border_width(pad_box, p, "└──────────────────────────────────────┘"@, ui_cols);
    lemma_blank_width(pad_box, p, ui_cols);
    lemma_help_width(pad_box, p, ui_cols);
    assert forall|k: int| 2 <= k <= 20 implies visible_width(#[trigger] body[k]) == (ui_cols - 42) / 2 + 40 by {
        if 4 <= k <= 16 {
            lemma_row_width(k - 4, theme_idx, p, pad_box, ui_cols, enable_color);
            assert(body[k] == theme_row(k - 4, theme_idx, p, pad_box, ui_cols, enable_color));
        }
    }
}

/// The selector centred in a window at most 80 columns wide, clamped to the terminal.
pub open spec fn theme_window_spec(
    theme_idx: usize,
    p: PaletteView,
    cols: nat,
    rows: nat,
    enable_color: bool,
    center_vertical: bool,
) -> Seq<char> {
    let ui_cols: nat = if cols < 80 {
        cols
    } else {
        80
    };
    let margin = spaces(((cols - ui_cols) / 2) as nat);
    let body = theme_window_body(theme_idx, p, ui_cols, enable_color);
    join_lines(
        fit_rows(
            Seq::new(body.len(), |i: int| clamp_spec(margin + body[i], cols)),
            rows,
            center_vertical,
        ),
    )
}

fn push_padded(out: &mut String, s: &str, w: usize)
    requires
        s@.len() <= w,
    ensures
        final(out)@ == old(out)@ + pad_to(s@, w as nat),
{
    push_str(out, s);
    let n = s.unicode_len();
    if n < w {
        push_repeat(out, ' ', w - n);
    }
    assert(final(out)@ =~= old(out)@ + pad_to(s@, w as nat));
}

fn clamp_owned(line: String, cols: usize) -> (r: String)
    requires
        line@.len() <= usize::MAX / 3,
    ensures
        r@ == clamp_spec(line@, cols as nat),
        r@.len() <= line@.len(),
{
    proof {
        crate::cellwidth::lemma_clamp_len(line@, cols as nat);
    }
    clamp_line_to_cols(line.as_str(), cols)
}

/// A line of the selector box: the box padding, `middle` in the accent colour.
fn box_line(pal: &Palette, box_pad: usize, ui_cols: usize, middle: &str) -> (r: String)
    requires
        palette_fits(pal@),
        box_pad <= 40,
        middle@.len() <= 64,
    ensures
        r@.len() <= usize::MAX / 8,
        r@ == clamp_spec(spaces(box_pad as nat) + pal@.accent + middle@ + pal@.reset, ui_cols as nat),
{
    let mut l = String::new();
    push_repeat(&mut l, ' ', box_pad);
    push_str(&mut l, pal.accent.as_str());
    push_str(&mut l, middle);
    push_str(&mut l, pal.reset);
    assert(l@ =~= spaces(box_pad as nat) + pal@.accent + middle@ + pal@.reset);
    clamp_owned(l, ui_cols)
}

fn title_line(pal: &Palette, box_pad: usize, ui_cols: usize) -> (r: String)
    requires
        palette_fits(pal@),
        box_pad <= 40,
    ensures
        r@.len() <= usize::MAX / 8,
        r@ == clamp_spec(
            spaces(box_pad as nat) + pal@.header + pal@.bold + "RAM-TUI"@ + pal@.reset + "  "@
                + pal@.muted + "\u{00b7}"@ + pal@.reset + "  "@ + pal@.accent + "THEME SELECTOR"@
                + pal@.reset,
            ui_cols as nat,
        ),
{
    let mut l = String::new();
    push_repeat(&mut l, ' ', box_pad);
    push_str(&mut l, pal.header.as_str());
    push_str(&mut l, pal.bold);
    push_str(&mut l, "RAM-TUI");
    push_str(&mut l, pal.reset);
    push_str(&mut l, "  ");
    push_str(&mut l, pal.muted.as_str());
    push_str(&mut l, "\u{00b7}");
    push_str(&mut l, pal.reset);
    push_str(&mut l, "  ");
    push_str(&mut l, pal.accent.as_str());
    push_str(&mut l, "THEME SELECTOR");
    push_str(&mut l, pal.reset);
    proof {
        reveal_strlit("RAM-TUI");
        reveal_strlit("  ");
        reveal_strlit("\u{00b7}");
        reveal_strlit("THEME SELECTOR");
    }
    assert(l@ =~= spaces(box_pad as nat) + pal@.header + pal@.bold + "RAM-TUI"@ + pal@.reset + "  "@
        + pal@.muted + "\u{00b7}"@ + pal@.reset + "  "@ + pal@.accent + "THEME SELECTOR"@ + pal@.reset);
    clamp_owned(l, ui_cols)
}

fn help_line(pal: &Palette, box_pad: usize, ui_cols: usize) -> (r: String)
    requires
        palette_fits(pal@),
        box_pad <= 40,
    ensures
        r@.len() <= usize::MAX / 8,
        r@ == clamp_spec(
            spaces(box_pad as nat) + pal@.accent + "│"@ + pal@.reset + " "@ + pal@.dim
                + "↑/↓ navigate  Enter apply  Esc cancel"@ + pal@.reset + pal@.accent + "│"@
                + pal@.reset,
            ui_cols as nat,
        ),
{
    let mut l = String::new();
    push_repeat(&mut l, ' ', box_pad);
    push_str(&mut l, pal.accent.as_str());
    push_str(&mut l, "│");
    push_str(&mut l, pal.reset);
    push_str(&mut l, " ");
    push_str(&mut l, pal.dim.as_str());
    push_str(&mut l, "↑/↓ navigate  Enter apply  Esc cancel");
    push_str(&mut l, pal.reset);
    push_str(&mut l, pal.accent.as_str());
    push_str(&mut l, "│");
    push_str(&mut l, pal.reset);
    proof {
        reveal_strlit("│");
        reveal_strlit(" ");
        reveal_strlit("↑/↓ navigate  Enter apply  Esc cancel");
    }
    assert(l@ =~= spaces(box_pad as nat) + pal@.accent + "│"@ + pal@.reset + " "@ + pal@.dim
        + "↑/↓ navigate  Enter apply  Esc cancel"@ + pal@.reset + pal@.accent + "│"@ + pal@.reset);
    clamp_owned(l, ui_cols)
}

/// The selector's lines (see `theme_window_body`).
fn theme_window_lines(theme_idx: usize, pal: &Palette, ui_cols: usize, enable_color: bool) -> (r: Vec<String>)
    requires
        palette_fits(pal@),
        ui_cols <= 80,
    ensures
        string_views(r@) == theme_window_body(theme_idx, pal@, ui_cols as nat, enable_color),
        forall|j: int| 0 <= j < r@.len() ==> (#[trigger] r@[j])@.len() <= usize::MAX / 8,
{
    let ghost p = pal@;
    let box_pad = if ui_cols >= 42 {
        (ui_cols - 42) / 2
    } else {
        0
    };
    let ghost body = theme_window_body(theme_idx, p, ui_cols as nat, enable_color);
    proof {
        reveal_strlit("┌─ SELECT PALETTE (13 Themes) ─────────┐");
        reveal_strlit("├──────────────────────────────────────┤");
        reveal_strlit("└──────────────────────────────────────┘");
    }
    let mut lines: Vec<String> = Vec::new();
    lines.push(title_line(pal, box_pad, ui_cols));
    let e = String::new();
    assert(e@ =~= Seq::<char>::empty());
    lines.push(e);
    lines.push(box_line(pal, box_pad, ui_cols, "┌─ SELECT PALETTE (13 Themes) ─────────┐"));
    let blank = blank_box_row(pal, box_pad, ui_cols);
    lines.push(blank.clone());
    assert(forall|k: int| 0 <= k < 4 ==> (#[trigger] lines@[k])@ == body[k]);
    assert(forall|k: int| 0 <= k < 4 ==> (#[trigger] lines@[k])@.len() <= usize::MAX / 8);
    let mut i: usize = 0;
    while i < 13
        invariant
            i <= 13,
            p == pal@,
            palette_fits(p),
            box_pad <= 40,
            box_pad == (if ui_cols >= 42 { (ui_cols - 42) / 2 } else { 0 }),
            body == theme_window_body(theme_idx, p, ui_cols as nat, enable_color),
            lines@.len() == 4 + i,
            forall|k: int| 0 <= k < 4 + i ==> (#[trigger] lines@[k])@ == body[k],
            forall|k: int| 0 <= k < 4 + i ==> (#[trigger] lines@[k])@.len() <= usize::MAX / 8,
            blank@ == body[3],
            blank@.len() <= usize::MAX / 8,
        decreases 13 - i,
    {
        let row = theme_row_exec(i, theme_idx, pal, box_pad, ui_cols, enable_color);
        lines.push(row);
        assert(lines@[4 + i as int]@ == body[4 + i as int]);
        i += 1;
    }
    lines.push(blank);
    lines.push(box_line(pal, box_pad, ui_cols, "├──────────────────────────────────────┤"));
    lines.push(help_line(pal, box_pad, ui_cols));
    lines.push(box_line(pal, box_pad, ui_cols, "└──────────────────────────────────────┘"));
    assert(forall|k: int| 17 <= k < 21 ==> (#[trigger] lines@[k])@ == body[k]);
    assert(forall|k: int| 17 <= k < 21 ==> (#[trigger] lines@[k])@.len() <= usize::MAX / 8);
    assert(string_views(lines@) =~= body);
    lines
}

/// Each line behind the left margin, clamped to the terminal width.
fn frame_lines(lines: &Vec<String>, pad_left: usize, cols: usize) -> (r: Vec<String>)
    requires
        pad_left <= usize::MAX / 8,
        forall|j: int| 0 <= j < lines@.len() ==> (#[trigger] lines@[j])@.len() <= usize::MAX / 8,
    ensures
        string_views(r@) == Seq::new(
            lines@.len(),
            |i: int| clamp_spec(spaces(pad_left as nat) + lines@[i]@, cols as nat),
        ),
{
    let mut framed: Vec<String> = Vec::new();
    let mut k: usize = 0;
    while k < lines.len()
        invariant
            k <= lines@.len(),
            pad_left <= usize::MAX / 8,
            forall|j: int| 0 <= j < lines@.len() ==> (#[trigger] lines@[j])@.len() <= usize::MAX / 8,
            framed@.len() == k,
            forall|j: int|
                0 <= j < k ==> (#[trigger] framed@[j])@ == clamp_spec(
                    spaces(pad_left as nat) + lines@[j]@,
                    cols as nat,
                ),
        decreases lines.len() - k,
    {
        let mut l = String::new();
        push_repeat(&mut l, ' ', pad_left);
        push_str(&mut l, lines[k].as_str());
        assert(l@ =~= spaces(pad_left as nat) + lines@[k as int]@);
        framed.push(clamp_owned(l, cols));
        k += 1;
    }
    assert(string_views(framed@) =~= Seq::new(
        lines@.len(),
        |i: int| clamp_spec(spaces(pad_left as nat) + lines@[i]@, cols as nat),
    ));
    framed
}

/// Render the standalone Theme Selection Window.
pub fn render_standalone_theme_window(
    theme_idx: usize,
    pal: &Palette,
    cols: usize,
    rows: usize,
    enable_color: bool,
    center_vertical: bool,
) -> (r: String)
    requires
        palette_fits(pal@),
        cols <= usize::MAX / 64,
    ensures
        r@ == theme_window_spec(theme_idx, pal@, cols as nat, rows as nat, enable_color, center_vertical),
        palette_pure(pal@) && cols >= 42 ==> ({
            let ui_cols: nat = if cols < 80 {
                cols as nat
            } else {
                80
            };
            forall|k: int|
                2 <= k <= 20 ==> visible_width(#[trigger] theme_window_body(theme_idx, pal@, ui_cols, enable_color)[k])
                    == (ui_cols - 42) / 2 + 40
        }),
{
    let ui_cols = if cols < 80 {
        cols
    } else {
        80
    };
    let _glyphs_narrow: bool = crate::cellwidth::frame_glyph_widths();
    proof {
        if palette_pure(pal@) && cols >= 42 {
            law_theme_box_aligned(theme_idx, pal@, ui_cols as nat, enable_color);
        }
    }
    let pad_left = (cols - ui_cols) / 2;
    let lines = theme_window_lines(theme_idx, pal, ui_cols, enable_color);
    let ghost body = theme_window_body(theme_idx, pal@, ui_cols as nat, enable_color);
    let framed = frame_lines(&lines, pad_left, cols);
    assert(string_views(framed@) =~= Seq::new(
        body.len(),
        |i: int| clamp_spec(spaces(pad_left as nat) + body[i], cols as nat),
    ));
    let fitted = fit_to_rows(framed, rows, center_vertical);
    join_with_newlines(&fitted)
}

fn blank_box_row(pal: &Palette, box_pad: usize, ui_cols: usize) -> (r: String)
    requires
        palette_fits(pal@),
        box_pad <= 40,
    ensures
        r@.len() <= usize::MAX / 8,
        r@ == clamp_spec(
            spaces(box_pad as nat) + pal@.accent + "│"@ + pal@.reset + "                                      "@
                + pal@.accent + "│"@ + pal@.reset,
            ui_cols as nat,
        ),
{
    let mut l = String::new();
    push_repeat(&mut l, ' ', box_pad);
    push_str(&mut l, pal.accent.as_str());
    push_str(&mut l, "│");
    push_str(&mut l, pal.reset);
    push_str(&mut l, "                                      ");
    push_str(&mut l, pal.accent.as_str());
    push_str(&mut l, "│");
    push_str(&mut l, pal.reset);
    proof {
        reveal_strlit("│");
        reveal_strlit("                                      ");
    }
    clamp_owned(l, ui_cols)
}

#[verifier::rlimit(50)]
fn theme_row_exec(
    i: usize,
    theme_idx: usize,
    pal: &Palette,
    box_pad: usize,
    ui_cols: usize,
    enable_color: bool,
) -> (r: String)
    requires
        i < 13,
        palette_fits(pal@),
        box_pad <= 40,
    ensures
        r@.len() <= usize::MAX / 8,
        r@ == theme_row(i as int, theme_idx, pal@, spaces(box_pad as nat), ui_cols as nat, enable_color),
{
    let name = theme_name(i);
    let sel = i == theme_idx;
    let theme_pal = get_palette(name, enable_color);
    proof {
        crate::themes::lemma_theme_name_len(i as int);
        crate::palette::lemma_palette_accent_len(name@, enable_color);
    }
    let mut l = String::new();
    push_repeat(&mut l, ' ', box_pad);
    push_str(&mut l, pal.accent.as_str());
    push_str(&mut l, "│");
    push_str(&mut l, pal.reset);
    push_str(&mut l, "  ");
    if sel {
        push_str(&mut l, pal.bold);
        push_str(&mut l, pal.accent.as_str());
        push_str(&mut l, "▶ ");
        push_str(&mut l, pal.reset);
    } else {
        push_str(&mut l, "  ");
    }
    push_str(&mut l, theme_pal.accent.as_str());
    push_str(&mut l, "●");
    push_str(&mut l, pal.reset);
    push_str(&mut l, " ");
    if sel {
        push_str(&mut l, pal.bold);
        push_str(&mut l, pal.accent.as_str());
    } else {
        push_str(&mut l, pal.text.as_str());
    }
    push_padded(&mut l, name, 16);
    push_str(&mut l, pal.reset);
    push_str(&mut l, "                ");
    push_str(&mut l, pal.accent.as_str());
    push_str(&mut l, "│");
    push_str(&mut l, pal.reset);
    proof {
        reveal_strlit("│");
        reveal_strlit("  ");
        reveal_strlit("▶ ");
        reveal_strlit("●");
        reveal_strlit(" ");
        reveal_strlit("                ");
        let p = pal@;
        let nm = theme_names()[i as int];
        assert(name@ == nm);
        let prefix = if sel {
            p.bold + p.accent + "▶ "@ + p.reset
        } else {
            "  "@
        };
        let dot = palette_spec(nm, enable_color).accent + "●"@ + p.reset;
        let styled = if sel {
            p.bold + p.accent + pad_to(nm, 16) + p.reset
        } else {
            p.text + pad_to(nm, 16) + p.reset
        };
        assert(l@ =~= spaces(box_pad as nat) + p.accent + "│"@ + p.reset + "  "@ + prefix + dot + " "@
            + styled + "                "@ + p.accent + "│"@ + p.reset);
    }
    clamp_owned(l, ui_cols)
}

} // verus!
