//! Terminal cell-width arithmetic: the display width of characters and of
//! text with ANSI escapes removed, and truncating, padding and clamping text
//! to a number of terminal columns.

use vstd::prelude::*;
use unicode_width::UnicodeWidthChar;
use crate::ansi::{strip_ansi, strip_ansi_spec};
use crate::text::{chars_of, push_char, push_repeat, push_str, repeat_char, string_from_chars};

verus! {

// ---------------------------------------------------------------------------
// Width of one character
// ---------------------------------------------------------------------------

/// What `unicode_width::UnicodeWidthChar::width` returns for `c` (UAX #11 widths).
pub uninterp spec fn unicode_column_width(c: char) -> Option<usize>;

/// `unicode_width::UnicodeWidthChar::width`. Claims: the result is the crate's
/// width of `c`; it is `None` exactly for the C0/C1 control characters
/// (below U+0020 and U+007F..U+009F), `Some(1)` for printable ASCII, and never
/// above 3 (the lookup tables hold 2-bit widths, with U+17D8 as the one 3); the
/// tables give width 1 to the arrows U+2190..U+2193, the box-drawing block
/// U+2500..U+257F and the geometric shapes U+25A0..U+25FC.
#[verifier::external_body]
fn unicode_char_width(c: char) -> (w: Option<usize>)
    ensures
        w == unicode_column_width(c),
        w is None <==> ((c as u32) < 0x20 || (0x7F <= (c as u32) && (c as u32) < 0xA0)),
        0x20 <= (c as u32) < 0x7F ==> w == Some(1usize),
        w matches Some(n) ==> n <= 3,
        (0x2190 <= (c as u32) <= 0x2193 || 0x2500 <= (c as u32) <= 0x257F || 0x25A0 <= (c as u32)
            <= 0x25FC) ==> w == Some(1usize),
{
    c.width()
}

/// Zero-width joiner, zero-width space and byte-order mark.
pub open spec fn is_zero_width_format(c: char) -> bool {
    c == '\u{200d}' || c == '\u{200b}' || c == '\u{feff}'
}

/// Display-cell width of one character: 1 for printable ASCII, 0 for ASCII
/// controls and the zero-width format characters, otherwise the Unicode width
/// (0 where Unicode gives none).
pub open spec fn cell_width(c: char) -> nat {
    let code = c as u32;
    if 32 <= code <= 126 {
        1
    } else if code < 32 || code == 127 {
        0
    } else if is_zero_width_format(c) {
        0
    } else {
        match unicode_column_width(c) {
            Some(w) => w as nat,
            None => 0,
        }
    }
}

/// Returns the display-cell width of a single character.
pub fn char_cell_width(ch: char) -> (w: usize)
    ensures
        w == cell_width(ch),
        w <= 3,
{
    let code = ch as u32;
    if 32 <= code && code <= 126 {
        return 1;
    }
    if code < 32 || code == 127 {
        return 0;
    }
    if ch == '\u{200d}' || ch == '\u{200b}' || ch == '\u{feff}' {
        return 0;
    }
    match unicode_char_width(ch) {
        Some(w) => w,
        None => 0,
    }
}


// ---------------------------------------------------------------------------
// Width of text
// ---------------------------------------------------------------------------

/// Sum of the cell widths of the characters of `s`.
pub open spec fn cells(s: Seq<char>) -> nat
    decreases s.len(),
{
    if s.len() == 0 {
        0
    } else {
        cells(s.drop_last()) + cell_width(s.last())
    }
}

/// Exact printable terminal column width of text: the cells of `s` once its
/// ANSI escape sequences are removed.
pub open spec fn visible_width(s: Seq<char>) -> nat {
    cells(strip_ansi_spec(s))
}

pub proof fn lemma_cells_append(a: Seq<char>, b: Seq<char>)
    ensures
        cells(a + b) == cells(a) + cells(b),
    decreases b.len(),
{
    if b.len() == 0 {
        assert(a + b =~= a);
    } else {
        lemma_cells_append(a, b.drop_last());
        assert((a + b).drop_last() =~= a + b.drop_last());
        assert((a + b).last() == b.last());
    }
}

pub proof fn lemma_cells_front(s: Seq<char>)
    requires
        s.len() > 0,
    ensures
        cells(s) == cell_width(s[0]) + cells(s.skip(1)),
{
    lemma_cells_append(seq![s[0]], s.skip(1));
    assert(seq![s[0]] + s.skip(1) =~= s);
    assert(seq![s[0]].drop_last() =~= Seq::<char>::empty());
    assert(cells(seq![s[0]]) == cells(Seq::<char>::empty()) + cell_width(s[0]));
}

/// Removing escape sequences never widens text.
pub proof fn lemma_strip_cells(s: Seq<char>)
    ensures
        cells(strip_ansi_spec(s)) <= cells(s),
        strip_ansi_spec(s).len() <= s.len(),
    decreases s.len(),
{
    if s.len() > 0 {
        crate::ansi::lemma_escape_len_bound(s);
        let n = crate::ansi::escape_len(s);
        if n > 0 {
            assert(strip_ansi_spec(s) == strip_ansi_spec(s.skip(n as int)));
            lemma_strip_cells(s.skip(n as int));
            lemma_cells_append(s.take(n as int), s.skip(n as int));
            assert(s.take(n as int) + s.skip(n as int) =~= s);
        } else {
            assert(strip_ansi_spec(s) == seq![s[0]].add(strip_ansi_spec(s.skip(1))));
            lemma_strip_cells(s.skip(1));
            lemma_cells_front(s);
            lemma_cells_append(seq![s[0]], strip_ansi_spec(s.skip(1)));
            assert(seq![s[0]].drop_last() =~= Seq::<char>::empty());
            assert(cells(seq![s[0]]) == cells(Seq::<char>::empty()) + cell_width(s[0]));
        }
    }
}

/// Cell width of a character sequence, with its bound.
fn cells_of(v: &[char]) -> (w: usize)
    requires
        v@.len() <= usize::MAX / 3,
    ensures
        w == cells(v@),
        w <= 3 * v@.len(),
{
    let mut acc: usize = 0;
    let mut i: usize = 0;
    while i < v.len()
        invariant
            i <= v.len(),
            v@.len() <= usize::MAX / 3,
            acc == cells(v@.take(i as int)),
            acc <= 3 * i,
        decreases v.len() - i,
    {
        let w = char_cell_width(v[i]);
        assert(v@.take(i + 1).drop_last() =~= v@.take(i as int));
        acc = acc + w;
        i += 1;
    }
    assert(v@.take(v.len() as int) =~= v@);
    acc
}

/// Exact printable terminal column width of a string (ANSI stripped).
pub fn visible_cell_width(s: &str) -> (w: usize)
    requires
        s@.len() <= usize::MAX / 3,
    ensures
        w == visible_width(s@),
{
    if s.is_empty() {
        proof {
            assert(s@ =~= Seq::<char>::empty());
        }
        return 0;
    }
    let plain = strip_ansi(s);
    proof {
        lemma_strip_cells(s@);
    }
    let v = chars_of(plain.as_str());
    cells_of(v.as_slice())
}

// ---------------------------------------------------------------------------
// Truncating, padding, clamping
// ---------------------------------------------------------------------------

/// The longest prefix of `s` whose characters fit, one after another, into `budget` cells.
pub open spec fn longest_fit(s: Seq<char>, budget: int) -> Seq<char>
    decreases s.len(),
{
    if s.len() == 0 || cell_width(s[0]) > budget {
        Seq::<char>::empty()
    } else {
        seq![s[0]] + longest_fit(s.skip(1), budget - cell_width(s[0]))
    }
}

/// What `truncate_plain_cells` returns.
pub open spec fn truncate_spec(text: Seq<char>, max_cells: nat, ellipsis: Seq<char>) -> Seq<char> {
    if max_cells == 0 {
        Seq::<char>::empty()
    } else if visible_width(text) <= max_cells {
        text
    } else {
        let el = visible_width(ellipsis);
        let target: int = if el <= max_cells { max_cells - el } else { 0 };
        longest_fit(text, target) + ellipsis
    }
}

pub proof fn lemma_longest_fit_step(s: Seq<char>, i: int, budget: int)
    requires
        0 <= i < s.len(),
        cell_width(s[i]) <= budget,
    ensures
        longest_fit(s.skip(i), budget) == seq![s[i]] + longest_fit(s.skip(i + 1), budget - cell_width(s[i])),
{
    assert(s.skip(i)[0] == s[i]);
    assert(s.skip(i).skip(1) =~= s.skip(i + 1));
}

/// Longest prefix of `v` fitting in `budget` cells.
fn fit_prefix(v: &[char], budget: usize) -> (r: Vec<char>)
    ensures
        r@ == longest_fit(v@, budget as int),
{
    let mut out: Vec<char> = Vec::new();
    let mut cur: usize = 0;
    let mut i: usize = 0;
    assert(v@.skip(0) =~= v@);
    assert(out@ + longest_fit(v@, budget as int) =~= longest_fit(v@, budget as int));
    while i < v.len()
        invariant_except_break
            i <= v.len(),
            cur <= budget,
            out@ == v@.take(i as int),
            longest_fit(v@, budget as int) == out@ + longest_fit(v@.skip(i as int), budget - cur),
        ensures
            out@ == longest_fit(v@, budget as int),
        decreases v.len() - i,
    {
        let w = char_cell_width(v[i]);
        if w > budget - cur {
            proof {
                assert(v@.skip(i as int)[0] == v@[i as int]);
                assert(longest_fit(v@.skip(i as int), budget - cur) =~= Seq::<char>::empty());
                assert(out@ + Seq::<char>::empty() =~= out@);
            }
            break;
        }
        proof {
            lemma_longest_fit_step(v@, i as int, budget - cur);
            assert(out@.push(v@[i as int]) + longest_fit(v@.skip(i + 1), budget - (cur + w))
                =~= out@ + (seq![v@[i as int]] + longest_fit(v@.skip(i + 1), budget - cur - w)));
            assert(v@.take(i + 1) =~= v@.take(i as int).push(v@[i as int]));
        }
        out.push(v[i]);
        cur = cur + w;
        i += 1;
    }
    proof {
        if i == v.len() {
            assert(v@.skip(i as int) =~= Seq::<char>::empty());
            assert(out@ + Seq::<char>::empty() =~= out@);
        }
    }
    out
}

/// Truncate plain text to fit within `max_cells` terminal columns, ending with `ellipsis`
/// when anything was cut.
pub fn truncate_plain_cells(text: &str, max_cells: usize, ellipsis: &str) -> (r: String)
    requires
        text@.len() <= usize::MAX / 3,
        ellipsis@.len() <= usize::MAX / 3,
    ensures
        r@ == truncate_spec(text@, max_cells as nat, ellipsis@),
{
    if max_cells == 0 {
        return String::new();
    }
    let total_w = visible_cell_width(text);
    if total_w <= max_cells {
        return string_from_chars(chars_of(text).as_slice());
    }
    let el_width = visible_cell_width(ellipsis);
    let target_w = max_cells.saturating_sub(el_width);
    let v = chars_of(text);
    let prefix = fit_prefix(v.as_slice(), target_w);
    let mut result = string_from_chars(prefix.as_slice());
    push_str(&mut result, ellipsis);
    result
}

/// What `pad_plain_cells` returns.
pub open spec fn pad_spec(text: Seq<char>, target_cells: nat, align_left: bool) -> Seq<char> {
    if target_cells == 0 {
        Seq::<char>::empty()
    } else if visible_width(text) >= target_cells {
        text
    } else {
        let pad = repeat_char(' ', (target_cells - visible_width(text)) as nat);
        if align_left {
            text + pad
        } else {
            pad + text
        }
    }
}

/// Pad a string with spaces to reach `target_cells` terminal column width.
pub fn pad_plain_cells(text: &str, target_cells: usize, align_left: bool) -> (r: String)
    requires
        text@.len() <= usize::MAX / 3,
    ensures
        r@ == pad_spec(text@, target_cells as nat, align_left),
{
    if target_cells == 0 {
        return String::new();
    }
    let cur_w = visible_cell_width(text);
    if cur_w >= target_cells {
        return string_from_chars(chars_of(text).as_slice());
    }
    let mut out = String::new();
    if align_left {
        push_str(&mut out, text);
        push_repeat(&mut out, ' ', target_cells - cur_w);
    } else {
        push_repeat(&mut out, ' ', target_cells - cur_w);
        push_str(&mut out, text);
    }
    assert(out@ =~= pad_spec(text@, target_cells as nat, align_left));
    out
}

/// What `clamp_line_to_cols` returns.
pub open spec fn clamp_spec(line: Seq<char>, max_cols: nat) -> Seq<char> {
    if max_cols == 0 {
        Seq::<char>::empty()
    } else if visible_width(line) <= max_cols {
        line
    } else {
        truncate_spec(strip_ansi_spec(line), max_cols, Seq::<char>::empty())
    }
}

/// Clamp a line (including ANSI codes) so it never exceeds `max_cols` display cells.
pub fn clamp_line_to_cols(line: &str, max_cols: usize) -> (r: String)
    requires
        line@.len() <= usize::MAX / 3,
    ensures
        r@ == clamp_spec(line@, max_cols as nat),
{
    if max_cols == 0 {
        return String::new();
    }
    let w = visible_cell_width(line);
    if w <= max_cols {
        return string_from_chars(chars_of(line).as_slice());
    }
    let plain = strip_ansi(line);
    proof {
        lemma_strip_cells(line@);
        reveal_strlit("");
    }
    truncate_plain_cells(plain.as_str(), max_cols, "")
}


// ---------------------------------------------------------------------------
// Width guarantees
// ---------------------------------------------------------------------------

/// Clamping never lengthens a line.
pub proof fn lemma_clamp_len(line: Seq<char>, max_cols: nat)
    ensures
        clamp_spec(line, max_cols).len() <= line.len(),
{
    if max_cols > 0 && visible_width(line) > max_cols {
        let plain = strip_ansi_spec(line);
        crate::ansi::lemma_strip_ansi_len(line);
        if visible_width(plain) > max_cols {
            lemma_longest_fit(plain, max_cols as int);
        }
    }
}

pub proof fn lemma_longest_fit(s: Seq<char>, budget: int)
    requires
        budget >= 0,
    ensures
        cells(longest_fit(s, budget)) <= budget,
        longest_fit(s, budget).len() <= s.len(),
        longest_fit(s, budget) == s.take(longest_fit(s, budget).len() as int),
    decreases s.len(),
{
    if s.len() > 0 && cell_width(s[0]) <= budget {
        let rest = longest_fit(s.skip(1), budget - cell_width(s[0]));
        lemma_longest_fit(s.skip(1), budget - cell_width(s[0]));
        lemma_cells_append(seq![s[0]], rest);
        assert(seq![s[0]].drop_last() =~= Seq::<char>::empty());
        assert(cells(seq![s[0]]) == cells(Seq::<char>::empty()) + cell_width(s[0]));
        assert(seq![s[0]] + rest =~= s.take(rest.len() + 1int));
    } else {
        assert(s.take(0) =~= Seq::<char>::empty());
    }
}

pub proof fn lemma_cells_spaces(n: nat)
    ensures
        cells(repeat_char(' ', n)) == n,
    decreases n,
{
    if n > 0 {
        lemma_cells_spaces((n - 1) as nat);
        assert(repeat_char(' ', n).drop_last() =~= repeat_char(' ', (n - 1) as nat));
    }
}

/// A clamped line never needs more than `max_cols` terminal columns, whatever
/// escape sequences it held.
pub proof fn law_clamp_fits(line: Seq<char>, max_cols: nat)
    ensures
        visible_width(clamp_spec(line, max_cols)) <= max_cols,
{
    reveal_strlit("");
    let r = clamp_spec(line, max_cols);
    if max_cols > 0 && visible_width(line) > max_cols {
        let plain = strip_ansi_spec(line);
        lemma_strip_cells(r);
        if visible_width(plain) <= max_cols {
            assert(r == plain);
        } else {
            assert(visible_width(Seq::<char>::empty()) == 0) by {
                assert(strip_ansi_spec(Seq::<char>::empty()) =~= Seq::<char>::empty());
            }
            lemma_longest_fit(plain, max_cols as int);
            assert(r == longest_fit(plain, max_cols as int) + Seq::<char>::empty());
            assert(longest_fit(plain, max_cols as int) + Seq::<char>::empty()
                =~= longest_fit(plain, max_cols as int));
        }
    } else if max_cols == 0 {
        assert(strip_ansi_spec(r) =~= Seq::<char>::empty());
    }
}

/// Truncating plain text (no escape characters) with an ellipsis that itself fits
/// yields text no wider than `max_cells`.
pub proof fn law_truncate_fits(text: Seq<char>, max_cells: nat, ellipsis: Seq<char>)
    requires
        crate::ansi::no_escape_char(text),
        crate::ansi::no_escape_char(ellipsis),
        visible_width(ellipsis) <= max_cells,
    ensures
        visible_width(truncate_spec(text, max_cells, ellipsis)) <= max_cells,
{
    let r = truncate_spec(text, max_cells, ellipsis);
    if max_cells == 0 {
        assert(strip_ansi_spec(r) =~= Seq::<char>::empty());
    } else if visible_width(text) > max_cells {
        crate::ansi::lemma_strip_ansi_plain(ellipsis);
        let target: int = max_cells - visible_width(ellipsis);
        let lf = longest_fit(text, target);
        lemma_longest_fit(text, target);
        assert(crate::ansi::no_escape_char(r)) by {
            assert forall|i: int| 0 <= i < r.len() implies r[i] != '\x1b' by {
                if i < lf.len() {
                    assert(r[i] == text[i]);
                } else {
                    assert(r[i] == ellipsis[i - lf.len()]);
                }
            }
        }
        crate::ansi::lemma_strip_ansi_plain(r);
        lemma_cells_append(lf, ellipsis);
    }
}

/// Padding plain text gives exactly `target_cells` columns, unless the text was already wider.
pub proof fn law_pad_width(text: Seq<char>, target_cells: nat, align_left: bool)
    requires
        crate::ansi::no_escape_char(text),
        target_cells > 0,
    ensures
        visible_width(pad_spec(text, target_cells, align_left)) == if visible_width(text) >= target_cells {
            visible_width(text)
        } else {
            target_cells
        },
{
    crate::ansi::lemma_strip_ansi_plain(text);
    let r = pad_spec(text, target_cells, align_left);
    if visible_width(text) < target_cells {
        let n = (target_cells - visible_width(text)) as nat;
        let pad = repeat_char(' ', n);
        lemma_cells_spaces(n);
        assert(crate::ansi::no_escape_char(r)) by {
            assert forall|i: int| 0 <= i < r.len() implies r[i] != '\x1b' by {
                if align_left {
                    if i < text.len() {
                        assert(r[i] == text[i]);
                    } else {
                        assert(r[i] == pad[i - text.len()]);
                    }
                } else {
                    if i < n {
                        assert(r[i] == pad[i]);
                    } else {
                        assert(r[i] == text[i - n]);
                    }
                }
            }
        }
        crate::ansi::lemma_strip_ansi_plain(r);
        if align_left {
            lemma_cells_append(text, pad);
        } else {
            lemma_cells_append(pad, text);
        }
    }
}

/// The frame glyphs of the theme selector: box drawing, arrows, the marker and the dot.
pub open spec fn is_frame_glyph(c: char) -> bool {
    c == '│' || c == '┌' || c == '─' || c == '┐' || c == '├' || c == '┤' || c == '└' || c == '┘'
        || c == '▶' || c == '●' || c == '↑' || c == '↓'
}

/// Every frame glyph takes one cell.
pub open spec fn frame_glyphs_narrow() -> bool {
    forall|c: char| is_frame_glyph(c) ==> #[trigger] cell_width(c) == 1
}

fn glyph_is_narrow(c: char) -> (r: bool)
    requires
        0x2190 <= (c as u32) <= 0x2193 || 0x2500 <= (c as u32) <= 0x257F || 0x25A0 <= (c as u32) <= 0x25FC,
    ensures
        cell_width(c) == 1,
        r,
{
    let w = unicode_char_width(c);
    assert(!is_zero_width_format(c));
    w == Some(1usize)
}

/// Looks up the width of each frame glyph, which is one cell for all of them.
pub(crate) fn frame_glyph_widths() -> (r: bool)
    ensures
        r,
        frame_glyphs_narrow(),
{
    let a = glyph_is_narrow('│');
    let b = glyph_is_narrow('┌');
    let c = glyph_is_narrow('─');
    let d = glyph_is_narrow('┐');
    let e = glyph_is_narrow('├');
    let f = glyph_is_narrow('┤');
    let g = glyph_is_narrow('└');
    let h = glyph_is_narrow('┘');
    let i = glyph_is_narrow('▶');
    let j = glyph_is_narrow('●');
    let k = glyph_is_narrow('↑');
    let l = glyph_is_narrow('↓');
    a && b && c && d && e && f && g && h && i && j && k && l
}

/// Text of one-cell characters and no ESC, checked from the end.
pub open spec fn narrow_plain(s: Seq<char>) -> bool
    decreases s.len(),
{
    s.len() == 0 || (narrow_plain(s.drop_last()) && s.last() != '\x1b' && cell_width(s.last()) == 1)
}

pub proof fn lemma_narrow_plain(s: Seq<char>)
    requires
        narrow_plain(s),
    ensures
        cells(s) == s.len(),
        crate::ansi::no_escape_char(s),
    decreases s.len(),
{
    if s.len() > 0 {
        lemma_narrow_plain(s.drop_last());
        assert forall|i: int| 0 <= i < s.len() implies s[i] != '\x1b' by {
            if i < s.len() - 1 {
                assert(s[i] == s.drop_last()[i]);
            }
        }
    }
}

pub proof fn lemma_narrow_concat(a: Seq<char>, b: Seq<char>)
    requires
        narrow_plain(a),
        narrow_plain(b),
    ensures
        narrow_plain(a + b),
    decreases b.len(),
{
    if b.len() == 0 {
        assert(a + b =~= a);
    } else {
        lemma_narrow_concat(a, b.drop_last());
        assert((a + b).drop_last() =~= a + b.drop_last());
    }
}

pub proof fn lemma_narrow_spaces(n: nat)
    ensures
        narrow_plain(repeat_char(' ', n)),
    decreases n,
{
    if n > 0 {
        lemma_narrow_spaces((n - 1) as nat);
        assert(repeat_char(' ', n).drop_last() =~= repeat_char(' ', (n - 1) as nat));
    }
}

} // verus!
