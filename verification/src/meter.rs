//! Progress bar / meter track layout with sub-character accuracy.

use vstd::prelude::*;
use crate::text::{push_char, push_repeat, push_str, repeat_char};

verus! {

/// Graph symbol style.
#[derive(Debug, Clone, Copy, PartialEq, Eq, Structural)]
pub enum GraphSymbol {
    Block,
    Braille,
}

/// The other style.
pub open spec fn cycled(s: GraphSymbol) -> GraphSymbol {
    match s {
        GraphSymbol::Block => GraphSymbol::Braille,
        GraphSymbol::Braille => GraphSymbol::Block,
    }
}

impl GraphSymbol {
    pub fn cycle(self) -> (r: Self)
        ensures
            r == cycled(self),
    {
        match self {
            GraphSymbol::Block => GraphSymbol::Braille,
            GraphSymbol::Braille => GraphSymbol::Block,
        }
    }

    pub fn name(&self) -> (r: &'static str)
        ensures
            r@ == match *self {
                GraphSymbol::Block => "block"@,
                GraphSymbol::Braille => "braille"@,
            },
    {
        match self {
            GraphSymbol::Block => "block",
            GraphSymbol::Braille => "braille",
        }
    }
}

/// Cycling always changes the style, and cycling twice gives back the style one
/// started with.
pub proof fn law_cycle_twice(s: GraphSymbol)
    ensures
        cycled(s) != s,
        cycled(cycled(s)) == s,
{
}

/// Sub-cell steps per character cell: eighths for blocks, halves for braille.
pub open spec fn steps_per_cell(symbol: GraphSymbol) -> nat {
    match symbol {
        GraphSymbol::Block => 8,
        GraphSymbol::Braille => 2,
    }
}

/// The glyph of a fully filled cell.
pub open spec fn full_glyph(symbol: GraphSymbol) -> Seq<char> {
    match symbol {
        GraphSymbol::Block => seq!['█'],
        GraphSymbol::Braille => seq!['⣿'],
    }
}

/// The glyph of a cell filled `rem` steps (`0 < rem < steps_per_cell`).
pub open spec fn partial_glyph(symbol: GraphSymbol, rem: nat) -> Seq<char> {
    match symbol {
        GraphSymbol::Block => seq![
            if rem == 1 {
                '▏'
            } else if rem == 2 {
                '▎'
            } else if rem == 3 {
                '▍'
            } else if rem == 4 {
                '▌'
            } else if rem == 5 {
                '▋'
            } else if rem == 6 {
                '▊'
            } else {
                '▉'
            },
        ],
        GraphSymbol::Braille => seq!['⡇'],
    }
}

/// Filled cells, whether a partly filled cell follows, and empty track cells, for a
/// meter `width` cells wide (at least 1) filled `steps` sub-cell steps.
pub open spec fn meter_layout(symbol: GraphSymbol, width: nat, steps: nat) -> (nat, bool, nat) {
    let w = if width == 0 {
        1
    } else {
        width
    };
    let full = steps / steps_per_cell(symbol);
    let partial = steps % steps_per_cell(symbol) > 0;
    let after_full = if w >= full {
        (w - full) as nat
    } else {
        0
    };
    let empty = if partial {
        if after_full >= 1 {
            (after_full - 1) as nat
        } else {
            0
        }
    } else {
        after_full
    };
    (full, partial, empty)
}

/// The filled cells, each behind its colour escape.
pub open spec fn filled_cells(colors: Seq<Seq<char>>, glyph: Seq<char>, n: nat) -> Seq<char>
    decreases n,
{
    if n == 0 {
        Seq::<char>::empty()
    } else {
        filled_cells(colors, glyph, (n - 1) as nat) + colors[n - 1] + glyph
    }
}

/// The meter: filled cells (cell `i` in colour `colors[i]`), the partly filled cell in
/// the next colour, a reset, then the empty track in its colour, and a final reset.
pub open spec fn meter_spec(
    symbol: GraphSymbol,
    width: nat,
    steps: nat,
    colors: Seq<Seq<char>>,
    reset: Seq<char>,
    track_color: Seq<char>,
) -> Seq<char> {
    let (full, partial, empty) = meter_layout(symbol, width, steps);
    filled_cells(colors, full_glyph(symbol), full) + (if partial {
        colors[full as int] + partial_glyph(symbol, steps % steps_per_cell(symbol))
    } else {
        Seq::<char>::empty()
    }) + reset + track_color + repeat_char('░', empty) + reset
}

/// Lays out a meter track `width` cells wide filled `steps` sub-cell steps (eighths
/// for blocks, halves for braille); `colors[i]` is the colour escape of filled cell `i`.
pub fn render_meter_cells(
    symbol: GraphSymbol,
    width: usize,
    steps: usize,
    colors: &[String],
    reset: &str,
    track_color: &str,
) -> (r: String)
    requires
        colors@.len() > meter_layout(symbol, width as nat, steps as nat).0 || (colors@.len()
            == meter_layout(symbol, width as nat, steps as nat).0 && !meter_layout(
            symbol,
            width as nat,
            steps as nat,
        ).1),
    ensures
        r@ == meter_spec(
            symbol,
            width as nat,
            steps as nat,
            colors@.map_values(|c: String| c@),
            reset@,
            track_color@,
        ),
{
    let ghost cs = colors@.map_values(|c: String| c@);
    let w = if width == 0 {
        1
    } else {
        width
    };
    let per: usize = match symbol {
        GraphSymbol::Block => 8,
        GraphSymbol::Braille => 2,
    };
    let full = steps / per;
    let rem = steps % per;
    let empty = w.saturating_sub(full).saturating_sub(if rem > 0 {
        1
    } else {
        0
    });
    let full_char = match symbol {
        GraphSymbol::Block => '█',
        GraphSymbol::Braille => '⣿',
    };
    let mut out = String::new();
    let mut i: usize = 0;
    while i < full
        invariant
            i <= full,
            full == meter_layout(symbol, width as nat, steps as nat).0,
            full <= colors@.len(),
            cs == colors@.map_values(|c: String| c@),
            seq![full_char] == full_glyph(symbol),
            out@ == filled_cells(cs, full_glyph(symbol), i as nat),
        decreases full - i,
    {
        push_str(&mut out, colors[i].as_str());
        push_char(&mut out, full_char);
        assert(out@ =~= filled_cells(cs, full_glyph(symbol), (i + 1) as nat));
        i += 1;
    }
    if rem > 0 {
        push_str(&mut out, colors[full].as_str());
        let glyph = match symbol {
            GraphSymbol::Block => if rem == 1 {
                '▏'
            } else if rem == 2 {
                '▎'
            } else if rem == 3 {
                '▍'
            } else if rem == 4 {
                '▌'
            } else if rem == 5 {
                '▋'
            } else if rem == 6 {
                '▊'
            } else {
                '▉'
            },
            GraphSymbol::Braille => '⡇',
        };
        push_char(&mut out, glyph);
    }
    push_str(&mut out, reset);
    push_str(&mut out, track_color);
    push_repeat(&mut out, '░', empty);
    push_str(&mut out, reset);
    assert(out@ =~= meter_spec(symbol, width as nat, steps as nat, cs, reset@, track_color@));
    out
}

/// A meter that is not overfilled takes exactly its width in cells (at least one).
pub proof fn law_meter_width(symbol: GraphSymbol, width: nat, steps: nat)
    requires
        steps <= steps_per_cell(symbol) * (if width == 0 {
            1
        } else {
            width
        }),
    ensures
        ({
            let (full, partial, empty) = meter_layout(symbol, width, steps);
            full + (if partial {
                1int
            } else {
                0int
            }) + empty == if width == 0 {
                1
            } else {
                width
            }
        }),
{
    let w: nat = if width == 0 {
        1
    } else {
        width
    };
    let k = steps_per_cell(symbol);
    assert(steps / k <= w) by (nonlinear_arith)
        requires
            steps <= k * w,
            k > 0,
    ;
    assert(steps % k > 0 ==> steps / k < w) by (nonlinear_arith)
        requires
            steps <= k * w,
            k > 0,
    ;
}

} // verus!
