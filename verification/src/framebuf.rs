//! Frame buffer with row diffing for flicker-free terminal updates.

use vstd::prelude::*;
use crate::ansi::{CLEAR_BELOW, CLEAR_LINE_RIGHT, HOME};
use crate::text::{decimal, push_decimal, push_str};

verus! {

/// A frame buffer that tracks previous rows and only re-draws changed lines.
pub struct FrameBuffer {
    prev: Vec<String>,
}

pub open spec fn string_views(s: Seq<String>) -> Seq<Seq<char>> {
    s.map_values(|x: String| x@)
}

impl View for FrameBuffer {
    type V = Seq<Seq<char>>;

    /// The rows of the frame last drawn.
    closed spec fn view(&self) -> Seq<Seq<char>> {
        string_views(self.prev@)
    }
}

/// Escape sequence moving the cursor to the start of (1-based) row `row`.
pub open spec fn cursor_to_row(row: nat) -> Seq<char> {
    "\x1b["@ + decimal(row) + ";1H"@
}

/// Row `i` differs from what the previous frame showed there (or is new).
pub open spec fn row_changed(prev: Seq<Seq<char>>, lines: Seq<Seq<char>>, i: int) -> bool {
    !(i < prev.len() && prev[i] == lines[i])
}

/// What redraws one row: cursor to the row, its text, clear to the end of the line.
pub open spec fn row_update(lines: Seq<Seq<char>>, i: int) -> Seq<char> {
    cursor_to_row((i + 1) as nat) + lines[i] + CLEAR_LINE_RIGHT@
}

/// Updates for the changed rows among the first `n`, top to bottom.
pub open spec fn rows_output(prev: Seq<Seq<char>>, lines: Seq<Seq<char>>, n: nat) -> Seq<char>
    decreases n,
{
    if n == 0 {
        Seq::<char>::empty()
    } else {
        rows_output(prev, lines, (n - 1) as nat) + if row_changed(prev, lines, n - 1) {
            row_update(lines, n - 1)
        } else {
            Seq::<char>::empty()
        }
    }
}

/// Everything one frame writes: cursor home, the changed rows, and, when the new
/// frame is shorter, a clear of everything below it.
pub open spec fn frame_spec(prev: Seq<Seq<char>>, lines: Seq<Seq<char>>) -> Seq<char> {
    HOME@ + rows_output(prev, lines, lines.len()) + if lines.len() < prev.len() {
        cursor_to_row(lines.len() + 1) + CLEAR_BELOW@
    } else {
        Seq::<char>::empty()
    }
}

/// Every row redrawn, top to bottom.
pub open spec fn full_redraw(lines: Seq<Seq<char>>, n: nat) -> Seq<char>
    decreases n,
{
    if n == 0 {
        Seq::<char>::empty()
    } else {
        full_redraw(lines, (n - 1) as nat) + row_update(lines, n - 1)
    }
}

fn push_cursor_to_row(buf: &mut String, row: usize)
    ensures
        final(buf)@ == old(buf)@ + cursor_to_row(row as nat),
{
    push_str(buf, "\x1b[");
    push_decimal(buf, row as u64);
    push_str(buf, ";1H");
    assert(final(buf)@ =~= old(buf)@ + cursor_to_row(row as nat));
}

impl FrameBuffer {
    pub fn new() -> (r: Self)
        ensures
            r@ == Seq::<Seq<char>>::empty(),
    {
        let r = FrameBuffer { prev: Vec::new() };
        assert(r@ =~= Seq::<Seq<char>>::empty());
        r
    }

    /// The escape output that brings the screen from the frame last committed to
    /// `lines`, to be written in one piece. The buffer is unchanged: once the output
    /// has been written and flushed, `commit` records `lines` as shown.
    pub fn render(&self, lines: &[String]) -> (out: String)
        ensures
            out@ == frame_spec(self@, string_views(lines@)),
    {
        let ghost prev = self@;
        let ghost ls = string_views(lines@);
        let mut buf = String::new();
        push_str(&mut buf, HOME);
        let mut i: usize = 0;
        while i < lines.len()
            invariant
                i <= lines@.len(),
                prev == self@,
                prev == string_views(self.prev@),
                ls == string_views(lines@),
                buf@ == HOME@ + rows_output(prev, ls, i as nat),
            decreases lines.len() - i,
        {
            let changed = !(i < self.prev.len() && self.prev[i] == lines[i]);
            assert(changed == row_changed(prev, ls, i as int));
            if changed {
                push_cursor_to_row(&mut buf, i + 1);
                push_str(&mut buf, lines[i].as_str());
                push_str(&mut buf, CLEAR_LINE_RIGHT);
            }
            assert(buf@ =~= HOME@ + rows_output(prev, ls, (i + 1) as nat));
            i += 1;
        }
        if lines.len() < self.prev.len() {
            push_cursor_to_row(&mut buf, lines.len() + 1);
            push_str(&mut buf, CLEAR_BELOW);
        }
        assert(buf@ =~= frame_spec(prev, ls));
        buf
    }

    /// Records `lines` as the frame now on screen, after its output was written.
    pub fn commit(&mut self, lines: &[String])
        ensures
            final(self)@ == string_views(lines@),
    {
        let mut next: Vec<String> = Vec::new();
        let mut j: usize = 0;
        while j < lines.len()
            invariant
                j <= lines@.len(),
                string_views(next@) == string_views(lines@.take(j as int)),
            decreases lines.len() - j,
        {
            let ghost before = string_views(next@);
            let copy = lines[j].clone();
            next.push(copy);
            assert(string_views(next@) =~= before.push(lines@[j as int]@));
            assert(string_views(lines@.take(j + 1)) =~= string_views(lines@.take(j as int)).push(
                lines@[j as int]@,
            ));
            j += 1;
        }
        assert(lines@.take(lines.len() as int) =~= lines@);
        self.prev = next;
    }

    /// Force a full redraw on next render.
    pub fn invalidate(&mut self)
        ensures
            final(self)@ == Seq::<Seq<char>>::empty(),
    {
        self.prev = Vec::new();
        assert(self@ =~= Seq::<Seq<char>>::empty());
    }
}

impl Default for FrameBuffer {
    fn default() -> (r: Self)
        ensures
            r@ == Seq::<Seq<char>>::empty(),
    {
        FrameBuffer::new()
    }
}

proof fn lemma_rows_unchanged(lines: Seq<Seq<char>>, n: nat)
    requires
        n <= lines.len(),
    ensures
        rows_output(lines, lines, n) == Seq::<char>::empty(),
    decreases n,
{
    if n > 0 {
        lemma_rows_unchanged(lines, (n - 1) as nat);
        assert(rows_output(lines, lines, n) =~= Seq::<char>::empty());
    }
}

proof fn lemma_rows_fresh(lines: Seq<Seq<char>>, n: nat)
    requires
        n <= lines.len(),
    ensures
        rows_output(Seq::<Seq<char>>::empty(), lines, n) == full_redraw(lines, n),
    decreases n,
{
    if n > 0 {
        lemma_rows_fresh(lines, (n - 1) as nat);
    }
}

/// Drawing the frame already on screen writes nothing but the cursor-home sequence.
pub proof fn law_unchanged_frame_writes_only_home(lines: Seq<Seq<char>>)
    ensures
        frame_spec(lines, lines) == HOME@,
{
    lemma_rows_unchanged(lines, lines.len());
    assert(frame_spec(lines, lines) =~= HOME@);
}

/// After `new` or `invalidate` (nothing remembered), a frame redraws every row.
pub proof fn law_fresh_frame_redraws_all(lines: Seq<Seq<char>>)
    ensures
        frame_spec(Seq::<Seq<char>>::empty(), lines) == HOME@ + full_redraw(lines, lines.len()),
{
    lemma_rows_fresh(lines, lines.len());
    assert(frame_spec(Seq::<Seq<char>>::empty(), lines) =~= HOME@ + full_redraw(lines, lines.len()));
}

/// What the rows from `k` on add to the updates of the first `k` rows.
proof fn rows_output_rest(prev: Seq<Seq<char>>, lines: Seq<Seq<char>>, k: nat, n: nat) -> (rest: Seq<char>)
    requires
        k <= n,
    ensures
        rows_output(prev, lines, n) == rows_output(prev, lines, k) + rest,
    decreases n - k,
{
    if k < n {
        let rest = rows_output_rest(prev, lines, k, (n - 1) as nat);
        let more = if row_changed(prev, lines, n - 1) {
            row_update(lines, n - 1)
        } else {
            Seq::<char>::empty()
        };
        assert(rows_output(prev, lines, n) =~= rows_output(prev, lines, k) + (rest + more));
        rest + more
    } else {
        assert(rows_output(prev, lines, n) =~= rows_output(prev, lines, k) + Seq::<char>::empty());
        Seq::<char>::empty()
    }
}

/// Every row that differs from the frame on screen (or is new) is redrawn: the output
/// holds, at some position, the cursor move to that row, the row's text and the
/// clear to the end of the line.
pub proof fn law_changed_rows_redrawn(prev: Seq<Seq<char>>, lines: Seq<Seq<char>>, i: int)
    requires
        0 <= i < lines.len(),
        i >= prev.len() || prev[i] != lines[i],
    ensures
        exists|k: int|
            0 <= k && k + ("\x1b["@ + decimal((i + 1) as nat) + ";1H"@ + lines[i] + "\x1b[K"@).len() <= frame_spec(
                prev,
                lines,
            ).len() && #[trigger] frame_spec(prev, lines).subrange(
                k,
                k + ("\x1b["@ + decimal((i + 1) as nat) + ";1H"@ + lines[i] + "\x1b[K"@).len(),
            ) == "\x1b["@ + decimal((i + 1) as nat) + ";1H"@ + lines[i] + "\x1b[K"@,
{
    let upd = "\x1b["@ + decimal((i + 1) as nat) + ";1H"@ + lines[i] + "\x1b[K"@;
    assert(row_update(lines, i) == upd);
    assert(row_changed(prev, lines, i));
    let rest = rows_output_rest(prev, lines, (i + 1) as nat, lines.len());
    let before = HOME@ + rows_output(prev, lines, i as nat);
    let tail = if lines.len() < prev.len() {
        cursor_to_row(lines.len() + 1) + CLEAR_BELOW@
    } else {
        Seq::<char>::empty()
    };
    assert(rows_output(prev, lines, (i + 1) as nat) == rows_output(prev, lines, i as nat) + upd);
    let f = frame_spec(prev, lines);
    assert(f =~= before + upd + (rest + tail));
    let k = before.len() as int;
    assert(f.subrange(k, k + upd.len()) =~= upd);
}

} // verus!
