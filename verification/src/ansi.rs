//! ANSI escape sequences: recognising and removing them, and building
//! 24-bit TrueColor colour escapes.

use vstd::prelude::*;
use crate::text::{decimal, push_decimal, push_str};

verus! {

/// Common ANSI control sequences.
pub const RESET: &'static str = "\x1b[0m";
pub const BOLD: &'static str = "\x1b[1m";
pub const DIM: &'static str = "\x1b[2m";
pub const HIDE_CURSOR: &'static str = "\x1b[?25l";
pub const SHOW_CURSOR: &'static str = "\x1b[?25h";
pub const ALT_SCREEN_ON: &'static str = "\x1b[?1049h";
pub const ALT_SCREEN_OFF: &'static str = "\x1b[?1049l";
pub const CLEAR_SCREEN: &'static str = "\x1b[H\x1b[2J";
pub const HOME: &'static str = "\x1b[H";
pub const CLEAR_LINE_RIGHT: &'static str = "\x1b[K";
pub const CLEAR_BELOW: &'static str = "\x1b[J";

/// The regular expression (regex crate syntax) matching one ANSI escape
/// sequence: ESC followed by a single Fe final byte, or a CSI sequence
/// `ESC [ params* intermediates* final`.
pub const ANSI_ESCAPE_PATTERN: &'static str = r"\x1b(?:[@-Z\\-_]|\[[0-?]*[ -/]*[@-~])";

// ---------------------------------------------------------------------------
// What an ANSI escape sequence is
// ---------------------------------------------------------------------------

pub open spec fn char_in(c: char, lo: u32, hi: u32) -> bool {
    lo <= (c as u32) <= hi
}

/// Final character of a two-character escape: `@`..`Z` or `\`..`_`.
pub open spec fn is_fe_final(c: char) -> bool {
    char_in(c, 0x40, 0x5A) || char_in(c, 0x5C, 0x5F)
}

/// CSI parameter character: `0`..`?`.
pub open spec fn is_csi_param(c: char) -> bool {
    char_in(c, 0x30, 0x3F)
}

/// CSI intermediate character: ` `..`/`.
pub open spec fn is_csi_intermediate(c: char) -> bool {
    char_in(c, 0x20, 0x2F)
}

/// CSI final character: `@`..`~`.
pub open spec fn is_csi_final(c: char) -> bool {
    char_in(c, 0x40, 0x7E)
}

/// First position at or after `i` that does not hold a CSI parameter character.
pub open spec fn skip_params(s: Seq<char>, i: int) -> int
    decreases s.len() - i,
{
    if 0 <= i < s.len() && is_csi_param(s[i]) {
        skip_params(s, i + 1)
    } else {
        i
    }
}

/// First position at or after `i` that does not hold a CSI intermediate character.
pub open spec fn skip_intermediates(s: Seq<char>, i: int) -> int
    decreases s.len() - i,
{
    if 0 <= i < s.len() && is_csi_intermediate(s[i]) {
        skip_intermediates(s, i + 1)
    } else {
        i
    }
}

pub proof fn lemma_skip_params_bounds(s: Seq<char>, i: int)
    requires
        0 <= i <= s.len(),
    ensures
        i <= skip_params(s, i) <= s.len(),
    decreases s.len() - i,
{
    if i < s.len() && is_csi_param(s[i]) {
        lemma_skip_params_bounds(s, i + 1);
    }
}

pub proof fn lemma_skip_intermediates_bounds(s: Seq<char>, i: int)
    requires
        0 <= i <= s.len(),
    ensures
        i <= skip_intermediates(s, i) <= s.len(),
    decreases s.len() - i,
{
    if i < s.len() && is_csi_intermediate(s[i]) {
        lemma_skip_intermediates_bounds(s, i + 1);
    }
}

/// Length of the ANSI escape sequence at the start of `s`; 0 when `s` does not start with one.
/// This is the match that `ANSI_ESCAPE_PATTERN` makes at position 0: the two alternatives
/// cannot both apply ('[' is no Fe final), and the greedy runs of parameter and intermediate
/// characters cannot give anything back to the final character (the three classes are disjoint).
pub open spec fn escape_len(s: Seq<char>) -> nat {
    if s.len() >= 2 && s[0] == '\x1b' {
        if is_fe_final(s[1]) {
            2
        } else if s[1] == '[' {
            let q = skip_intermediates(s, skip_params(s, 2));
            if 0 <= q < s.len() && is_csi_final(s[q]) {
                (q + 1) as nat
            } else {
                0
            }
        } else {
            0
        }
    } else {
        0
    }
}

/// `s` with every ANSI escape sequence removed, scanning left to right
/// (leftmost, non-overlapping matches).
pub open spec fn strip_ansi_spec(s: Seq<char>) -> Seq<char>
    decreases s.len(),
{
    if s.len() == 0 {
        s
    } else if 0 < escape_len(s) <= s.len() {
        strip_ansi_spec(s.skip(escape_len(s) as int))
    } else {
        seq![s[0]].add(strip_ansi_spec(s.skip(1)))
    }
}

pub proof fn lemma_escape_len_bound(s: Seq<char>)
    ensures
        escape_len(s) <= s.len(),
        escape_len(s) > 0 ==> escape_len(s) >= 2 && s[0] == '\x1b',
{
    if s.len() >= 2 && s[0] == '\x1b' && !is_fe_final(s[1]) && s[1] == '[' {
        lemma_skip_params_bounds(s, 2);
        lemma_skip_intermediates_bounds(s, skip_params(s, 2));
    }
}

/// Stripping escapes never lengthens text.
pub proof fn lemma_strip_ansi_len(s: Seq<char>)
    ensures
        strip_ansi_spec(s).len() <= s.len(),
    decreases s.len(),
{
    if s.len() > 0 {
        lemma_escape_len_bound(s);
        if 0 < escape_len(s) <= s.len() {
            lemma_strip_ansi_len(s.skip(escape_len(s) as int));
        } else {
            lemma_strip_ansi_len(s.skip(1));
        }
    }
}

/// No ESC character anywhere in `s`.
pub open spec fn no_escape_char(s: Seq<char>) -> bool {
    forall|i: int| 0 <= i < s.len() ==> s[i] != '\x1b'
}

/// Text without an ESC character is left unchanged by stripping.
pub proof fn lemma_strip_ansi_plain(s: Seq<char>)
    requires
        no_escape_char(s),
    ensures
        strip_ansi_spec(s) == s,
    decreases s.len(),
{
    if s.len() > 0 {
        assert(escape_len(s) == 0);
        assert(no_escape_char(s.skip(1)));
        lemma_strip_ansi_plain(s.skip(1));
        assert(seq![s[0]].add(s.skip(1)) =~= s);
    }
}

// ---------------------------------------------------------------------------
// Stripping escapes through the regex crate
// ---------------------------------------------------------------------------

#[verifier::external_type_specification]
#[verifier::external_body]
pub struct ExRegex(regex::Regex);

#[verifier::external_type_specification]
#[verifier::external_body]
pub struct ExRegexError(regex::Error);

/// A compiled regular expression and the pattern text it was compiled from.
pub(crate) struct CompiledPattern {
    re: regex::Regex,
    source: Ghost<Seq<char>>,
}

/// `regex::Regex::new`. Claims: a compiled pattern remembers the pattern text it
/// came from, and `ANSI_ESCAPE_PATTERN` is valid regex syntax, so compiling it succeeds.
#[verifier::external_body]
fn compile_pattern(pattern: &str) -> (r: Result<CompiledPattern, regex::Error>)
    ensures
        r matches Ok(c) ==> c.source@ == pattern@,
        pattern@ == ANSI_ESCAPE_PATTERN@ ==> r is Ok,
{
    match regex::Regex::new(pattern) {
        Ok(re) => Ok(CompiledPattern { re, source: Ghost(pattern@) }),
        Err(e) => Err(e),
    }
}

/// `regex::Regex::replace_all` with an empty replacement: deletes every leftmost-first,
/// non-overlapping match in `text`. Claims: for the ANSI escape pattern the result is
/// `strip_ansi_spec(text)` (the matches are exactly the sequences measured by `escape_len`).
#[verifier::external_body]
fn delete_matches(p: &CompiledPattern, text: &str) -> (r: String)
    requires
        p.source@ == ANSI_ESCAPE_PATTERN@,
    ensures
        r@ == strip_ansi_spec(text@),
{
    p.re.replace_all(text, "").into_owned()
}

/// Strip all ANSI escape sequences from a string.
pub fn strip_ansi(s: &str) -> (r: String)
    ensures
        r@ == strip_ansi_spec(s@),
{
    match compile_pattern(ANSI_ESCAPE_PATTERN) {
        Ok(p) => delete_matches(&p, s),
        Err(_) => {
            proof {
                assert(false);
            }
            String::new()
        },
    }
}

// ---------------------------------------------------------------------------
// TrueColor escapes
// ---------------------------------------------------------------------------

/// `ESC[38;2;r;g;bm`
pub open spec fn fg_rgb_spec(r: u8, g: u8, b: u8) -> Seq<char> {
    "\x1b[38;2;"@ + decimal(r as nat) + ";"@ + decimal(g as nat) + ";"@ + decimal(b as nat) + "m"@
}

/// `ESC[48;2;r;g;bm`
pub open spec fn bg_rgb_spec(r: u8, g: u8, b: u8) -> Seq<char> {
    "\x1b[48;2;"@ + decimal(r as nat) + ";"@ + decimal(g as nat) + ";"@ + decimal(b as nat) + "m"@
}

fn rgb_escape(lead: &str, r: u8, g: u8, b: u8) -> (s: String)
    ensures
        s@ == lead@ + decimal(r as nat) + ";"@ + decimal(g as nat) + ";"@ + decimal(b as nat) + "m"@,
{
    let mut s = String::new();
    push_str(&mut s, lead);
    push_decimal(&mut s, r as u64);
    push_str(&mut s, ";");
    push_decimal(&mut s, g as u64);
    push_str(&mut s, ";");
    push_decimal(&mut s, b as u64);
    push_str(&mut s, "m");
    assert(s@ =~= lead@ + decimal(r as nat) + ";"@ + decimal(g as nat) + ";"@ + decimal(b as nat) + "m"@);
    s
}

/// Build a 24-bit TrueColor foreground escape from (r, g, b).
pub fn fg_rgb(r: u8, g: u8, b: u8) -> (s: String)
    ensures
        s@ == fg_rgb_spec(r, g, b),
{
    rgb_escape("\x1b[38;2;", r, g, b)
}

/// Build a 24-bit TrueColor background escape from (r, g, b).
pub fn bg_rgb(r: u8, g: u8, b: u8) -> (s: String)
    ensures
        s@ == bg_rgb_spec(r, g, b),
{
    rgb_escape("\x1b[48;2;", r, g, b)
}

/// Format an RGB tuple as a 24-bit TrueColor ANSI foreground sequence.
pub fn rgb_to_ansi(rgb: (u8, u8, u8)) -> (s: String)
    ensures
        s@ == fg_rgb_spec(rgb.0, rgb.1, rgb.2),
{
    fg_rgb(rgb.0, rgb.1, rgb.2)
}

// ---------------------------------------------------------------------------
// Stripping text built from escapes and plain pieces
// ---------------------------------------------------------------------------

/// `e` is empty or exactly one ANSI escape sequence.
pub open spec fn pure_escape(e: Seq<char>) -> bool {
    e.len() == 0 || escape_len(e) == e.len()
}

proof fn lemma_skip_params_prefix(e: Seq<char>, t: Seq<char>, i: int)
    requires
        0 <= i <= e.len(),
        skip_params(e, i) < e.len(),
    ensures
        skip_params(e + t, i) == skip_params(e, i),
    decreases e.len() - i,
{
    if i < e.len() && is_csi_param(e[i]) {
        lemma_skip_params_prefix(e, t, i + 1);
    }
}

proof fn lemma_skip_intermediates_prefix(e: Seq<char>, t: Seq<char>, i: int)
    requires
        0 <= i <= e.len(),
        skip_intermediates(e, i) < e.len(),
    ensures
        skip_intermediates(e + t, i) == skip_intermediates(e, i),
    decreases e.len() - i,
{
    if i < e.len() && is_csi_intermediate(e[i]) {
        lemma_skip_intermediates_prefix(e, t, i + 1);
    }
}

/// A complete escape keeps its length whatever follows it.
proof fn lemma_escape_len_prefix(e: Seq<char>, t: Seq<char>)
    requires
        escape_len(e) == e.len() > 0,
    ensures
        escape_len(e + t) == e.len(),
{
    let s = e + t;
    assert(s[0] == e[0] && s[1] == e[1]);
    if !is_fe_final(e[1]) {
        lemma_skip_params_bounds(e, 2);
        let p = skip_params(e, 2);
        lemma_skip_intermediates_bounds(e, p);
        let q = skip_intermediates(e, p);
        lemma_skip_params_prefix(e, t, 2);
        lemma_skip_intermediates_prefix(e, t, p);
        assert(s[q] == e[q]);
    }
}

/// Stripping a text that starts with a complete escape drops the escape.
pub proof fn lemma_strip_escape_prefix(e: Seq<char>, t: Seq<char>)
    requires
        pure_escape(e),
    ensures
        strip_ansi_spec(e + t) == strip_ansi_spec(t),
{
    if e.len() == 0 {
        assert(e + t =~= t);
    } else {
        lemma_escape_len_prefix(e, t);
        assert((e + t).skip(e.len() as int) =~= t);
    }
}

/// Stripping a text that starts with plain characters keeps them.
pub proof fn lemma_strip_plain_prefix(a: Seq<char>, t: Seq<char>)
    requires
        no_escape_char(a),
    ensures
        strip_ansi_spec(a + t) == a + strip_ansi_spec(t),
    decreases a.len(),
{
    if a.len() == 0 {
        assert(a + t =~= t);
        assert(a + strip_ansi_spec(t) =~= strip_ansi_spec(t));
    } else {
        let s = a + t;
        assert(s[0] == a[0]);
        assert(escape_len(s) == 0);
        assert(s.skip(1) =~= a.skip(1) + t);
        assert(no_escape_char(a.skip(1)));
        lemma_strip_plain_prefix(a.skip(1), t);
        assert(seq![a[0]] + (a.skip(1) + strip_ansi_spec(t)) =~= a + strip_ansi_spec(t));
    }
}

proof fn lemma_skip_params_run(s: Seq<char>, i: int, j: int)
    requires
        0 <= i <= j <= s.len(),
        forall|k: int| i <= k < j ==> is_csi_param(#[trigger] s[k]),
    ensures
        skip_params(s, i) == skip_params(s, j),
    decreases j - i,
{
    if i < j {
        lemma_skip_params_run(s, i + 1, j);
    }
}

proof fn lemma_decimal_params(n: nat)
    ensures
        forall|k: int| 0 <= k < decimal(n).len() ==> is_csi_param(#[trigger] decimal(n)[k]),
    decreases n,
{
    if n >= 10 {
        lemma_decimal_params(n / 10);
        assert forall|k: int| 0 <= k < decimal(n).len() implies is_csi_param(#[trigger] decimal(n)[k]) by {
            if k < decimal(n / 10).len() {
                assert(decimal(n)[k] == decimal(n / 10)[k]);
            }
        }
    }
}

/// A 24-bit foreground colour escape is one complete escape sequence.
pub proof fn lemma_fg_rgb_pure(r: u8, g: u8, b: u8)
    ensures
        pure_escape(fg_rgb_spec(r, g, b)),
{
    reveal_strlit("\x1b[38;2;");
    reveal_strlit(";");
    reveal_strlit("m");
    let dr = decimal(r as nat);
    let dg = decimal(g as nat);
    let db = decimal(b as nat);
    lemma_decimal_params(r as nat);
    lemma_decimal_params(g as nat);
    lemma_decimal_params(b as nat);
    let s = fg_rgb_spec(r, g, b);
    let head = "\x1b[38;2;"@;
    let body = head + dr + ";"@ + dg + ";"@ + db;
    assert(s =~= body + "m"@);
    let last = s.len() - 1;
    assert(s[last] == 'm');
    assert forall|k: int| 2 <= k < last implies is_csi_param(#[trigger] s[k]) by {
        assert(s[k] == body[k]);
        let a = head.len() as int;
        let b1 = a + dr.len();
        let b2 = b1 + 1;
        let b3 = b2 + dg.len();
        let b4 = b3 + 1;
        if k < a {
        } else if k < b1 {
            assert(body[k] == dr[k - a]);
        } else if k < b2 {
        } else if k < b3 {
            assert(body[k] == dg[k - b2]);
        } else if k < b4 {
        } else {
            assert(body[k] == db[k - b4]);
        }
    }
    lemma_skip_params_run(s, 2, last);
    assert(skip_params(s, last) == last);
    assert(skip_intermediates(s, last) == last);
}

} // verus!
