//! Colour themes and display modes: their names, cycling through them, and choosing
//! a theme by name.

use vstd::prelude::*;
use crate::text::{chars_eq, chars_of, push_str};

verus! {

/// Number of colour themes.
pub const THEME_COUNT: usize = 13;

/// All available theme names in display order.
pub open spec fn theme_names() -> Seq<Seq<char>> {
    seq![
        "default"@,
        "dracula"@,
        "catppuccin"@,
        "nord"@,
        "tokyo-night"@,
        "gruvbox"@,
        "cyberpunk"@,
        "rose-pine"@,
        "everforest"@,
        "kanagawa"@,
        "monokai"@,
        "solarized"@,
        "monochrome"@,
    ]
}

/// Cycling modes (tiny is excluded from interactive cycling).
pub open spec fn cycling_modes() -> Seq<Seq<char>> {
    seq!["hero"@, "compact"@, "mini"@]
}

/// Index of the first `x` in `s` at or after `i`, or -1.
pub open spec fn index_from(s: Seq<Seq<char>>, x: Seq<char>, i: int) -> int
    decreases s.len() - i,
{
    if i < 0 || i >= s.len() {
        -1
    } else if s[i] == x {
        i
    } else {
        index_from(s, x, i + 1)
    }
}

/// Index of `x` in `s`, 0 when absent.
pub open spec fn position_or_first(s: Seq<Seq<char>>, x: Seq<char>) -> int {
    let k = index_from(s, x, 0);
    if k < 0 {
        0
    } else {
        k
    }
}

/// The theme after `current` (after "default" when `current` is no theme name).
pub open spec fn next_theme_spec(current: Seq<char>) -> Seq<char> {
    theme_names()[(position_or_first(theme_names(), current) + 1) % 13]
}

/// The cycling mode after `current` (after "hero" when `current` is none of them).
pub open spec fn next_mode_spec(current: Seq<char>) -> Seq<char> {
    cycling_modes()[(position_or_first(cycling_modes(), current) + 1) % 3]
}

pub proof fn lemma_index_from(s: Seq<Seq<char>>, x: Seq<char>, i: int)
    requires
        0 <= i <= s.len(),
    ensures
        index_from(s, x, i) == -1 || (i <= index_from(s, x, i) < s.len() && s[index_from(s, x, i)]
            == x),
        index_from(s, x, i) == -1 ==> forall|k: int| i <= k < s.len() ==> s[k] != x,
        index_from(s, x, i) >= 0 ==> forall|k: int| i <= k < index_from(s, x, i) ==> s[k] != x,
    decreases s.len() - i,
{
    if i < s.len() && s[i] != x {
        lemma_index_from(s, x, i + 1);
    }
}

/// The `i`-th theme name.
pub fn theme_name(i: usize) -> (r: &'static str)
    requires
        i < 13,
    ensures
        r@ == theme_names()[i as int],
{
    match i {
        0 => "default",
        1 => "dracula",
        2 => "catppuccin",
        3 => "nord",
        4 => "tokyo-night",
        5 => "gruvbox",
        6 => "cyberpunk",
        7 => "rose-pine",
        8 => "everforest",
        9 => "kanagawa",
        10 => "monokai",
        11 => "solarized",
        _ => "monochrome",
    }
}

/// The `i`-th cycling mode.
pub fn cycling_mode(i: usize) -> (r: &'static str)
    requires
        i < 3,
    ensures
        r@ == cycling_modes()[i as int],
{
    match i {
        0 => "hero",
        1 => "compact",
        _ => "mini",
    }
}

/// Position of a theme name in display order, if it is one.
pub fn theme_index(name: &str) -> (r: Option<usize>)
    ensures
        r matches Some(k) ==> k < 13 && index_from(theme_names(), name@, 0) == k,
        r is None ==> index_from(theme_names(), name@, 0) == -1,
{
    let v = chars_of(name);
    let mut i: usize = 0;
    proof {
        lemma_index_from(theme_names(), name@, 0);
    }
    while i < THEME_COUNT
        invariant
            i <= 13,
            v@ == name@,
            index_from(theme_names(), name@, i as int) == index_from(theme_names(), name@, 0),
        decreases 13 - i,
    {
        let t = chars_of(theme_name(i));
        if chars_eq(t.as_slice(), v.as_slice()) {
            return Some(i);
        }
        i += 1;
    }
    None
}

fn mode_index(name: &str) -> (r: Option<usize>)
    ensures
        r matches Some(k) ==> k < 3 && index_from(cycling_modes(), name@, 0) == k,
        r is None ==> index_from(cycling_modes(), name@, 0) == -1,
{
    let v = chars_of(name);
    let mut i: usize = 0;
    while i < 3
        invariant
            i <= 3,
            v@ == name@,
            index_from(cycling_modes(), name@, i as int) == index_from(cycling_modes(), name@, 0),
        decreases 3 - i,
    {
        let t = chars_of(cycling_mode(i));
        if chars_eq(t.as_slice(), v.as_slice()) {
            return Some(i);
        }
        i += 1;
    }
    None
}

/// Cycle to the next theme name.
pub fn next_theme(current: &str) -> (r: &'static str)
    ensures
        r@ == next_theme_spec(current@),
{
    let idx = match theme_index(current) {
        Some(k) => k,
        None => 0,
    };
    theme_name((idx + 1) % THEME_COUNT)
}

/// Cycle to the next display mode.
pub fn next_cycling_mode(current: &str) -> (r: &'static str)
    ensures
        r@ == next_mode_spec(current@),
{
    let idx = match mode_index(current) {
        Some(k) => k,
        None => 0,
    };
    cycling_mode((idx + 1) % 3)
}

proof fn lemma_theme_names_distinct()
    ensures
        forall|a: int, b: int| 0 <= a < b < 13 ==> theme_names()[a] != theme_names()[b],
{
    reveal_strlit("default");
    reveal_strlit("dracula");
    reveal_strlit("catppuccin");
    reveal_strlit("nord");
    reveal_strlit("tokyo-night");
    reveal_strlit("gruvbox");
    reveal_strlit("cyberpunk");
    reveal_strlit("rose-pine");
    reveal_strlit("everforest");
    reveal_strlit("kanagawa");
    reveal_strlit("monokai");
    reveal_strlit("solarized");
    reveal_strlit("monochrome");
    let n = theme_names();
    assert forall|a: int, b: int| 0 <= a < b < 13 implies n[a] != n[b] by {
        if n[a] == n[b] {
            assert(n[a].len() == n[b].len());
            assert(n[a][0] == n[b][0]);
            assert(n[a][1] == n[b][1]);
            assert(n[a][2] == n[b][2]);
            assert(n[a][3] == n[b][3]);
        }
    }
}

/// Theme names are at most 16 characters long.
pub proof fn lemma_theme_name_len(i: int)
    requires
        0 <= i < 13,
    ensures
        theme_names()[i].len() <= 16,
{
    reveal_strlit("default");
    reveal_strlit("dracula");
    reveal_strlit("catppuccin");
    reveal_strlit("nord");
    reveal_strlit("tokyo-night");
    reveal_strlit("gruvbox");
    reveal_strlit("cyberpunk");
    reveal_strlit("rose-pine");
    reveal_strlit("everforest");
    reveal_strlit("kanagawa");
    reveal_strlit("monokai");
    reveal_strlit("solarized");
    reveal_strlit("monochrome");
}

/// A theme name's position is its place in display order.
pub proof fn lemma_theme_index_of(i: int)
    requires
        0 <= i < 13,
    ensures
        index_from(theme_names(), theme_names()[i], 0) == i,
{
    lemma_theme_names_distinct();
    lemma_index_from(theme_names(), theme_names()[i], 0);
    let k = index_from(theme_names(), theme_names()[i], 0);
    if k == -1 {
        assert(theme_names()[i] != theme_names()[i]);
    } else if k < i {
        assert(theme_names()[k] != theme_names()[i]);
    } else if k > i {
        assert(theme_names()[i] != theme_names()[i]);
    }
}

/// Cycling themes steps through the display order: each theme is followed by the next
/// one, the last by the first; so thirteen steps come back to where they started.
pub proof fn law_next_theme_cycles(i: int)
    requires
        0 <= i < 13,
    ensures
        next_theme_spec(theme_names()[i]) == theme_names()[(i + 1) % 13],
{
    lemma_theme_index_of(i);
}

/// Cycling modes goes hero, compact, mini and back to hero.
pub proof fn law_next_mode_cycles(i: int)
    requires
        0 <= i < 3,
    ensures
        next_mode_spec(cycling_modes()[i]) == cycling_modes()[(i + 1) % 3],
{
    reveal_strlit("hero");
    reveal_strlit("compact");
    reveal_strlit("mini");
    lemma_index_from(cycling_modes(), cycling_modes()[i], 0);
    let m = cycling_modes();
    assert(m[0] != m[1] && m[0] != m[2] && m[1] != m[2]) by {
        assert(m[0].len() != m[1].len());
        assert(m[1].len() != m[2].len());
        assert(m[0][0] != m[2][0]);
    }
}

// ---------------------------------------------------------------------------
// Choosing a theme by name
// ---------------------------------------------------------------------------

/// What Unicode lowercasing (`str::to_lowercase`) makes of `s`.
pub uninterp spec fn lowercase(s: Seq<char>) -> Seq<char>;

/// std's `str::to_lowercase`: the contract claims only that the result is a function
/// of the text (Unicode's default, locale-independent lowercase mapping).
#[verifier::external_body]
pub(crate) fn to_lowercase(s: &str) -> (r: String)
    ensures
        r@ == lowercase(s@),
{
    s.to_lowercase()
}

/// `names` joined with ", ".
pub open spec fn join_comma(names: Seq<Seq<char>>) -> Seq<char>
    decreases names.len(),
{
    if names.len() == 0 {
        Seq::<char>::empty()
    } else if names.len() == 1 {
        names[0]
    } else {
        join_comma(names.drop_last()) + ", "@ + names.last()
    }
}

/// The message for a theme name that is none of the themes.
pub open spec fn unknown_theme_message(s: Seq<char>) -> Seq<char> {
    "unknown theme '"@ + s + "'. Available themes: "@ + join_comma(theme_names())
}

/// Accepts a theme name in any letter case, giving it in lower case.
pub fn theme_parser(s: &str) -> (r: Result<String, String>)
    ensures
        theme_names().contains(lowercase(s@)) <==> r is Ok,
        r matches Ok(v) ==> v@ == lowercase(s@),
        r matches Err(e) ==> e@ == unknown_theme_message(s@),
{
    let lower = to_lowercase(s);
    match theme_index(lower.as_str()) {
        Some(k) => {
            proof {
                lemma_index_from(theme_names(), lower@, 0);
                assert(theme_names()[k as int] == lower@);
            }
            Ok(lower)
        },
        None => {
            proof {
                lemma_index_from(theme_names(), lower@, 0);
            }
            let mut msg = String::from_str("unknown theme '");
            push_str(&mut msg, s);
            push_str(&mut msg, "'. Available themes: ");
            let mut i: usize = 0;
            while i < THEME_COUNT
                invariant
                    i <= 13,
                    msg@ == "unknown theme '"@ + s@ + "'. Available themes: "@ + join_comma(
                        theme_names().take(i as int),
                    ),
                decreases 13 - i,
            {
                let ghost before = msg@;
                if i > 0 {
                    push_str(&mut msg, ", ");
                }
                push_str(&mut msg, theme_name(i));
                proof {
                    let t = theme_names().take(i + 1);
                    assert(t.drop_last() =~= theme_names().take(i as int));
                    if i == 0 {
                        assert(theme_names().take(0) =~= Seq::<Seq<char>>::empty());
                        assert(t =~= seq![theme_names()[0]]);
                    }
                    assert(msg@ =~= "unknown theme '"@ + s@ + "'. Available themes: "@ + join_comma(t));
                }
                i += 1;
            }
            assert(theme_names().take(13) =~= theme_names());
            Err(msg)
        },
    }
}

} // verus!
