//! Diagnostics: when debug logging is on, when a log file is rotated, and the
//! crash report shown on the terminal.

use vstd::prelude::*;
use crate::layout::pad_to;
use crate::text::{chars_eq, chars_of, push_repeat, push_str, string_from_chars};

verus! {

/// Log files grow to at most this many bytes before they are rotated.
pub const MAX_LOG_SIZE: u64 = 524288;

/// A log file of `size` bytes is rotated before the next write.
pub fn needs_rotation(size: u64) -> (r: bool)
    ensures
        r == (size > MAX_LOG_SIZE),
{
    size > MAX_LOG_SIZE
}

/// Debug logging is on when asked for on the command line, or when `RAM_DEBUG` is
/// "1" or "true".
pub fn debug_requested(flag: bool, env_value: Option<&str>) -> (r: bool)
    ensures
        r == (flag || match env_value {
            Some(v) => v@ == "1"@ || v@ == "true"@,
            None => false,
        }),
{
    if flag {
        return true;
    }
    match env_value {
        Some(v) => {
            let c = chars_of(v);
            let one = chars_of("1");
            let t = chars_of("true");
            chars_eq(c.as_slice(), one.as_slice()) || chars_eq(c.as_slice(), t.as_slice())
        },
        None => false,
    }
}

/// The first `n` characters of `s`.
pub open spec fn first_chars(s: Seq<char>, n: nat) -> Seq<char> {
    if s.len() <= n {
        s
    } else {
        s.take(n as int)
    }
}

/// The crash report box for the terminal, line by line: cause and location cut to 64
/// characters, the log path to 74, each padded to the box's width.
pub open spec fn crash_banner_spec(
    payload: Seq<char>,
    location: Seq<char>,
    version: Seq<char>,
    crash_file: Seq<char>,
) -> Seq<Seq<char>> {
    seq![
        "\n┌─────────────────────────────────────────────────────────────────────────────┐"@,
        "│                         [RAM-TUI ERROR REPORT]                              │"@,
        "├─────────────────────────────────────────────────────────────────────────────┤"@,
        "│ An unexpected error occurred during execution:                              │"@,
        "│   Cause:    "@ + pad_to(first_chars(payload, 64), 64) + "│"@,
        "│   Location: "@ + pad_to(first_chars(location, 64), 64) + "│"@,
        "│   Version:  "@ + pad_to(version, 64) + "│"@,
        "│                                                                             │"@,
        "│ Detailed diagnostic crash log saved to:                                     │"@,
        "│   "@ + pad_to(first_chars(crash_file, 74), 74) + "│"@,
        "│                                                                             │"@,
        "│ Please report this issue at:                                                │"@,
        "│   https://github.com/BlackFeather-git/ram-tui/issues                        │"@,
        "└─────────────────────────────────────────────────────────────────────────────┘\n"@,
    ]
}

fn padded_field(lead: &str, value: &str, cut: bool, width: usize) -> (r: String)
    ensures
        r@ == lead@ + pad_to(
            if cut {
                first_chars(value@, width as nat)
            } else {
                value@
            },
            width as nat,
        ) + "│"@,
{
    let v = chars_of(value);
    let shown = if cut && v.len() > width {
        let mut t: Vec<char> = Vec::new();
        let mut i: usize = 0;
        while i < width
            invariant
                i <= width < v@.len(),
                t@ == v@.take(i as int),
            decreases width - i,
        {
            t.push(v[i]);
            assert(v@.take(i + 1) =~= v@.take(i as int).push(v@[i as int]));
            i += 1;
        }
        t
    } else {
        v
    };
    let mut s = String::new();
    push_str(&mut s, lead);
    let text = string_from_chars(shown.as_slice());
    push_str(&mut s, text.as_str());
    if shown.len() < width {
        push_repeat(&mut s, ' ', width - shown.len());
    }
    push_str(&mut s, "│");
    assert(s@ =~= lead@ + pad_to(
        if cut {
            first_chars(value@, width as nat)
        } else {
            value@
        },
        width as nat,
    ) + "│"@);
    s
}

/// The crash report box shown on the terminal after a panic.
pub fn crash_banner(payload: &str, location: &str, version: &str, crash_file: &str) -> (r: Vec<String>)
    ensures
        r@.map_values(|l: String| l@) == crash_banner_spec(payload@, location@, version@, crash_file@),
{
    let mut v: Vec<String> = Vec::new();
    v.push(String::from_str("\n┌─────────────────────────────────────────────────────────────────────────────┐"));
    v.push(String::from_str("│                         [RAM-TUI ERROR REPORT]                              │"));
    v.push(String::from_str("├─────────────────────────────────────────────────────────────────────────────┤"));
    v.push(String::from_str("│ An unexpected error occurred during execution:                              │"));
    v.push(padded_field("│   Cause:    ", payload, true, 64));
    v.push(padded_field("│   Location: ", location, true, 64));
    v.push(padded_field("│   Version:  ", version, false, 64));
    v.push(String::from_str("│                                                                             │"));
    v.push(String::from_str("│ Detailed diagnostic crash log saved to:                                     │"));
    v.push(padded_field("│   ", crash_file, true, 74));
    v.push(String::from_str("│                                                                             │"));
    v.push(String::from_str("│ Please report this issue at:                                                │"));
    v.push(String::from_str("│   https://github.com/BlackFeather-git/ram-tui/issues                        │"));
    v.push(String::from_str("└─────────────────────────────────────────────────────────────────────────────┘\n"));
    assert(v@.map_values(|l: String| l@) =~= crash_banner_spec(payload@, location@, version@, crash_file@));
    v
}

/// Human-readable operating system name for `std::env::consts::OS`.
pub fn os_display_name(os: &str) -> (r: &str)
    ensures
        r@ == os_display_spec(os@),
{
    let v = chars_of(os);
    let names: [(&str, &str); 10] = [
        ("linux", "Linux"),
        ("macos", "macOS"),
        ("windows", "Windows"),
        ("freebsd", "FreeBSD"),
        ("openbsd", "OpenBSD"),
        ("netbsd", "NetBSD"),
        ("dragonfly", "DragonFly"),
        ("solaris", "Solaris"),
        ("android", "Android"),
        ("ios", "iOS"),
    ];
    let mut i: usize = 0;
    while i < 10
        invariant
            i <= 10,
            v@ == os@,
            names@ == os_names(),
            forall|k: int| 0 <= k < i ==> (#[trigger] os_names()[k]).0@ != os@,
        decreases 10 - i,
    {
        let key = chars_of(names[i].0);
        if chars_eq(key.as_slice(), v.as_slice()) {
            proof {
                lemma_os_lookup(os@, i as int);
            }
            return names[i].1;
        }
        i += 1;
    }
    proof {
        lemma_os_lookup_none(os@);
    }
    os
}

pub open spec fn os_names() -> Seq<(&'static str, &'static str)> {
    seq![
        ("linux", "Linux"),
        ("macos", "macOS"),
        ("windows", "Windows"),
        ("freebsd", "FreeBSD"),
        ("openbsd", "OpenBSD"),
        ("netbsd", "NetBSD"),
        ("dragonfly", "DragonFly"),
        ("solaris", "Solaris"),
        ("android", "Android"),
        ("ios", "iOS"),
    ]
}

/// The display name of an OS identifier: the first entry of `os_names` naming it,
/// else the identifier itself.
pub open spec fn os_display_from(os: Seq<char>, i: int) -> Seq<char>
    decreases 10 - i,
{
    if i < 0 || i >= 10 {
        os
    } else if os_names()[i].0@ == os {
        os_names()[i].1@
    } else {
        os_display_from(os, i + 1)
    }
}

pub open spec fn os_display_spec(os: Seq<char>) -> Seq<char> {
    os_display_from(os, 0)
}

proof fn lemma_os_lookup(os: Seq<char>, i: int)
    requires
        0 <= i < 10,
        os_names()[i].0@ == os,
        forall|k: int| 0 <= k < i ==> (#[trigger] os_names()[k]).0@ != os,
    ensures
        os_display_spec(os) == os_names()[i].1@,
{
    lemma_os_from(os, 0, i);
}

proof fn lemma_os_from(os: Seq<char>, j: int, i: int)
    requires
        0 <= j <= i < 10,
        os_names()[i].0@ == os,
        forall|k: int| 0 <= k < i ==> (#[trigger] os_names()[k]).0@ != os,
    ensures
        os_display_from(os, j) == os_names()[i].1@,
    decreases i - j,
{
    if j < i {
        lemma_os_from(os, j + 1, i);
    }
}

proof fn lemma_os_lookup_none(os: Seq<char>)
    requires
        forall|k: int| 0 <= k < 10 ==> (#[trigger] os_names()[k]).0@ != os,
    ensures
        os_display_spec(os) == os,
{
    lemma_os_none_from(os, 0);
}

proof fn lemma_os_none_from(os: Seq<char>, j: int)
    requires
        0 <= j <= 10,
        forall|k: int| 0 <= k < 10 ==> (#[trigger] os_names()[k]).0@ != os,
    ensures
        os_display_from(os, j) == os,
    decreases 10 - j,
{
    if j < 10 {
        lemma_os_none_from(os, j + 1);
    }
}

} // verus!
