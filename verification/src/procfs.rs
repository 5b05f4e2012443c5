//! Per-process figures from the contents of the procfs files of one process:
//! `stat` (start time), `statm` (resident pages), `smaps_rollup` (PSS / USS),
//! `comm` and `cmdline` (display name).

use vstd::prelude::*;
use crate::format::{sanitize_spec, sanitize_text};
use crate::text::{
    all_ascii_digits, chars_eq, chars_of, first_word, first_word_chars, last_index_of,
    lemma_last_index_of, lines_of, nth_word, parse_u64, parse_u64_spec, rfind_char, slice_chars,
    split_lines, split_on, split_on_chars, split_once, split_once_chars, string_from_chars, trim,
    trim_chars, words,
};

verus! {

// ---------------------------------------------------------------------------
// stat
// ---------------------------------------------------------------------------

/// The start-time field of `/proc/<pid>/stat` content: the 20th word after the
/// character that follows the last ')' (the command name may itself hold ')' and
/// spaces). No field when there is no ')', when nothing follows it, or when the
/// character after it is not ASCII (the text after it then starts mid-character).
pub open spec fn starttime_spec(stat: Seq<char>) -> Option<Seq<char>> {
    let r = last_index_of(stat, ')');
    if r < 0 || r + 1 >= stat.len() || (stat[r + 1] as u32) >= 128 {
        None
    } else {
        let ws = words(stat.skip(r + 2));
        if ws.len() > 19 {
            Some(ws[19])
        } else {
            None
        }
    }
}

/// Parse the starttime field (field 22, 0-indexed after comm) from /proc/<pid>/stat.
/// The comm field can contain spaces and parentheses, so we find the last ')' first.
pub fn parse_starttime(stat_content: &str) -> (r: Option<String>)
    ensures
        r matches Some(t) ==> starttime_spec(stat_content@) == Some(t@),
        r is None ==> starttime_spec(stat_content@) is None,
{
    let v = chars_of(stat_content);
    proof {
        lemma_last_index_of(v@, ')');
    }
    let rparen = match rfind_char(v.as_slice(), ')') {
        Some(k) => k,
        None => return None,
    };
    if rparen + 1 >= v.len() {
        return None;
    }
    if (v[rparen + 1] as u32) >= 128 {
        return None;
    }
    let rest = slice_chars(v.as_slice(), rparen + 2, v.len());
    assert(rest@ =~= v@.skip(rparen + 2));
    match nth_word(rest.as_slice(), 19) {
        Some(w) => Some(string_from_chars(w.as_slice())),
        None => None,
    }
}

// ---------------------------------------------------------------------------
// statm
// ---------------------------------------------------------------------------

/// Resident bytes from `/proc/<pid>/statm` content: the second field (resident
/// pages) times the page size; none when the field is missing or not a number,
/// when the product overflows 64 bits, or when it is zero.
pub open spec fn statm_rss_spec(statm: Seq<char>, page_size: u64) -> Option<u64> {
    let t = trim(statm);
    let ws = words(t);
    if t.len() == 0 || ws.len() < 2 {
        None
    } else {
        match parse_u64_spec(ws[1]) {
            Some(pages) => if pages * page_size > u64::MAX || pages * page_size == 0 {
                None
            } else {
                Some((pages * page_size) as u64)
            },
            None => None,
        }
    }
}

/// Resident set size in bytes from `/proc/<pid>/statm` content (field index 1, in pages).
pub fn parse_statm_rss(statm: &str, page_size: u64) -> (r: Option<u64>)
    ensures
        r == statm_rss_spec(statm@, page_size),
{
    let v = chars_of(statm);
    let t = trim_chars(v.as_slice());
    if t.len() == 0 {
        return None;
    }
    let field = match nth_word(t.as_slice(), 1) {
        Some(w) => w,
        None => return None,
    };
    let pages = match parse_u64(field.as_slice()) {
        Some(p) => p,
        None => return None,
    };
    match pages.checked_mul(page_size) {
        Some(bytes) => if bytes == 0 {
            None
        } else {
            Some(bytes)
        },
        None => None,
    }
}

// ---------------------------------------------------------------------------
// smaps_rollup
// ---------------------------------------------------------------------------

/// The (key, kB value) of one `smaps_rollup` line holding a ':'; a value that is
/// missing or not a number counts as 0.
pub open spec fn smaps_entry(line: Seq<char>) -> Option<(Seq<char>, u64)> {
    match split_once(trim(line), ':') {
        Some(kv) => Some(
            (
                trim(kv.0),
                match first_word(kv.1) {
                    Some(w) => match parse_u64_spec(w) {
                        Some(v) => v,
                        None => 0,
                    },
                    None => 0,
                },
            ),
        ),
        None => None,
    }
}

/// The value of the last line recording `key`.
pub open spec fn smaps_last(lines: Seq<Seq<char>>, key: Seq<char>) -> Option<u64>
    decreases lines.len(),
{
    if lines.len() == 0 {
        None
    } else {
        match smaps_entry(lines.last()) {
            Some(e) => if e.0 == key {
                Some(e.1)
            } else {
                smaps_last(lines.drop_last(), key)
            },
            None => smaps_last(lines.drop_last(), key),
        }
    }
}

pub open spec fn kb_or_zero(v: Option<u64>) -> nat {
    match v {
        Some(k) => k as nat,
        None => 0,
    }
}

/// Bytes for `kb` kilobytes, if within 64 bits.
pub open spec fn kb_to_bytes(kb: nat) -> Option<u64> {
    if kb * 1024 <= u64::MAX {
        Some((kb * 1024) as u64)
    } else {
        None
    }
}

/// (PSS, USS) in bytes from `smaps_rollup` content. PSS is the last `Pss` value;
/// USS the last `Private_Clean` plus the last `Private_Dirty` (0 for a missing
/// one), present when either line is. Without USS, PSS stands for both; without
/// PSS (or when a figure overflows 64 bits in bytes) there is no result.
pub open spec fn smaps_rollup_spec(content: Seq<char>) -> Option<(u64, u64)> {
    let ls = split_lines(content);
    let pss = smaps_last(ls, "Pss"@);
    let clean = smaps_last(ls, "Private_Clean"@);
    let dirty = smaps_last(ls, "Private_Dirty"@);
    let pss_bytes = match pss {
        Some(k) => kb_to_bytes(k as nat),
        None => None,
    };
    let uss_bytes = if clean is Some || dirty is Some {
        kb_to_bytes(kb_or_zero(clean) + kb_or_zero(dirty))
    } else {
        None
    };
    match pss_bytes {
        Some(p) => match uss_bytes {
            Some(u) => Some((p, u)),
            None => Some((p, p)),
        },
        None => None,
    }
}

fn smaps_entry_exec(line: &[char]) -> (r: Option<(Vec<char>, u64)>)
    ensures
        r matches Some(e) ==> smaps_entry(line@) == Some((e.0@, e.1)),
        r is None ==> smaps_entry(line@) is None,
{
    let t = trim_chars(line);
    match split_once_chars(t.as_slice(), ':') {
        Some(kv) => {
            let key = trim_chars(kv.0.as_slice());
            let val = match first_word_chars(kv.1.as_slice()) {
                Some(w) => match parse_u64(w.as_slice()) {
                    Some(v) => v,
                    None => 0,
                },
                None => 0,
            };
            Some((key, val))
        },
        None => None,
    }
}

fn kb_to_bytes_exec(kb: u64) -> (r: Option<u64>)
    ensures
        r == kb_to_bytes(kb as nat),
{
    kb.checked_mul(1024)
}

/// PSS and USS in bytes from `/proc/<pid>/smaps_rollup` content.
pub fn parse_smaps_rollup(content: &str) -> (r: Option<(u64, u64)>)
    ensures
        r == smaps_rollup_spec(content@),
{
    let v = chars_of(content);
    let lines = lines_of(v.as_slice());
    let ghost ls = split_lines(content@);
    let pss_key = chars_of("Pss");
    let clean_key = chars_of("Private_Clean");
    let dirty_key = chars_of("Private_Dirty");
    proof {
        reveal_strlit("Pss");
        reveal_strlit("Private_Clean");
        reveal_strlit("Private_Dirty");
        assert("Pss"@ != "Private_Clean"@ && "Pss"@ != "Private_Dirty"@ && "Private_Clean"@
            != "Private_Dirty"@) by {
            assert("Pss"@.len() != "Private_Clean"@.len());
            assert("Pss"@.len() != "Private_Dirty"@.len());
            assert("Private_Clean"@[8] != "Private_Dirty"@[8]);
        }
    }
    let mut pss_kb: Option<u64> = None;
    let mut clean_kb: Option<u64> = None;
    let mut dirty_kb: Option<u64> = None;
    let mut i: usize = 0;
    assert(ls.take(0) =~= Seq::<Seq<char>>::empty());
    while i < lines.len()
        invariant
            i <= lines@.len(),
            lines@.len() == ls.len(),
            forall|k: int| 0 <= k < lines@.len() ==> (#[trigger] lines@[k])@ == ls[k],
            pss_key@ == "Pss"@,
            clean_key@ == "Private_Clean"@,
            dirty_key@ == "Private_Dirty"@,
            "Pss"@ != "Private_Clean"@,
            "Pss"@ != "Private_Dirty"@,
            "Private_Clean"@ != "Private_Dirty"@,
            pss_kb == smaps_last(ls.take(i as int), "Pss"@),
            clean_kb == smaps_last(ls.take(i as int), "Private_Clean"@),
            dirty_kb == smaps_last(ls.take(i as int), "Private_Dirty"@),
        decreases lines.len() - i,
    {
        let ghost pre = ls.take(i + 1);
        assert(pre.drop_last() =~= ls.take(i as int));
        assert(pre.last() == lines@[i as int]@);
        match smaps_entry_exec(lines[i].as_slice()) {
            Some(e) => {
                if chars_eq(e.0.as_slice(), pss_key.as_slice()) {
                    pss_kb = Some(e.1);
                } else if chars_eq(e.0.as_slice(), clean_key.as_slice()) {
                    clean_kb = Some(e.1);
                } else if chars_eq(e.0.as_slice(), dirty_key.as_slice()) {
                    dirty_kb = Some(e.1);
                }
            },
            None => {},
        }
        i += 1;
    }
    assert(ls.take(lines.len() as int) =~= ls);
    let pss_bytes = match pss_kb {
        Some(k) => kb_to_bytes_exec(k),
        None => None,
    };
    let uss_bytes = if clean_kb.is_some() || dirty_kb.is_some() {
        let c: u64 = match clean_kb {
            Some(k) => k,
            None => 0,
        };
        let d: u64 = match dirty_kb {
            Some(k) => k,
            None => 0,
        };
        match c.checked_add(d) {
            Some(t) => kb_to_bytes_exec(t),
            None => None,
        }
    } else {
        None
    };
    match pss_bytes {
        Some(p) => match uss_bytes {
            Some(u) => Some((p, u)),
            None => Some((p, p)),
        },
        None => None,
    }
}

// ---------------------------------------------------------------------------
// Process names
// ---------------------------------------------------------------------------

/// Simple name sanitiser: replace control chars with '~'.
pub open spec fn proc_name_char(c: char) -> char {
    if (c as u32) < 32 || (c as u32) == 127 {
        '~'
    } else {
        c
    }
}

/// Simple name sanitiser: replace control chars with '~'.
pub fn sanitize_proc_name(name: &str) -> (r: String)
    ensures
        r@ == name@.map_values(|c: char| proc_name_char(c)),
{
    let v = chars_of(name);
    let mut out: Vec<char> = Vec::new();
    let mut i: usize = 0;
    while i < v.len()
        invariant
            i <= v@.len(),
            v@ == name@,
            out@ == v@.take(i as int).map_values(|c: char| proc_name_char(c)),
        decreases v.len() - i,
    {
        let ch = v[i];
        let code = ch as u32;
        if code < 32 || code == 127 {
            out.push('~');
        } else {
            out.push(ch);
        }
        assert(v@.take(i + 1).map_values(|c: char| proc_name_char(c)) =~= v@.take(
            i as int,
        ).map_values(|c: char| proc_name_char(c)).push(proc_name_char(ch)));
        i += 1;
    }
    assert(v@.take(v.len() as int) =~= v@);
    string_from_chars(out.as_slice())
}

/// The last component of a '/'-separated path that is neither empty nor ".".
pub open spec fn last_component(pieces: Seq<Seq<char>>) -> Option<Seq<char>>
    decreases pieces.len(),
{
    if pieces.len() == 0 {
        None
    } else if pieces.last().len() == 0 || pieces.last() == "."@ {
        last_component(pieces.drop_last())
    } else {
        Some(pieces.last())
    }
}

/// The final name of a path (`Path::file_name`): its last component, none when
/// that is ".." or when the path has no named component.
pub open spec fn path_file_name(p: Seq<char>) -> Option<Seq<char>> {
    match last_component(split_on(p, '/')) {
        Some(c) => if c == ".."@ {
            None
        } else {
            Some(c)
        },
        None => None,
    }
}

/// `s` with every NUL character replaced by a space.
pub open spec fn nul_to_space(s: Seq<char>) -> Seq<char> {
    s.map_values(|c: char| if c == '\0' { ' ' } else { c })
}

/// The name a command line gives: the file name of its first word (the word itself
/// when it has none), sanitised; none for a blank command line.
pub open spec fn cmdline_name(cmdline: Seq<char>) -> Option<Seq<char>> {
    let cmd = trim(nul_to_space(cmdline));
    if cmd.len() == 0 {
        None
    } else {
        let first = match first_word(cmd) {
            Some(w) => w,
            None => cmd,
        };
        let base = match path_file_name(first) {
            Some(b) => b,
            None => first,
        };
        Some(sanitize_spec(base))
    }
}

/// The display name of a process: its `comm` (trimmed, sanitised) unless that is
/// missing or blank, else the name its `cmdline` gives.
pub open spec fn process_name_spec(comm: Option<Seq<char>>, cmdline: Option<Seq<char>>) -> Option<
    Seq<char>,
> {
    let from_cmdline = match cmdline {
        Some(d) => cmdline_name(d),
        None => None,
    };
    match comm {
        Some(c) => if trim(c).len() > 0 {
            Some(sanitize_spec(trim(c)))
        } else {
            from_cmdline
        },
        None => from_cmdline,
    }
}

pub open spec fn opt_str(s: Option<&str>) -> Option<Seq<char>> {
    match s {
        Some(t) => Some(t@),
        None => None,
    }
}

fn path_file_name_exec(p: &[char]) -> (r: Option<Vec<char>>)
    ensures
        r matches Some(b) ==> path_file_name(p@) == Some(b@),
        r is None ==> path_file_name(p@) is None,
{
    let pieces = split_on_chars(p, '/');
    let ghost ps = split_on(p@, '/');
    let dot = chars_of(".");
    let dotdot = chars_of("..");
    proof {
        reveal_strlit(".");
        reveal_strlit("..");
    }
    let mut j = pieces.len();
    assert(ps.take(j as int) =~= ps);
    while j > 0
        invariant
            j <= pieces@.len(),
            ps == split_on(p@, '/'),
            pieces@.len() == ps.len(),
            forall|k: int| 0 <= k < pieces@.len() ==> (#[trigger] pieces@[k])@ == ps[k],
            dot@ == "."@,
            dotdot@ == ".."@,
            last_component(ps.take(j as int)) == last_component(ps),
        decreases j,
    {
        let ghost pre = ps.take(j as int);
        assert(pre.drop_last() =~= ps.take(j - 1));
        assert(pre.last() == pieces@[j - 1]@);
        let piece = &pieces[j - 1];
        if piece.len() > 0 && !chars_eq(piece.as_slice(), dot.as_slice()) {
            assert(last_component(pre) == Some(piece@));
            if chars_eq(piece.as_slice(), dotdot.as_slice()) {
                return None;
            }
            let name = slice_chars(piece.as_slice(), 0, piece.len());
            assert(name@ =~= piece@);
            return Some(name);
        }
        j -= 1;
    }
    assert(ps.take(0) =~= Seq::<Seq<char>>::empty());
    None
}

fn cmdline_name_exec(cmdline: &str) -> (r: Option<String>)
    ensures
        r matches Some(n) ==> cmdline_name(cmdline@) == Some(n@),
        r is None ==> cmdline_name(cmdline@) is None,
{
    let v = chars_of(cmdline);
    let mut spaced: Vec<char> = Vec::new();
    let mut i: usize = 0;
    while i < v.len()
        invariant
            i <= v@.len(),
            v@ == cmdline@,
            spaced@ == nul_to_space(v@.take(i as int)),
        decreases v.len() - i,
    {
        if v[i] == '\0' {
            spaced.push(' ');
        } else {
            spaced.push(v[i]);
        }
        assert(nul_to_space(v@.take(i + 1)) =~= nul_to_space(v@.take(i as int)).push(
            if v@[i as int] == '\0' {
                ' '
            } else {
                v@[i as int]
            },
        ));
        i += 1;
    }
    assert(v@.take(v.len() as int) =~= v@);
    let cmd = trim_chars(spaced.as_slice());
    if cmd.len() == 0 {
        return None;
    }
    let first = match first_word_chars(cmd.as_slice()) {
        Some(w) => w,
        None => slice_chars(cmd.as_slice(), 0, cmd.len()),
    };
    assert(cmd@.subrange(0, cmd@.len() as int) =~= cmd@);
    let base = match path_file_name_exec(first.as_slice()) {
        Some(b) => b,
        None => first,
    };
    let base_text = string_from_chars(base.as_slice());
    Some(sanitize_text(base_text.as_str()))
}

/// The display name of a process from the contents of its `comm` file, falling back to
/// its `cmdline` (NUL separators read as spaces); `None` for a file that could not be read.
pub fn process_name_from(comm: Option<&str>, cmdline: Option<&str>) -> (r: Option<String>)
    ensures
        r matches Some(n) ==> process_name_spec(opt_str(comm), opt_str(cmdline)) == Some(n@),
        r is None ==> process_name_spec(opt_str(comm), opt_str(cmdline)) is None,
{
    match comm {
        Some(c) => {
            let v = chars_of(c);
            let t = trim_chars(v.as_slice());
            if t.len() > 0 {
                let text = string_from_chars(t.as_slice());
                return Some(sanitize_text(text.as_str()));
            }
        },
        None => {},
    }
    match cmdline {
        Some(d) => cmdline_name_exec(d),
        None => None,
    }
}

// ---------------------------------------------------------------------------
// Process ids and identity
// ---------------------------------------------------------------------------

/// A `/proc` entry name that names a process: ASCII digits only.
pub fn is_pid_name(name: &str) -> (r: bool)
    ensures
        r == all_ascii_digits(name@),
{
    let v = chars_of(name);
    let mut i: usize = 0;
    while i < v.len()
        invariant
            i <= v@.len(),
            v@ == name@,
            forall|k: int| 0 <= k < i ==> crate::text::is_ascii_digit(#[trigger] v@[k]),
        decreases v.len() - i,
    {
        let code = v[i] as u32;
        if code < 48 || code > 57 {
            return false;
        }
        i += 1;
    }
    true
}

/// The number a pid name holds, 0 when it is not a 32-bit number.
pub open spec fn pid_number(name: Seq<char>) -> u32 {
    match parse_u64_spec(name) {
        Some(v) => if v <= u32::MAX {
            v as u32
        } else {
            0
        },
        None => 0,
    }
}

pub fn parse_pid(name: &str) -> (r: u32)
    ensures
        r == pid_number(name@),
{
    let v = chars_of(name);
    match parse_u64(v.as_slice()) {
        Some(n) => if n <= 0xFFFF_FFFF {
            n as u32
        } else {
            0
        },
        None => 0,
    }
}

/// The identity check before signalling a process: when a start time is expected, the
/// `stat` content must give exactly it; and the name that `comm` / `cmdline` give must
/// be the expected name.
pub open spec fn identity_matches(
    stat: Option<Seq<char>>,
    comm: Option<Seq<char>>,
    cmdline: Option<Seq<char>>,
    expected_name: Seq<char>,
    expected_starttime: Option<Seq<char>>,
) -> bool {
    let start_ok = match expected_starttime {
        Some(e) => match stat {
            Some(st) => starttime_spec(trim(st)) == Some(e),
            None => false,
        },
        None => true,
    };
    start_ok && process_name_spec(comm, cmdline) == Some(expected_name)
}

/// Validate process identity before signaling to prevent PID reuse races, from the
/// contents of the process's `stat`, `comm` and `cmdline` files (`None`: unreadable).
pub fn validate_process_identity(
    stat: Option<&str>,
    comm: Option<&str>,
    cmdline: Option<&str>,
    expected_name: &str,
    expected_starttime: Option<&str>,
) -> (r: bool)
    ensures
        r == identity_matches(
            opt_str(stat),
            opt_str(comm),
            opt_str(cmdline),
            expected_name@,
            opt_str(expected_starttime),
        ),
{
    match expected_starttime {
        Some(exp) => {
            let actual = match stat {
                Some(st) => {
                    let v = chars_of(st);
                    let t = trim_chars(v.as_slice());
                    let text = string_from_chars(t.as_slice());
                    parse_starttime(text.as_str())
                },
                None => None,
            };
            match actual {
                Some(a) => {
                    let av = chars_of(a.as_str());
                    let ev = chars_of(exp);
                    if !chars_eq(av.as_slice(), ev.as_slice()) {
                        return false;
                    }
                },
                None => return false,
            }
        },
        None => {},
    }
    match process_name_from(comm, cmdline) {
        Some(actual) => {
            let av = chars_of(actual.as_str());
            let ev = chars_of(expected_name);
            chars_eq(av.as_slice(), ev.as_slice())
        },
        None => false,
    }
}

/// A `smaps_rollup` line gives no figure for `key` when it records another key.
pub open spec fn other_smaps_key(line: Seq<char>, key: Seq<char>) -> bool {
    match smaps_entry(line) {
        Some(e) => e.0 != key,
        None => true,
    }
}

/// A figure is only ever taken from a line whose trimmed key is exactly `key`:
/// appending a line for another key (such as "SwapPss" when looking up "Pss") leaves
/// the result unchanged, and appending one for `key` gives its value.
pub proof fn law_smaps_exact_key(lines: Seq<Seq<char>>, line: Seq<char>, key: Seq<char>)
    ensures
        other_smaps_key(line, key) ==> smaps_last(lines.push(line), key) == smaps_last(lines, key),
        forall|v: u64| #[trigger] smaps_entry(line) == Some((key, v)) ==> smaps_last(lines.push(line), key) == Some(v),
{
    assert(lines.push(line).drop_last() =~= lines);
}

} // verus!
