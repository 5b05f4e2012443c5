//! The single-file prototype's logic: its meminfo and statm readings in kB, the
//! process list by resident size, byte formatting, themes, clock, arguments, JSON
//! snapshot text and key handling.

use vstd::prelude::*;
use crate::format::{
    as_f64_value, f64_integer_value, fixed_point, fixed_point_string, hms_spec,
};
use crate::sorting::{
    asymmetric, insert_position, is_ordered, lemma_insert_position, lemma_sort_ordered_is_ordered,
    lemma_sort_ordered_permutes, sort_ordered,
};
use crate::text::{
    chars_eq, chars_of, decimal, first_word, first_word_chars, lines_of, nth_word, parse_u64,
    parse_u64_spec, push_char, push_decimal, push_str, split_lines, split_once, split_once_chars,
    string_from_chars, trim, trim_chars, words,
};

verus! {

// ---------------------------------------------------------------------------
// Memory in kB
// ---------------------------------------------------------------------------

/// Memory figures in kB.
#[derive(Clone, Debug)]
pub struct MemInfoKb {
    pub total_kb: u64,
    pub free_kb: u64,
    pub available_kb: u64,
    pub cached_kb: u64,
    pub buffers_kb: u64,
    pub swap_total_kb: u64,
    pub swap_used_kb: u64,
}

/// The (key, value) a meminfo line records here: the text before the first ':' as it
/// stands, and the first word after it ("0" when there is none), when a number.
pub open spec fn kb_entry(line: Seq<char>) -> Option<(Seq<char>, u64)> {
    match split_once(line, ':') {
        Some(kv) => {
            let word = match first_word(trim(kv.1)) {
                Some(w) => w,
                None => seq!['0'],
            };
            match parse_u64_spec(word) {
                Some(n) => Some((kv.0, n)),
                None => None,
            }
        },
        None => None,
    }
}

/// The value of the last line recording `key`.
pub open spec fn kb_lookup(lines: Seq<Seq<char>>, key: Seq<char>) -> Option<u64>
    decreases lines.len(),
{
    if lines.len() == 0 {
        None
    } else {
        match kb_entry(lines.last()) {
            Some(e) => if e.0 == key {
                Some(e.1)
            } else {
                kb_lookup(lines.drop_last(), key)
            },
            None => kb_lookup(lines.drop_last(), key),
        }
    }
}

pub open spec fn kb_or(v: Option<u64>, default: u64) -> u64 {
    match v {
        Some(x) => x,
        None => default,
    }
}

fn kb_entry_exec(line: &[char]) -> (r: Option<(Vec<char>, u64)>)
    ensures
        r matches Some(e) ==> kb_entry(line@) == Some((e.0@, e.1)),
        r is None ==> kb_entry(line@) is None,
{
    match split_once_chars(line, ':') {
        Some(kv) => {
            let t = trim_chars(kv.1.as_slice());
            let word = match first_word_chars(t.as_slice()) {
                Some(w) => w,
                None => {
                    let mut z: Vec<char> = Vec::new();
                    z.push('0');
                    assert(z@ =~= seq!['0']);
                    z
                },
            };
            match parse_u64(word.as_slice()) {
                Some(n) => Some((kv.0, n)),
                None => None,
            }
        },
        None => None,
    }
}

pub open spec fn line_views(lines: Seq<Vec<char>>) -> Seq<Seq<char>> {
    lines.map_values(|l: Vec<char>| l@)
}

fn kb_lookup_exec(lines: &Vec<Vec<char>>, key: &str) -> (r: Option<u64>)
    ensures
        r == kb_lookup(line_views(lines@), key@),
{
    let ghost all = line_views(lines@);
    let k = chars_of(key);
    let mut j = lines.len();
    assert(all.take(j as int) =~= all);
    while j > 0
        invariant
            j <= lines@.len(),
            all == line_views(lines@),
            k@ == key@,
            kb_lookup(all.take(j as int), key@) == kb_lookup(all, key@),
        decreases j,
    {
        let ghost pre = all.take(j as int);
        assert(pre.last() == lines@[j - 1]@);
        assert(pre.drop_last() =~= all.take(j - 1));
        match kb_entry_exec(lines[j - 1].as_slice()) {
            Some(e) => {
                if chars_eq(e.0.as_slice(), k.as_slice()) {
                    return Some(e.1);
                }
            },
            None => {},
        }
        j -= 1;
    }
    None
}

/// Parse `/proc/meminfo` content into kB figures (best-effort): available falls back
/// to free, swap free to swap total.
pub fn parse_meminfo_kb(content: &str) -> (r: MemInfoKb)
    ensures
        ({
            let ls = split_lines(content@);
            let total = kb_or(kb_lookup(ls, "MemTotal"@), 0);
            let free = kb_or(kb_lookup(ls, "MemFree"@), 0);
            let swap_total = kb_or(kb_lookup(ls, "SwapTotal"@), 0);
            let swap_free = kb_or(kb_lookup(ls, "SwapFree"@), swap_total);
            &&& r.total_kb == total
            &&& r.free_kb == free
            &&& r.available_kb == kb_or(kb_lookup(ls, "MemAvailable"@), free)
            &&& r.cached_kb == kb_or(kb_lookup(ls, "Cached"@), 0)
            &&& r.buffers_kb == kb_or(kb_lookup(ls, "Buffers"@), 0)
            &&& r.swap_total_kb == swap_total
            &&& r.swap_used_kb == if swap_total >= swap_free {
                (swap_total - swap_free) as u64
            } else {
                0
            }
        }),
{
    let v = chars_of(content);
    let lines = lines_of(v.as_slice());
    assert(line_views(lines@) =~= split_lines(content@));
    let total_kb = match kb_lookup_exec(&lines, "MemTotal") {
        Some(x) => x,
        None => 0,
    };
    let free_kb = match kb_lookup_exec(&lines, "MemFree") {
        Some(x) => x,
        None => 0,
    };
    let available_kb = match kb_lookup_exec(&lines, "MemAvailable") {
        Some(x) => x,
        None => free_kb,
    };
    let cached_kb = match kb_lookup_exec(&lines, "Cached") {
        Some(x) => x,
        None => 0,
    };
    let buffers_kb = match kb_lookup_exec(&lines, "Buffers") {
        Some(x) => x,
        None => 0,
    };
    let swap_total_kb = match kb_lookup_exec(&lines, "SwapTotal") {
        Some(x) => x,
        None => 0,
    };
    let swap_free_kb = match kb_lookup_exec(&lines, "SwapFree") {
        Some(x) => x,
        None => swap_total_kb,
    };
    MemInfoKb {
        total_kb,
        free_kb,
        available_kb,
        cached_kb,
        buffers_kb,
        swap_total_kb,
        swap_used_kb: swap_total_kb.saturating_sub(swap_free_kb),
    }
}

/// Resident pages in a `statm` reading: its second word, when a number.
pub open spec fn statm_pages(statm: Seq<char>) -> Option<u64> {
    let ws = words(statm);
    if ws.len() >= 2 {
        parse_u64_spec(ws[1])
    } else {
        None
    }
}

/// Resident kB from `/proc/<pid>/statm` content, at 4 kB per page.
pub fn rss_kb_from_statm(statm: &str) -> (r: Option<u64>)
    requires
        statm_pages(statm@) matches Some(p) ==> p * 4 <= u64::MAX,
    ensures
        r == match statm_pages(statm@) {
            Some(p) => Some((p * 4) as u64),
            None => None,
        },
{
    let v = chars_of(statm);
    match nth_word(v.as_slice(), 1) {
        Some(w) => match parse_u64(w.as_slice()) {
            Some(pages) => Some(pages * 4),
            None => None,
        },
        None => None,
    }
}

/// Whether `rss_kb_from_statm` can take this content (its page count times 4 fits).
pub fn statm_fits(statm: &str) -> (r: bool)
    ensures
        r == (statm_pages(statm@) matches Some(p) ==> p * 4 <= u64::MAX),
{
    let v = chars_of(statm);
    match nth_word(v.as_slice(), 1) {
        Some(w) => match parse_u64(w.as_slice()) {
            Some(pages) => pages <= 0x3FFF_FFFF_FFFF_FFFF,
            None => true,
        },
        None => true,
    }
}

// ---------------------------------------------------------------------------
// Processes by resident size
// ---------------------------------------------------------------------------

#[derive(Clone, Debug)]
pub struct ProcInfo {
    pub pid: i32,
    pub name: String,
    pub rss_kb: u64,
}

impl View for ProcInfo {
    type V = (i32, Seq<char>, u64);

    open spec fn view(&self) -> (i32, Seq<char>, u64) {
        (self.pid, self.name@, self.rss_kb)
    }
}

pub open spec fn proc_info_views(s: Seq<ProcInfo>) -> Seq<(i32, Seq<char>, u64)> {
    s.map_values(|p: ProcInfo| p@)
}

/// Larger resident size first.
pub open spec fn rss_order() -> spec_fn((i32, Seq<char>, u64), (i32, Seq<char>, u64)) -> bool {
    |a: (i32, Seq<char>, u64), b: (i32, Seq<char>, u64)| a.2 > b.2
}

/// The processes stably sorted by resident size, largest first, cut to `limit`.
pub fn top_by_rss(procs: Vec<ProcInfo>, limit: usize) -> (r: Vec<ProcInfo>)
    ensures
        proc_info_views(r@) == ({
            let s = sort_ordered(proc_info_views(procs@), rss_order());
            if s.len() > limit {
                s.take(limit as int)
            } else {
                s
            }
        }),
{
    let ghost orig = proc_info_views(procs@);
    let mut src = procs;
    let mut out: Vec<ProcInfo> = Vec::new();
    let ghost mut i: int = 0;
    assert(orig.skip(0) =~= orig);
    assert(orig.take(0) =~= Seq::<(i32, Seq<char>, u64)>::empty());
    while src.len() > 0
        invariant
            0 <= i <= orig.len(),
            src@.len() + i == orig.len(),
            proc_info_views(src@) == orig.skip(i),
            proc_info_views(out@) == sort_ordered(orig.take(i), rss_order()),
        decreases src.len(),
    {
        let ghost before_src = src@;
        let x = src.remove(0);
        let ghost s = proc_info_views(out@);
        assert(proc_info_views(before_src)[0] == orig.skip(i)[0]);
        assert(x@ == orig[i]);
        let mut k: usize = 0;
        while k < out.len() && !(x.rss_kb > out[k].rss_kb)
            invariant
                k <= out@.len(),
                s == proc_info_views(out@),
                forall|j: int| 0 <= j < k ==> !rss_order()(x@, #[trigger] s[j]),
            decreases out.len() - k,
        {
            k += 1;
        }
        proof {
            lemma_insert_position(s, x@, rss_order());
            let p = insert_position(s, x@, rss_order());
            if (k as int) < p {
                assert(rss_order()(x@, s[k as int]));
            }
            if p < (k as int) {
                assert(!rss_order()(x@, s[p]));
            }
            assert(orig.take(i + 1).drop_last() =~= orig.take(i));
            assert(orig.take(i + 1).last() == orig[i]);
        }
        out.insert(k, x);
        proof {
            assert(proc_info_views(out@) =~= s.insert(k as int, x@));
            assert forall|j: int| 0 <= j < src@.len() implies #[trigger] proc_info_views(src@)[j]
                == orig.skip(i + 1)[j] by {
                assert(src@[j] == before_src[j + 1]);
                assert(proc_info_views(before_src)[j + 1] == orig.skip(i)[j + 1]);
            }
            assert(proc_info_views(src@) =~= orig.skip(i + 1));
            i = i + 1;
        }
    }
    assert(orig.take(i) =~= orig);
    let ghost sorted = proc_info_views(out@);
    if out.len() > limit {
        out.truncate(limit);
        assert(proc_info_views(out@) =~= sorted.take(limit as int));
    }
    out
}

/// The prototype's process list is ordered by resident size, largest first, keeps
/// `min(n, limit)` entries, and each comes from the input.
pub proof fn law_top_by_rss_ordered(procs: Seq<(i32, Seq<char>, u64)>, limit: nat)
    ensures
        ({
            let s = sort_ordered(procs, rss_order());
            let top = if s.len() > limit {
                s.take(limit as int)
            } else {
                s
            };
            &&& top.len() == if procs.len() > limit {
                limit as int
            } else {
                procs.len() as int
            }
            &&& forall|i: int, j: int| 0 <= i < j < top.len() ==> top[i].2 >= top[j].2
            &&& forall|i: int| 0 <= i < top.len() ==> procs.contains(#[trigger] top[i])
        }),
{
    let s = sort_ordered(procs, rss_order());
    lemma_sort_ordered_permutes(procs, rss_order());
    assert(asymmetric(rss_order()));
    lemma_sort_ordered_is_ordered(procs, rss_order());
    assert forall|i: int, j: int| 0 <= i < j < s.len() implies s[i].2 >= s[j].2 by {
        lemma_descending(s, i, j);
    }
    assert forall|i: int| 0 <= i < s.len() implies procs.contains(#[trigger] s[i]) by {
        vstd::seq_lib::to_multiset_contains(s, s[i]);
        vstd::seq_lib::to_multiset_contains(procs, s[i]);
    }
}

proof fn lemma_descending(s: Seq<(i32, Seq<char>, u64)>, i: int, j: int)
    requires
        0 <= i < j < s.len(),
        is_ordered(s, rss_order()),
    ensures
        s[i].2 >= s[j].2,
    decreases j - i,
{
    assert(!rss_order()(s[i + 1], s[i]));
    if i + 1 < j {
        lemma_descending(s, i + 1, j);
    }
}

/// The name a `comm` file gives: its text trimmed, unless blank.
pub fn name_from_comm(comm: Option<&str>) -> (r: Option<String>)
    ensures
        r matches Some(n) ==> comm matches Some(c) && n@ == trim(c@) && trim(c@).len() > 0,
        r is None ==> (comm matches Some(c) ==> trim(c@).len() == 0),
{
    match comm {
        Some(c) => {
            let v = chars_of(c);
            let t = trim_chars(v.as_slice());
            if t.len() == 0 {
                None
            } else {
                Some(string_from_chars(t.as_slice()))
            }
        },
        None => None,
    }
}

/// The number an `i32` parse of a directory name gives (a sign, then digits).
pub open spec fn i32_value(s: Seq<char>) -> Option<i32> {
    if s.len() > 0 && s[0] == '-' {
        let body = s.skip(1);
        if body.len() > 0 && !(body[0] == '+') {
            match parse_u64_spec(body) {
                Some(v) => if v <= 0x8000_0000 {
                    Some((0 - v) as i32)
                } else {
                    None
                },
                None => None,
            }
        } else {
            None
        }
    } else {
        match parse_u64_spec(s) {
            Some(v) => if v <= 0x7FFF_FFFF {
                Some(v as i32)
            } else {
                None
            },
            None => None,
        }
    }
}

/// Parse a directory name as an `i32` pid.
pub fn parse_i32(s: &str) -> (r: Option<i32>)
    ensures
        r == i32_value(s@),
{
    let v = chars_of(s);
    if v.len() > 0 && v[0] == '-' {
        let body = crate::text::slice_chars(v.as_slice(), 1, v.len());
        assert(body@ =~= v@.skip(1));
        if body.len() > 0 && !(body[0] == '+') {
            match parse_u64(body.as_slice()) {
                Some(n) => if n <= 0x8000_0000 {
                    let neg: i64 = 0 - (n as i64);
                    Some(neg as i32)
                } else {
                    None
                },
                None => None,
            }
        } else {
            None
        }
    } else {
        match parse_u64(v.as_slice()) {
            Some(n) => if n <= 0x7FFF_FFFF {
                Some(n as i32)
            } else {
                None
            },
            None => None,
        }
    }
}

// ---------------------------------------------------------------------------
// Formatting
// ---------------------------------------------------------------------------

/// kB as human text: two decimals of GB, one of MB, none of KB (of the bytes as an
/// `f64`), else whole bytes.
pub open spec fn kb_to_human_spec(kb: nat) -> Seq<char> {
    let bytes = kb * 1024;
    if bytes >= 0x4000_0000 {
        fixed_point(as_f64_value(bytes), 0x4000_0000, 2) + " GB"@
    } else if bytes >= 0x10_0000 {
        fixed_point(as_f64_value(bytes), 0x10_0000, 1) + " MB"@
    } else if bytes >= 0x400 {
        fixed_point(as_f64_value(bytes), 0x400, 0) + " KB"@
    } else {
        decimal(bytes) + " B"@
    }
}

/// Format kB as human text.
pub fn kb_to_human(kb: u64) -> (r: String)
    requires
        kb * 1024 <= u64::MAX,
    ensures
        r@ == kb_to_human_spec(kb as nat),
{
    let bytes = kb * 1024;
    if bytes >= 0x4000_0000 {
        let mut s = fixed_point_string(f64_integer_value(bytes), 0x4000_0000, 2);
        push_str(&mut s, " GB");
        s
    } else if bytes >= 0x10_0000 {
        let mut s = fixed_point_string(f64_integer_value(bytes), 0x10_0000, 1);
        push_str(&mut s, " MB");
        s
    } else if bytes >= 0x400 {
        let mut s = fixed_point_string(f64_integer_value(bytes), 0x400, 0);
        push_str(&mut s, " KB");
        s
    } else {
        let mut s = String::new();
        push_decimal(&mut s, bytes);
        push_str(&mut s, " B");
        s
    }
}

/// A colour theme: name, accent, text and background colours.
#[derive(Debug)]
pub struct Theme {
    pub name: &'static str,
    pub accent: (u8, u8, u8),
    pub text: (u8, u8, u8),
    pub bg: (u8, u8, u8),
}

/// The three built-in themes.
pub fn themes() -> (r: Vec<Theme>)
    ensures
        r@.len() == 3,
        r@[0].name@ == "default"@ && r@[0].accent == (180u8, 120u8, 255u8) && r@[0].text == (220u8, 220u8, 220u8)
            && r@[0].bg == (10u8, 10u8, 12u8),
        r@[1].name@ == "solar"@ && r@[1].accent == (255u8, 180u8, 0u8) && r@[1].text == (230u8, 230u8, 230u8)
            && r@[1].bg == (12u8, 12u8, 20u8),
        r@[2].name@ == "mint"@ && r@[2].accent == (80u8, 220u8, 180u8) && r@[2].text == (230u8, 230u8, 230u8)
            && r@[2].bg == (8u8, 10u8, 8u8),
{
    let mut v: Vec<Theme> = Vec::new();
    v.push(Theme { name: "default", accent: (180, 120, 255), text: (220, 220, 220), bg: (10, 10, 12) });
    v.push(Theme { name: "solar", accent: (255, 180, 0), text: (230, 230, 230), bg: (12, 12, 20) });
    v.push(Theme { name: "mint", accent: (80, 220, 180), text: (230, 230, 230), bg: (8, 10, 8) });
    v
}

/// The clock of the UTC time `now_secs` seconds after the epoch.
pub fn get_timestamp_str(now_secs: u64) -> (r: String)
    ensures
        r@ == hms_spec(((now_secs / 3600) % 24) as u32, ((now_secs / 60) % 60) as u32, (now_secs % 60) as u32),
{
    let secs = (now_secs % 60) as u32;
    let mins = ((now_secs / 60) % 60) as u32;
    let hours = ((now_secs / 3600) % 24) as u32;
    crate::format::local_now_hms((1970, 1, 1, hours, mins, secs))
}

// ---------------------------------------------------------------------------
// Arguments
// ---------------------------------------------------------------------------

pub struct Config {
    pub once: bool,
    pub json: bool,
    pub rate_ms: u64,
}

pub open spec fn string_views(s: Seq<String>) -> Seq<Seq<char>> {
    s.map_values(|x: String| x@)
}

/// The configuration after the arguments from `i` on.
pub open spec fn config_from(args: Seq<Seq<char>>, i: int, once: bool, json: bool, rate: u64) -> (bool, bool, u64)
    decreases args.len() - i,
{
    if i < 1 || i >= args.len() {
        (once, json, rate)
    } else if args[i] == "--once"@ {
        config_from(args, i + 1, true, json, rate)
    } else if args[i] == "--json"@ {
        config_from(args, i + 1, once, true, rate)
    } else if args[i] == "--rate"@ && i + 1 < args.len() {
        config_from(
            args,
            i + 2,
            once,
            json,
            match parse_u64_spec(args[i + 1]) {
                Some(r) => r,
                None => rate,
            },
        )
    } else {
        config_from(args, i + 1, once, json, rate)
    }
}

/// Parse the arguments (the program name first): `--once`, `--json`, `--rate <ms>`
/// (default 500; an unparsable value keeps it); anything else is ignored.
pub fn parse_args(args: &Vec<String>) -> (r: Config)
    ensures
        (r.once, r.json, r.rate_ms) == config_from(string_views(args@), 1, false, false, 500),
{
    let ghost av = string_views(args@);
    let mut once = false;
    let mut json = false;
    let mut rate_ms: u64 = 500;
    let mut i: usize = 1;
    let once_flag = chars_of("--once");
    let json_flag = chars_of("--json");
    let rate_flag = chars_of("--rate");
    while i < args.len()
        invariant
            1 <= i,
            av == string_views(args@),
            once_flag@ == "--once"@,
            json_flag@ == "--json"@,
            rate_flag@ == "--rate"@,
            config_from(av, i as int, once, json, rate_ms) == config_from(av, 1, false, false, 500),
        decreases args.len() - i,
    {
        let a = chars_of(args[i].as_str());
        assert(a@ == av[i as int]);
        if chars_eq(a.as_slice(), once_flag.as_slice()) {
            once = true;
        } else if chars_eq(a.as_slice(), json_flag.as_slice()) {
            json = true;
        } else if chars_eq(a.as_slice(), rate_flag.as_slice()) && i + 1 < args.len() {
            let b = chars_of(args[i + 1].as_str());
            assert(b@ == av[i + 1]);
            match parse_u64(b.as_slice()) {
                Some(r) => rate_ms = r,
                None => {},
            }
            i += 1;
        }
        i += 1;
    }
    Config { once, json, rate_ms }
}

// ---------------------------------------------------------------------------
// JSON snapshot
// ---------------------------------------------------------------------------

/// `s` with every '"' replaced by '\''.
pub open spec fn quote_safe(s: Seq<char>) -> Seq<char> {
    s.map_values(|c: char| if c == '"' { '\'' } else { c })
}

pub open spec fn proc_json(p: (i32, Seq<char>, u64)) -> Seq<char> {
    "{\"pid\":"@ + int_text(p.0 as int) + ",\"name\":\""@ + quote_safe(p.1) + "\",\"rss_kb\":"@ + decimal(
        p.2 as nat,
    ) + "}"@
}

/// Decimal text of an integer, with a '-' when negative.
pub open spec fn int_text(n: int) -> Seq<char> {
    if n < 0 {
        seq!['-'] + decimal((0 - n) as nat)
    } else {
        decimal(n as nat)
    }
}

pub open spec fn procs_json(ps: Seq<(i32, Seq<char>, u64)>) -> Seq<char>
    decreases ps.len(),
{
    if ps.len() == 0 {
        Seq::<char>::empty()
    } else if ps.len() == 1 {
        proc_json(ps[0])
    } else {
        procs_json(ps.drop_last()) + ","@ + proc_json(ps.last())
    }
}

/// The JSON snapshot: memory figures in kB and the processes.
pub open spec fn snapshot_json_spec(m: MemInfoKb, ps: Seq<(i32, Seq<char>, u64)>) -> Seq<char> {
    "{\"total_kb\":"@ + decimal(m.total_kb as nat) + ",\"available_kb\":"@ + decimal(m.available_kb as nat)
        + ",\"used_kb\":"@ + decimal(
        (if m.total_kb >= m.available_kb {
            m.total_kb - m.available_kb
        } else {
            0
        }) as nat,
    ) + ",\"swap_used_kb\":"@ + decimal(m.swap_used_kb as nat) + ",\"processes\":["@ + procs_json(ps)
        + "]}"@
}

fn push_int(s: &mut String, n: i32)
    ensures
        final(s)@ == old(s)@ + int_text(n as int),
{
    if n < 0 {
        push_char(s, '-');
        let m: i64 = 0 - (n as i64);
        push_decimal(s, m as u64);
    } else {
        push_decimal(s, n as u64);
    }
    assert(final(s)@ =~= old(s)@ + int_text(n as int));
}

fn push_proc_json(s: &mut String, p: &ProcInfo)
    ensures
        final(s)@ == old(s)@ + proc_json(p@),
{
    push_str(s, "{\"pid\":");
    push_int(s, p.pid);
    push_str(s, ",\"name\":\"");
    let v = chars_of(p.name.as_str());
    let mut i: usize = 0;
    let ghost start = s@;
    while i < v.len()
        invariant
            i <= v@.len(),
            v@ == p.name@,
            s@ == start + quote_safe(v@.take(i as int)),
        decreases v.len() - i,
    {
        let c = v[i];
        push_char(s, if c == '"' { '\'' } else { c });
        assert(quote_safe(v@.take(i + 1)) =~= quote_safe(v@.take(i as int)).push(if c == '"' { '\'' } else { c }));
        i += 1;
    }
    assert(v@.take(v.len() as int) =~= v@);
    push_str(s, "\",\"rss_kb\":");
    push_decimal(s, p.rss_kb);
    push_str(s, "}");
    assert(final(s)@ =~= old(s)@ + proc_json(p@));
}

/// The one-line JSON snapshot of memory and processes.
pub fn snapshot_json(mem: &MemInfoKb, procs: &Vec<ProcInfo>) -> (r: String)
    ensures
        r@ == snapshot_json_spec(*mem, proc_info_views(procs@)),
{
    let ghost pv = proc_info_views(procs@);
    let mut s = String::new();
    push_str(&mut s, "{\"total_kb\":");
    push_decimal(&mut s, mem.total_kb);
    push_str(&mut s, ",\"available_kb\":");
    push_decimal(&mut s, mem.available_kb);
    push_str(&mut s, ",\"used_kb\":");
    push_decimal(&mut s, mem.total_kb.saturating_sub(mem.available_kb));
    push_str(&mut s, ",\"swap_used_kb\":");
    push_decimal(&mut s, mem.swap_used_kb);
    push_str(&mut s, ",\"processes\":[");
    let ghost head = s@;
    let mut i: usize = 0;
    assert(pv.take(0) =~= Seq::<(i32, Seq<char>, u64)>::empty());
    while i < procs.len()
        invariant
            i <= procs@.len(),
            pv == proc_info_views(procs@),
            s@ == head + procs_json(pv.take(i as int)),
        decreases procs.len() - i,
    {
        if i > 0 {
            push_str(&mut s, ",");
        }
        push_proc_json(&mut s, &procs[i]);
        proof {
            let t = pv.take(i + 1);
            assert(t.drop_last() =~= pv.take(i as int));
            assert(t.last() == procs@[i as int]@);
            if i == 0 {
                assert(t =~= seq![procs@[0]@]);
            }
            assert(s@ =~= head + procs_json(t));
        }
        i += 1;
    }
    assert(pv.take(procs.len() as int) =~= pv);
    push_str(&mut s, "]}");
    assert(s@ =~= snapshot_json_spec(*mem, pv));
    s
}

// ---------------------------------------------------------------------------
// Keys
// ---------------------------------------------------------------------------

/// The prototype's interactive state.
pub struct MiniState {
    pub paused: bool,
    pub theme_idx: usize,
    pub symbol_mode: bool,
    pub rate_ms: u64,
}

pub enum MiniAction {
    Continue,
    Quit,
    ShowHelp,
}

impl MiniState {
    /// One input byte: 'q' quits, 'p' pauses, 't' next theme (of `theme_count`), 's'
    /// switches the symbol, '+' shortens the interval by 50 ms (not below 50), '-'
    /// lengthens it by 50 ms (saturating), 'h' shows help.
    pub fn apply_key(&mut self, b: u8, theme_count: usize) -> (r: MiniAction)
        requires
            theme_count > 0,
        ensures
            b == 0x71 ==> r is Quit && *final(self) == *old(self),
            b == 0x68 ==> r is ShowHelp && *final(self) == *old(self),
            b != 0x71 && b != 0x68 ==> r is Continue,
            final(self).paused == if b == 0x70 {
                !old(self).paused
            } else {
                old(self).paused
            },
            final(self).theme_idx == if b == 0x74 {
                ((old(self).theme_idx + 1) % (theme_count as int)) as usize
            } else {
                old(self).theme_idx
            },
            final(self).symbol_mode == if b == 0x73 {
                !old(self).symbol_mode
            } else {
                old(self).symbol_mode
            },
            final(self).rate_ms == if b == 0x2b && old(self).rate_ms > 50 {
                (old(self).rate_ms - 50) as u64
            } else if b == 0x2d {
                if old(self).rate_ms + 50 > u64::MAX {
                    u64::MAX
                } else {
                    (old(self).rate_ms + 50) as u64
                }
            } else {
                old(self).rate_ms
            },
    {
        if b == 0x71 {
            return MiniAction::Quit;
        }
        if b == 0x68 {
            return MiniAction::ShowHelp;
        }
        if b == 0x70 {
            self.paused = !self.paused;
        } else if b == 0x74 {
            self.theme_idx = ((self.theme_idx as u128 + 1) % (theme_count as u128)) as usize;
        } else if b == 0x73 {
            self.symbol_mode = !self.symbol_mode;
        } else if b == 0x2b {
            if self.rate_ms > 50 {
                self.rate_ms = self.rate_ms - 50;
            }
        } else if b == 0x2d {
            self.rate_ms = self.rate_ms.saturating_add(50);
        }
        MiniAction::Continue
    }
}

} // verus!
