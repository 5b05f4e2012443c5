//! System memory figures from the contents of `/proc/meminfo` and `/proc/swaps`,
//! and container (cgroup v2 / v1) memory limits from the cgroup control files.

use vstd::prelude::*;
use crate::cgroup::CgroupInfo;
use crate::text::{
    chars_eq, chars_of, contains_chars, contains_seq, first_word, first_word_chars, lines_of,
    parse_u64, parse_u64_spec, split_lines, lemma_split_lines_nonempty, split_once, split_once_chars, trim, trim_chars,
};

verus! {

/// Parsed memory information (values in bytes).
#[derive(Debug, Clone)]
pub struct MemInfo {
    pub total: u64,
    pub available: u64,
    pub used: u64,
    pub commit_as: u64,
    pub commit_limit: u64,
    pub cached: u64,
    pub swap_used: u64,
    pub swap_total: u64,
    pub swap_desc: String,
    pub cgroup: Option<CgroupInfo>,
    pub valid: bool,
}

impl Default for MemInfo {
    /// All figures zero, swap "unknown", no cgroup, not valid.
    fn default() -> (r: Self)
        ensures
            r.total == 0 && r.available == 0 && r.used == 0 && r.commit_as == 0 && r.commit_limit
                == 0 && r.cached == 0 && r.swap_used == 0 && r.swap_total == 0,
            r.swap_desc@ == "unknown"@,
            r.cgroup is None,
            !r.valid,
    {
        MemInfo {
            total: 0,
            available: 0,
            used: 0,
            commit_as: 0,
            commit_limit: 0,
            cached: 0,
            swap_used: 0,
            swap_total: 0,
            swap_desc: String::from_str("unknown"),
            cgroup: None,
            valid: false,
        }
    }
}

// ---------------------------------------------------------------------------
// /proc/meminfo
// ---------------------------------------------------------------------------

/// The (key, value in kB) that one `/proc/meminfo` line records, if any:
/// `key: value [unit]`, key and value trimmed, the value an unsigned integer.
pub open spec fn meminfo_entry(line: Seq<char>) -> Option<(Seq<char>, u64)> {
    let t = trim(line);
    match split_once(t, ':') {
        None => None,
        Some(kv) => match first_word(kv.1) {
            None => None,
            Some(w) => match parse_u64_spec(w) {
                None => None,
                Some(v) => Some((trim(kv.0), v)),
            },
        },
    }
}

/// The value the last line recording `key` gives (later lines override earlier ones).
pub open spec fn meminfo_lookup(lines: Seq<Seq<char>>, key: Seq<char>) -> Option<u64>
    decreases lines.len(),
{
    if lines.len() == 0 {
        None
    } else {
        match meminfo_entry(lines.last()) {
            Some(e) => if e.0 == key {
                Some(e.1)
            } else {
                meminfo_lookup(lines.drop_last(), key)
            },
            None => meminfo_lookup(lines.drop_last(), key),
        }
    }
}

/// The kB value recorded for `key` in `/proc/meminfo` content.
pub open spec fn meminfo_kb(content: Seq<char>, key: Seq<char>) -> Option<u64> {
    meminfo_lookup(split_lines(content), key)
}

/// Bytes recorded for `key` (kB times 1024), or `default`.
pub open spec fn meminfo_bytes_or(content: Seq<char>, key: Seq<char>, default: nat) -> nat {
    match meminfo_kb(content, key) {
        Some(v) => (v * 1024) as nat,
        None => default,
    }
}

/// The value on `line`, if any, converts to bytes within 64 bits.
pub open spec fn entry_in_range(line: Seq<char>) -> bool {
    match meminfo_entry(line) {
        Some(e) => e.1 * 1024 <= u64::MAX,
        None => true,
    }
}

pub open spec fn lookup_in_range(lines: Seq<Seq<char>>, key: Seq<char>) -> bool {
    match meminfo_lookup(lines, key) {
        Some(x) => x * 1024 <= u64::MAX,
        None => true,
    }
}

/// Every value in the content converts to bytes within 64 bits, and the cache figures
/// add up within 64 bits (otherwise the conversion overflows).
pub open spec fn meminfo_in_range(content: Seq<char>) -> bool {
    &&& forall|i: int|
        0 <= i < split_lines(content).len() ==> #[trigger] entry_in_range(split_lines(content)[i])
    &&& meminfo_bytes_or(content, "Cached"@, 0) + meminfo_bytes_or(content, "Buffers"@, 0)
        + meminfo_bytes_or(content, "SReclaimable"@, 0) <= u64::MAX
}

fn meminfo_entry_exec(line: &[char]) -> (r: Option<(Vec<char>, u64)>)
    ensures
        r matches Some(e) ==> meminfo_entry(line@) == Some((e.0@, e.1)),
        r is None ==> meminfo_entry(line@) is None,
{
    let t = trim_chars(line);
    match split_once_chars(t.as_slice(), ':') {
        None => None,
        Some(kv) => match first_word_chars(kv.1.as_slice()) {
            None => None,
            Some(w) => match parse_u64(w.as_slice()) {
                None => None,
                Some(v) => Some((trim_chars(kv.0.as_slice()), v)),
            },
        },
    }
}

/// The character sequences of a vector of lines.
pub open spec fn line_views(lines: Seq<Vec<char>>) -> Seq<Seq<char>> {
    lines.map_values(|l: Vec<char>| l@)
}

/// The kB value of the last line recording `key`.
fn lookup_kb(lines: &Vec<Vec<char>>, key: &str) -> (r: Option<u64>)
    ensures
        r == meminfo_lookup(line_views(lines@), key@),
{
    let ghost all = line_views(lines@);
    let k = chars_of(key);
    let mut j = lines.len();
    assert(all.take(j as int) =~= all);
    while j > 0
        invariant
            j <= lines@.len(),
            all == line_views(lines@),
            k@ == key@,
            meminfo_lookup(all.take(j as int), key@) == meminfo_lookup(all, key@),
        decreases j,
    {
        let ghost pre = all.take(j as int);
        assert(pre.last() == lines@[j - 1]@);
        assert(pre.drop_last() =~= all.take(j - 1));
        match meminfo_entry_exec(lines[j - 1].as_slice()) {
            Some(e) => {
                if chars_eq(e.0.as_slice(), k.as_slice()) {
                    return Some(e.1);
                }
            },
            None => {},
        }
        j -= 1;
    }
    assert(all.take(0) =~= Seq::<Seq<char>>::empty());
    None
}

/// The byte value (kB times 1024) of the last line recording `key`.
fn lookup_bytes(lines: &Vec<Vec<char>>, key: &str) -> (r: Option<u64>)
    requires
        forall|i: int| 0 <= i < lines@.len() ==> #[trigger] entry_in_range(lines@[i]@),
    ensures
        match meminfo_lookup(line_views(lines@), key@) {
            Some(v) => v * 1024 <= u64::MAX && r == Some((v * 1024) as u64),
            None => r is None,
        },
{
    let ghost all = line_views(lines@);
    proof {
        assert forall|i: int| 0 <= i < all.len() implies #[trigger] entry_in_range(all[i]) by {
            assert(all[i] == lines@[i]@);
        }
        lemma_lookup_in_range(all, key@);
    }
    match lookup_kb(lines, key) {
        Some(v) => Some(v * 1024),
        None => None,
    }
}

// ---------------------------------------------------------------------------
// /proc/swaps
// ---------------------------------------------------------------------------

/// The device named on a `/proc/swaps` line, if the line is not blank.
pub open spec fn swap_device(line: Seq<char>) -> Option<Seq<char>> {
    first_word(trim(line))
}

/// The line names a zram swap device.
pub open spec fn is_zram_line(line: Seq<char>) -> bool {
    match swap_device(line) {
        Some(d) => contains_seq(d, "zram"@),
        None => false,
    }
}

/// The line names a swap device that is not zram.
pub open spec fn is_disk_line(line: Seq<char>) -> bool {
    match swap_device(line) {
        Some(d) => !contains_seq(d, "zram"@),
        None => false,
    }
}

/// Some swap device after the header line is a zram device.
pub open spec fn has_zram_swap(lines: Seq<Seq<char>>) -> bool {
    exists|i: int| 1 <= i < lines.len() && #[trigger] is_zram_line(lines[i])
}

/// Some swap device after the header line is not a zram device.
pub open spec fn has_disk_swap(lines: Seq<Seq<char>>) -> bool {
    exists|i: int| 1 <= i < lines.len() && #[trigger] is_disk_line(lines[i])
}

/// Kinds of swap in use, from `/proc/swaps` content: (zram, disk).
fn detect_swap_type(swaps_content: &str) -> (r: (bool, bool))
    ensures
        r.0 == has_zram_swap(split_lines(swaps_content@)),
        r.1 == has_disk_swap(split_lines(swaps_content@)),
{
    let v = chars_of(swaps_content);
    let lines = lines_of(v.as_slice());
    let zram = chars_of("zram");
    let ghost ls = split_lines(swaps_content@);
    proof {
        lemma_split_lines_nonempty(swaps_content@);
        reveal_strlit("zram");
    }
    let mut has_zram = false;
    let mut has_disk = false;
    let mut i: usize = 1;
    while i < lines.len()
        invariant
            1 <= i <= lines@.len(),
            lines@.len() == ls.len(),
            forall|k: int| 0 <= k < lines@.len() ==> (#[trigger] lines@[k])@ == ls[k],
            zram@ == "zram"@,
            has_zram == exists|k: int| 1 <= k < i && #[trigger] is_zram_line(ls[k]),
            has_disk == exists|k: int| 1 <= k < i && #[trigger] is_disk_line(ls[k]),
        decreases lines.len() - i,
    {
        let t = trim_chars(lines[i].as_slice());
        let ghost line = ls[i as int];
        assert(lines@[i as int]@ == line);
        let ghost z = is_zram_line(line);
        let ghost d = is_disk_line(line);
        match first_word_chars(t.as_slice()) {
            Some(dev) => {
                if contains_chars(dev.as_slice(), zram.as_slice()) {
                    has_zram = true;
                } else {
                    has_disk = true;
                }
            },
            None => {},
        }
        proof {
            assert forall|k: int| 1 <= k < i + 1 && #[trigger] is_zram_line(ls[k]) implies has_zram by {
                if k < i {
                } else {
                    assert(k == i);
                }
            }
            assert forall|k: int| 1 <= k < i + 1 && #[trigger] is_disk_line(ls[k]) implies has_disk by {
                if k < i {
                } else {
                    assert(k == i);
                }
            }
            if z {
                assert(is_zram_line(ls[i as int]));
            }
            if d {
                assert(is_disk_line(ls[i as int]));
            }
        }
        i += 1;
    }
    (has_zram, has_disk)
}

pub open spec fn swap_desc_spec(has_zram: bool, has_disk: bool) -> Seq<char> {
    if has_zram && has_disk {
        "zram + disk"@
    } else if has_zram {
        "zram"@
    } else if has_disk {
        "disk swap"@
    } else {
        "none"@
    }
}

/// Build swap description string.
fn swap_desc(has_zram: bool, has_disk: bool) -> (r: String)
    ensures
        r@ == swap_desc_spec(has_zram, has_disk),
{
    if has_zram && has_disk {
        String::from_str("zram + disk")
    } else if has_zram {
        String::from_str("zram")
    } else if has_disk {
        String::from_str("disk swap")
    } else {
        String::from_str("none")
    }
}

// ---------------------------------------------------------------------------
// Putting it together
// ---------------------------------------------------------------------------

/// Collect memory info from `/proc/meminfo` content, optional `/proc/swaps` content, and
/// whether a zram block device exists.
pub fn collect_meminfo_from(meminfo_content: &str, swaps_content: Option<&str>, has_zram_block: bool) -> (info: MemInfo)
    requires
        meminfo_in_range(meminfo_content@),
    ensures
        ({
            let c = meminfo_content@;
            let total = meminfo_bytes_or(c, "MemTotal"@, 0);
            let available = match meminfo_kb(c, "MemAvailable"@) {
                Some(v) => (v * 1024) as nat,
                None => meminfo_bytes_or(c, "MemFree"@, 0),
            };
            let swap_total = meminfo_bytes_or(c, "SwapTotal"@, 0);
            let swap_free = meminfo_bytes_or(c, "SwapFree"@, 0);
            let zram = match swaps_content {
                Some(s) => has_zram_swap(split_lines(s@)),
                None => false,
            } || has_zram_block;
            let disk = match swaps_content {
                Some(s) => has_disk_swap(split_lines(s@)),
                None => false,
            };
            &&& info.total == total
            &&& info.available == available
            &&& info.used == if total >= available { total - available } else { 0 }
            &&& info.commit_as == meminfo_bytes_or(c, "Committed_AS"@, 0)
            &&& info.commit_limit == meminfo_bytes_or(c, "CommitLimit"@, total)
            &&& info.cached == meminfo_bytes_or(c, "Cached"@, 0) + meminfo_bytes_or(c, "Buffers"@, 0)
                + meminfo_bytes_or(c, "SReclaimable"@, 0)
            &&& info.swap_total == swap_total
            &&& info.swap_used == if swap_total >= swap_free { swap_total - swap_free } else { 0 }
            &&& info.swap_desc@ == swap_desc_spec(zram, disk)
            &&& info.cgroup is None
            &&& info.valid == (total > 0)
        }),
{
    let v = chars_of(meminfo_content);
    let lines = lines_of(v.as_slice());
    let ghost ls = split_lines(meminfo_content@);
    assert(line_views(lines@) =~= ls);
    assert forall|i: int| 0 <= i < lines@.len() implies #[trigger] entry_in_range(lines@[i]@) by {
        assert(lines@[i]@ == ls[i]);
    }
    let total = match lookup_bytes(&lines, "MemTotal") {
        Some(b) => b,
        None => 0,
    };
    let available = match lookup_bytes(&lines, "MemAvailable") {
        Some(b) => b,
        None => match lookup_bytes(&lines, "MemFree") {
            Some(b) => b,
            None => 0,
        },
    };
    let used = total.saturating_sub(available);
    let commit_as = match lookup_bytes(&lines, "Committed_AS") {
        Some(b) => b,
        None => 0,
    };
    let commit_limit = match lookup_bytes(&lines, "CommitLimit") {
        Some(b) => b,
        None => total,
    };
    let cached_part = match lookup_bytes(&lines, "Cached") {
        Some(b) => b,
        None => 0,
    };
    let buffers = match lookup_bytes(&lines, "Buffers") {
        Some(b) => b,
        None => 0,
    };
    let reclaimable = match lookup_bytes(&lines, "SReclaimable") {
        Some(b) => b,
        None => 0,
    };
    let cached = cached_part + buffers + reclaimable;
    let swap_total = match lookup_bytes(&lines, "SwapTotal") {
        Some(b) => b,
        None => 0,
    };
    let swap_free = match lookup_bytes(&lines, "SwapFree") {
        Some(b) => b,
        None => 0,
    };
    let swap_used = swap_total.saturating_sub(swap_free);
    let (mut has_zram, has_disk) = match swaps_content {
        Some(sc) => detect_swap_type(sc),
        None => (false, false),
    };
    if !has_zram && has_zram_block {
        has_zram = true;
    }
    MemInfo {
        total,
        available,
        used,
        commit_as,
        commit_limit,
        cached,
        swap_used,
        swap_total,
        swap_desc: swap_desc(has_zram, has_disk),
        cgroup: None,
        valid: total > 0,
    }
}

/// Some block device is a zram device (its name starts with "zram").
pub fn has_zram_device(names: &Vec<String>) -> (r: bool)
    ensures
        r == exists|i: int|
            0 <= i < names@.len() && (#[trigger] names@[i])@.len() >= 4 && names@[i]@.take(4) == "zram"@,
{
    let zram = chars_of("zram");
    proof {
        reveal_strlit("zram");
    }
    let mut i: usize = 0;
    while i < names.len()
        invariant
            i <= names@.len(),
            zram@ == "zram"@,
            forall|k: int|
                0 <= k < i ==> !((#[trigger] names@[k])@.len() >= 4 && names@[k]@.take(4) == "zram"@),
        decreases names.len() - i,
    {
        let v = chars_of(names[i].as_str());
        if v.len() >= 4 {
            let head = crate::text::slice_chars(v.as_slice(), 0, 4);
            assert(head@ =~= v@.take(4));
            if chars_eq(head.as_slice(), zram.as_slice()) {
                return true;
            }
        }
        i += 1;
    }
    false
}

/// Whether `collect_meminfo_from` can take this content: every recorded value converts
/// to bytes within 64 bits, and so does the cache sum.
pub fn meminfo_fits(content: &str) -> (r: bool)
    ensures
        r == meminfo_in_range(content@),
{
    let v = chars_of(content);
    let lines = lines_of(v.as_slice());
    let ghost ls = split_lines(content@);
    assert(line_views(lines@) =~= ls);
    let mut i: usize = 0;
    while i < lines.len()
        invariant
            i <= lines@.len(),
            lines@.len() == ls.len(),
            ls == split_lines(content@),
            forall|k: int| 0 <= k < lines@.len() ==> (#[trigger] lines@[k])@ == ls[k],
            forall|k: int| 0 <= k < i ==> #[trigger] entry_in_range(ls[k]),
        decreases lines.len() - i,
    {
        match meminfo_entry_exec(lines[i].as_slice()) {
            Some(e) => {
                if e.1 > 0x3F_FFFF_FFFF_FFFF {
                    assert(!entry_in_range(ls[i as int]));
                    return false;
                }
            },
            None => {},
        }
        i += 1;
    }
    assert forall|k: int| 0 <= k < ls.len() implies #[trigger] entry_in_range(ls[k]) by {}
    assert forall|k: int| 0 <= k < lines@.len() implies #[trigger] entry_in_range(lines@[k]@) by {
        assert(lines@[k]@ == ls[k]);
    }
    let c: u128 = match lookup_bytes(&lines, "Cached") {
        Some(b) => b as u128,
        None => 0,
    };
    let b: u128 = match lookup_bytes(&lines, "Buffers") {
        Some(x) => x as u128,
        None => 0,
    };
    let s: u128 = match lookup_bytes(&lines, "SReclaimable") {
        Some(x) => x as u128,
        None => 0,
    };
    c + b + s <= 0xFFFF_FFFF_FFFF_FFFF
}

/// A looked-up value is one of the recorded values.
proof fn lemma_lookup_in_range(lines: Seq<Seq<char>>, key: Seq<char>)
    requires
        forall|i: int| 0 <= i < lines.len() ==> #[trigger] entry_in_range(lines[i]),
    ensures
        lookup_in_range(lines, key),
    decreases lines.len(),
{
    if lines.len() > 0 {
        let dl = lines.drop_last();
        assert forall|i: int| 0 <= i < dl.len() implies #[trigger] entry_in_range(dl[i]) by {
            assert(dl[i] == lines[i]);
        }
        lemma_lookup_in_range(dl, key);
        assert(entry_in_range(lines[lines.len() - 1]));
    }
}

/// A line gives no value for `key` when it records another key (or none).
pub open spec fn other_key(line: Seq<char>, key: Seq<char>) -> bool {
    match meminfo_entry(line) {
        Some(e) => e.0 != key,
        None => true,
    }
}

/// Looking a key up only ever takes a line whose trimmed key is exactly that key:
/// appending a line that records another key (such as "SwapCached" when looking up
/// "Cached") leaves the result unchanged, and appending one that records the key gives
/// its value.
pub proof fn law_meminfo_exact_key(lines: Seq<Seq<char>>, line: Seq<char>, key: Seq<char>)
    ensures
        other_key(line, key) ==> meminfo_lookup(lines.push(line), key) == meminfo_lookup(lines, key),
        forall|v: u64| #[trigger] meminfo_entry(line) == Some((key, v)) ==> meminfo_lookup(lines.push(line), key) == Some(v),
{
    assert(lines.push(line).drop_last() =~= lines);
}

/// The value found for `key` is that of the last line whose key is exactly `key`;
/// there is none exactly when no line records `key`.
pub proof fn law_meminfo_last_exact(lines: Seq<Seq<char>>, key: Seq<char>)
    ensures
        meminfo_lookup(lines, key) matches Some(v) ==> exists|i: int|
            0 <= i < lines.len() && #[trigger] meminfo_entry(lines[i]) == Some((key, v)) && forall|j: int|
                i < j < lines.len() ==> other_key(#[trigger] lines[j], key),
        meminfo_lookup(lines, key) is None ==> forall|i: int| 0 <= i < lines.len() ==> other_key(#[trigger] lines[i], key),
    decreases lines.len(),
{
    if lines.len() > 0 {
        let d = lines.drop_last();
        law_meminfo_last_exact(d, key);
        let n = lines.len() - 1;
        assert(lines[n] == lines.last());
        assert forall|i: int| 0 <= i < d.len() implies lines[i] == #[trigger] d[i] by {}
        match meminfo_entry(lines.last()) {
            Some(e) => {
                if e.0 == key {
                    assert(meminfo_entry(lines[n]) == Some((key, e.1)));
                } else {
                    if let Some(v) = meminfo_lookup(d, key) {
                        let i = choose|i: int|
                            0 <= i < d.len() && #[trigger] meminfo_entry(d[i]) == Some((key, v)) && forall|j: int|
                                i < j < d.len() ==> other_key(#[trigger] d[j], key);
                        assert(meminfo_entry(lines[i]) == Some((key, v)));
                        assert forall|j: int| i < j < lines.len() implies other_key(#[trigger] lines[j], key) by {
                            if j < n {
                                assert(lines[j] == d[j]);
                            }
                        }
                    } else {
                        assert forall|i: int| 0 <= i < lines.len() implies other_key(#[trigger] lines[i], key) by {
                            if i < n {
                                assert(lines[i] == d[i]);
                            }
                        }
                    }
                }
            },
            None => {
                if let Some(v) = meminfo_lookup(d, key) {
                    let i = choose|i: int|
                        0 <= i < d.len() && #[trigger] meminfo_entry(d[i]) == Some((key, v)) && forall|j: int|
                            i < j < d.len() ==> other_key(#[trigger] d[j], key);
                    assert(meminfo_entry(lines[i]) == Some((key, v)));
                    assert forall|j: int| i < j < lines.len() implies other_key(#[trigger] lines[j], key) by {
                        if j < n {
                            assert(lines[j] == d[j]);
                        }
                    }
                } else {
                    assert forall|i: int| 0 <= i < lines.len() implies other_key(#[trigger] lines[i], key) by {
                        if i < n {
                            assert(lines[i] == d[i]);
                        }
                    }
                }
            },
        }
    }
}

} // verus!
