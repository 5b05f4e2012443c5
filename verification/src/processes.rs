//! The process table: samples of running processes grouped by name (or listed one by
//! one), enriched with PSS / USS for the leading candidates, and ranked by a metric.

use vstd::prelude::*;
use crate::procfs::{opt_str, pid_number, process_name_from, process_name_spec, statm_rss_spec};
use crate::sorting::{
    asymmetric, insert_ordered, insert_position, is_ordered, lemma_insert_position,
    lemma_sort_ordered_is_ordered, lemma_sort_ordered_permutes, sort_ordered,
};
use crate::text::{
    chars_eq, chars_lt, chars_of, lemma_lex_lt_strict, lemma_lex_lt_trans, lex_lt, push_str, parse_u64,
};

verus! {

/// Metric by which process list can be sorted.
#[derive(Debug, Clone, Copy, PartialEq, Eq, Structural)]
pub enum SortMetric {
    Rss,
    Pss,
    Uss,
    Name,
}

impl Default for SortMetric {
    /// Resident set size.
    fn default() -> (r: Self)
        ensures
            r == SortMetric::Rss,
    {
        SortMetric::Rss
    }
}

/// Detailed info for a single process child instance in a group.
#[derive(Debug, Clone, PartialEq, Eq)]
pub struct ProcessChild {
    pub pid: u32,
    pub name: String,
    pub rss: u64,
    pub pss: Option<u64>,
    pub uss: Option<u64>,
}

/// Represents a single process or grouped process entry with RSS, PSS, and USS.
#[derive(Debug, Clone, PartialEq, Eq)]
pub struct ProcessInfo {
    pub name: String,
    /// Resident Set Size in bytes
    pub rss: u64,
    /// Proportional Set Size in bytes (from smaps_rollup)
    pub pss: Option<u64>,
    /// Unique / Private Set Size in bytes (from smaps_rollup)
    pub uss: Option<u64>,
    pub count: u32,
    pub pid: Option<u32>,
    pub children: Vec<ProcessChild>,
}

/// One process as read from `/proc`: its directory name, pid, display name and
/// resident bytes.
#[derive(Debug, Clone, PartialEq, Eq)]
pub struct ProcessSample {
    pub pid_name: String,
    pub pid: u32,
    pub name: String,
    pub rss: u64,
}

pub ghost struct ChildView {
    pub pid: u32,
    pub name: Seq<char>,
    pub rss: u64,
    pub pss: Option<u64>,
    pub uss: Option<u64>,
}

pub ghost struct ProcView {
    pub name: Seq<char>,
    pub rss: u64,
    pub pss: Option<u64>,
    pub uss: Option<u64>,
    pub count: u32,
    pub pid: Option<u32>,
    pub children: Seq<ChildView>,
}

pub ghost struct SampleView {
    pub pid_name: Seq<char>,
    pub pid: u32,
    pub name: Seq<char>,
    pub rss: u64,
}

impl View for ProcessChild {
    type V = ChildView;

    open spec fn view(&self) -> ChildView {
        ChildView { pid: self.pid, name: self.name@, rss: self.rss, pss: self.pss, uss: self.uss }
    }
}

pub open spec fn child_views(s: Seq<ProcessChild>) -> Seq<ChildView> {
    s.map_values(|c: ProcessChild| c@)
}

impl View for ProcessInfo {
    type V = ProcView;

    open spec fn view(&self) -> ProcView {
        ProcView {
            name: self.name@,
            rss: self.rss,
            pss: self.pss,
            uss: self.uss,
            count: self.count,
            pid: self.pid,
            children: child_views(self.children@),
        }
    }
}

pub open spec fn proc_views(s: Seq<ProcessInfo>) -> Seq<ProcView> {
    s.map_values(|p: ProcessInfo| p@)
}

impl View for ProcessSample {
    type V = SampleView;

    open spec fn view(&self) -> SampleView {
        SampleView { pid_name: self.pid_name@, pid: self.pid, name: self.name@, rss: self.rss }
    }
}

pub open spec fn sample_views(s: Seq<ProcessSample>) -> Seq<SampleView> {
    s.map_values(|p: ProcessSample| p@)
}

// ---------------------------------------------------------------------------
// Samples
// ---------------------------------------------------------------------------

/// The sample a `/proc/<pid>` directory gives: none unless its `statm` yields a
/// resident size; the name from `comm` / `cmdline`, else "PID <pid>".
pub open spec fn sample_spec(
    pid_name: Seq<char>,
    statm: Option<Seq<char>>,
    comm: Option<Seq<char>>,
    cmdline: Option<Seq<char>>,
    page_size: u64,
) -> Option<SampleView> {
    match statm {
        Some(c) => match statm_rss_spec(c, page_size) {
            Some(rss) => Some(
                SampleView {
                    pid_name,
                    pid: pid_number(pid_name),
                    name: match process_name_spec(comm, cmdline) {
                        Some(n) => n,
                        None => "PID "@ + pid_name,
                    },
                    rss,
                },
            ),
            None => None,
        },
        None => None,
    }
}

/// The sample for one `/proc/<pid>` directory from the contents of its `statm`,
/// `comm` and `cmdline` files (`None`: unreadable).
pub fn process_sample(
    pid_name: &str,
    statm: Option<&str>,
    comm: Option<&str>,
    cmdline: Option<&str>,
    page_size: u64,
) -> (r: Option<ProcessSample>)
    ensures
        r matches Some(s) ==> sample_spec(
            pid_name@,
            opt_str(statm),
            opt_str(comm),
            opt_str(cmdline),
            page_size,
        ) == Some(s@),
        r is None ==> sample_spec(
            pid_name@,
            opt_str(statm),
            opt_str(comm),
            opt_str(cmdline),
            page_size,
        ) is None,
{
    let rss = match statm {
        Some(c) => match crate::procfs::parse_statm_rss(c, page_size) {
            Some(r) => r,
            None => return None,
        },
        None => return None,
    };
    let name = match process_name_from(comm, cmdline) {
        Some(n) => n,
        None => {
            let mut n = String::from_str("PID ");
            push_str(&mut n, pid_name);
            proof {
                reveal_strlit("PID ");
            }
            n
        },
    };
    let pid = crate::procfs::parse_pid(pid_name);
    Some(ProcessSample { pid_name: String::from_str(pid_name), pid, name, rss })
}

// ---------------------------------------------------------------------------
// Orders
// ---------------------------------------------------------------------------

/// `a + b`, or `u64::MAX` when that overflows.
pub open spec fn sat_add(a: u64, b: u64) -> u64 {
    if a + b > u64::MAX {
        u64::MAX
    } else {
        (a + b) as u64
    }
}

/// The figure a metric ranks by (PSS / USS fall back to RSS where unknown).
pub open spec fn metric_key(p: ProcView, m: SortMetric) -> u64 {
    match m {
        SortMetric::Rss => p.rss,
        SortMetric::Pss => match p.pss {
            Some(v) => v,
            None => p.rss,
        },
        SortMetric::Uss => match p.uss {
            Some(v) => v,
            None => p.rss,
        },
        SortMetric::Name => 0,
    }
}

pub open spec fn pid_key(p: ProcView) -> u32 {
    match p.pid {
        Some(v) => v,
        None => 0,
    }
}

/// `a` ranks strictly before `b`: larger metric figure first (names alphabetically for
/// the name metric), then by name, then by smaller pid.
pub open spec fn ranks_before(a: ProcView, b: ProcView, m: SortMetric) -> bool {
    if metric_key(a, m) != metric_key(b, m) {
        metric_key(a, m) > metric_key(b, m)
    } else if a.name != b.name {
        lex_lt(a.name, b.name)
    } else {
        pid_key(a) < pid_key(b)
    }
}

pub open spec fn proc_order(m: SortMetric) -> spec_fn(ProcView, ProcView) -> bool {
    |a: ProcView, b: ProcView| ranks_before(a, b, m)
}

/// Children rank by resident size, largest first.
pub open spec fn child_order() -> spec_fn(ChildView, ChildView) -> bool {
    |a: ChildView, b: ChildView| a.rss > b.rss
}

pub proof fn lemma_orders_asymmetric(m: SortMetric)
    ensures
        asymmetric(proc_order(m)),
        asymmetric(child_order()),
{
    assert forall|a: ProcView, b: ProcView| #[trigger] proc_order(m)(a, b) implies !proc_order(m)(
        b,
        a,
    ) by {
        lemma_lex_lt_strict(a.name, b.name);
    }
}

/// Not ranking before is transitive: the ranking is a strict weak order.
pub proof fn lemma_rank_le_trans(a: ProcView, b: ProcView, c: ProcView, m: SortMetric)
    requires
        !ranks_before(b, a, m),
        !ranks_before(c, b, m),
    ensures
        !ranks_before(c, a, m),
{
    lemma_lex_lt_strict(a.name, b.name);
    lemma_lex_lt_strict(b.name, c.name);
    lemma_lex_lt_strict(a.name, c.name);
    if lex_lt(c.name, b.name) && lex_lt(b.name, a.name) {
        lemma_lex_lt_trans(c.name, b.name, a.name);
    }
    if lex_lt(a.name, b.name) && lex_lt(b.name, c.name) {
        lemma_lex_lt_trans(a.name, b.name, c.name);
    }
}

/// In a sequence sorted by the ranking, no later entry ranks before an earlier one.
pub proof fn lemma_sorted_pairwise(s: Seq<ProcView>, m: SortMetric, i: int, j: int)
    requires
        is_ordered(s, proc_order(m)),
        0 <= i < j < s.len(),
    ensures
        !ranks_before(s[j], s[i], m),
    decreases j - i,
{
    let k = j - 1;
    assert(!proc_order(m)(s[k + 1], s[k]));
    assert(s[k + 1] == s[j]);
    if i < j - 1 {
        lemma_sorted_pairwise(s, m, i, j - 1);
        lemma_rank_le_trans(s[i], s[j - 1], s[j], m);
    } else {
        assert(j - 1 == i);
    }
}

fn metric_key_exec(p: &ProcessInfo, m: SortMetric) -> (r: u64)
    ensures
        r == metric_key(p@, m),
{
    match m {
        SortMetric::Rss => p.rss,
        SortMetric::Pss => match p.pss {
            Some(v) => v,
            None => p.rss,
        },
        SortMetric::Uss => match p.uss {
            Some(v) => v,
            None => p.rss,
        },
        SortMetric::Name => 0,
    }
}

fn ranks_before_exec(a: &ProcessInfo, b: &ProcessInfo, m: SortMetric) -> (r: bool)
    ensures
        r == ranks_before(a@, b@, m),
{
    let ka = metric_key_exec(a, m);
    let kb = metric_key_exec(b, m);
    if ka != kb {
        return ka > kb;
    }
    if !(a.name == b.name) {
        let av = chars_of(a.name.as_str());
        let bv = chars_of(b.name.as_str());
        return chars_lt(av.as_slice(), bv.as_slice());
    }
    let pa: u32 = match a.pid {
        Some(v) => v,
        None => 0,
    };
    let pb: u32 = match b.pid {
        Some(v) => v,
        None => 0,
    };
    pa < pb
}

// ---------------------------------------------------------------------------
// Sorting
// ---------------------------------------------------------------------------

/// Children stably sorted by resident size, largest first.
fn sort_children(v: Vec<ProcessChild>) -> (r: Vec<ProcessChild>)
    ensures
        child_views(r@) == sort_ordered(child_views(v@), child_order()),
{
    let ghost orig = child_views(v@);
    let mut src = v;
    let mut out: Vec<ProcessChild> = Vec::new();
    let ghost mut i: int = 0;
    assert(orig.skip(0) =~= orig);
    assert(orig.take(0) =~= Seq::<ChildView>::empty());
    while src.len() > 0
        invariant
            0 <= i <= orig.len(),
            src@.len() + i == orig.len(),
            child_views(src@) == orig.skip(i),
            child_views(out@) == sort_ordered(orig.take(i), child_order()),
        decreases src.len(),
    {
        let ghost before_src = src@;
        let x = src.remove(0);
        let ghost s = child_views(out@);
        assert(child_views(before_src)[0] == orig.skip(i)[0]);
        assert(x@ == orig[i]);
        let mut k: usize = 0;
        while k < out.len() && !(x.rss > out[k].rss)
            invariant
                k <= out@.len(),
                s == child_views(out@),
                forall|j: int| 0 <= j < k ==> !child_order()(x@, #[trigger] s[j]),
            decreases out.len() - k,
        {
            k += 1;
        }
        proof {
            lemma_insert_position(s, x@, child_order());
            let p = insert_position(s, x@, child_order());
            if (k as int) < p {
                assert(child_order()(x@, s[k as int]));
            }
            if p < (k as int) {
                assert(!child_order()(x@, s[p]));
            }
            assert(orig.take(i + 1).drop_last() =~= orig.take(i));
            assert(orig.take(i + 1).last() == orig[i]);
        }
        out.insert(k, x);
        proof {
            assert(child_views(out@) =~= s.insert(k as int, x@));
            assert forall|k: int| 0 <= k < src@.len() implies #[trigger] child_views(src@)[k]
                == orig.skip(i + 1)[k] by {
                assert(src@[k] == before_src[k + 1]);
                assert(child_views(before_src)[k + 1] == orig.skip(i)[k + 1]);
            }
            assert(child_views(src@) =~= orig.skip(i + 1));
            i = i + 1;
        }
    }
    assert(orig.take(i) =~= orig);
    out
}

/// The entries stably sorted so that none ranks before the one ahead of it.
pub(crate) fn sort_processes(v: Vec<ProcessInfo>, m: SortMetric) -> (r: Vec<ProcessInfo>)
    ensures
        proc_views(r@) == sort_ordered(proc_views(v@), proc_order(m)),
{
    let ghost orig = proc_views(v@);
    let mut src = v;
    let mut out: Vec<ProcessInfo> = Vec::new();
    let ghost mut i: int = 0;
    assert(orig.skip(0) =~= orig);
    assert(orig.take(0) =~= Seq::<ProcView>::empty());
    while src.len() > 0
        invariant
            0 <= i <= orig.len(),
            src@.len() + i == orig.len(),
            proc_views(src@) == orig.skip(i),
            proc_views(out@) == sort_ordered(orig.take(i), proc_order(m)),
        decreases src.len(),
    {
        let ghost before_src = src@;
        let x = src.remove(0);
        let ghost s = proc_views(out@);
        assert(proc_views(before_src)[0] == orig.skip(i)[0]);
        assert(x@ == orig[i]);
        let mut k: usize = 0;
        while k < out.len() && !ranks_before_exec(&x, &out[k], m)
            invariant
                k <= out@.len(),
                s == proc_views(out@),
                forall|j: int| 0 <= j < k ==> !proc_order(m)(x@, #[trigger] s[j]),
            decreases out.len() - k,
        {
            k += 1;
        }
        proof {
            lemma_insert_position(s, x@, proc_order(m));
            let p = insert_position(s, x@, proc_order(m));
            if (k as int) < p {
                assert(proc_order(m)(x@, s[k as int]));
            }
            if p < (k as int) {
                assert(!proc_order(m)(x@, s[p]));
            }
            assert(orig.take(i + 1).drop_last() =~= orig.take(i));
            assert(orig.take(i + 1).last() == orig[i]);
        }
        out.insert(k, x);
        proof {
            assert(proc_views(out@) =~= s.insert(k as int, x@));
            assert forall|k: int| 0 <= k < src@.len() implies #[trigger] proc_views(src@)[k]
                == orig.skip(i + 1)[k] by {
                assert(src@[k] == before_src[k + 1]);
                assert(proc_views(before_src)[k + 1] == orig.skip(i)[k + 1]);
            }
            assert(proc_views(src@) =~= orig.skip(i + 1));
            i = i + 1;
        }
    }
    assert(orig.take(i) =~= orig);
    out
}

// ---------------------------------------------------------------------------
// Grouping
// ---------------------------------------------------------------------------

pub open spec fn child_of(s: SampleView) -> ChildView {
    ChildView { pid: s.pid, name: s.name, rss: s.rss, pss: None, uss: None }
}

/// One sample as an entry of its own, labelled "<name> [<pid>]".
pub open spec fn single_of(s: SampleView) -> ProcView {
    ProcView {
        name: s.name + " ["@ + s.pid_name + "]"@,
        rss: s.rss,
        pss: None,
        uss: None,
        count: 1,
        pid: Some(s.pid),
        children: Seq::<ChildView>::empty(),
    }
}

/// A new group holding one sample.
pub open spec fn new_group(s: SampleView) -> ProcView {
    ProcView {
        name: s.name,
        rss: s.rss,
        pss: None,
        uss: None,
        count: 1,
        pid: None,
        children: seq![child_of(s)],
    }
}

/// A group with one more sample: resident bytes added (saturating), count up by one,
/// the sample appended as a child.
pub open spec fn add_to_group(g: ProcView, s: SampleView) -> ProcView {
    ProcView {
        rss: sat_add(g.rss, s.rss),
        count: (g.count + 1) as u32,
        children: g.children.push(child_of(s)),
        ..g
    }
}

/// Index of the group named `name`, or -1.
pub open spec fn group_index(groups: Seq<ProcView>, name: Seq<char>) -> int
    decreases groups.len(),
{
    if groups.len() == 0 {
        -1
    } else if group_index(groups.drop_last(), name) >= 0 {
        group_index(groups.drop_last(), name)
    } else if groups.last().name == name {
        groups.len() - 1
    } else {
        -1
    }
}

/// Samples grouped by name, groups in order of first appearance.
pub open spec fn group_samples(samples: Seq<SampleView>) -> Seq<ProcView>
    decreases samples.len(),
{
    if samples.len() == 0 {
        Seq::<ProcView>::empty()
    } else {
        let gs = group_samples(samples.drop_last());
        let s = samples.last();
        let k = group_index(gs, s.name);
        if k >= 0 {
            gs.update(k, add_to_group(gs[k], s))
        } else {
            gs.push(new_group(s))
        }
    }
}

pub open spec fn with_sorted_children(g: ProcView) -> ProcView {
    ProcView { children: sort_ordered(g.children, child_order()), ..g }
}

/// The entries before ranking: one per name (children by resident size, largest
/// first) when grouping, else one per sample.
pub open spec fn listed(samples: Seq<SampleView>, group_by_name: bool) -> Seq<ProcView> {
    if group_by_name {
        group_samples(samples).map_values(|g: ProcView| with_sorted_children(g))
    } else {
        samples.map_values(|s: SampleView| single_of(s))
    }
}

/// The process list before enrichment: the listed entries ranked by resident size
/// (then name, then pid).
pub open spec fn build_spec(samples: Seq<SampleView>, group_by_name: bool) -> Seq<ProcView> {
    sort_ordered(listed(samples, group_by_name), proc_order(SortMetric::Rss))
}

pub proof fn lemma_group_index(groups: Seq<ProcView>, name: Seq<char>)
    ensures
        -1 <= group_index(groups, name) < groups.len(),
        group_index(groups, name) >= 0 ==> groups[group_index(groups, name)].name == name,
        forall|j: int|
            0 <= j < groups.len() && (group_index(groups, name) < 0 || j < group_index(
                groups,
                name,
            )) ==> (#[trigger] groups[j]).name != name,
    decreases groups.len(),
{
    if groups.len() > 0 {
        let d = groups.drop_last();
        lemma_group_index(d, name);
        assert forall|j: int|
            0 <= j < groups.len() && (group_index(groups, name) < 0 || j < group_index(
                groups,
                name,
            )) implies (#[trigger] groups[j]).name != name by {
            if j < groups.len() - 1 {
                assert(groups[j] == d[j]);
            }
        }
    }
}

/// Each group counts at most as many samples as there are.
pub proof fn lemma_group_counts(samples: Seq<SampleView>)
    ensures
        forall|k: int|
            0 <= k < group_samples(samples).len() ==> #[trigger] group_samples(samples)[k].count
                <= samples.len(),
        group_samples(samples).len() <= samples.len(),
    decreases samples.len(),
{
    if samples.len() > 0 {
        lemma_group_counts(samples.drop_last());
        lemma_group_index(group_samples(samples.drop_last()), samples.last().name);
    }
}

fn sat_add_exec(a: u64, b: u64) -> (r: u64)
    ensures
        r == sat_add(a, b),
{
    a.saturating_add(b)
}

fn group_by_name(samples: &Vec<ProcessSample>) -> (r: Vec<ProcessInfo>)
    requires
        samples@.len() <= u32::MAX,
    ensures
        proc_views(r@) == group_samples(sample_views(samples@)),
{
    let ghost all = sample_views(samples@);
    let mut groups: Vec<ProcessInfo> = Vec::new();
    let mut names: Vec<Vec<char>> = Vec::new();
    let mut i: usize = 0;
    assert(all.take(0) =~= Seq::<SampleView>::empty());
    while i < samples.len()
        invariant
            i <= samples@.len() <= u32::MAX,
            all == sample_views(samples@),
            proc_views(groups@) == group_samples(all.take(i as int)),
            names@.len() == groups@.len(),
            forall|k: int| 0 <= k < names@.len() ==> (#[trigger] names@[k])@ == groups@[k].name@,
        decreases samples.len() - i,
    {
        let ghost gs = group_samples(all.take(i as int));
        let ghost sv = all[i as int];
        proof {
            assert(all.take(i + 1).drop_last() =~= all.take(i as int));
            assert(all.take(i + 1).last() == sv);
            assert(sv == samples@[i as int]@);
            lemma_group_index(gs, sv.name);
            lemma_group_counts(all.take(i as int));
        }
        let smp = &samples[i];
        let name = chars_of(smp.name.as_str());
        let mut k: usize = 0;
        while k < names.len() && !chars_eq(names[k].as_slice(), name.as_slice())
            invariant
                k <= names@.len(),
                names@.len() == groups@.len(),
                gs == proc_views(groups@),
                name@ == sv.name,
                forall|j: int| 0 <= j < names@.len() ==> (#[trigger] names@[j])@ == groups@[j].name@,
                forall|j: int| 0 <= j < k ==> (#[trigger] gs[j]).name != sv.name,
            decreases names.len() - k,
        {
            assert(gs[k as int].name == groups@[k as int].name@);
            k += 1;
        }
        let child = ProcessChild {
            pid: smp.pid,
            name: smp.name.clone(),
            rss: smp.rss,
            pss: None,
            uss: None,
        };
        assert(child@ == child_of(sv));
        if k < names.len() {
            proof {
                assert(gs[k as int].name == sv.name);
                let gi = group_index(gs, sv.name);
                if gi < k {
                    assert(gs[gi].name == sv.name);
                }
                assert(group_index(gs, sv.name) == k);
                assert(gs[k as int].count <= i);
            }
            let mut g = groups.remove(k);
            let ghost g_before = g@;
            g.rss = sat_add_exec(g.rss, smp.rss);
            g.count = g.count + 1;
            g.children.push(child);
            proof {
                assert(child_views(g.children@) =~= g_before.children.push(child_of(sv)));
                assert(g@ == add_to_group(g_before, sv));
            }
            groups.insert(k, g);
            proof {
                assert(proc_views(groups@) =~= gs.update(k as int, add_to_group(gs[k as int], sv)));
            }
        } else {
            proof {
                assert(group_index(gs, sv.name) < 0);
            }
            let mut children: Vec<ProcessChild> = Vec::new();
            children.push(child);
            let g = ProcessInfo {
                name: smp.name.clone(),
                rss: smp.rss,
                pss: None,
                uss: None,
                count: 1,
                pid: None,
                children,
            };
            proof {
                assert(child_views(g.children@) =~= seq![child_of(sv)]);
                assert(g@ == new_group(sv));
            }
            groups.push(g);
            names.push(name);
            proof {
                assert(proc_views(groups@) =~= gs.push(new_group(sv)));
            }
        }
        i += 1;
    }
    assert(all.take(samples.len() as int) =~= all);
    groups
}

/// Builds the process list from samples: grouped by name (children ordered by resident
/// size, largest first) or one entry per process, ranked by resident size, then name,
/// then pid.
pub fn build_process_list(samples: Vec<ProcessSample>, group_by_name: bool) -> (r: Vec<
    ProcessInfo,
>)
    requires
        samples@.len() <= u32::MAX,
    ensures
        proc_views(r@) == build_spec(sample_views(samples@), group_by_name),
{
    let ghost all = sample_views(samples@);
    let mut list: Vec<ProcessInfo> = Vec::new();
    if group_by_name {
        let mut groups = crate::processes::group_by_name(&samples);
        let ghost gs = proc_views(groups@);
        let ghost mut taken: int = 0;
        while groups.len() > 0
            invariant
                0 <= taken <= gs.len(),
                groups@.len() + taken == gs.len(),
                proc_views(groups@) == gs.skip(taken),
                proc_views(list@) == gs.take(taken).map_values(|g: ProcView| with_sorted_children(g)),
            decreases groups.len(),
        {
            let ghost before = groups@;
            let mut g = groups.remove(0);
            assert(proc_views(before)[0] == gs.skip(taken)[0]);
            let ghost gv = g@;
            let mut kids: Vec<ProcessChild> = Vec::new();
            std::mem::swap(&mut kids, &mut g.children);
            let sorted = sort_children(kids);
            g.children = sorted;
            proof {
                assert(g@ == with_sorted_children(gv));
                assert(gs.take(taken + 1).map_values(|g: ProcView| with_sorted_children(g)) =~= gs.take(
                    taken,
                ).map_values(|g: ProcView| with_sorted_children(g)).push(with_sorted_children(gs[taken])));
            }
            list.push(g);
            proof {
                assert forall|k: int| 0 <= k < groups@.len() implies #[trigger] proc_views(groups@)[k]
                    == gs.skip(taken + 1)[k] by {
                    assert(groups@[k] == before[k + 1]);
                    assert(proc_views(before)[k + 1] == gs.skip(taken)[k + 1]);
                }
                assert(proc_views(groups@) =~= gs.skip(taken + 1));
                assert(proc_views(list@) =~= gs.take(taken + 1).map_values(
                    |g: ProcView| with_sorted_children(g),
                ));
                taken = taken + 1;
            }
        }
        assert(gs.take(taken) =~= gs);
    } else {
        let mut i: usize = 0;
        while i < samples.len()
            invariant
                i <= samples@.len(),
                all == sample_views(samples@),
                proc_views(list@) == all.take(i as int).map_values(|s: SampleView| single_of(s)),
            decreases samples.len() - i,
        {
            let smp = &samples[i];
            let mut label = smp.name.clone();
            push_str(&mut label, " [");
            push_str(&mut label, smp.pid_name.as_str());
            push_str(&mut label, "]");
            let p = ProcessInfo {
                name: label,
                rss: smp.rss,
                pss: None,
                uss: None,
                count: 1,
                pid: Some(smp.pid),
                children: Vec::new(),
            };
            proof {
                assert(all[i as int] == smp@);
                assert(child_views(p.children@) =~= Seq::<ChildView>::empty());
                assert(p@ == single_of(smp@));
                assert(all.take(i + 1).map_values(|s: SampleView| single_of(s)) =~= all.take(
                    i as int,
                ).map_values(|s: SampleView| single_of(s)).push(single_of(all[i as int])));
            }
            list.push(p);
            proof {
                assert(proc_views(list@) =~= all.take(i + 1).map_values(
                    |s: SampleView| single_of(s),
                ));
            }
            i += 1;
        }
        assert(all.take(samples.len() as int) =~= all);
    }
    sort_processes(list, SortMetric::Rss)
}

// ---------------------------------------------------------------------------
// PSS / USS enrichment
// ---------------------------------------------------------------------------

/// How many leading entries get PSS / USS: all of them when ranking by PSS or USS (so
/// the leader is exact), else three times the limit, at least 24, at most all.
pub open spec fn enrichment_count_spec(len: nat, limit: nat, m: SortMetric) -> nat {
    if m == SortMetric::Pss || m == SortMetric::Uss {
        len
    } else {
        let c = if limit * 3 > 24 {
            limit * 3
        } else {
            24
        };
        if c < len {
            c
        } else {
            len
        }
    }
}

/// Number of leading (resident-size ranked) entries to enrich with PSS / USS.
pub fn enrichment_count(len: usize, limit: usize, metric: SortMetric) -> (r: usize)
    requires
        metric == SortMetric::Pss || metric == SortMetric::Uss || limit * 3 <= usize::MAX,
    ensures
        r == enrichment_count_spec(len as nat, limit as nat, metric),
{
    if metric == SortMetric::Pss || metric == SortMetric::Uss {
        len
    } else {
        let c = if limit * 3 > 24 {
            limit * 3
        } else {
            24
        };
        if c < len {
            c
        } else {
            len
        }
    }
}

/// The pids whose `smaps_rollup` an entry needs: its children's when grouping, else its own.
pub open spec fn rollup_pids(p: ProcView, group_by_name: bool) -> Seq<u32> {
    if group_by_name {
        p.children.map_values(|c: ChildView| c.pid)
    } else {
        match p.pid {
            Some(x) => seq![x],
            None => Seq::<u32>::empty(),
        }
    }
}

/// For each entry to enrich (see `enrichment_count`), in order, the pids whose
/// `smaps_rollup` it needs.
pub fn enrichment_pids(procs: &Vec<ProcessInfo>, group_by_name: bool, limit: usize, metric: SortMetric) -> (r: Vec<
    Vec<u32>,
>)
    requires
        metric == SortMetric::Pss || metric == SortMetric::Uss || limit * 3 <= usize::MAX,
    ensures
        r@.len() == enrichment_count_spec(procs@.len() as nat, limit as nat, metric),
        forall|i: int| 0 <= i < r@.len() ==> (#[trigger] r@[i])@ == rollup_pids(procs@[i]@, group_by_name),
{
    let count = enrichment_count(procs.len(), limit, metric);
    let mut out: Vec<Vec<u32>> = Vec::new();
    let mut i: usize = 0;
    while i < count
        invariant
            i <= count <= procs@.len(),
            out@.len() == i,
            forall|k: int| 0 <= k < i ==> (#[trigger] out@[k])@ == rollup_pids(procs@[k]@, group_by_name),
        decreases count - i,
    {
        let p = &procs[i];
        let mut pids: Vec<u32> = Vec::new();
        if group_by_name {
            let mut j: usize = 0;
            while j < p.children.len()
                invariant
                    j <= p.children@.len(),
                    pids@ == child_views(p.children@).take(j as int).map_values(|c: ChildView| c.pid),
                decreases p.children.len() - j,
            {
                pids.push(p.children[j].pid);
                proof {
                    assert(child_views(p.children@).take(j + 1).map_values(|c: ChildView| c.pid)
                        =~= child_views(p.children@).take(j as int).map_values(|c: ChildView| c.pid).push(
                        p.children@[j as int].pid,
                    ));
                }
                j += 1;
            }
            assert(child_views(p.children@).take(p.children@.len() as int) =~= child_views(p.children@));
        } else {
            match p.pid {
                Some(x) => pids.push(x),
                None => {},
            }
            assert(pids@ =~= rollup_pids(p@, group_by_name));
        }
        out.push(pids);
        i += 1;
    }
    out
}

/// A child with the PSS / USS its `smaps_rollup` gave, if it gave any.
pub open spec fn with_rollup(c: ChildView, r: Option<(u64, u64)>) -> ChildView {
    match r {
        Some(pu) => ChildView { pss: Some(pu.0), uss: Some(pu.1), ..c },
        None => c,
    }
}

/// Sum of the PSS (or, with `uss`, the USS) figures present.
pub open spec fn rollup_sum(rs: Seq<Option<(u64, u64)>>, uss: bool) -> nat
    decreases rs.len(),
{
    if rs.len() == 0 {
        0
    } else {
        rollup_sum(rs.drop_last(), uss) + match rs.last() {
            Some(pu) => if uss {
                pu.1 as nat
            } else {
                pu.0 as nat
            },
            None => 0nat,
        }
    }
}

/// `n`, capped at `u64::MAX`.
pub open spec fn cap(n: nat) -> u64 {
    if n > u64::MAX {
        u64::MAX
    } else {
        n as u64
    }
}

pub open spec fn has_rollup(rs: Seq<Option<(u64, u64)>>) -> bool {
    exists|j: int| 0 <= j < rs.len() && (#[trigger] rs[j]) is Some
}

/// An entry after enrichment with the `smaps_rollup` results `rs` (one per pid of
/// `rollup_pids`). A group's children take their own figures, and the group the
/// (capped) sums when any child had one; a single process takes its own.
pub open spec fn enrich_spec(p: ProcView, group_by_name: bool, rs: Seq<Option<(u64, u64)>>) -> ProcView {
    if group_by_name {
        let children = Seq::new(p.children.len(), |j: int| with_rollup(p.children[j], rs[j]));
        if has_rollup(rs) {
            ProcView {
                pss: Some(cap(rollup_sum(rs, false))),
                uss: Some(cap(rollup_sum(rs, true))),
                children,
                ..p
            }
        } else {
            ProcView { children, ..p }
        }
    } else {
        match p.pid {
            Some(_) => match rs[0] {
                Some(pu) => ProcView { pss: Some(pu.0), uss: Some(pu.1), ..p },
                None => p,
            },
            None => p,
        }
    }
}

pub open spec fn rollup_views(rs: Seq<Vec<Option<(u64, u64)>>>) -> Seq<Seq<Option<(u64, u64)>>> {
    rs.map_values(|v: Vec<Option<(u64, u64)>>| v@)
}

/// The list with its leading entries enriched, one result list per entry.
pub open spec fn enriched(
    ps: Seq<ProcView>,
    group_by_name: bool,
    rs: Seq<Seq<Option<(u64, u64)>>>,
) -> Seq<ProcView> {
    Seq::new(
        ps.len(),
        |i: int|
            if i < rs.len() {
                enrich_spec(ps[i], group_by_name, rs[i])
            } else {
                ps[i]
            },
    )
}

fn enrich_one(p: ProcessInfo, group_by_name: bool, rs: &Vec<Option<(u64, u64)>>) -> (r: ProcessInfo)
    requires
        rs@.len() == rollup_pids(p@, group_by_name).len(),
    ensures
        r@ == enrich_spec(p@, group_by_name, rs@),
{
    let mut p = p;
    let ghost pv = p@;
    if group_by_name {
        let mut kids: Vec<ProcessChild> = Vec::new();
        std::mem::swap(&mut kids, &mut p.children);
        let ghost kv = child_views(kids@);
        let mut out: Vec<ProcessChild> = Vec::new();
        let mut total_pss: u64 = 0;
        let mut total_uss: u64 = 0;
        let mut has_smaps = false;
        let mut j: usize = 0;
        let n = rs.len();
        let ghost mut taken: int = 0;
        assert(rs@.take(0) =~= Seq::<Option<(u64, u64)>>::empty());
        while kids.len() > 0
            invariant
                0 <= taken <= kv.len(),
                n == rs@.len(),
                kv.len() == rs@.len(),
                j == taken,
                kids@.len() + taken == kv.len(),
                child_views(kids@) == kv.skip(taken),
                child_views(out@) == Seq::new(taken as nat, |k: int| with_rollup(kv[k], rs@[k])),
                total_pss == cap(rollup_sum(rs@.take(taken), false)),
                total_uss == cap(rollup_sum(rs@.take(taken), true)),
                has_smaps == has_rollup(rs@.take(taken)),
            decreases kids.len(),
        {
            let ghost before = kids@;
            let mut c = kids.remove(0);
            assert(child_views(before)[0] == kv.skip(taken)[0]);
            let ghost cv = c@;
            let ghost pre = rs@.take(taken + 1);
            assert(pre.drop_last() =~= rs@.take(taken));
            assert(pre.last() == rs@[taken]);
            match rs[j] {
                Some(pu) => {
                    c.pss = Some(pu.0);
                    c.uss = Some(pu.1);
                    total_pss = sat_add_exec(total_pss, pu.0);
                    total_uss = sat_add_exec(total_uss, pu.1);
                    has_smaps = true;
                    assert(pre[taken] is Some);
                },
                None => {
                    assert forall|k: int| 0 <= k < pre.len() && (#[trigger] pre[k]) is Some implies has_rollup(rs@.take(taken)) by {
                        assert(rs@.take(taken)[k] == pre[k]);
                    }
                },
            }
            let ghost out_before = child_views(out@);
            out.push(c);
            proof {
                assert(c@ == with_rollup(kv[taken], rs@[taken]));
                assert(child_views(out@) =~= out_before.push(c@));
                assert(child_views(out@) =~= Seq::new((taken + 1) as nat, |k: int| with_rollup(kv[k], rs@[k])));
                assert forall|k: int| 0 <= k < kids@.len() implies #[trigger] child_views(kids@)[k]
                    == kv.skip(taken + 1)[k] by {
                    assert(kids@[k] == before[k + 1]);
                    assert(child_views(before)[k + 1] == kv.skip(taken)[k + 1]);
                }
                assert(child_views(kids@) =~= kv.skip(taken + 1));
                if has_rollup(rs@.take(taken)) {
                    let w = choose|k: int| 0 <= k < taken && (#[trigger] rs@.take(taken)[k]) is Some;
                    assert(pre[w] == rs@.take(taken)[w]);
                }
                taken = taken + 1;
            }
            j += 1;
        }
        assert(rs@.take(taken) =~= rs@);
        p.children = out;
        if has_smaps {
            p.pss = Some(total_pss);
            p.uss = Some(total_uss);
        }
        proof {
            assert(child_views(p.children@) =~= Seq::new(pv.children.len(), |k: int| with_rollup(pv.children[k], rs@[k])));
        }
        p
    } else {
        match p.pid {
            Some(_) => {
                match rs[0] {
                    Some(pu) => {
                        p.pss = Some(pu.0);
                        p.uss = Some(pu.1);
                    },
                    None => {},
                }
            },
            None => {},
        }
        p
    }
}

/// Gives the leading entries the PSS / USS that their processes' `smaps_rollup` files
/// gave: `rollups[i]` holds, for entry `i`, one result per pid of `enrichment_pids`
/// (`None` where the file was missing or held no PSS).
pub fn apply_rollups(procs: Vec<ProcessInfo>, group_by_name: bool, rollups: &Vec<Vec<Option<(u64, u64)>>>) -> (r: Vec<
    ProcessInfo,
>)
    requires
        rollups@.len() <= procs@.len(),
        forall|i: int|
            0 <= i < rollups@.len() ==> (#[trigger] rollups@[i])@.len() == rollup_pids(
                procs@[i]@,
                group_by_name,
            ).len(),
    ensures
        proc_views(r@) == enriched(proc_views(procs@), group_by_name, rollup_views(rollups@)),
{
    let ghost orig = proc_views(procs@);
    let ghost rv = rollup_views(rollups@);
    let mut src = procs;
    let mut out: Vec<ProcessInfo> = Vec::new();
    let mut i: usize = 0;
    let n = src.len();
    assert(orig.skip(0) =~= orig);
    while src.len() > 0
        invariant
            i <= orig.len(),
            n == orig.len(),
            src@.len() + i == orig.len(),
            proc_views(src@) == orig.skip(i as int),
            rollups@.len() <= orig.len(),
            rv == rollup_views(rollups@),
            forall|k: int|
                0 <= k < rollups@.len() ==> (#[trigger] rollups@[k])@.len() == rollup_pids(
                    orig[k],
                    group_by_name,
                ).len(),
            proc_views(out@) == enriched(orig, group_by_name, rv).take(i as int),
        decreases src.len(),
    {
        let ghost before = src@;
        let p = src.remove(0);
        assert(proc_views(before)[0] == orig.skip(i as int)[0]);
        let q = if i < rollups.len() {
            enrich_one(p, group_by_name, &rollups[i])
        } else {
            p
        };
        let ghost out_before = proc_views(out@);
        out.push(q);
        proof {
            assert(q@ == enriched(orig, group_by_name, rv)[i as int]);
            assert(proc_views(out@) =~= out_before.push(q@));
            assert(proc_views(out@) =~= enriched(orig, group_by_name, rv).take(i + 1));
            assert forall|k: int| 0 <= k < src@.len() implies #[trigger] proc_views(src@)[k]
                == orig.skip(i + 1)[k] by {
                assert(src@[k] == before[k + 1]);
                assert(proc_views(before)[k + 1] == orig.skip(i as int)[k + 1]);
            }
            assert(proc_views(src@) =~= orig.skip(i + 1));
        }
        i += 1;
    }
    assert(enriched(orig, group_by_name, rv).take(i as int) =~= enriched(orig, group_by_name, rv));
    out
}

// ---------------------------------------------------------------------------
// Ranking
// ---------------------------------------------------------------------------

/// The list ranked by the metric (then name, then pid) and cut to `limit` entries.
pub open spec fn rank_spec(ps: Seq<ProcView>, limit: nat, m: SortMetric) -> Seq<ProcView> {
    let s = sort_ordered(ps, proc_order(m));
    if limit < s.len() {
        s.take(limit as int)
    } else {
        s
    }
}

/// Sorts by the requested metric and keeps the first `limit` entries.
pub fn rank_processes(procs: Vec<ProcessInfo>, limit: usize, metric: SortMetric) -> (r: Vec<ProcessInfo>)
    ensures
        proc_views(r@) == rank_spec(proc_views(procs@), limit as nat, metric),
{
    let mut sorted = sort_processes(procs, metric);
    let ghost before = sorted@;
    sorted.truncate(limit);
    proof {
        lemma_sort_ordered_permutes(proc_views(procs@), proc_order(metric));
        if (limit as int) < before.len() {
            assert(proc_views(sorted@) =~= proc_views(before).take(limit as int));
        }
    }
    sorted
}

// ---------------------------------------------------------------------------
// Laws
// ---------------------------------------------------------------------------

/// The ranked list is ordered: no entry ranks strictly before the one ahead of it by
/// the metric (then name, then pid); it holds `min(limit, n)` entries, each one of the
/// input's; and when nothing is cut it is a rearrangement of the input.
pub proof fn law_rank_ordered(ps: Seq<ProcView>, limit: nat, m: SortMetric)
    ensures
        is_ordered(rank_spec(ps, limit, m), proc_order(m)),
        rank_spec(ps, limit, m).len() == if limit < ps.len() {
            limit as int
        } else {
            ps.len() as int
        },
        forall|i: int|
            0 <= i < rank_spec(ps, limit, m).len() ==> ps.contains(#[trigger] rank_spec(ps, limit, m)[i]),
        limit >= ps.len() ==> rank_spec(ps, limit, m).to_multiset() =~= ps.to_multiset(),
        forall|i: int, j: int|
            0 <= i < j < rank_spec(ps, limit, m).len() ==> !ranks_before(
                #[trigger] rank_spec(ps, limit, m)[j],
                #[trigger] rank_spec(ps, limit, m)[i],
                m,
            ),
        forall|x: ProcView, i: int|
            ps.contains(x) && 0 <= i < rank_spec(ps, limit, m).len() && #[trigger] ranks_before(
                x,
                rank_spec(ps, limit, m)[i],
                m,
            ) ==> rank_spec(ps, limit, m).contains(x),
{
    broadcast use vstd::seq_lib::to_multiset_contains;

    lemma_orders_asymmetric(m);
    lemma_sort_ordered_permutes(ps, proc_order(m));
    lemma_sort_ordered_is_ordered(ps, proc_order(m));
    let s = sort_ordered(ps, proc_order(m));
    let r = rank_spec(ps, limit, m);
    assert forall|i: int| 0 <= i < r.len() implies ps.contains(#[trigger] r[i]) by {
        assert(r[i] == s[i]);
        assert(s.contains(s[i]));
        assert(s.to_multiset().count(s[i]) > 0);
    }
    assert forall|i: int| 0 <= i < r.len() - 1 implies !proc_order(m)(#[trigger] r[i + 1], r[i]) by {
        assert(r[i] == s[i] && r[i + 1] == s[i + 1]);
    }
    assert forall|i: int, j: int| 0 <= i < j < r.len() implies !ranks_before(#[trigger] r[j], #[trigger] r[i], m) by {
        lemma_sorted_pairwise(s, m, i, j);
    }
    assert forall|x: ProcView, i: int|
        ps.contains(x) && 0 <= i < r.len() && #[trigger] ranks_before(x, r[i], m) implies r.contains(x) by {
        assert(ps.to_multiset().count(x) > 0);
        assert(s.to_multiset().count(x) > 0);
        assert(s.contains(x));
        let j = choose|j: int| 0 <= j < s.len() && s[j] == x;
        if j < r.len() {
            assert(r[j] == x);
        } else {
            assert(r[i] == s[i]);
            lemma_sorted_pairwise(s, m, i, j);
        }
    }
}

/// Children of every group come largest resident size first, and children of equal
/// size keep the order in which their processes were read.
pub proof fn law_children_ordered(children: Seq<ChildView>)
    ensures
        is_ordered(sort_ordered(children, child_order()), child_order()),
        sort_ordered(children, child_order()).to_multiset() =~= children.to_multiset(),
{
    lemma_orders_asymmetric(SortMetric::Rss);
    lemma_sort_ordered_is_ordered(children, child_order());
    lemma_sort_ordered_permutes(children, child_order());
}

/// Number of samples the groups hold between them.
pub open spec fn children_total(gs: Seq<ProcView>) -> nat
    decreases gs.len(),
{
    if gs.len() == 0 {
        0
    } else {
        children_total(gs.drop_last()) + gs.last().children.len()
    }
}

/// Sum of the samples' resident bytes.
pub open spec fn rss_total(cs: Seq<ChildView>) -> nat
    decreases cs.len(),
{
    if cs.len() == 0 {
        0
    } else {
        rss_total(cs.drop_last()) + cs.last().rss as nat
    }
}

proof fn lemma_children_total_update(gs: Seq<ProcView>, k: int, g: ProcView)
    requires
        0 <= k < gs.len(),
    ensures
        children_total(gs.update(k, g)) == children_total(gs) - gs[k].children.len() + g.children.len(),
    decreases gs.len(),
{
    if k < gs.len() - 1 {
        lemma_children_total_update(gs.drop_last(), k, g);
        assert(gs.update(k, g).drop_last() =~= gs.drop_last().update(k, g));
    } else {
        assert(gs.update(k, g).drop_last() =~= gs.drop_last());
    }
}

/// Grouping partitions the samples: every sample lands in exactly one group, the group
/// of its name; no two groups share a name; a group counts its children, all of which
/// carry its name; and its resident size is their sum, capped at `u64::MAX`.
pub proof fn law_grouping_partitions(samples: Seq<SampleView>)
    requires
        samples.len() <= u32::MAX,
    ensures
        children_total(group_samples(samples)) == samples.len(),
        forall|a: int, b: int|
            0 <= a < b < group_samples(samples).len() ==> (#[trigger] group_samples(samples)[a]).name
                != (#[trigger] group_samples(samples)[b]).name,
        forall|k: int|
            0 <= k < group_samples(samples).len() ==> {
                let g = #[trigger] group_samples(samples)[k];
                &&& g.count == g.children.len()
                &&& g.rss == cap(rss_total(g.children))
                &&& forall|c: int| 0 <= c < g.children.len() ==> (#[trigger] g.children[c]).name == g.name
            },
    decreases samples.len(),
{
    if samples.len() > 0 {
        let d = samples.drop_last();
        let s = samples.last();
        law_grouping_partitions(d);
        lemma_group_counts(d);
        let gs = group_samples(d);
        lemma_group_index(gs, s.name);
        let k = group_index(gs, s.name);
        let r = group_samples(samples);
        if k >= 0 {
            let g = gs[k];
            let ng = add_to_group(g, s);
            lemma_children_total_update(gs, k, ng);
            assert(ng.children.drop_last() =~= g.children);
            assert(rss_total(ng.children) == rss_total(g.children) + s.rss);
            assert forall|c: int| 0 <= c < ng.children.len() implies (#[trigger] ng.children[c]).name
                == ng.name by {
                if c < g.children.len() {
                    assert(ng.children[c] == g.children[c]);
                }
            }
            assert forall|a: int, b: int| 0 <= a < b < r.len() implies (#[trigger] r[a]).name != (
            #[trigger] r[b]).name by {
                assert(r[a].name == gs[a].name && r[b].name == gs[b].name);
            }
            assert forall|j: int| 0 <= j < r.len() implies {
                let g = #[trigger] r[j];
                &&& g.count == g.children.len()
                &&& g.rss == cap(rss_total(g.children))
                &&& forall|c: int| 0 <= c < g.children.len() ==> (#[trigger] g.children[c]).name == g.name
            } by {
                if j == k {
                    assert(r[j] == ng);
                    assert(g.count <= d.len());
                    assert(ng.count == g.count + 1);
                    assert(ng.rss == cap(rss_total(g.children) + s.rss as nat));
                } else {
                    assert(r[j] == gs[j]);
                }
            }
        } else {
            let ng = new_group(s);
            assert(r.drop_last() =~= gs);
            assert(rss_total(ng.children) == s.rss) by {
                assert(ng.children.drop_last() =~= Seq::<ChildView>::empty());
                assert(ng.children.last() == child_of(s));
                reveal_with_fuel(rss_total, 2);
            }
            assert forall|j: int| 0 <= j < r.len() implies {
                let g = #[trigger] r[j];
                &&& g.count == g.children.len()
                &&& g.rss == cap(rss_total(g.children))
                &&& forall|c: int| 0 <= c < g.children.len() ==> (#[trigger] g.children[c]).name == g.name
            } by {
                if j < gs.len() {
                    assert(r[j] == gs[j]);
                } else {
                    assert(r[j] == ng);
                }
            }
            assert forall|a: int, b: int| 0 <= a < b < r.len() implies (#[trigger] r[a]).name != (
            #[trigger] r[b]).name by {
                if b == r.len() - 1 {
                    assert(gs[a].name != s.name);
                } else {
                    assert(r[a] == gs[a] && r[b] == gs[b]);
                }
            }
        }
    }
}

/// An entry has pids to read `smaps_rollup` for: a group has a child, a single
/// process its pid.
pub open spec fn has_pids(p: ProcView, group_by_name: bool) -> bool {
    if group_by_name {
        p.children.len() > 0
    } else {
        p.pid is Some
    }
}

proof fn lemma_groups_nonempty(samples: Seq<SampleView>)
    ensures
        forall|k: int|
            0 <= k < group_samples(samples).len() ==> (#[trigger] group_samples(samples)[k]).children.len() > 0,
    decreases samples.len(),
{
    if samples.len() > 0 {
        lemma_groups_nonempty(samples.drop_last());
        lemma_group_index(group_samples(samples.drop_last()), samples.last().name);
    }
}

proof fn lemma_built_has_pids(samples: Seq<SampleView>, group_by_name: bool)
    ensures
        forall|i: int|
            0 <= i < build_spec(samples, group_by_name).len() ==> has_pids(
                #[trigger] build_spec(samples, group_by_name)[i],
                group_by_name,
            ),
{
    broadcast use vstd::seq_lib::to_multiset_contains;

    let l = listed(samples, group_by_name);
    assert forall|i: int| 0 <= i < l.len() implies has_pids(#[trigger] l[i], group_by_name) by {
        if group_by_name {
            lemma_groups_nonempty(samples);
            let g = group_samples(samples)[i];
            lemma_sort_ordered_permutes(g.children, child_order());
        }
    }
    let b = build_spec(samples, group_by_name);
    lemma_sort_ordered_permutes(l, proc_order(SortMetric::Rss));
    assert forall|i: int| 0 <= i < b.len() implies has_pids(#[trigger] b[i], group_by_name) by {
        assert(b.to_multiset().count(b[i]) > 0);
        assert(l.contains(b[i]));
        let j = choose|j: int| 0 <= j < l.len() && l[j] == b[i];
        assert(has_pids(l[j], group_by_name));
    }
}

/// The collected process list: the samples grouped by name (or not), ranked by
/// resident size, the leading entries enriched with the `smaps_rollup` results read for
/// their pids, then ranked by the metric and cut to `limit`. It holds `min(limit, n)`
/// entries, in the metric's order (ties by name, then pid), each an enriched entry of
/// the list, and no entry left out ranks before one shown. Ranking by PSS or USS enriches every entry, so the ranking is over exact
/// figures, and when every rollup was read every entry shown has its PSS and USS.
pub proof fn law_collected_ranking(
    samples: Seq<SampleView>,
    group_by_name: bool,
    limit: nat,
    m: SortMetric,
    rs: Seq<Seq<Option<(u64, u64)>>>,
)
    requires
        rs.len() == enrichment_count_spec(build_spec(samples, group_by_name).len(), limit, m),
        forall|i: int|
            0 <= i < rs.len() ==> (#[trigger] rs[i]).len() == rollup_pids(
                build_spec(samples, group_by_name)[i],
                group_by_name,
            ).len(),
    ensures
        ({
            let list = build_spec(samples, group_by_name);
            let all = enriched(list, group_by_name, rs);
            let r = rank_spec(all, limit, m);
            &&& r.len() == if limit < list.len() {
                limit as int
            } else {
                list.len() as int
            }
            &&& is_ordered(r, proc_order(m))
            &&& forall|i: int| 0 <= i < r.len() ==> all.contains(#[trigger] r[i])
            &&& forall|x: ProcView, i: int|
                all.contains(x) && 0 <= i < r.len() && #[trigger] ranks_before(x, r[i], m) ==> r.contains(x)
            &&& (m == SortMetric::Pss || m == SortMetric::Uss) ==> rs.len() == list.len()
            &&& ((m == SortMetric::Pss || m == SortMetric::Uss) && forall|i: int, j: int|
                0 <= i < rs.len() && 0 <= j < rs[i].len() ==> (#[trigger] rs[i][j]) is Some) ==> forall|k: int|
                0 <= k < r.len() ==> (#[trigger] r[k]).pss is Some && r[k].uss is Some
        }),
{
    let list = build_spec(samples, group_by_name);
    let all = enriched(list, group_by_name, rs);
    law_rank_ordered(all, limit, m);
    if (m == SortMetric::Pss || m == SortMetric::Uss) && forall|i: int, j: int|
        0 <= i < rs.len() && 0 <= j < rs[i].len() ==> (#[trigger] rs[i][j]) is Some {
        lemma_built_has_pids(samples, group_by_name);
        assert forall|i: int| 0 <= i < all.len() implies (#[trigger] all[i]).pss is Some && all[i].uss is Some by {
            assert(has_pids(list[i], group_by_name));
            let ri = rs[i];
            assert(ri.len() > 0);
            assert(ri[0] is Some);
            if group_by_name {
                assert(has_rollup(ri));
            }
        }
        let r = rank_spec(all, limit, m);
        assert forall|k: int| 0 <= k < r.len() implies (#[trigger] r[k]).pss is Some && r[k].uss is Some by {
            assert(all.contains(r[k]));
        }
    }
}

/// Enrichment puts the rollup's first figure (its PSS) in `pss` and its second (its
/// USS) in `uss`: for a single process whose `smaps_rollup` gave `(pss, uss)`, for a
/// group whose one child's gave it (where the child gets the same figures), and for
/// every enriched position of the list; nothing else of the entry changes.
pub proof fn law_enrich_figures(p: ProcView, g: ProcView, pss: u64, uss: u64)
    requires
        p.pid is Some,
        g.children.len() == 1,
    ensures
        ({
            let e = enrich_spec(p, false, seq![Some((pss, uss))]);
            &&& e.pss == Some(pss) && e.uss == Some(uss)
            &&& e.name == p.name && e.rss == p.rss && e.count == p.count && e.pid == p.pid && e.children
                == p.children
        }),
        ({
            let e = enrich_spec(g, true, seq![Some((pss, uss))]);
            &&& e.pss == Some(pss) && e.uss == Some(uss)
            &&& e.children.len() == 1 && e.children[0].pss == Some(pss) && e.children[0].uss == Some(uss)
            &&& e.children[0].pid == g.children[0].pid && e.children[0].rss == g.children[0].rss
        }),
        enrich_spec(p, false, seq![Some((pss, uss))]).pss == enrich_spec(g, true, seq![Some((pss, uss))]).pss,
        enrich_spec(p, false, seq![Some((pss, uss))]).uss == enrich_spec(g, true, seq![Some((pss, uss))]).uss,
{
    let rs = seq![Some((pss, uss))];
    assert(has_rollup(rs)) by {
        assert(rs[0] is Some);
    }
    reveal_with_fuel(rollup_sum, 2);
    assert(rs.drop_last() =~= Seq::<Option<(u64, u64)>>::empty());
    assert(rollup_sum(rs, false) == pss as nat);
    assert(rollup_sum(rs, true) == uss as nat);
}

/// In an ungrouped list, each enriched entry with a pid carries its own rollup's PSS
/// and USS, in that order.
pub proof fn law_enriched_ungrouped(ps: Seq<ProcView>, rs: Seq<Seq<Option<(u64, u64)>>>, i: int, pss: u64, uss: u64)
    requires
        0 <= i < rs.len(),
        rs.len() <= ps.len(),
        ps[i].pid is Some,
        rs[i].len() == 1,
        rs[i][0] == Some((pss, uss)),
    ensures
        enriched(ps, false, rs)[i].pss == Some(pss),
        enriched(ps, false, rs)[i].uss == Some(uss),
        enriched(ps, false, rs)[i].pid == ps[i].pid,
{
}

/// The sum of the children's PSS (or, with `uss`, USS) figures, counting none as 0.
pub open spec fn children_figure_total(cs: Seq<ChildView>, uss: bool) -> nat
    decreases cs.len(),
{
    if cs.len() == 0 {
        0
    } else {
        children_figure_total(cs.drop_last(), uss) + match (if uss {
            cs.last().uss
        } else {
            cs.last().pss
        }) {
            Some(v) => v as nat,
            None => 0nat,
        }
    }
}

proof fn lemma_rollup_children_total(cs: Seq<ChildView>, rs: Seq<Option<(u64, u64)>>, n: int, uss: bool)
    requires
        0 <= n <= cs.len(),
        cs.len() == rs.len(),
        forall|j: int| 0 <= j < cs.len() ==> (#[trigger] cs[j]).pss is None && cs[j].uss is None,
    ensures
        rollup_sum(rs.take(n), uss) == children_figure_total(
            Seq::new(cs.len(), |j: int| with_rollup(cs[j], rs[j])).take(n),
            uss,
        ),
    decreases n,
{
    let ecs = Seq::new(cs.len(), |j: int| with_rollup(cs[j], rs[j]));
    if n > 0 {
        lemma_rollup_children_total(cs, rs, n - 1, uss);
        assert(rs.take(n).drop_last() =~= rs.take(n - 1));
        assert(ecs.take(n).drop_last() =~= ecs.take(n - 1));
        assert(rs.take(n).last() == rs[n - 1]);
        assert(ecs.take(n).last() == with_rollup(cs[n - 1], rs[n - 1]));
    } else {
        assert(rs.take(0) =~= Seq::<Option<(u64, u64)>>::empty());
        assert(ecs.take(0) =~= Seq::<ChildView>::empty());
    }
}

/// Grouped enrichment: each child takes its own rollup's PSS and USS (first and
/// second figure), and when any child had one the group's PSS and USS are the (capped)
/// sums of its children's figures.
pub proof fn law_group_enrich_sums(g: ProcView, rs: Seq<Option<(u64, u64)>>)
    requires
        rs.len() == g.children.len(),
        forall|j: int| 0 <= j < g.children.len() ==> (#[trigger] g.children[j]).pss is None && g.children[j].uss is None,
    ensures
        ({
            let e = enrich_spec(g, true, rs);
            &&& e.children.len() == g.children.len()
            &&& forall|j: int|
                0 <= j < rs.len() && (#[trigger] rs[j]) is Some ==> e.children[j].pss == Some(rs[j].unwrap().0)
                    && e.children[j].uss == Some(rs[j].unwrap().1)
            &&& has_rollup(rs) ==> e.pss == Some(cap(children_figure_total(e.children, false))) && e.uss == Some(
                cap(children_figure_total(e.children, true)),
            )
        }),
{
    let n = rs.len() as int;
    lemma_rollup_children_total(g.children, rs, n, false);
    lemma_rollup_children_total(g.children, rs, n, true);
    let ecs = Seq::new(g.children.len(), |j: int| with_rollup(g.children[j], rs[j]));
    assert(rs.take(n) =~= rs);
    assert(ecs.take(n) =~= ecs);
}

} // verus!
