//! The process table of the dashboard: which processes the filter shows, which rows
//! (processes and the children of expanded groups) fit, their labels and columns.

use vstd::prelude::*;
use crate::procfs::opt_str;
use crate::processes::{proc_views, ProcView, ProcessInfo, SortMetric};
use crate::session::{query_matches, shown_indices};
use crate::text::{contains_chars, chars_of, decimal, push_decimal, push_str};
use crate::themes::{index_from, to_lowercase};

verus! {

fn matches_exec(name: &String, query: Option<&str>) -> (r: bool)
    ensures
        r == query_matches(name@, opt_str(query)),
{
    match query {
        Some(q) => {
            if q.unicode_len() == 0 {
                return true;
            }
            let ln = to_lowercase(name.as_str());
            let lq = to_lowercase(q);
            let a = chars_of(ln.as_str());
            let b = chars_of(lq.as_str());
            contains_chars(a.as_slice(), b.as_slice())
        },
        None => true,
    }
}

/// Positions of the processes whose lowercased names contain the lowercased query (all
/// of them without a query, or with an empty one), in list order.
pub fn filter_processes(procs: &Vec<ProcessInfo>, query: Option<&str>) -> (r: Vec<usize>)
    ensures
        r@.len() == shown_indices(proc_views(procs@), opt_str(query)).len(),
        forall|i: int|
            0 <= i < r@.len() ==> r@[i] as int == #[trigger] shown_indices(proc_views(procs@), opt_str(query))[i],
{
    let ghost all = proc_views(procs@);
    let ghost q = opt_str(query);
    let mut out: Vec<usize> = Vec::new();
    let mut i: usize = 0;
    while i < procs.len()
        invariant
            i <= procs@.len(),
            all == proc_views(procs@),
            q == opt_str(query),
            out@.len() == shown_indices(all.take(i as int), q).len(),
            forall|k: int|
                0 <= k < out@.len() ==> out@[k] as int == #[trigger] shown_indices(all.take(i as int), q)[k],
        decreases procs.len() - i,
    {
        proof {
            assert(all.take(i + 1).drop_last() =~= all.take(i as int));
            assert(all.take(i + 1).last() == procs@[i as int]@);
        }
        if matches_exec(&procs[i].name, query) {
            out.push(i);
        }
        i += 1;
    }
    assert(all.take(procs.len() as int) =~= all);
    out
}

/// The name and bar column widths of the process table for a window `ui_cols` wide
/// whose header title takes `hdr_w` cells.
pub open spec fn columns_spec(ui_cols: nat, hdr_w: nat) -> (nat, nat) {
    if ui_cols >= 80 {
        let nw: nat = if ui_cols >= 62 {
            if (ui_cols - 38) as nat <= 24 {
                (ui_cols - 38) as nat
            } else {
                24
            }
        } else {
            0
        };
        let nw = if hdr_w > nw {
            hdr_w
        } else {
            nw
        };
        let rest: int = ui_cols - nw - 24;
        let pw: nat = if rest < 4 {
            4
        } else if rest > 20 {
            20
        } else {
            rest as nat
        };
        (nw, pw)
    } else if ui_cols >= 64 {
        let nw = if hdr_w > 22 {
            hdr_w
        } else {
            22
        };
        let rest: int = ui_cols - nw - 24;
        (nw, if rest < 4 { 4 } else { rest as nat })
    } else {
        let nw: nat = if ui_cols >= 38 {
            (ui_cols - 30) as nat
        } else {
            8
        };
        let rest: int = ui_cols - nw - 24;
        (nw, if rest < 4 { 4 } else { rest as nat })
    }
}

/// Name and bar column widths of the process table.
pub fn process_columns(ui_cols: usize, hdr_w: usize) -> (r: (usize, usize))
    ensures
        r.0 == columns_spec(ui_cols as nat, hdr_w as nat).0,
        r.1 == columns_spec(ui_cols as nat, hdr_w as nat).1,
{
    if ui_cols >= 80 {
        let cap = ui_cols.saturating_sub(38);
        let base = if cap < 24 {
            cap
        } else {
            24
        };
        let nw = if hdr_w > base {
            hdr_w
        } else {
            base
        };
        let rest = ui_cols.saturating_sub(nw).saturating_sub(24);
        let pw = if rest < 4 {
            4
        } else if rest > 20 {
            20
        } else {
            rest
        };
        (nw, pw)
    } else if ui_cols >= 64 {
        let nw = if hdr_w > 22 {
            hdr_w
        } else {
            22
        };
        let rest = ui_cols.saturating_sub(nw).saturating_sub(24);
        (nw, if rest < 4 {
            4
        } else {
            rest
        })
    } else {
        let base = ui_cols.saturating_sub(30);
        let nw = if base > 8 {
            base
        } else {
            8
        };
        let rest = ui_cols.saturating_sub(nw).saturating_sub(24);
        (nw, if rest < 4 {
            4
        } else {
            rest
        })
    }
}

/// A group is drawn expanded: grouping is on, its name is among the expanded ones, and
/// it has children.
pub open spec fn is_expanded(p: ProcView, group_procs: bool, expanded: Seq<Seq<char>>) -> bool {
    group_procs && index_from(expanded, p.name, 0) >= 0 && p.children.len() > 0
}

/// The rows of one process: itself, then, when expanded, each of its children.
pub open spec fn rows_of(k: int, p: ProcView, group_procs: bool, expanded: Seq<Seq<char>>) -> Seq<(int, Option<int>)> {
    seq![(k, None::<int>)] + if is_expanded(p, group_procs, expanded) {
        Seq::new(p.children.len(), |c: int| (k, Some(c)))
    } else {
        Seq::<(int, Option<int>)>::empty()
    }
}

/// All rows of the shown processes, in order.
pub open spec fn all_rows(
    procs: Seq<ProcView>,
    shown: Seq<int>,
    group_procs: bool,
    expanded: Seq<Seq<char>>,
) -> Seq<(int, Option<int>)>
    decreases shown.len(),
{
    if shown.len() == 0 {
        Seq::<(int, Option<int>)>::empty()
    } else {
        all_rows(procs, shown.drop_last(), group_procs, expanded) + rows_of(
            shown.last(),
            procs[shown.last()],
            group_procs,
            expanded,
        )
    }
}

/// The rows that fit: all rows of the shown processes, cut to `slots`.
pub open spec fn table_rows_spec(
    procs: Seq<ProcView>,
    shown: Seq<int>,
    group_procs: bool,
    expanded: Seq<Seq<char>>,
    slots: nat,
) -> Seq<(int, Option<int>)> {
    let all = all_rows(procs, shown, group_procs, expanded);
    if all.len() > slots {
        all.take(slots as int)
    } else {
        all
    }
}

pub open spec fn names_view(s: Seq<String>) -> Seq<Seq<char>> {
    s.map_values(|x: String| x@)
}

pub open spec fn row_views(rows: Seq<(usize, Option<usize>)>) -> Seq<(int, Option<int>)> {
    rows.map_values(
        |r: (usize, Option<usize>)|
            (
                r.0 as int,
                match r.1 {
                    Some(c) => Some(c as int),
                    None => None,
                },
            ),
    )
}

fn expanded_exec(p: &ProcessInfo, group_procs: bool, expanded: &Vec<String>) -> (r: bool)
    ensures
        r == is_expanded(p@, group_procs, names_view(expanded@)),
{
    if !group_procs || p.children.len() == 0 {
        return false;
    }
    let ghost set = names_view(expanded@);
    let mut k: usize = 0;
    proof {
        crate::themes::lemma_index_from(set, p@.name, 0);
    }
    while k < expanded.len() && !(expanded[k] == p.name)
        invariant
            k <= expanded@.len(),
            set == names_view(expanded@),
            index_from(set, p@.name, k as int) == index_from(set, p@.name, 0),
        decreases expanded.len() - k,
    {
        assert(set[k as int] == expanded@[k as int]@);
        k += 1;
    }
    if k < expanded.len() {
        assert(set[k as int] == p@.name);
    }
    k < expanded.len()
}

/// The table rows that fit `slots` lines: for each shown process (positions into
/// `procs`), its own row `(i, None)`, then, for an expanded group, a row `(i, Some(c))`
/// per child; cut off after `slots` rows.
pub fn table_rows(
    procs: &Vec<ProcessInfo>,
    shown: &Vec<usize>,
    group_procs: bool,
    expanded: &Vec<String>,
    slots: usize,
) -> (r: Vec<(usize, Option<usize>)>)
    requires
        forall|i: int| 0 <= i < shown@.len() ==> (#[trigger] shown@[i]) < procs@.len(),
    ensures
        row_views(r@) == table_rows_spec(
            proc_views(procs@),
            shown@.map_values(|s: usize| s as int),
            group_procs,
            names_view(expanded@),
            slots as nat,
        ),
{
    let ghost pv = proc_views(procs@);
    let ghost sh = shown@.map_values(|s: usize| s as int);
    let ghost ex = names_view(expanded@);
    let mut out: Vec<(usize, Option<usize>)> = Vec::new();
    let mut i: usize = 0;
    assert(sh.take(0) =~= Seq::<int>::empty());
    while i < shown.len()
        invariant
            i <= shown@.len(),
            pv == proc_views(procs@),
            sh == shown@.map_values(|s: usize| s as int),
            ex == names_view(expanded@),
            forall|j: int| 0 <= j < shown@.len() ==> (#[trigger] shown@[j]) < procs@.len(),
            out@.len() <= slots,
            row_views(out@) == table_rows_spec(pv, sh.take(i as int), group_procs, ex, slots as nat),
            out@.len() < all_rows(pv, sh.take(i as int), group_procs, ex).len() ==> out@.len() == slots,
        decreases shown.len() - i,
    {
        if out.len() >= slots {
            proof {
                lemma_rows_prefix_stable(pv, sh, group_procs, ex, slots as nat, i as int);
            }
            return out;
        }
        let k = shown[i];
        let p = &procs[k];
        let ghost before = row_views(out@);
        let ghost prev_all = all_rows(pv, sh.take(i as int), group_procs, ex);
        proof {
            assert(sh.take(i + 1).drop_last() =~= sh.take(i as int));
            assert(sh.take(i + 1).last() == k as int);
            assert(before == prev_all);
        }
        out.push((k, None));
        let exp = expanded_exec(p, group_procs, expanded);
        assert(pv[k as int] == p@);
        let ghost rows = rows_of(k as int, p@, group_procs, ex);
        proof {
            assert(row_views(out@) =~= prev_all + rows.take(1));
        }
        if exp {
            let mut c: usize = 0;
            while c < p.children.len() && out.len() < slots
                invariant
                    c <= p.children@.len(),
                    exp == is_expanded(p@, group_procs, ex),
                    exp,
                    rows == rows_of(k as int, p@, group_procs, ex),
                    rows.len() == 1 + p.children@.len(),
                    out@.len() <= slots,
                    row_views(out@) == prev_all + rows.take(c + 1),
                decreases p.children.len() - c,
            {
                let ghost ob = row_views(out@);
                out.push((k, Some(c)));
                assert(rows[c + 1] == (k as int, Some(c as int)));
                assert(row_views(out@) =~= ob.push((k as int, Some(c as int))));
                assert(rows.take(c + 2) =~= rows.take(c + 1).push(rows[c + 1]));
                c += 1;
            }
            proof {
                if c == p.children.len() {
                    assert(rows.take(c + 1) =~= rows);
                }
            }
        } else {
            assert(rows.take(1) =~= rows);
        }
        proof {
            let all = all_rows(pv, sh.take(i + 1), group_procs, ex);
            assert(all == prev_all + rows);
            if out@.len() < slots {
                assert(row_views(out@) =~= all);
            } else {
                assert(all.take(slots as int) =~= row_views(out@));
            }
        }
        i += 1;
    }
    assert(sh.take(shown.len() as int) =~= sh);
    out
}

proof fn lemma_all_rows_prefix(procs: Seq<ProcView>, sh: Seq<int>, g: bool, ex: Seq<Seq<char>>, i: int, j: int)
    requires
        0 <= i <= j <= sh.len(),
    ensures
        all_rows(procs, sh.take(i), g, ex).len() <= all_rows(procs, sh.take(j), g, ex).len(),
        all_rows(procs, sh.take(j), g, ex).take(all_rows(procs, sh.take(i), g, ex).len() as int)
            == all_rows(procs, sh.take(i), g, ex),
    decreases j - i,
{
    if i < j {
        lemma_all_rows_prefix(procs, sh, g, ex, i, j - 1);
        assert(sh.take(j).drop_last() =~= sh.take(j - 1));
        let a = all_rows(procs, sh.take(i), g, ex);
        let b = all_rows(procs, sh.take(j - 1), g, ex);
        let c = all_rows(procs, sh.take(j), g, ex);
        assert(c == b + rows_of(sh.take(j).last(), procs[sh.take(j).last()], g, ex));
        assert(c.take(a.len() as int) =~= b.take(a.len() as int));
    }
}

proof fn lemma_rows_prefix_stable(procs: Seq<ProcView>, sh: Seq<int>, g: bool, ex: Seq<Seq<char>>, slots: nat, i: int)
    requires
        0 <= i <= sh.len(),
        table_rows_spec(procs, sh.take(i), g, ex, slots).len() >= slots,
    ensures
        table_rows_spec(procs, sh, g, ex, slots) == table_rows_spec(procs, sh.take(i), g, ex, slots),
{
    lemma_all_rows_prefix(procs, sh, g, ex, i, sh.len() as int);
    assert(sh.take(sh.len() as int) =~= sh);
    let a = all_rows(procs, sh.take(i), g, ex);
    let b = all_rows(procs, sh, g, ex);
    if a.len() >= slots {
        assert(b.take(slots as int) =~= a.take(slots as int));
    }
}

/// The name column of a process row: the expand marker when grouping (for groups of
/// more than one process), the name, and the process count when above one.
pub open spec fn process_label_spec(name: Seq<char>, count: u32, group_procs: bool, expanded: bool) -> Seq<char> {
    let icon = if group_procs {
        if count > 1 {
            if expanded {
                "▼ "@
            } else {
                "▸ "@
            }
        } else {
            "  "@
        }
    } else {
        Seq::<char>::empty()
    };
    let count_str = if count > 1 {
        " ("@ + decimal(count as nat) + ")"@
    } else {
        Seq::<char>::empty()
    };
    icon + name + count_str
}

/// The label of a process row (before truncating to the column).
pub fn process_label(name: &str, count: u32, group_procs: bool, expanded: bool) -> (r: String)
    ensures
        r@ == process_label_spec(name@, count, group_procs, expanded),
{
    let mut s = String::new();
    if group_procs {
        if count > 1 {
            if expanded {
                push_str(&mut s, "▼ ");
            } else {
                push_str(&mut s, "▸ ");
            }
        } else {
            push_str(&mut s, "  ");
        }
    }
    push_str(&mut s, name);
    if count > 1 {
        push_str(&mut s, " (");
        push_decimal(&mut s, count as u64);
        push_str(&mut s, ")");
    }
    proof {
        reveal_strlit("");
    }
    assert(s@ =~= process_label_spec(name@, count, group_procs, expanded));
    s
}

/// The label of a child row: a tree branch (the last child closes it) and the pid.
pub open spec fn child_label_spec(pid: u32, is_last: bool) -> Seq<char> {
    (if is_last {
        " └─"@
    } else {
        " ├─"@
    }) + " ["@ + decimal(pid as nat) + "]"@
}

pub fn child_label(pid: u32, is_last: bool) -> (r: String)
    ensures
        r@ == child_label_spec(pid, is_last),
{
    let mut s = String::new();
    if is_last {
        push_str(&mut s, " └─");
    } else {
        push_str(&mut s, " ├─");
    }
    push_str(&mut s, " [");
    push_decimal(&mut s, pid as u64);
    push_str(&mut s, "]");
    assert(s@ =~= child_label_spec(pid, is_last));
    s
}

/// The figure a row shows for the metric (PSS / USS fall back to RSS; RSS otherwise).
pub open spec fn shown_value(rss: u64, pss: Option<u64>, uss: Option<u64>, m: SortMetric) -> u64 {
    match m {
        SortMetric::Pss => match pss {
            Some(v) => v,
            None => rss,
        },
        SortMetric::Uss => match uss {
            Some(v) => v,
            None => rss,
        },
        _ => rss,
    }
}

pub fn display_value(rss: u64, pss: Option<u64>, uss: Option<u64>, m: SortMetric) -> (r: u64)
    ensures
        r == shown_value(rss, pss, uss, m),
{
    match m {
        SortMetric::Pss => match pss {
            Some(v) => v,
            None => rss,
        },
        SortMetric::Uss => match uss {
            Some(v) => v,
            None => rss,
        },
        _ => rss,
    }
}

/// The figure that fills a whole table bar: the first shown process's figure, at least 1.
pub fn bar_reference(rss: u64, pss: Option<u64>, uss: Option<u64>, m: SortMetric) -> (r: u64)
    ensures
        r == if shown_value(rss, pss, uss, m) == 0 {
            1
        } else {
            shown_value(rss, pss, uss, m)
        },
{
    let v = display_value(rss, pss, uss, m);
    if v == 0 {
        1
    } else {
        v
    }
}

/// The column heading of the figure.
pub fn metric_label(m: SortMetric) -> (r: &'static str)
    ensures
        r@ == match m {
            SortMetric::Pss => "PSS"@,
            SortMetric::Uss => "USS"@,
            _ => "RSS"@,
        },
{
    match m {
        SortMetric::Pss => "PSS",
        SortMetric::Uss => "USS",
        _ => "RSS",
    }
}

/// The table title's mode: the metric when grouping, "PID" otherwise.
pub fn mode_label(m: SortMetric, group_procs: bool) -> (r: &'static str)
    ensures
        r@ == if group_procs {
            match m {
                SortMetric::Rss => "RESIDENT SET"@,
                SortMetric::Pss => "PROP. SET - PSS"@,
                SortMetric::Uss => "UNIQUE - USS"@,
                SortMetric::Name => "ALPHABETICAL"@,
            }
        } else {
            "PID"@
        },
{
    if group_procs {
        match m {
            SortMetric::Rss => "RESIDENT SET",
            SortMetric::Pss => "PROP. SET - PSS",
            SortMetric::Uss => "UNIQUE - USS",
            SortMetric::Name => "ALPHABETICAL",
        }
    } else {
        "PID"
    }
}

/// The rows that fit never exceed the space, and keep the order of the full table.
pub proof fn law_table_rows_fit(
    procs: Seq<ProcView>,
    shown: Seq<int>,
    group_procs: bool,
    expanded: Seq<Seq<char>>,
    slots: nat,
)
    ensures
        table_rows_spec(procs, shown, group_procs, expanded, slots).len() <= slots,
        table_rows_spec(procs, shown, group_procs, expanded, slots) == all_rows(
            procs,
            shown,
            group_procs,
            expanded,
        ).take(table_rows_spec(procs, shown, group_procs, expanded, slots).len() as int),
{
    let all = all_rows(procs, shown, group_procs, expanded);
    if all.len() <= slots {
        assert(all.take(all.len() as int) =~= all);
    }
}

} // verus!
