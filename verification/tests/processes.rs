use ram_tui::processes::{
    apply_rollups, build_process_list, enrichment_pids, process_sample, rank_processes,
    ProcessInfo, SortMetric,
};
use ram_tui::procfs::{
    is_pid_name, parse_smaps_rollup, parse_starttime, parse_statm_rss, process_name_from,
    sanitize_proc_name, validate_process_identity,
};

/// One `/proc/<pid>` directory held in memory.
#[derive(Clone, Default)]
struct Entry {
    pid: String,
    comm: Option<String>,
    statm: Option<String>,
    stat: Option<String>,
    smaps: Option<String>,
}

fn proc_entry(pid: &str, comm: &str, rss_pages: u64, starttime: &str) -> Entry {
    let stat_line = format!(
        "{pid} ({comm}) S 1 {pid} {pid} 0 -1 4194304 100 0 0 0 10 5 0 0 20 0 1 0 {starttime} 1000 500 0 0 0 0 0 0 0 0"
    );
    Entry {
        pid: pid.to_string(),
        comm: Some(format!("{comm}\n")),
        statm: Some(format!("{} {} 0 0 0 0 0\n", rss_pages * 2, rss_pages)),
        stat: Some(format!("{stat_line}\n")),
        smaps: None,
    }
}

fn smaps(pss_kb: u64, priv_clean_kb: u64, priv_dirty_kb: u64) -> Option<String> {
    Some(format!(
        "Rss: 1000 kB\nPss: {pss_kb} kB\nPrivate_Clean: {priv_clean_kb} kB\nPrivate_Dirty: {priv_dirty_kb} kB\n"
    ))
}

/// The collection pipeline over an in-memory `/proc` with 4096-byte pages.
fn collect(entries: &[Entry], group: bool, limit: usize, metric: SortMetric) -> Vec<ProcessInfo> {
    let mut samples = Vec::new();
    for e in entries {
        if !is_pid_name(&e.pid) {
            continue;
        }
        if let Some(s) = process_sample(&e.pid, e.statm.as_deref(), e.comm.as_deref(), None, 4096) {
            samples.push(s);
        }
    }
    let list = build_process_list(samples, group);
    let wanted = enrichment_pids(&list, group, limit, metric);
    let rollups: Vec<Vec<Option<(u64, u64)>>> = wanted
        .iter()
        .map(|pids| {
            pids.iter()
                .map(|pid| {
                    entries
                        .iter()
                        .find(|e| e.pid == pid.to_string())
                        .and_then(|e| e.smaps.as_deref())
                        .and_then(parse_smaps_rollup)
                })
                .collect()
        })
        .collect();
    let enriched = apply_rollups(list, group, &rollups);
    rank_processes(enriched, limit, metric)
}

#[test]
fn processes_test_collect_grouped_with_smaps_rollup() {
    let mut a = proc_entry("100", "brave", 1000, "12345");
    a.smaps = smaps(600, 200, 300);
    let mut b = proc_entry("101", "brave", 500, "12346");
    b.smaps = smaps(300, 100, 150);
    let procs = collect(&[a, b], true, 10, SortMetric::Pss);
    assert_eq!(procs.len(), 1);
    let b = &procs[0];
    assert_eq!(b.name, "brave");
    assert_eq!(b.count, 2);
    assert_eq!(b.rss, 1500 * 4096);
    assert_eq!(b.pss, Some((600 + 300) * 1024));
    assert_eq!(b.uss, Some((500 + 250) * 1024));
}

#[test]
fn processes_test_empty_proc_dir() {
    let procs = collect(&[], true, 10, SortMetric::Rss);
    assert!(procs.is_empty());
}

#[test]
fn processes_test_collect_grouped() {
    let entries = [
        proc_entry("100", "brave", 1000, "12345"),
        proc_entry("101", "brave", 500, "12346"),
        proc_entry("102", "kitty", 200, "12347"),
    ];
    let procs = collect(&entries, true, 10, SortMetric::Rss);
    assert_eq!(procs.len(), 2);
    assert_eq!(procs[0].name, "brave");
    assert_eq!(procs[0].rss, 1500 * 4096);
    assert_eq!(procs[0].count, 2);
    assert_eq!(procs[1].name, "kitty");
    assert_eq!(procs[1].rss, 200 * 4096);
    assert_eq!(procs[1].count, 1);
}

#[test]
fn processes_test_collect_ungrouped() {
    let entries = [proc_entry("100", "brave", 1000, "12345"), proc_entry("101", "brave", 500, "12346")];
    let procs = collect(&entries, false, 10, SortMetric::Rss);
    assert_eq!(procs.len(), 2);
    assert_eq!(procs[0].name, "brave [100]");
    assert_eq!(procs[0].rss, 1000 * 4096);
    assert_eq!(procs[0].pid, Some(100));
    assert_eq!(procs[1].name, "brave [101]");
    assert_eq!(procs[1].rss, 500 * 4096);
    assert_eq!(procs[1].pid, Some(101));
}

#[test]
fn processes_test_collect_limit() {
    let entries: Vec<Entry> = (1..=10u64)
        .map(|i| proc_entry(&i.to_string(), &format!("proc{i}"), i * 100, "100"))
        .collect();
    let procs = collect(&entries, true, 3, SortMetric::Rss);
    assert_eq!(procs.len(), 3);
    assert_eq!(procs[0].name, "proc10");
    assert_eq!(procs[1].name, "proc9");
    assert_eq!(procs[2].name, "proc8");
}

#[test]
fn processes_test_zero_rss_filtered() {
    let entries = [proc_entry("100", "kernel_worker", 0, "100"), proc_entry("101", "normal_proc", 500, "100")];
    let procs = collect(&entries, true, 10, SortMetric::Rss);
    assert_eq!(procs.len(), 1);
    assert_eq!(procs[0].name, "normal_proc");
}

#[test]
fn processes_test_missing_comm_uses_fallback_name() {
    let e = Entry {
        pid: "100".to_string(),
        statm: Some("2000 1000 0 0 0 0 0\n".to_string()),
        ..Default::default()
    };
    let procs = collect(&[e], true, 10, SortMetric::Rss);
    assert_eq!(procs.len(), 1);
    assert_eq!(procs[0].name, "PID 100");
}

#[test]
fn processes_test_pid_reuse_different_starttime() {
    let procs1 = collect(&[proc_entry("100", "short_lived_1", 500, "1000")], false, 10, SortMetric::Rss);
    assert_eq!(procs1[0].name, "short_lived_1 [100]");
    // PID 100 now belongs to a new process with a different starttime
    let procs2 = collect(&[proc_entry("100", "reused_pid_proc", 800, "2000")], false, 10, SortMetric::Rss);
    assert_eq!(procs2[0].name, "reused_pid_proc [100]");
}

#[test]
fn processes_test_parse_starttime_with_parentheses() {
    let stat = "1234 (my (cool) process) S 1 1234 1234 0 -1 4194304 100 0 0 0 10 5 0 0 20 0 1 0 987654 1000 500";
    assert_eq!(parse_starttime(stat), Some("987654".to_string()));
}

#[test]
fn processes_test_parse_starttime_empty() {
    assert_eq!(parse_starttime(""), None);
}

#[test]
fn processes_test_parse_starttime_truncated() {
    let stat = "1234 (comm) S 1 2 3";
    assert_eq!(parse_starttime(stat), None);
}

#[test]
fn processes_test_malformed_rss_value() {
    let e = Entry {
        pid: "100".to_string(),
        comm: Some("proc\n".to_string()),
        statm: Some("bad_val bad_val\n".to_string()),
        ..Default::default()
    };
    assert!(collect(&[e], true, 10, SortMetric::Rss).is_empty());
}

#[test]
fn processes_test_empty_statm() {
    let e = Entry {
        pid: "100".to_string(),
        comm: Some("proc\n".to_string()),
        statm: Some(String::new()),
        ..Default::default()
    };
    assert!(collect(&[e], true, 10, SortMetric::Rss).is_empty());
}

#[test]
fn processes_test_truncated_statm() {
    let e = Entry {
        pid: "100".to_string(),
        comm: Some("proc\n".to_string()),
        statm: Some("100\n".to_string()),
        ..Default::default()
    };
    assert!(collect(&[e], true, 10, SortMetric::Rss).is_empty());
}

#[test]
fn test_pidfd_and_identity_validation() {
    let is_valid = validate_process_identity(None, Some("cargo\n"), None, "nonexistent_proc_name_12345", None);
    assert!(!is_valid, "identity should fail when name does not match");
}

#[test]
fn test_rss_presort_candidate_enrichment() {
    let entries: Vec<Entry> = (1..=30u64)
        .map(|i| Entry {
            pid: i.to_string(),
            comm: Some(format!("proc_{i}\n")),
            statm: Some(format!("1000 {i} 10 0 0 0 0\n")),
            stat: None,
            smaps: Some(format!(
                "00400000-00452000 r-xp 00000000 08:02 123 /test\n\
                 Rss:                {} kB\n\
                 Pss:                {} kB\n\
                 Pss_Dirty:          0 kB\n\
                 Pss_Anon:           0 kB\n\
                 Pss_File:           0 kB\n\
                 Pss_Shmem:          0 kB\n\
                 Shared_Clean:       0 kB\n\
                 Shared_Dirty:       0 kB\n\
                 Private_Clean:      0 kB\n\
                 Private_Dirty:      {} kB\n",
                i * 4,
                i * 4,
                i * 4
            )),
        })
        .collect();
    let procs = collect(&entries, true, 5, SortMetric::Rss);
    assert_eq!(procs.len(), 5);
    assert_eq!(procs[0].name, "proc_30");
    assert!(procs[0].pss.is_some(), "Top RSS process must have PSS enriched");
    assert_eq!(procs[0].pss, Some(30 * 4 * 1024));
}

#[test]
fn identity_checks_start_time_and_name() {
    let stat = "42 (worker) S 1 42 42 0 -1 4194304 100 0 0 0 10 5 0 0 20 0 1 0 5555 1000 500\n";
    assert!(validate_process_identity(Some(stat), Some("worker\n"), None, "worker", Some("5555")));
    assert!(!validate_process_identity(Some(stat), Some("worker\n"), None, "worker", Some("5556")));
    assert!(!validate_process_identity(None, Some("worker\n"), None, "worker", Some("5555")));
    assert!(validate_process_identity(None, Some("worker\n"), None, "worker", None));
}

#[test]
fn starttime_needs_an_ascii_character_after_the_paren() {
    assert_eq!(parse_starttime("1 (x)"), None);
    let tail = " S 1 1 1 0 -1 0 0 0 0 0 0 0 0 0 0 0 1 0 77 1";
    assert_eq!(parse_starttime(&format!("1 (x){tail}")), Some("77".to_string()));
    assert_eq!(parse_starttime(&format!("1 (x)é{tail}")), None);
}

#[test]
fn statm_parsing_edges() {
    assert_eq!(parse_statm_rss("10 3 0", 4096), Some(3 * 4096));
    assert_eq!(parse_statm_rss("10 0 0", 4096), None);
    assert_eq!(parse_statm_rss("1 18446744073709551615", 2), None);
    assert_eq!(parse_statm_rss("  ", 4096), None);
}

#[test]
fn smaps_rollup_variants() {
    assert_eq!(parse_smaps_rollup("Pss: 10 kB\nPrivate_Dirty: 3 kB\n"), Some((10 * 1024, 3 * 1024)));
    // PSS stands for USS when no private lines exist
    assert_eq!(parse_smaps_rollup("Pss: 7 kB\n"), Some((7 * 1024, 7 * 1024)));
    // no PSS, no result; an unparsable value counts as 0
    assert_eq!(parse_smaps_rollup("Private_Clean: 5 kB\n"), None);
    assert_eq!(parse_smaps_rollup("Pss: x kB\nPss: 2 kB\nPrivate_Clean: y\n"), Some((2048, 0)));
}

#[test]
fn process_names_from_comm_and_cmdline() {
    assert_eq!(process_name_from(Some("  bash\n"), None), Some("bash".to_string()));
    assert_eq!(process_name_from(Some("   "), Some("/usr/bin/python3\0script.py\0")), Some("python3".to_string()));
    assert_eq!(process_name_from(None, Some("/opt/app/..\0")), Some("/opt/app/..".to_string()));
    assert_eq!(process_name_from(None, Some("./tool/.\0x")), Some("tool".to_string()));
    assert_eq!(process_name_from(None, Some("\0\0")), None);
    assert_eq!(process_name_from(Some("a\x1b[31mred"), None), Some("ared".to_string()));
    assert_eq!(sanitize_proc_name("a\tb\x7f"), "a~b~");
}

#[test]
fn pid_names_are_digits_only() {
    assert!(is_pid_name("123"));
    assert!(!is_pid_name("12a"));
    assert!(!is_pid_name("self"));
}

#[test]
fn name_metric_sorts_alphabetically_then_by_pid() {
    let entries = [
        proc_entry("3", "beta", 10, "1"),
        proc_entry("1", "alpha", 5, "1"),
        proc_entry("2", "alpha", 50, "1"),
    ];
    let procs = collect(&entries, false, 10, SortMetric::Name);
    let names: Vec<&str> = procs.iter().map(|p| p.name.as_str()).collect();
    assert_eq!(names, vec!["alpha [1]", "alpha [2]", "beta [3]"]);
}

#[test]
fn grouped_children_are_largest_first() {
    let entries = [
        proc_entry("7", "svc", 10, "1"),
        proc_entry("8", "svc", 30, "1"),
        proc_entry("9", "svc", 20, "1"),
    ];
    let procs = collect(&entries, true, 10, SortMetric::Rss);
    let pids: Vec<u32> = procs[0].children.iter().map(|c| c.pid).collect();
    assert_eq!(pids, vec![8, 9, 7]);
    assert_eq!(procs[0].count, 3);
}
