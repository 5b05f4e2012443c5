use ram_tui::civil::epoch_to_civil;
use ram_tui::dashboard::{
    child_label, display_value, filter_processes, metric_label, mode_label, process_columns,
    process_label, table_rows,
};
use ram_tui::diagnostics::{crash_banner, debug_requested, needs_rotation, os_display_name, MAX_LOG_SIZE};
use ram_tui::format::{iso_timestamp, local_now_hms};
use ram_tui::processes::{ProcessChild, ProcessInfo, SortMetric};

fn group(name: &str, children: usize) -> ProcessInfo {
    let kids: Vec<ProcessChild> = (0..children)
        .map(|i| ProcessChild { pid: 100 + i as u32, name: name.to_string(), rss: 10, pss: None, uss: None })
        .collect();
    ProcessInfo {
        name: name.to_string(),
        rss: 10 * children as u64,
        pss: None,
        uss: None,
        count: children.max(1) as u32,
        pid: if children > 1 { None } else { Some(7) },
        children: kids,
    }
}

#[test]
fn filter_by_query_ignoring_case() {
    let procs = vec![group("bash", 1), group("zsh", 1), group("Bazaar", 1)];
    assert_eq!(filter_processes(&procs, Some("BA")), vec![0, 2]);
    assert_eq!(filter_processes(&procs, None), vec![0, 1, 2]);
    assert_eq!(filter_processes(&procs, Some("")), vec![0, 1, 2]);
    assert_eq!(filter_processes(&procs, Some("fish")), Vec::<usize>::new());
}

#[test]
fn column_widths() {
    assert_eq!(process_columns(100, 10), (24, 20));
    assert_eq!(process_columns(100, 40), (40, 20));
    assert_eq!(process_columns(80, 0), (24, 20));
    assert_eq!(process_columns(66, 30), (30, 12));
    assert_eq!(process_columns(70, 5), (22, 24));
    assert_eq!(process_columns(50, 0), (20, 6));
    assert_eq!(process_columns(30, 0), (8, 4));
}

#[test]
fn rows_expand_groups_and_fit() {
    let procs = vec![group("a", 2), group("b", 0)];
    let shown = vec![0usize, 1];
    let expanded = vec!["a".to_string()];
    assert_eq!(
        table_rows(&procs, &shown, true, &expanded, 10),
        vec![(0, None), (0, Some(0)), (0, Some(1)), (1, None)]
    );
    assert_eq!(table_rows(&procs, &shown, true, &expanded, 2), vec![(0, None), (0, Some(0))]);
    assert_eq!(table_rows(&procs, &shown, false, &expanded, 10), vec![(0, None), (1, None)]);
    assert_eq!(table_rows(&procs, &shown, true, &Vec::new(), 10), vec![(0, None), (1, None)]);
    assert_eq!(table_rows(&procs, &vec![1usize, 0], true, &expanded, 10), vec![
        (1, None),
        (0, None),
        (0, Some(0)),
        (0, Some(1))
    ]);
}

#[test]
fn row_labels() {
    assert_eq!(process_label("bash", 3, true, false), "▸ bash (3)");
    assert_eq!(process_label("bash", 3, true, true), "▼ bash (3)");
    assert_eq!(process_label("bash", 1, true, false), "  bash");
    assert_eq!(process_label("bash", 3, false, true), "bash (3)");
    assert_eq!(child_label(42, true), " └─ [42]");
    assert_eq!(child_label(42, false), " ├─ [42]");
}

#[test]
fn metric_figures_and_titles() {
    assert_eq!(display_value(10, Some(5), None, SortMetric::Pss), 5);
    assert_eq!(display_value(10, Some(5), None, SortMetric::Uss), 10);
    assert_eq!(display_value(10, Some(5), Some(3), SortMetric::Uss), 3);
    assert_eq!(display_value(10, Some(5), Some(3), SortMetric::Rss), 10);
    assert_eq!(display_value(10, Some(5), Some(3), SortMetric::Name), 10);
    assert_eq!(metric_label(SortMetric::Pss), "PSS");
    assert_eq!(metric_label(SortMetric::Name), "RSS");
    assert_eq!(mode_label(SortMetric::Name, true), "ALPHABETICAL");
    assert_eq!(mode_label(SortMetric::Uss, true), "UNIQUE - USS");
    assert_eq!(mode_label(SortMetric::Rss, false), "PID");
}

#[test]
fn log_rotation_and_debug_switch() {
    assert!(!needs_rotation(MAX_LOG_SIZE));
    assert!(needs_rotation(MAX_LOG_SIZE + 1));
    assert!(!needs_rotation(0));
    assert!(debug_requested(true, None));
    assert!(debug_requested(false, Some("1")));
    assert!(debug_requested(false, Some("true")));
    assert!(!debug_requested(false, Some("TRUE")));
    assert!(!debug_requested(false, Some("yes")));
    assert!(!debug_requested(false, None));
}

#[test]
fn crash_report_box() {
    let long = "x".repeat(100);
    let lines = crash_banner("boom", &long, "0.1.0", "/tmp/crash.log");
    assert_eq!(lines.len(), 14);
    assert_eq!(lines[0], "\n┌─────────────────────────────────────────────────────────────────────────────┐");
    assert_eq!(lines[4], format!("│   Cause:    {:<64}│", "boom"));
    assert_eq!(lines[5], format!("│   Location: {:<64}│", "x".repeat(64)));
    assert_eq!(lines[6], format!("│   Version:  {:<64}│", "0.1.0"));
    assert_eq!(lines[9], format!("│   {:<74}│", "/tmp/crash.log"));
    assert_eq!(lines[13], "└─────────────────────────────────────────────────────────────────────────────┘\n");
    for l in &lines[1..13] {
        assert_eq!(l.chars().count(), 79, "{l}");
    }
}

#[test]
fn os_names() {
    assert_eq!(os_display_name("linux"), "Linux");
    assert_eq!(os_display_name("macos"), "macOS");
    assert_eq!(os_display_name("ios"), "iOS");
    assert_eq!(os_display_name("haiku"), "haiku");
}

#[test]
fn test_timestamps_and_os() {
    let now = std::time::SystemTime::now()
        .duration_since(std::time::UNIX_EPOCH)
        .map(|d| d.as_secs())
        .unwrap_or(0);
    let civil = epoch_to_civil(now);
    let ts = iso_timestamp(civil);
    assert!(ts.contains('T'));
    assert_eq!(ts.len(), 19);

    let hms = local_now_hms(civil);
    assert_eq!(hms.len(), 8);
    assert_eq!(hms.chars().filter(|&c| c == ':').count(), 2);

    let os = os_display_name("linux");
    assert!(!os.is_empty());
}
