use ram_tui::minimal::{
    get_timestamp_str, kb_to_human, name_from_comm, parse_args, parse_i32, parse_meminfo_kb,
    rss_kb_from_statm, snapshot_json, statm_fits, themes, top_by_rss, MemInfoKb, MiniAction, MiniState,
    ProcInfo,
};

fn float_human(kb: u64) -> String {
    let bytes = kb * 1024;
    let b = bytes as f64;
    let kbf = 1024.0;
    let mbf = kbf * 1024.0;
    let gbf = mbf * 1024.0;
    if b >= gbf {
        format!("{:.2} GB", b / gbf)
    } else if b >= mbf {
        format!("{:.1} MB", b / mbf)
    } else if b >= kbf {
        format!("{:.0} KB", b / kbf)
    } else {
        format!("{} B", bytes)
    }
}

#[test]
fn kb_to_human_exact_values() {
    assert_eq!(kb_to_human(0), "0 B");
    assert_eq!(kb_to_human(1), "1 KB");
    assert_eq!(kb_to_human(1024), "1.0 MB");
    assert_eq!(kb_to_human(1536), "1.5 MB");
    assert_eq!(kb_to_human(1048576), "1.00 GB");
}

#[test]
fn kb_to_human_matches_float_formatting() {
    let samples = [0u64, 1, 2, 999, 1000, 1023, 1024, 1025, 5000, 123456, 1048575, 1048576, 3_000_000, 16_000_000_000];
    for kb in samples {
        assert_eq!(kb_to_human(kb), float_human(kb), "kb = {kb}");
    }
}

#[test]
fn meminfo_kb_fields_and_fallbacks() {
    let m = parse_meminfo_kb("MemTotal: 1000 kB\nMemFree: 200 kB\nCached: 50 kB\nSwapTotal: 100 kB\nSwapFree: 40 kB\n");
    assert_eq!(m.total_kb, 1000);
    assert_eq!(m.free_kb, 200);
    assert_eq!(m.available_kb, 200);
    assert_eq!(m.cached_kb, 50);
    assert_eq!(m.buffers_kb, 0);
    assert_eq!(m.swap_total_kb, 100);
    assert_eq!(m.swap_used_kb, 60);
}

#[test]
fn meminfo_kb_last_duplicate_wins_and_swap_free_defaults() {
    let m = parse_meminfo_kb("MemTotal: 1 kB\nMemTotal: 2 kB\nMemAvailable: 7 kB\nSwapTotal: 9 kB\nbogus line\nBuffers: x kB\n");
    assert_eq!(m.total_kb, 2);
    assert_eq!(m.available_kb, 7);
    assert_eq!(m.buffers_kb, 0);
    assert_eq!(m.swap_used_kb, 0);
}

#[test]
fn statm_resident_kb() {
    assert_eq!(rss_kb_from_statm("100 25 3 4 0 5 0"), Some(100));
    assert_eq!(rss_kb_from_statm("100"), None);
    assert_eq!(rss_kb_from_statm("100 x"), None);
    assert!(statm_fits("1 4611686018427387903"));
    assert!(!statm_fits("1 4611686018427387904"));
    assert!(statm_fits("garbage"));
}

fn pinfo(pid: i32, name: &str, rss_kb: u64) -> ProcInfo {
    ProcInfo { pid, name: name.to_string(), rss_kb }
}

#[test]
fn top_by_rss_is_stable_and_limited() {
    let v = vec![pinfo(1, "a", 10), pinfo(2, "b", 30), pinfo(3, "c", 10), pinfo(4, "d", 20)];
    let r = top_by_rss(v, 3);
    let got: Vec<(i32, u64)> = r.iter().map(|p| (p.pid, p.rss_kb)).collect();
    assert_eq!(got, vec![(2, 30), (4, 20), (1, 10)]);
    let all = top_by_rss(vec![pinfo(1, "a", 10), pinfo(3, "c", 10)], 10);
    assert_eq!(all.iter().map(|p| p.pid).collect::<Vec<_>>(), vec![1, 3]);
    assert!(top_by_rss(Vec::new(), 5).is_empty());
}

#[test]
fn comm_names() {
    assert_eq!(name_from_comm(Some("  bash\n")), Some("bash".to_string()));
    assert_eq!(name_from_comm(Some(" \n")), None);
    assert_eq!(name_from_comm(None), None);
}

#[test]
fn pid_directory_names() {
    assert_eq!(parse_i32("123"), Some(123));
    assert_eq!(parse_i32("+7"), Some(7));
    assert_eq!(parse_i32("-5"), Some(-5));
    assert_eq!(parse_i32("-2147483648"), Some(i32::MIN));
    assert_eq!(parse_i32("2147483647"), Some(i32::MAX));
    assert_eq!(parse_i32("2147483648"), None);
    assert_eq!(parse_i32("-+1"), None);
    assert_eq!(parse_i32("self"), None);
    assert_eq!(parse_i32(""), None);
    for s in ["0", "42", "-1", "+9", "99999999999", "1a", "-"] {
        assert_eq!(parse_i32(s), s.parse::<i32>().ok(), "{s}");
    }
}

#[test]
fn clock_text() {
    assert_eq!(get_timestamp_str(0), "00:00:00");
    assert_eq!(get_timestamp_str(3661), "01:01:01");
    assert_eq!(get_timestamp_str(86399), "23:59:59");
    assert_eq!(get_timestamp_str(86400 * 3 + 45), "00:00:45");
}

fn args(v: &[&str]) -> Vec<String> {
    v.iter().map(|s| s.to_string()).collect()
}

#[test]
fn argument_parsing() {
    let c = parse_args(&args(&["prog", "--once", "--rate", "250", "--json"]));
    assert!(c.once && c.json);
    assert_eq!(c.rate_ms, 250);
    let c = parse_args(&args(&["prog", "--rate", "abc", "--once"]));
    assert_eq!(c.rate_ms, 500);
    assert!(c.once);
    let c = parse_args(&args(&["prog", "--rate"]));
    assert_eq!(c.rate_ms, 500);
    let c = parse_args(&args(&["--once"]));
    assert!(!c.once);
    let c = parse_args(&args(&["prog", "--rate", "--once"]));
    assert!(!c.once);
    assert_eq!(c.rate_ms, 500);
}

#[test]
fn json_snapshot_text() {
    let mem = MemInfoKb {
        total_kb: 1000,
        free_kb: 10,
        available_kb: 300,
        cached_kb: 0,
        buffers_kb: 0,
        swap_total_kb: 0,
        swap_used_kb: 5,
    };
    let procs = vec![pinfo(1, "a\"b", 10), pinfo(-2, "c", 0)];
    assert_eq!(
        snapshot_json(&mem, &procs),
        "{\"total_kb\":1000,\"available_kb\":300,\"used_kb\":700,\"swap_used_kb\":5,\"processes\":[{\"pid\":1,\"name\":\"a'b\",\"rss_kb\":10},{\"pid\":-2,\"name\":\"c\",\"rss_kb\":0}]}"
    );
    let low = MemInfoKb { available_kb: 2000, ..mem };
    assert_eq!(
        snapshot_json(&low, &Vec::new()),
        "{\"total_kb\":1000,\"available_kb\":2000,\"used_kb\":0,\"swap_used_kb\":5,\"processes\":[]}"
    );
}

#[test]
fn prototype_themes() {
    let t = themes();
    assert_eq!(t.len(), 3);
    assert_eq!(t[0].name, "default");
    assert_eq!(t[1].name, "solar");
    assert_eq!(t[2].name, "mint");
    assert_eq!(t[1].accent, (255, 180, 0));
}

#[test]
fn prototype_keys() {
    let mut s = MiniState { paused: false, theme_idx: 2, symbol_mode: true, rate_ms: 100 };
    assert!(matches!(s.apply_key(b't', 3), MiniAction::Continue));
    assert_eq!(s.theme_idx, 0);
    s.apply_key(b'p', 3);
    assert!(s.paused);
    s.apply_key(b's', 3);
    assert!(!s.symbol_mode);
    s.apply_key(b'+', 3);
    assert_eq!(s.rate_ms, 50);
    s.apply_key(b'+', 3);
    assert_eq!(s.rate_ms, 50);
    s.apply_key(b'-', 3);
    assert_eq!(s.rate_ms, 100);
    assert!(matches!(s.apply_key(b'q', 3), MiniAction::Quit));
    assert!(matches!(s.apply_key(b'h', 3), MiniAction::ShowHelp));
    assert!(matches!(s.apply_key(b'x', 3), MiniAction::Continue));
    assert_eq!(s.rate_ms, 100);
    let mut m = MiniState { paused: false, theme_idx: 0, symbol_mode: true, rate_ms: u64::MAX - 10 };
    m.apply_key(b'-', 3);
    assert_eq!(m.rate_ms, u64::MAX);
}
