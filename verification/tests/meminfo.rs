use ram_tui::cgroup::detect_cgroup_from;
use ram_tui::meminfo::{collect_meminfo_from, has_zram_device, meminfo_fits};

#[test]
fn test_basic_meminfo() {
    let content = "MemTotal:       8192 kB\nMemAvailable:   4096 kB\nCached:         1024 kB\n";
    let info = collect_meminfo_from(content, None, false);
    assert!(info.valid);
    assert_eq!(info.total, 8192 * 1024);
    assert_eq!(info.available, 4096 * 1024);
    assert_eq!(info.used, 4096 * 1024);
    assert_eq!(info.cached, 1024 * 1024);
}

#[test]
fn test_meminfo_missing_fields() {
    let content = "MemTotal:\nMemFree: 1000 kB\nInvalidLine\n";
    let info = collect_meminfo_from(content, None, false);
    assert_eq!(info.total, 0);
    assert_eq!(info.available, 1000 * 1024);
}

#[test]
fn test_empty_meminfo() {
    let info = collect_meminfo_from("", None, false);
    assert!(!info.valid);
    assert_eq!(info.total, 0);
}

#[test]
fn test_truncated_meminfo() {
    let content = "MemTotal: abc kB\nMemFree: 500 kB\n";
    let info = collect_meminfo_from(content, None, false);
    assert_eq!(info.total, 0);
    assert_eq!(info.available, 500 * 1024);
}

#[test]
fn test_malformed_lines() {
    let content = "garbage without colon\n:no_key\nMemTotal: 16384 kB\n";
    let info = collect_meminfo_from(content, None, false);
    assert_eq!(info.total, 16384 * 1024);
}

#[test]
fn test_swap_detection_zram() {
    let swaps = "Filename\tType\tSize\tUsed\tPriority\n/dev/zram0\tpartition\t4096\t100\t100\n";
    let info = collect_meminfo_from(
        "MemTotal: 8192 kB\nSwapTotal: 4096 kB\nSwapFree: 3996 kB\n",
        Some(swaps),
        false,
    );
    assert_eq!(info.swap_desc, "zram");
    assert_eq!(info.swap_used, 100 * 1024);
}

#[test]
fn test_swap_detection_disk() {
    let swaps = "Filename\tType\tSize\tUsed\tPriority\n/dev/sda2\tpartition\t8192\t200\t-2\n";
    let info = collect_meminfo_from(
        "MemTotal: 8192 kB\nSwapTotal: 8192 kB\nSwapFree: 7992 kB\n",
        Some(swaps),
        false,
    );
    assert_eq!(info.swap_desc, "disk swap");
}

#[test]
fn test_swap_detection_zram_plus_disk() {
    let swaps = "Filename\tType\tSize\tUsed\tPriority\n/dev/zram0\tpartition\t4096\t100\t100\n/dev/sda2\tpartition\t8192\t200\t-2\n";
    let info = collect_meminfo_from(
        "MemTotal: 8192 kB\nSwapTotal: 12288 kB\nSwapFree: 11988 kB\n",
        Some(swaps),
        false,
    );
    assert_eq!(info.swap_desc, "zram + disk");
}

#[test]
fn test_swap_detection_none() {
    let info = collect_meminfo_from(
        "MemTotal: 8192 kB\n",
        Some("Filename\tType\tSize\tUsed\tPriority\n"),
        false,
    );
    assert_eq!(info.swap_desc, "none");
}

#[test]
fn test_zram_fallback_via_sysblock() {
    let info = collect_meminfo_from(
        "MemTotal: 8192 kB\n",
        Some("Filename\tType\tSize\tUsed\tPriority\n"),
        true, // has_zram_block = true
    );
    assert_eq!(info.swap_desc, "zram");
}

#[test]
fn test_full_meminfo_with_all_fields() {
    let content = "\
MemTotal:       16384 kB
MemAvailable:   8192 kB
MemFree:        4096 kB
Buffers:         512 kB
Cached:         2048 kB
SReclaimable:    256 kB
Committed_AS:   10000 kB
CommitLimit:    20000 kB
SwapTotal:      4096 kB
SwapFree:       3072 kB
";
    let info = collect_meminfo_from(content, None, false);
    assert!(info.valid);
    assert_eq!(info.total, 16384 * 1024);
    assert_eq!(info.available, 8192 * 1024);
    assert_eq!(info.used, (16384 - 8192) * 1024);
    assert_eq!(info.cached, (2048 + 512 + 256) * 1024);
    assert_eq!(info.commit_as, 10000 * 1024);
    assert_eq!(info.commit_limit, 20000 * 1024);
    assert_eq!(info.swap_total, 4096 * 1024);
    assert_eq!(info.swap_used, (4096 - 3072) * 1024);
}

#[test]
fn meminfo_later_lines_override_earlier_ones() {
    let info = collect_meminfo_from("MemTotal: 100 kB\nMemTotal: 200 kB\n", None, false);
    assert_eq!(info.total, 200 * 1024);
    // commit limit falls back to the total
    assert_eq!(info.commit_limit, 200 * 1024);
    assert_eq!(info.commit_as, 0);
}

#[test]
fn meminfo_used_saturates_when_available_exceeds_total() {
    let info = collect_meminfo_from("MemTotal: 10 kB\nMemAvailable: 20 kB\nSwapTotal: 1 kB\nSwapFree: 5 kB\n", None, false);
    assert_eq!(info.used, 0);
    assert_eq!(info.swap_used, 0);
}

#[test]
fn meminfo_plus_sign_and_units_are_accepted() {
    let info = collect_meminfo_from("  MemTotal :   +64   kB  \r\n", None, false);
    assert_eq!(info.total, 64 * 1024);
}

#[test]
fn meminfo_default_is_unknown_and_invalid() {
    let info = ram_tui::meminfo::MemInfo::default();
    assert!(!info.valid);
    assert_eq!(info.swap_desc, "unknown");
    assert!(info.cgroup.is_none());
}

#[test]
fn test_cgroup_v2_constrained() {
    let total_host_ram = 16 * 1024 * 1024 * 1024; // 16GB host
    let info = detect_cgroup_from(Some("2147483648\n"), Some("524288000\n"), None, None, total_host_ram).unwrap();
    assert_eq!(info.limit, 2 * 1024 * 1024 * 1024);
    assert_eq!(info.usage, 500 * 1024 * 1024);
    assert_eq!(info.version, 2);
    assert!(info.is_container);
}

#[test]
fn test_cgroup_v2_max_unlimited() {
    let total_host_ram = 16 * 1024 * 1024 * 1024;
    let info = detect_cgroup_from(Some("max\n"), None, None, None, total_host_ram);
    assert!(info.is_none());
}

#[test]
fn test_cgroup_v1_constrained() {
    let total_host_ram = 8 * 1024 * 1024 * 1024; // 8GB host
    let info = detect_cgroup_from(None, None, Some("1073741824\n"), Some("104857600\n"), total_host_ram).unwrap();
    assert_eq!(info.limit, 1024 * 1024 * 1024);
    assert_eq!(info.usage, 100 * 1024 * 1024);
    assert_eq!(info.version, 1);
    assert!(info.is_container);
}

#[test]
fn test_cgroup_v1_unlimited_sentinel() {
    let total_host_ram = 8 * 1024 * 1024 * 1024;
    let info = detect_cgroup_from(None, None, Some("9223372036854771712\n"), None, total_host_ram);
    assert!(info.is_none());
}

#[test]
fn cgroup_limit_not_below_host_ram_is_ignored() {
    let info = detect_cgroup_from(Some("4096"), Some("10"), None, None, 4096);
    assert!(info.is_none());
    // v2 unusable: v1 is consulted, a missing usage file reads as 0
    let info = detect_cgroup_from(Some("0"), None, Some(" 2048 "), None, 4096).unwrap();
    assert_eq!(info.limit, 2048);
    assert_eq!(info.usage, 0);
    assert_eq!(info.version, 1);
}

#[test]
fn zram_block_names() {
    let names = |v: &[&str]| v.iter().map(|s| s.to_string()).collect::<Vec<String>>();
    assert!(has_zram_device(&names(&["sda", "zram0"])));
    assert!(!has_zram_device(&names(&["sda", "zra", "nvme0n1"])));
    assert!(!has_zram_device(&names(&[])));
}

#[test]
fn meminfo_range_check() {
    assert!(meminfo_fits("MemTotal: 16000000 kB\nCached: 100 kB\n"));
    assert!(meminfo_fits("garbage\n"));
    assert!(!meminfo_fits("MemTotal: 18014398509481984 kB\n"));
    assert!(meminfo_fits("MemTotal: 18014398509481983 kB\n"));
}
