use ram_tui::dashboard::bar_reference;
use ram_tui::meter::GraphSymbol;
use ram_tui::processes::SortMetric;
use ram_tui::screen::{
    display_mode, footer_kind, full_layout, header_detail, header_line, mini_layout, screen_mode, FooterKind,
    FullLayout, HeaderDetail, MiniLayout, ScreenMode, StatsGrid, sort_metric_named, symbol_named,
};

#[test]
fn layout_by_mode_and_rows() {
    assert_eq!(screen_mode("tiny", 40), ScreenMode::Tiny);
    assert_eq!(screen_mode("hero", 3), ScreenMode::Tiny);
    assert_eq!(screen_mode("mini", 40), ScreenMode::Mini);
    assert_eq!(screen_mode("hero", 6), ScreenMode::Mini);
    assert_eq!(screen_mode("hero", 7), ScreenMode::Full);
    assert_eq!(screen_mode("compact", 30), ScreenMode::Full);
}

#[test]
fn mini_geometry() {
    assert_eq!(mini_layout(100), MiniLayout { ui_cols: 64, pad_left: 18, bar_width: 36 });
    assert_eq!(mini_layout(40), MiniLayout { ui_cols: 40, pad_left: 0, bar_width: 12 });
    assert_eq!(mini_layout(16), MiniLayout { ui_cols: 16, pad_left: 0, bar_width: 4 });
    assert_eq!(mini_layout(200), MiniLayout { ui_cols: 64, pad_left: 68, bar_width: 36 });
}

#[test]
fn full_geometry() {
    assert_eq!(
        full_layout(120, 40, true, true),
        FullLayout {
            ui_cols: 80,
            pad_left: 20,
            banner: true,
            banner_pad: 14,
            bar_width: 64,
            sparkline: true,
            spark_width: 48,
            stats: StatsGrid::Six,
            stats_gap: true,
            table_slots: 22,
            table_gap: true,
        }
    );
    assert_eq!(
        full_layout(60, 20, false, true),
        FullLayout {
            ui_cols: 60,
            pad_left: 0,
            banner: false,
            banner_pad: 4,
            bar_width: 44,
            sparkline: true,
            spark_width: 36,
            stats: StatsGrid::Three,
            stats_gap: false,
            table_slots: 10,
            table_gap: false,
        }
    );
    let small = full_layout(40, 8, true, false);
    assert_eq!(small.stats, StatsGrid::Inline);
    assert_eq!(small.table_slots, 0);
    assert_eq!(small.bar_width, 24);
    assert_eq!(small.spark_width, 16);
    assert!(!small.banner && !small.sparkline);
    let tight = full_layout(80, 7, false, false);
    assert_eq!(tight.stats, StatsGrid::Hidden);
    assert_eq!(tight.table_slots, 0);
}

#[test]
fn layout_rows_add_up() {
    for rows in 7..60usize {
        for cols in [16usize, 40, 60, 79, 80, 120] {
            let l = full_layout(cols, rows, true, true);
            let head = if l.banner { 7 } else { 0 } + 4 + if l.sparkline { 1 } else { 0 };
            let stats = match l.stats {
                StatsGrid::Hidden => 0,
                StatsGrid::Inline => 1 + l.stats_gap as usize,
                _ => 2 + l.stats_gap as usize,
            };
            if l.table_slots > 0 {
                assert_eq!(head + stats + 3 + l.table_slots, rows);
            }
            assert!(l.pad_left + l.ui_cols <= cols);
        }
    }
}

#[test]
fn header_with_clock() {
    assert_eq!(header_line("AB", "12:00", 20), format!("AB{}12:00", " ".repeat(13)));
    assert_eq!(header_line("ABCDEFGHIJ", "12:00:00", 19), "ABCDEFGHIJ");
    assert_eq!(header_line("ABCDEFGHIJ", "x", 5), "ABCDE");
    assert_eq!(header_line("\x1b[1mAB\x1b[0m", "C", 6), "\x1b[1mAB\x1b[0m   C");
}

#[test]
fn header_detail_and_footer() {
    assert_eq!(header_detail(64), HeaderDetail::Full);
    assert_eq!(header_detail(63), HeaderDetail::ThemeAndMode);
    assert_eq!(header_detail(44), HeaderDetail::ThemeAndMode);
    assert_eq!(header_detail(43), HeaderDetail::ThemeOnly);
    assert_eq!(footer_kind(true, true, true, true), FooterKind::KillPrompt);
    assert_eq!(footer_kind(false, true, true, true), FooterKind::Search);
    assert_eq!(footer_kind(false, false, true, true), FooterKind::Filter);
    assert_eq!(footer_kind(false, false, false, true), FooterKind::Help);
    assert_eq!(footer_kind(false, false, false, false), FooterKind::Hints);
}

#[test]
fn bar_reference_never_zero() {
    assert_eq!(bar_reference(0, None, None, SortMetric::Rss), 1);
    assert_eq!(bar_reference(10, Some(0), None, SortMetric::Pss), 1);
    assert_eq!(bar_reference(10, Some(5), None, SortMetric::Pss), 5);
    assert_eq!(bar_reference(10, Some(5), None, SortMetric::Uss), 10);
}

#[test]
fn startup_option_names() {
    assert_eq!(display_mode(true, true, true), "compact");
    assert_eq!(display_mode(false, true, true), "mini");
    assert_eq!(display_mode(false, false, true), "tiny");
    assert_eq!(display_mode(false, false, false), "hero");
    assert_eq!(symbol_named("braille"), GraphSymbol::Braille);
    assert_eq!(symbol_named("block"), GraphSymbol::Block);
    assert_eq!(sort_metric_named("pss"), SortMetric::Pss);
    assert_eq!(sort_metric_named("uss"), SortMetric::Uss);
    assert_eq!(sort_metric_named("name"), SortMetric::Name);
    assert_eq!(sort_metric_named("rss"), SortMetric::Rss);
    assert_eq!(sort_metric_named("PSS"), SortMetric::Rss);
}
