use ram_tui::ansi::{bg_rgb, fg_rgb, rgb_to_ansi, strip_ansi};
use ram_tui::cellwidth::{
    char_cell_width, clamp_line_to_cols, pad_plain_cells, truncate_plain_cells, visible_cell_width,
};
use ram_tui::civil::epoch_to_civil;
use ram_tui::clamp::clamp_val;
use ram_tui::format::{format_bytes, iso_timestamp, local_now_hms, log_timestamp, sanitize_text};
use ram_tui::framebuf::FrameBuffer;
use ram_tui::meter::{render_meter_cells, GraphSymbol};

#[test]
fn test_strip_ansi() {
    let s = "\x1b[38;2;255;0;0mhello\x1b[0m world";
    assert_eq!(strip_ansi(s), "hello world");
}

#[test]
fn test_fg_rgb() {
    assert_eq!(fg_rgb(100, 200, 50), "\x1b[38;2;100;200;50m");
}

#[test]
fn background_escape() {
    assert_eq!(bg_rgb(1, 2, 3), "\x1b[48;2;1;2;3m");
}

#[test]
fn test_ascii_width() {
    assert_eq!(visible_cell_width("hello"), 5);
}

#[test]
fn test_cjk_width() {
    // Each CJK character is 2 cells wide
    assert_eq!(visible_cell_width("你好"), 4);
}

#[test]
fn test_truncate() {
    let t = truncate_plain_cells("hello world", 7, "~");
    assert!(visible_cell_width(&t) <= 7);
    assert!(t.ends_with('~'));
}

#[test]
fn truncate_exact_result() {
    assert_eq!(truncate_plain_cells("hello world", 7, "~"), "hello ~");
    assert_eq!(truncate_plain_cells("short", 7, "~"), "short");
    assert_eq!(truncate_plain_cells("你好世界", 5, "~"), "你好~");
    assert_eq!(truncate_plain_cells("abc", 0, "~"), "");
}

#[test]
fn test_pad_left() {
    let p = pad_plain_cells("hi", 6, true);
    assert_eq!(p, "hi    ");
    assert_eq!(visible_cell_width(&p), 6);
}

#[test]
fn test_pad_right() {
    let p = pad_plain_cells("hi", 6, false);
    assert_eq!(p, "    hi");
}

#[test]
fn test_clamp() {
    let line = "a]b]c]d]e]f]g]h]i]j]k]l]m]n]o]p";
    let clamped = clamp_line_to_cols(line, 5);
    assert!(visible_cell_width(&clamped) <= 5);
}

#[test]
fn clamp_keeps_fitting_lines_and_strips_escapes_of_long_ones() {
    assert_eq!(clamp_line_to_cols("\x1b[1mabc\x1b[0m", 5), "\x1b[1mabc\x1b[0m");
    assert_eq!(clamp_line_to_cols("\x1b[1mabcdef\x1b[0m", 4), "abcd");
    assert_eq!(clamp_line_to_cols("abc", 0), "");
}

#[test]
fn test_zero_width_chars() {
    assert_eq!(char_cell_width('\u{200d}'), 0);
    assert_eq!(char_cell_width('\u{200b}'), 0);
    assert_eq!(char_cell_width('\u{feff}'), 0);
}

#[test]
fn control_and_wide_char_widths() {
    assert_eq!(char_cell_width('\n'), 0);
    assert_eq!(char_cell_width('a'), 1);
    assert_eq!(char_cell_width('你'), 2);
}

#[test]
fn test_rgb_to_ansi() {
    assert_eq!(rgb_to_ansi((255, 0, 128)), "\x1b[38;2;255;0;128m");
}

#[test]
fn test_format_bytes_boundaries() {
    assert_eq!(format_bytes(0, 2), "0 B");
    assert_eq!(format_bytes(1023, 2), "1023 B");
    assert_eq!(format_bytes(1024, 2), "1.00 KB");
    assert_eq!(format_bytes(1024 * 1024, 2), "1.00 MB");
    assert_eq!(format_bytes(1024 * 1024 * 1024, 2), "1.00 GB");
    assert_eq!(format_bytes(2 * 1024u64 * 1024 * 1024 * 1024, 2), "2.00 TB");
}

#[test]
fn format_bytes_agrees_with_float_formatting() {
    let values: [u64; 12] = [
        1024,
        1536,
        1000 * 1024,
        1_048_575,
        123_456_789,
        5_368_709_120,
        1_099_511_627_775,
        1_099_511_627_776,
        9_007_199_254_740_993,
        18_446_744_073_709_551_615,
        3 * 1024 * 1024 + 512 * 1024,
        2_621_440,
    ];
    for &v in &values {
        for prec in 0..4usize {
            let expected = if v < 1024 {
                format!("{v} B")
            } else if v < 1024 * 1024 {
                format!("{:.prec$} KB", v as f64 / 1024.0, prec = prec)
            } else if v < 1024 * 1024 * 1024 {
                format!("{:.prec$} MB", v as f64 / (1024.0 * 1024.0), prec = prec)
            } else if v < 1024u64 * 1024 * 1024 * 1024 {
                format!("{:.prec$} GB", v as f64 / (1024.0 * 1024.0 * 1024.0), prec = prec)
            } else {
                format!("{:.prec$} TB", v as f64 / (1024.0 * 1024.0 * 1024.0 * 1024.0), prec = prec)
            };
            assert_eq!(format_bytes(v, prec), expected, "value {v} precision {prec}");
        }
    }
}

#[test]
fn test_sanitize() {
    let text = "hello\n\x1b[31;1mworld\x1b[0m\tok\u{202e}override\u{202d}lro\u{feff}bom\u{200b}zwsp";
    let clean = sanitize_text(text);
    assert!(!clean.contains('\n'));
    assert!(!clean.contains('\x1b'));
    assert!(!clean.contains('\u{202e}'));
    assert!(!clean.contains('\u{202d}'));
    assert!(!clean.contains('\u{feff}'));
    assert!(!clean.contains('\u{200b}'));
    assert_eq!(clean, "hello~world~ok~override~lro~bom~zwsp");
}

#[test]
fn sanitize_is_idempotent_on_an_example() {
    let once = sanitize_text("a\x1b[2Jb\u{7f}c");
    assert_eq!(once, "ab~c");
    assert_eq!(sanitize_text(&once), once);
}

#[test]
fn test_epoch_to_civil_known_dates() {
    // Unix epoch: 1970-01-01 00:00:00 UTC
    assert_eq!(epoch_to_civil(0), (1970, 1, 1, 0, 0, 0));
    // 2000-01-01 00:00:00 UTC = 946684800
    assert_eq!(epoch_to_civil(946684800), (2000, 1, 1, 0, 0, 0));
    // Leap day 2000-02-29 12:34:56 UTC = 951827696
    assert_eq!(epoch_to_civil(951827696), (2000, 2, 29, 12, 34, 56));
    // Leap day 2024-02-29 00:00:00 UTC = 1709164800
    assert_eq!(epoch_to_civil(1709164800), (2024, 2, 29, 0, 0, 0));
    // Year boundary 2026-12-31 23:59:59 UTC = 1798761599
    assert_eq!(epoch_to_civil(1798761599), (2026, 12, 31, 23, 59, 59));
    // Next day 2027-01-01 00:00:00 UTC = 1798761600
    assert_eq!(epoch_to_civil(1798761600), (2027, 1, 1, 0, 0, 0));
}

#[test]
fn timestamps_from_civil_time() {
    let t = (2026, 9, 2, 0, 25, 30);
    assert_eq!(iso_timestamp(t), "2026-09-02T00:25:30");
    assert_eq!(log_timestamp(t), "2026-09-02 00:25:30");
    assert_eq!(local_now_hms(t), "00:25:30");
}

#[test]
fn clamp_val_bounds() {
    assert_eq!(clamp_val(5, 1, 10), 5);
    assert_eq!(clamp_val(-3, 1, 10), 1);
    assert_eq!(clamp_val(42, 1, 10), 10);
}

#[test]
fn test_initial_render() {
    let fb = FrameBuffer::new();
    let lines = vec!["hello".to_string(), "world".to_string()];
    let output = fb.render(&lines);
    assert!(output.contains("hello"));
    assert!(output.contains("world"));
}

#[test]
fn test_diff_render_skips_unchanged() {
    let mut fb = FrameBuffer::new();
    let lines1 = vec!["line1".to_string(), "line2".to_string()];
    let _ = fb.render(&lines1);
    fb.commit(&lines1);
    // Same content — only HOME is written, no line content re-emitted
    let s2 = fb.render(&lines1);
    assert!(!s2.contains("line1"));
    assert!(!s2.contains("line2"));
}

#[test]
fn test_invalidate_forces_redraw() {
    let mut fb = FrameBuffer::new();
    let lines = vec!["data".to_string()];
    let _ = fb.render(&lines);
    fb.commit(&lines);
    fb.invalidate();
    let s2 = fb.render(&lines);
    assert!(s2.contains("data"));
}

#[test]
fn frame_output_exact_bytes() {
    let mut fb = FrameBuffer::default();
    let frame1 = ["ab".to_string(), "cd".to_string(), "ef".to_string()];
    let first = fb.render(&frame1);
    assert_eq!(first, "\x1b[H\x1b[1;1Hab\x1b[K\x1b[2;1Hcd\x1b[K\x1b[3;1Hef\x1b[K");
    fb.commit(&frame1);
    let frame2 = ["ab".to_string(), "XY".to_string()];
    let second = fb.render(&frame2);
    assert_eq!(second, "\x1b[H\x1b[2;1HXY\x1b[K\x1b[3;1H\x1b[J");
    fb.commit(&frame2);
    let third = fb.render(&frame2);
    assert_eq!(third, "\x1b[H");
}

#[test]
fn uncommitted_frame_is_diffed_again() {
    let mut fb = FrameBuffer::new();
    let frame1 = ["ab".to_string()];
    fb.commit(&frame1);
    // the write of this frame failed: nothing is committed
    let lost = fb.render(&["cd".to_string()]);
    assert_eq!(lost, "\x1b[H\x1b[1;1Hcd\x1b[K");
    // so the next frame is still diffed against the one on screen
    assert_eq!(fb.render(&["ab".to_string()]), "\x1b[H");
}

#[test]
fn meter_layout_blocks_and_braille() {
    let colors: Vec<String> = (0..10).map(|i| format!("<{i}>")).collect();
    // 4 cells, 19 eighths: 2 full cells, a 3/8 cell, 1 empty
    let m = render_meter_cells(GraphSymbol::Block, 4, 19, &colors, "R", "T");
    assert_eq!(m, "<0>█<1>█<2>▍RT░R");
    // braille: 3 cells, 3 halves: one full cell, a half cell, one empty
    let b = render_meter_cells(GraphSymbol::Braille, 3, 3, &colors, "R", "T");
    assert_eq!(b, "<0>⣿<1>⡇RT░R");
    // width 0 counts as 1
    let z = render_meter_cells(GraphSymbol::Block, 0, 0, &colors, "", "");
    assert_eq!(z, "░");
}

#[test]
fn graph_symbol_cycle_and_names() {
    assert_eq!(GraphSymbol::Block.cycle(), GraphSymbol::Braille);
    assert_eq!(GraphSymbol::Block.cycle().cycle(), GraphSymbol::Block);
    assert_eq!(GraphSymbol::Block.name(), "block");
    assert_eq!(GraphSymbol::Braille.name(), "braille");
}

#[test]
fn sanitize_is_idempotent() {
    let text = "a\x1b[2Jb\u{202e}c\td\u{200b}e";
    let once = sanitize_text(text);
    assert_eq!(sanitize_text(&once), once);
    assert_eq!(sanitize_text("plain text"), "plain text");
}
