use ram_tui::ansi::strip_ansi;
use ram_tui::cellwidth::visible_cell_width;
use ram_tui::layout::{fit_to_rows, join_with_newlines, render_standalone_theme_window};
use ram_tui::meter::GraphSymbol;
use ram_tui::palette::{get_palette, Palette};
use ram_tui::processes::{ProcessChild, ProcessInfo, SortMetric};
use ram_tui::session::{KeyOutcome, Session};
use ram_tui::terminal::{parse_key_buffer, Key, TerminalManager};
use ram_tui::themes::{next_cycling_mode, next_theme, theme_name, theme_parser, THEME_COUNT};

#[test]
fn test_theme_cycling() {
    assert_eq!(next_theme("default"), "dracula");
    assert_eq!(next_theme("monochrome"), "default");
}

#[test]
fn test_mode_cycling() {
    assert_eq!(next_cycling_mode("hero"), "compact");
    assert_eq!(next_cycling_mode("mini"), "hero");
}

#[test]
fn unknown_names_cycle_from_the_first() {
    assert_eq!(next_theme("no-such-theme"), "dracula");
    assert_eq!(next_cycling_mode("tiny"), "compact");
}

#[test]
fn thirteen_theme_steps_come_back() {
    let mut t = "nord".to_string();
    for _ in 0..THEME_COUNT {
        t = next_theme(&t).to_string();
    }
    assert_eq!(t, "nord");
}

#[test]
fn theme_parser_accepts_any_case() {
    assert_eq!(theme_parser("Dracula"), Ok("dracula".to_string()));
    let err = theme_parser("neon").unwrap_err();
    assert_eq!(
        err,
        "unknown theme 'neon'. Available themes: default, dracula, catppuccin, nord, tokyo-night, gruvbox, cyberpunk, rose-pine, everforest, kanagawa, monokai, solarized, monochrome"
    );
}

#[test]
fn test_all_themes_have_palettes() {
    for i in 0..THEME_COUNT {
        let name = theme_name(i);
        let pal = get_palette(name, true);
        if name == "monochrome" {
            assert!(pal.stops.is_empty());
        } else {
            assert!(!pal.stops.is_empty(), "theme {name} has no gradient stops");
        }
    }
}

#[test]
fn test_monochrome_returns_empty_escapes() {
    let pal = get_palette("monochrome", true);
    assert_eq!(pal.header, "");
    assert_eq!(pal.reset, "");
}

#[test]
fn test_color_disabled_returns_monochrome() {
    let pal = get_palette("dracula", false);
    assert_eq!(pal.header, "");
}

#[test]
fn palette_colours_exact() {
    let pal = get_palette("dracula", true);
    assert_eq!(pal.header, "\x1b[38;2;189;147;249m");
    assert_eq!(pal.track, "\x1b[38;2;68;71;90m");
    assert_eq!(pal.reset, "\x1b[0m");
    assert_eq!(pal.stops[1], (30, (189, 147, 249)));
    assert_eq!(get_palette("unknown", true).header, "");
}

#[test]
fn keys_from_raw_bytes() {
    assert_eq!(
        parse_key_buffer(b"\x1b[A\x1b[B\x1b[C\x1b[Dq\r\t\x7f\x03"),
        vec![
            Key::Up,
            Key::Down,
            Key::Right,
            Key::Left,
            Key::Char('q'),
            Key::Enter,
            Key::Tab,
            Key::Backspace,
            Key::Char('\x03')
        ]
    );
    assert_eq!(parse_key_buffer(b"\x1b"), vec![Key::Esc]);
    assert_eq!(parse_key_buffer("é!".as_bytes()), vec![Key::Char('é'), Key::Char('!')]);
    // a valid character before an invalid byte still decodes; the invalid byte is Latin-1
    assert_eq!(parse_key_buffer(&[0xc3, 0xa9, 0xff]), vec![Key::Char('é'), Key::Char('ÿ')]);
    // a truncated or broken sequence falls back to Latin-1 byte by byte
    assert_eq!(parse_key_buffer(&[0xe2, 0x82]), vec![Key::Char('â'), Key::Char('\u{82}')]);
    assert_eq!(parse_key_buffer(&[0xc3, 0x41]), vec![Key::Char('Ã'), Key::Char('A')]);
    assert_eq!(parse_key_buffer("€😀".as_bytes()), vec![Key::Char('€'), Key::Char('😀')]);
    // overlong and surrogate encodings are not characters
    assert_eq!(parse_key_buffer(&[0xc0, 0x80]), vec![Key::Char('À'), Key::Char('\u{80}')]);
    assert_eq!(parse_key_buffer(&[0xed, 0xa0, 0x80]), vec![Key::Char('í'), Key::Char('\u{a0}'), Key::Char('\u{80}')]);
    assert_eq!(parse_key_buffer(b""), vec![]);
}

#[test]
fn terminal_restores_once() {
    let mut t = TerminalManager::with_terminal(true, 0);
    assert!(t.restore());
    assert!(!t.restore());
    t.mark_raw();
    assert!(t.restore());
}

fn sample_procs() -> Vec<ProcessInfo> {
    let child = |pid: u32, rss: u64| ProcessChild { pid, name: "web".to_string(), rss, pss: None, uss: None };
    vec![
        ProcessInfo {
            name: "web".to_string(),
            rss: 300,
            pss: Some(10),
            uss: None,
            count: 2,
            pid: None,
            children: vec![child(11, 200), child(12, 100)],
        },
        ProcessInfo {
            name: "Database".to_string(),
            rss: 200,
            pss: Some(500),
            uss: None,
            count: 1,
            pid: None,
            children: vec![child(21, 200)],
        },
    ]
}

fn session() -> Session {
    Session::new(
        50,
        true,
        false,
        None,
        "default".to_string(),
        GraphSymbol::Block,
        "hero".to_string(),
        SortMetric::Rss,
    )
}

#[test]
fn session_refresh_rate_stays_in_range() {
    let mut s = session();
    let mut procs = sample_procs();
    for _ in 0..10 {
        s.handle_key(Key::Char('+'), &mut procs);
    }
    assert_eq!(s.refresh_ms, 20);
    for _ in 0..50 {
        s.handle_key(Key::Char('-'), &mut procs);
    }
    assert_eq!(s.refresh_ms, 2000);
}

#[test]
fn session_search_filters_selection_and_expands() {
    let mut s = session();
    let mut procs = sample_procs();
    assert!(matches!(s.handle_key(Key::Char('/'), &mut procs), KeyOutcome::Redraw));
    for c in "DATA".chars() {
        s.handle_key(Key::Char(c), &mut procs);
    }
    s.handle_key(Key::Enter, &mut procs);
    assert_eq!(s.search_query.as_deref(), Some("DATA"));
    assert!(!s.search_active);
    // only "Database" matches; moving down stays on it
    s.handle_key(Key::Down, &mut procs);
    assert_eq!(s.selected_idx, 0);
    s.handle_key(Key::Char('e'), &mut procs);
    assert_eq!(s.expanded_groups, vec!["Database".to_string()]);
    s.handle_key(Key::Char('e'), &mut procs);
    assert!(s.expanded_groups.is_empty());
    s.handle_key(Key::Esc, &mut procs);
    assert_eq!(s.search_query, None);
}

#[test]
fn session_kill_prompt_flow() {
    let mut s = session();
    let mut procs = sample_procs();
    match s.handle_key(Key::Char('x'), &mut procs) {
        KeyOutcome::PromptKill { pid, name } => {
            assert_eq!(pid, 11);
            assert_eq!(name, "web");
        }
        _ => panic!("expected a kill prompt"),
    }
    match s.handle_key(Key::Char('y'), &mut procs) {
        KeyOutcome::Kill { pid, .. } => assert_eq!(pid, 11),
        _ => panic!("expected a kill"),
    }
    assert!(s.kill_prompt.is_none());
    s.handle_key(Key::Char('x'), &mut procs);
    assert!(matches!(s.handle_key(Key::Char('n'), &mut procs), KeyOutcome::Redraw));
    assert!(s.kill_prompt.is_none());
}

#[test]
fn session_sort_key_resorts_and_quit() {
    let mut s = session();
    let mut procs = sample_procs();
    s.handle_key(Key::Char('o'), &mut procs);
    assert_eq!(s.sort_metric, SortMetric::Pss);
    assert_eq!(procs[0].name, "Database");
    assert!(matches!(s.handle_key(Key::Char('q'), &mut procs), KeyOutcome::Quit));
}

#[test]
fn session_theme_selector() {
    let mut s = session();
    let mut procs = sample_procs();
    s.handle_key(Key::Char('T'), &mut procs);
    assert!(s.theme_modal_open);
    s.handle_key(Key::Down, &mut procs);
    s.handle_key(Key::Down, &mut procs);
    s.handle_key(Key::Enter, &mut procs);
    assert_eq!(s.current_theme, "catppuccin");
    assert!(!s.theme_modal_open);
    s.handle_key(Key::Char('t'), &mut procs);
    assert_eq!(s.current_theme, "nord");
    assert_eq!(s.theme_modal_idx, 3);
    s.handle_key(Key::Char('m'), &mut procs);
    assert_eq!(s.current_mode, "compact");
    s.handle_key(Key::Char('s'), &mut procs);
    assert_eq!(s.current_symbol, GraphSymbol::Braille);
}

#[test]
fn rows_are_fitted_and_joined() {
    let lines = vec!["a".to_string(), "b".to_string()];
    assert_eq!(fit_to_rows(lines.clone(), 1, true), vec!["a".to_string()]);
    let padded = fit_to_rows(lines.clone(), 6, true);
    assert_eq!(padded, vec!["", "", "a", "b"]);
    assert_eq!(join_with_newlines(&padded), "\n\na\nb");
    assert_eq!(fit_to_rows(lines, 6, false).len(), 2);
}

#[test]
fn theme_window_without_colour() {
    let pal = Palette::monochrome();
    let out = render_standalone_theme_window(1, &pal, 50, 30, false, false);
    let lines: Vec<&str> = out.split('\n').collect();
    assert_eq!(lines.len(), 21);
    assert_eq!(lines[0], "    RAM-TUI  ·  THEME SELECTOR");
    assert_eq!(lines[4], "    │    ● default                         │");
    assert_eq!(lines[5], "    │  ▶ ● dracula                         │");
    assert_eq!(lines[19], "    │ ↑/↓ navigate  Enter apply  Esc cancel│");
    assert_eq!(lines[20], "    └──────────────────────────────────────┘");
}

#[test]
fn colour_choice() {
    use_color_cases();
}

fn use_color_cases() {
    assert!(ram_tui::terminal::color_wanted(false, Some("xterm-256color"), true, true));
    assert!(ram_tui::terminal::color_wanted(false, None, true, true));
    assert!(!ram_tui::terminal::color_wanted(true, None, true, true));
    assert!(!ram_tui::terminal::color_wanted(false, Some("DUMB"), true, true));
    assert!(!ram_tui::terminal::color_wanted(false, Some("xterm"), false, true));
    assert!(!ram_tui::terminal::color_wanted(false, Some("xterm"), true, false));
}

#[test]
fn terminal_size_fallback() {
    assert_eq!(ram_tui::terminal::size_or_default(120, 40), (120, 40));
    assert_eq!(ram_tui::terminal::size_or_default(0, 40), (80, 24));
    assert_eq!(ram_tui::terminal::size_or_default(120, 0), (80, 24));
}

fn rgb_of(escape: &str) -> (u32, u32, u32) {
    let body = escape.trim_start_matches("\x1b[38;2;").trim_end_matches('m');
    let v: Vec<u32> = body.split(';').map(|x| x.parse().unwrap()).collect();
    (v[0], v[1], v[2])
}

#[test]
fn default_theme_health_colours() {
    let p = get_palette("default", true);
    let (r, g, b) = rgb_of(&p.good);
    assert!(g > r && g > b, "good is green");
    let (r, g, b) = rgb_of(&p.warning);
    assert!(r > b && g > b, "warning is yellow");
    let (r, g, b) = rgb_of(&p.critical);
    assert!(r > g && r > b, "critical is red");
}

#[test]
fn theme_box_lines_up_in_colour() {
    for idx in 0..13 {
        let pal = get_palette(theme_name(idx), true);
        let out = render_standalone_theme_window(idx, &pal, 80, 40, true, false);
        let lines: Vec<&str> = out.split('\n').collect();
        let top = lines.iter().position(|l| l.contains('┌')).unwrap();
        let bottom = lines.iter().position(|l| l.contains('└')).unwrap();
        assert_eq!(bottom - top, 18);
        for l in &lines[top..=bottom] {
            assert_eq!(visible_cell_width(l), 19 + 40, "{}", strip_ansi(l));
        }
    }
}
