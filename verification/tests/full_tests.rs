use termstyle::{
    Basic, Color, Config, Csi, CursorPosition, Event, Full, Sgr, StyleState, StyledRun,
    TerminalKind,
};

fn feed_str(t: &mut Full, cfg: &Config, s: &str) {
    for c in s.chars() {
        t.march(&Event::Data(c), cfg);
    }
}

fn narrow_cfg(max_columns: usize) -> Config {
    let mut cfg = Config::dark();
    cfg.max_columns = max_columns;
    cfg
}

#[test]
fn fresh_buffer_has_one_empty_line() {
    let cfg = Config::dark();
    let t = Full::new(&cfg);
    assert_eq!(t.line_count(), 1);
    assert_eq!(t.cursor(), CursorPosition::new());
    let (items, wake) = t.render(&cfg, 0);
    assert_eq!(items.len(), 0);
    assert_eq!(wake, None);
}

#[test]
fn newline_appends_a_fresh_line_and_homes_the_column() {
    let cfg = Config::dark();
    let mut t = Full::new(&cfg);
    feed_str(&mut t, &cfg, "ab\ncd");
    assert_eq!(t.line_count(), 2);
    let c = t.cursor();
    assert_eq!(c.line, 2);
    assert_eq!(c.column, 3);
    assert_eq!(c.line_text_index, 2);
    assert_eq!(c.line_fmt_index, 1);
}

#[test]
fn render_marks_line_breaks_between_lines() {
    let cfg = Config::dark();
    let mut t = Full::new(&cfg);
    feed_str(&mut t, &cfg, "a\nb");
    let (items, _) = t.render(&cfg, 0);
    // one run per line, one opaque break marker in between, none trailing
    assert_eq!(items.len(), 3);
    assert_eq!(items[0].text, vec!['a']);
    assert_eq!(items[1].text, vec!['\n']);
    assert_eq!(items[1].style.color.a, 0);
    assert_eq!(items[2].text, vec!['b']);
}

#[test]
fn runs_coalesce_within_a_line() {
    let cfg = Config::dark();
    let mut t = Full::new(&cfg);
    feed_str(&mut t, &cfg, "aa");
    t.march(
        &Event::Csi(Csi::SelectGraphicRendition(vec![Sgr::Fg(Color::Red)])),
        &cfg,
    );
    feed_str(&mut t, &cfg, "bb");
    let (items, _) = t.render(&cfg, 0);
    assert_eq!(items.len(), 2);
    assert_eq!(items[0].text, vec!['a', 'a']);
    assert_eq!(items[1].text, vec!['b', 'b']);
    assert_eq!(items[1].style.color, cfg.red);
}

#[test]
fn wide_char_at_the_cap_wraps_to_a_new_line() {
    let cfg = narrow_cfg(2);
    let mut t = Full::new(&cfg);
    feed_str(&mut t, &cfg, "a");
    assert_eq!(t.cursor().column, 2);
    t.march(&Event::Data('\u{3042}'), &cfg);
    assert_eq!(t.line_count(), 2);
    let c = t.cursor();
    assert_eq!(c.line, 2);
    // the wide character advanced the fresh line's column by two
    assert_eq!(c.column, 3);
}

#[test]
fn unimplemented_sequences_are_counted_not_acted_on() {
    let cfg = Config::dark();
    let mut t = Full::new(&cfg);
    feed_str(&mut t, &cfg, "ab");
    assert_eq!(t.unimplemented_count(), 0);
    // deliberately ignored motions: not counted
    t.march(&Event::Csi(Csi::CursorRight(2)), &cfg);
    t.march(&Event::Csi(Csi::CursorLeft(1)), &cfg);
    t.march(&Event::Csi(Csi::CursorDown(1)), &cfg);
    t.march(&Event::Csi(Csi::CursorHorizontalAbsolute(5)), &cfg);
    assert_eq!(t.unimplemented_count(), 0);
    // recognized but unimplemented in this scope: counted, no effect
    t.march(&Event::Csi(Csi::CursorUp(1)), &cfg);
    t.march(&Event::Csi(Csi::EraseLine), &cfg);
    t.march(&Event::Csi(Csi::SaveScreen), &cfg);
    assert_eq!(t.unimplemented_count(), 3);
    assert_eq!(t.line_count(), 1);
    let (items, _) = t.render(&cfg, 0);
    assert_eq!(items.len(), 1);
    assert_eq!(items[0].text, vec!['a', 'b']);
}

#[test]
fn erase_display_clears_lines_and_cursor() {
    let cfg = Config::dark();
    let mut t = Full::new(&cfg);
    t.march(
        &Event::Csi(Csi::SelectGraphicRendition(vec![Sgr::Italic])),
        &cfg,
    );
    feed_str(&mut t, &cfg, "a\nb\nc");
    t.march(&Event::Csi(Csi::CursorUp(1)), &cfg);
    t.march(&Event::Csi(Csi::EraseDisplay), &cfg);
    assert_eq!(t.line_count(), 1);
    assert_eq!(t.cursor(), CursorPosition::new());
    // the style state is reset on erase-display, like on an SGR reset
    assert_eq!(t.style_state(), StyleState::new());
    // the diagnostic count survives a clear
    assert_eq!(t.unimplemented_count(), 1);
}

#[test]
fn blink_swap_applies_across_lines() {
    let cfg = Config::dark();
    let mut t = Full::new(&cfg);
    t.march(
        &Event::Csi(Csi::SelectGraphicRendition(vec![Sgr::SlowBlink])),
        &cfg,
    );
    feed_str(&mut t, &cfg, "a\nb");
    let (items, wake) = t.render(&cfg, 700);
    assert_eq!(items[0].style.color, cfg.black);
    assert_eq!(items[2].style.color, cfg.black);
    assert_eq!(wake, Some(300));
}

fn drive<K: TerminalKind>(cfg: &Config) -> (Vec<StyledRun>, Option<u64>) {
    let mut t = K::new(cfg);
    t.march(&Event::Data('h'), cfg);
    t.march(&Event::Data('i'), cfg);
    let out = t.render(cfg, 0);
    t.clear();
    out
}

#[test]
fn both_variants_drive_through_the_trait() {
    let cfg = Config::dark();
    let (basic_runs, _) = drive::<Basic>(&cfg);
    let (full_runs, _) = drive::<Full>(&cfg);
    assert_eq!(basic_runs.len(), 1);
    assert_eq!(full_runs.len(), 1);
    assert_eq!(basic_runs[0].text, vec!['h', 'i']);
    assert_eq!(full_runs[0].text, basic_runs[0].text);
    assert_eq!(full_runs[0].style, basic_runs[0].style);
}
