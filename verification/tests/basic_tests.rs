use termstyle::{Basic, Color, Config, Csi, Event, Rgba, Sgr, StyleState};

fn feed_str(t: &mut Basic, cfg: &Config, s: &str) {
    for c in s.chars() {
        t.march(&Event::Data(c), cfg);
    }
}

fn narrow_cfg(max_columns: usize, max_lines: usize) -> Config {
    let mut cfg = Config::dark();
    cfg.max_columns = max_columns;
    cfg.max_lines = max_lines;
    cfg
}

#[test]
fn same_style_span_is_one_run() {
    let cfg = Config::dark();
    let mut t = Basic::new(&cfg);
    feed_str(&mut t, &cfg, "aaa");
    assert_eq!(t.run_count(), 1);
    let (runs, _) = t.render(&cfg, 0);
    assert_eq!(runs.len(), 1);
    assert_eq!(runs[0].text, vec!['a', 'a', 'a']);
}

#[test]
fn style_change_opens_a_new_run() {
    let cfg = Config::dark();
    let mut t = Basic::new(&cfg);
    feed_str(&mut t, &cfg, "ab");
    t.march(
        &Event::Csi(Csi::SelectGraphicRendition(vec![Sgr::Bold])),
        &cfg,
    );
    feed_str(&mut t, &cfg, "cd");
    assert_eq!(t.run_count(), 2);
    let (runs, _) = t.render(&cfg, 0);
    assert_eq!(runs[0].text, vec!['a', 'b']);
    assert_eq!(runs[1].text, vec!['c', 'd']);
}

#[test]
fn render_concat_reproduces_text() {
    let cfg = narrow_cfg(5, 100);
    let mut t = Basic::new(&cfg);
    t.march(
        &Event::Csi(Csi::SelectGraphicRendition(vec![Sgr::Italic])),
        &cfg,
    );
    feed_str(&mut t, &cfg, "hello world");
    t.march(
        &Event::Csi(Csi::SelectGraphicRendition(vec![Sgr::Reset])),
        &cfg,
    );
    feed_str(&mut t, &cfg, "more\ntext");
    let text = t.text_chars();
    let (runs, _) = t.render(&cfg, 0);
    let mut concat: Vec<char> = Vec::new();
    for run in &runs {
        concat.extend(run.text.iter().copied());
    }
    assert_eq!(concat, text);
}

#[test]
fn bold_red_hello_scenario() {
    let cfg = Config::dark();
    let mut t = Basic::new(&cfg);
    // the decoded form of ESC [1;31m HELLO ESC [0m
    t.march(
        &Event::Csi(Csi::SelectGraphicRendition(vec![
            Sgr::Bold,
            Sgr::Fg(Color::Red),
        ])),
        &cfg,
    );
    feed_str(&mut t, &cfg, "HELLO");
    t.march(
        &Event::Csi(Csi::SelectGraphicRendition(vec![Sgr::Reset])),
        &cfg,
    );
    let (runs, _) = t.render(&cfg, 0);
    assert_eq!(runs.len(), 1);
    assert_eq!(runs[0].text, vec!['H', 'E', 'L', 'L', 'O']);
    // per the weight remap, bold over the named red is the bright red entry
    assert_eq!(runs[0].style.color, cfg.bright_red);
    // the default background maps to the black palette entry
    assert_eq!(runs[0].style.background, cfg.black);
    // the reset applies to subsequent input, not retroactively
    assert_eq!(t.style_state(), StyleState::new());
    let (runs2, _) = t.render(&cfg, 0);
    assert_eq!(runs2[0].style.color, cfg.bright_red);
}

#[test]
fn thousand_and_one_newlines_evict_to_the_cap() {
    let cfg = Config::dark();
    assert_eq!(cfg.max_lines, 1000);
    let mut t = Basic::new(&cfg);
    feed_str(&mut t, &cfg, "A");
    for _ in 0..1001 {
        t.march(&Event::Data('\n'), &cfg);
    }
    assert_eq!(t.line_count(), 1000);
    let text = t.text_chars();
    // the oldest line, the one holding 'A', is gone
    assert!(!text.contains(&'A'));
    // one thousand lines are separated by nine hundred ninety-nine newlines
    assert_eq!(text.len(), 999);
    assert!(text.iter().all(|&c| c == '\n'));
}

#[test]
fn wide_char_at_the_last_column_wraps_before_not_after() {
    let cfg = narrow_cfg(2, 100);
    let mut t = Basic::new(&cfg);
    feed_str(&mut t, &cfg, "a");
    assert_eq!(t.cursor_column(), 2);
    // a double-width character at the cap: the break comes first
    t.march(&Event::Data('\u{3042}'), &cfg);
    assert_eq!(t.text_chars(), vec!['a', '\n', '\u{3042}']);
    assert_eq!(t.line_count(), 2);
    // the injected newline carries the same style, so the span stays one run
    assert_eq!(t.run_count(), 1);
}

#[test]
fn narrow_char_wraps_only_past_the_cap() {
    let cfg = narrow_cfg(3, 100);
    let mut t = Basic::new(&cfg);
    feed_str(&mut t, &cfg, "ab");
    assert_eq!(t.line_count(), 1);
    assert_eq!(t.cursor_column(), 3);
    // one more cell would pass the cap: the line breaks first
    feed_str(&mut t, &cfg, "c");
    assert_eq!(t.text_chars(), vec!['a', 'b', '\n', 'c']);
    assert_eq!(t.line_count(), 2);
}

#[test]
fn cursor_right_inserts_spaces() {
    let cfg = Config::dark();
    let mut t = Basic::new(&cfg);
    feed_str(&mut t, &cfg, "x");
    t.march(&Event::Csi(Csi::CursorRight(3)), &cfg);
    feed_str(&mut t, &cfg, "y");
    assert_eq!(t.text_chars(), vec!['x', ' ', ' ', ' ', 'y']);
    // identical style throughout: still one run
    assert_eq!(t.run_count(), 1);
}

#[test]
fn cursor_next_line_inserts_newlines() {
    let cfg = Config::dark();
    let mut t = Basic::new(&cfg);
    feed_str(&mut t, &cfg, "x");
    t.march(&Event::Csi(Csi::CursorNextLine(2)), &cfg);
    assert_eq!(t.text_chars(), vec!['x', '\n', '\n']);
    assert_eq!(t.line_count(), 3);
    assert_eq!(t.cursor_column(), 1);
}

#[test]
fn erase_display_clears_and_resets_the_pen() {
    let cfg = Config::dark();
    let mut t = Basic::new(&cfg);
    t.march(
        &Event::Csi(Csi::SelectGraphicRendition(vec![Sgr::Bold])),
        &cfg,
    );
    feed_str(&mut t, &cfg, "abc");
    t.march(&Event::Csi(Csi::EraseDisplay), &cfg);
    assert_eq!(t.text_chars(), Vec::<char>::new());
    assert_eq!(t.run_count(), 0);
    assert_eq!(t.line_count(), 1);
    // the style state is reset on erase-display, like on an SGR reset
    assert_eq!(t.style_state(), StyleState::new());
}

#[test]
fn plain_clear_keeps_the_pen() {
    let cfg = Config::dark();
    let mut t = Basic::new(&cfg);
    t.march(
        &Event::Csi(Csi::SelectGraphicRendition(vec![Sgr::Bold])),
        &cfg,
    );
    feed_str(&mut t, &cfg, "abc");
    t.clear();
    assert_eq!(t.text_chars(), Vec::<char>::new());
    let mut pen = StyleState::new();
    pen.sg(Sgr::Bold);
    assert_eq!(t.style_state(), pen);
}

#[test]
fn space_and_control_events_insert_characters() {
    let cfg = Config::dark();
    let mut t = Basic::new(&cfg);
    t.march(&Event::Data('a'), &cfg);
    t.march(&Event::Space, &cfg);
    t.march(&Event::C0(0x09), &cfg);
    assert_eq!(t.text_chars(), vec!['a', ' ', '\t']);
}

#[test]
fn unhandled_csi_and_other_events_are_no_ops() {
    let cfg = Config::dark();
    let mut t = Basic::new(&cfg);
    feed_str(&mut t, &cfg, "ab");
    let before = t.text_chars();
    t.march(&Event::Csi(Csi::CursorUp(5)), &cfg);
    t.march(&Event::Csi(Csi::EraseLine), &cfg);
    t.march(&Event::Csi(Csi::ShowCursor), &cfg);
    t.march(&Event::Other, &cfg);
    assert_eq!(t.text_chars(), before);
    assert_eq!(t.run_count(), 1);
}

#[test]
fn single_overlong_line_never_exceeds_the_cap() {
    let cfg = narrow_cfg(4, 2);
    let mut t = Basic::new(&cfg);
    // every fifth character wraps; eviction keeps at most two lines
    feed_str(&mut t, &cfg, "aaaaaaaaaaaaaaaaaaaaaa");
    assert!(t.line_count() <= 2);
}

#[test]
fn concealed_run_renders_transparent() {
    let cfg = Config::dark();
    let mut t = Basic::new(&cfg);
    t.march(
        &Event::Csi(Csi::SelectGraphicRendition(vec![Sgr::Conceal])),
        &cfg,
    );
    feed_str(&mut t, &cfg, "secret");
    let (runs, _) = t.render(&cfg, 0);
    assert_eq!(runs[0].style.color, Rgba { r: 0, g: 0, b: 0, a: 0 });
}
