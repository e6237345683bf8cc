use termstyle::{Blinking, Color, Csi, Event, Script, Sgr, StyleState, Underline, Weight};

fn fresh() -> StyleState {
    StyleState::new()
}

#[test]
fn new_is_all_defaults() {
    let s = fresh();
    assert_eq!(s.fg, Color::Default);
    assert_eq!(s.bg, Color::Default);
    assert!(!s.proportional);
    assert!(!s.italic);
    assert_eq!(s.weight, Weight::Normal);
    assert_eq!(s.script, Script::Baseline);
    assert_eq!(s.blinking, Blinking::Off);
    assert_eq!(s.underline, Underline::Off);
    assert_eq!(s.underline_color, None);
    assert!(!s.invert_fg_bg);
    assert!(!s.strike_through);
    assert!(!s.conceal);
}

#[test]
fn sg_sets_exactly_its_fields() {
    let mut s = fresh();
    s.sg(Sgr::Bold);
    assert_eq!(s.weight, Weight::Bold);
    assert_eq!(s.fg, Color::Default);
    s.sg(Sgr::Italic);
    assert!(s.italic);
    assert_eq!(s.weight, Weight::Bold);
    s.sg(Sgr::Fg(Color::Red));
    assert_eq!(s.fg, Color::Red);
    assert_eq!(s.bg, Color::Default);
    s.sg(Sgr::Underline);
    assert_eq!(s.underline, Underline::Single);
    s.sg(Sgr::DoublyUnderlined);
    assert_eq!(s.underline, Underline::Double);
    s.sg(Sgr::UnderlineColor(Color::Blue));
    assert_eq!(s.underline_color, Some(Color::Blue));
    s.sg(Sgr::Subscript);
    assert_eq!(s.script, Script::Sub);
    s.sg(Sgr::RapidBlink);
    assert_eq!(s.blinking, Blinking::Fast);
}

#[test]
fn reset_restores_every_field() {
    let mut s = fresh();
    s.sg(Sgr::Bold);
    s.sg(Sgr::Fg(Color::Rgb(1, 2, 3)));
    s.sg(Sgr::Bg(Color::Cyan));
    s.sg(Sgr::Italic);
    s.sg(Sgr::SlowBlink);
    s.sg(Sgr::Conceal);
    s.sg(Sgr::CrossedOut);
    s.sg(Sgr::InvertFgBg);
    s.sg(Sgr::ProportionalSpacing);
    s.sg(Sgr::Superscript);
    s.sg(Sgr::UnderlineColor(Color::Green));
    s.sg(Sgr::Reset);
    assert_eq!(s, fresh());
}

#[test]
fn reset_twice_equals_reset_once() {
    let mut once = fresh();
    once.sg(Sgr::Bold);
    once.sg(Sgr::Fg(Color::Red));
    let mut twice = once.clone();
    once.sg(Sgr::Reset);
    twice.sg(Sgr::Reset);
    twice.sg(Sgr::Reset);
    assert_eq!(once, twice);
}

#[test]
fn every_code_is_idempotent() {
    let codes = vec![
        Sgr::Bold,
        Sgr::Faint,
        Sgr::Italic,
        Sgr::Underline,
        Sgr::SlowBlink,
        Sgr::RapidBlink,
        Sgr::InvertFgBg,
        Sgr::Conceal,
        Sgr::CrossedOut,
        Sgr::Superscript,
        Sgr::Subscript,
        Sgr::ProportionalSpacing,
        Sgr::Fg(Color::Magenta),
        Sgr::Bg(Color::Rgb(9, 9, 9)),
        Sgr::UnderlineColor(Color::Yellow),
        Sgr::Reset,
    ];
    for code in codes {
        let mut s = fresh();
        s.sg(Sgr::Bold);
        s.sg(Sgr::Bg(Color::Blue));
        let mut a = s.clone();
        a.sg(code);
        let mut b = a.clone();
        b.sg(code);
        assert_eq!(a, b);
    }
}

#[test]
fn unrecognized_codes_change_nothing() {
    let mut s = fresh();
    s.sg(Sgr::Bold);
    let before = s.clone();
    s.sg(Sgr::PrimaryFont);
    s.sg(Sgr::AlternativeFont(3));
    s.sg(Sgr::Fraktur);
    s.sg(Sgr::Unsupported);
    assert_eq!(s, before);
}

#[test]
fn march_routes_only_sgr() {
    let mut s = fresh();
    s.march(&Event::Csi(Csi::SelectGraphicRendition(vec![
        Sgr::Bold,
        Sgr::Fg(Color::Green),
    ])));
    assert_eq!(s.weight, Weight::Bold);
    assert_eq!(s.fg, Color::Green);
    let before = s.clone();
    s.march(&Event::Data('x'));
    s.march(&Event::Csi(Csi::CursorUp(3)));
    s.march(&Event::Other);
    assert_eq!(s, before);
}
