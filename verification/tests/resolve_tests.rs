use termstyle::{Align, Blinking, Color, Config, Rgba, Sgr, StyleState, Weight};

fn opaque(r: u8, g: u8, b: u8) -> Rgba {
    Rgba { r, g, b, a: 255 }
}

#[test]
fn defaults_map_to_white_on_black() {
    let cfg = Config::dark();
    let s = StyleState::new();
    let r = s.resolve(&cfg);
    // the deliberate asymmetric defaulting: foreground to the white entry,
    // background to the black entry
    assert_eq!(r.color, cfg.white);
    assert_eq!(r.background, cfg.black);
}

#[test]
fn bold_named_red_selects_bright_red() {
    let cfg = Config::dark();
    let mut s = StyleState::new();
    s.sg(Sgr::Fg(Color::Red));
    s.sg(Sgr::Bold);
    let r = s.resolve(&cfg);
    assert_eq!(r.color, cfg.bright_red);
}

#[test]
fn bold_rgb_gamma_scales_by_three_halves() {
    let cfg = Config::dark();
    let mut s = StyleState::new();
    s.sg(Sgr::Fg(Color::Rgb(10, 10, 10)));
    s.sg(Sgr::Bold);
    let r = s.resolve(&cfg);
    assert_eq!(r.color, opaque(15, 15, 15));
}

#[test]
fn bold_rgb_gamma_clamps_at_top() {
    let cfg = Config::dark();
    let mut s = StyleState::new();
    s.sg(Sgr::Fg(Color::Rgb(200, 255, 0)));
    s.sg(Sgr::Bold);
    let r = s.resolve(&cfg);
    assert_eq!(r.color, opaque(255, 255, 0));
}

#[test]
fn faint_bright_named_selects_dim_sibling() {
    let cfg = Config::dark();
    let mut s = StyleState::new();
    s.sg(Sgr::Fg(Color::BrightCyan));
    s.sg(Sgr::Faint);
    let r = s.resolve(&cfg);
    assert_eq!(r.color, cfg.cyan);
}

#[test]
fn faint_standard_named_gamma_scales_down() {
    let cfg = Config::dark();
    let mut s = StyleState::new();
    s.sg(Sgr::Fg(Color::Red));
    s.sg(Sgr::Faint);
    let r = s.resolve(&cfg);
    // only the bright named colors have dim siblings; the standard red is
    // halved component-wise instead
    let red = cfg.red;
    assert_eq!(
        r.color,
        Rgba { r: red.r / 2, g: red.g / 2, b: red.b / 2, a: red.a / 2 }
    );
}

#[test]
fn invert_swaps_resolved_colors() {
    let cfg = Config::dark();
    let mut s = StyleState::new();
    s.sg(Sgr::Fg(Color::Green));
    s.sg(Sgr::Bg(Color::Blue));
    s.sg(Sgr::InvertFgBg);
    let r = s.resolve(&cfg);
    assert_eq!(r.color, cfg.blue);
    assert_eq!(r.background, cfg.green);
}

#[test]
fn invert_weight_remap_follows_background_selector() {
    let cfg = Config::dark();
    let mut s = StyleState::new();
    s.sg(Sgr::Fg(Color::Green));
    s.sg(Sgr::Bg(Color::Red));
    s.sg(Sgr::InvertFgBg);
    s.sg(Sgr::Bold);
    let r = s.resolve(&cfg);
    // the remap inspects the background selector once inverted
    assert_eq!(r.color, cfg.bright_red);
    assert_eq!(r.background, cfg.green);
}

#[test]
fn conceal_forces_transparent_foreground() {
    let cfg = Config::dark();
    let mut s = StyleState::new();
    s.sg(Sgr::Fg(Color::Yellow));
    s.sg(Sgr::Conceal);
    let r = s.resolve(&cfg);
    assert_eq!(r.color, Rgba { r: 0, g: 0, b: 0, a: 0 });
    assert_eq!(r.background, cfg.black);
}

#[test]
fn underline_color_defaults_to_foreground() {
    let cfg = Config::dark();
    let mut s = StyleState::new();
    s.sg(Sgr::Fg(Color::Magenta));
    s.sg(Sgr::Underline);
    let r = s.resolve(&cfg);
    assert_eq!(r.underline.width, cfg.underline_width);
    assert_eq!(r.underline.color, cfg.magenta);
}

#[test]
fn underline_color_override_wins() {
    let cfg = Config::dark();
    let mut s = StyleState::new();
    s.sg(Sgr::Fg(Color::Magenta));
    s.sg(Sgr::DoublyUnderlined);
    s.sg(Sgr::UnderlineColor(Color::Blue));
    let r = s.resolve(&cfg);
    assert_eq!(r.underline.width, cfg.double_underline_width);
    assert_eq!(r.underline.color, cfg.blue);
}

#[test]
fn strike_through_uses_foreground() {
    let cfg = Config::dark();
    let mut s = StyleState::new();
    s.sg(Sgr::Fg(Color::Cyan));
    s.sg(Sgr::CrossedOut);
    let r = s.resolve(&cfg);
    assert_eq!(r.strikethrough.width, cfg.strike_through_width);
    assert_eq!(r.strikethrough.color, cfg.cyan);
}

#[test]
fn script_sizing_and_spacing() {
    let cfg = Config::dark();
    let mut s = StyleState::new();
    s.sg(Sgr::Superscript);
    let r = s.resolve(&cfg);
    assert_eq!(r.font_size, cfg.superscript_font_size);
    // fixed-width compensation: (normal - script) / 2 = (140 - 100) / 2
    assert_eq!(r.extra_letter_spacing, 20);
    assert_eq!(r.valign, Align::Min);

    let mut p = StyleState::new();
    p.sg(Sgr::Subscript);
    p.sg(Sgr::ProportionalSpacing);
    let rp = p.resolve(&cfg);
    assert_eq!(rp.extra_letter_spacing, 0);
    assert!(rp.proportional);
    assert_eq!(rp.valign, Align::Max);
}

#[test]
fn blink_class_is_tagged_never_resolved() {
    let cfg = Config::dark();
    let mut s = StyleState::new();
    s.sg(Sgr::SlowBlink);
    let r = s.resolve(&cfg);
    assert_eq!(r.blink, Blinking::Slow);
    // resolution itself is time-independent: the colors are untouched
    assert_eq!(r.color, cfg.white);
    assert_eq!(r.background, cfg.black);
}

#[test]
fn resolve_is_pure() {
    let cfg = Config::dark();
    let mut s = StyleState::new();
    s.sg(Sgr::Bold);
    s.sg(Sgr::Fg(Color::Rgb(7, 8, 9)));
    assert_eq!(s.resolve(&cfg), s.resolve(&cfg));
    assert_eq!(s.weight, Weight::Bold);
}
