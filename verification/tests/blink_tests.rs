use termstyle::{Basic, Blinking, Config, Csi, Event, Sgr};

#[test]
fn slow_blink_swaps_in_the_second_half_cycle() {
    let cfg = Config::dark();
    assert_eq!(cfg.slow_blink_period, 1000);
    let mut t = Basic::new(&cfg);
    t.march(
        &Event::Csi(Csi::SelectGraphicRendition(vec![Sgr::SlowBlink])),
        &cfg,
    );
    t.march(&Event::Data('x'), &cfg);

    // first half-cycle: unswapped
    let (runs, _) = t.render(&cfg, 100);
    assert_eq!(runs[0].style.color, cfg.white);
    assert_eq!(runs[0].style.background, cfg.black);

    // second half-cycle: foreground and background trade places
    let (runs, _) = t.render(&cfg, 700);
    assert_eq!(runs[0].style.color, cfg.black);
    assert_eq!(runs[0].style.background, cfg.white);
}

#[test]
fn phase_is_periodic_and_antiphased() {
    let cfg = Config::dark();
    let mut t = Basic::new(&cfg);
    t.march(
        &Event::Csi(Csi::SelectGraphicRendition(vec![Sgr::RapidBlink])),
        &cfg,
    );
    t.march(&Event::Data('x'), &cfg);
    let p = cfg.fast_blink_period;

    for t0 in [40u64, 170, 260] {
        let (a, _) = t.render(&cfg, t0);
        let (b, _) = t.render(&cfg, t0 + p);
        // one full period later the swap state repeats
        assert_eq!(a[0].style, b[0].style);
        let (c, _) = t.render(&cfg, t0 + p / 2);
        // half a period later it differs (away from the exact boundaries)
        assert_ne!(a[0].style, c[0].style);
    }
}

#[test]
fn zero_period_disables_the_class() {
    let mut cfg = Config::dark();
    cfg.slow_blink_period = 0;
    let mut t = Basic::new(&cfg);
    t.march(
        &Event::Csi(Csi::SelectGraphicRendition(vec![Sgr::SlowBlink])),
        &cfg,
    );
    t.march(&Event::Data('x'), &cfg);
    for now in [0u64, 3, 700, 12345] {
        let (runs, wake) = t.render(&cfg, now);
        assert_eq!(runs[0].style.color, cfg.white);
        assert_eq!(wake, None);
    }
}

#[test]
fn wake_delay_reaches_the_next_boundary() {
    let cfg = Config::dark();
    let mut t = Basic::new(&cfg);
    t.march(
        &Event::Csi(Csi::SelectGraphicRendition(vec![Sgr::SlowBlink])),
        &cfg,
    );
    t.march(&Event::Data('x'), &cfg);
    // half-cycle 500: at time 700 the next boundary is at 1000
    let (_, wake) = t.render(&cfg, 700);
    assert_eq!(wake, Some(300));
    let (_, wake) = t.render(&cfg, 0);
    assert_eq!(wake, Some(500));
}

#[test]
fn wake_is_the_minimum_over_active_classes() {
    let cfg = Config::dark();
    let mut t = Basic::new(&cfg);
    t.march(
        &Event::Csi(Csi::SelectGraphicRendition(vec![Sgr::SlowBlink])),
        &cfg,
    );
    t.march(&Event::Data('x'), &cfg);
    t.march(
        &Event::Csi(Csi::SelectGraphicRendition(vec![Sgr::RapidBlink])),
        &cfg,
    );
    t.march(&Event::Data('y'), &cfg);
    // slow half-cycle 500 waits 490; fast half-cycle 150 waits 140
    let (_, wake) = t.render(&cfg, 10);
    assert_eq!(wake, Some(140));
}

#[test]
fn static_text_needs_no_wake() {
    let cfg = Config::dark();
    let mut t = Basic::new(&cfg);
    t.march(&Event::Data('x'), &cfg);
    let (_, wake) = t.render(&cfg, 123);
    assert_eq!(wake, None);
}

#[test]
fn snapshot_styles_carry_no_blink_tag() {
    let cfg = Config::dark();
    let mut t = Basic::new(&cfg);
    t.march(
        &Event::Csi(Csi::SelectGraphicRendition(vec![Sgr::SlowBlink])),
        &cfg,
    );
    t.march(&Event::Data('x'), &cfg);
    // the pen is tagged, but every handed-out snapshot item has the class
    // consumed: swapped or not, its tag reads as static
    assert_eq!(t.style_state().blinking, Blinking::Slow);
    let (unswapped, _) = t.render(&cfg, 100);
    assert_eq!(unswapped[0].style.blink, Blinking::Off);
    let (swapped, _) = t.render(&cfg, 700);
    assert_eq!(swapped[0].style.blink, Blinking::Off);
}

#[test]
fn stored_styles_survive_the_snapshot() {
    let cfg = Config::dark();
    let mut t = Basic::new(&cfg);
    t.march(
        &Event::Csi(Csi::SelectGraphicRendition(vec![Sgr::SlowBlink])),
        &cfg,
    );
    t.march(&Event::Data('x'), &cfg);
    let (swapped, _) = t.render(&cfg, 700);
    assert_eq!(swapped[0].style.color, cfg.black);
    // the stored style was not mutated by the swapped snapshot
    let (again, _) = t.render(&cfg, 100);
    assert_eq!(again[0].style.color, cfg.white);
}
