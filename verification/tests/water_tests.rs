use trustworthy_dolphin::water::Water;

#[test]
fn fill_starts_at_minus_fifteen() {
    let mut w = Water::new(0);
    assert_eq!(w.water_level_micro, 0);
    let done = w.fill_step(0);
    assert!(!done);
    assert_eq!(w.water_level_micro, -15_000_000);
    assert_eq!(w.start_time_us, 0);
}

#[test]
fn fill_is_exactly_zero_at_half_a_second() {
    let mut w = Water::new(0);
    let done = w.fill_step(500_000);
    assert!(!done);
    assert_eq!(w.water_level_micro, 0);
}

#[test]
fn fill_is_monotonic_over_samples() {
    let mut w = Water::new(0);
    let mut last = i64::MIN;
    let mut t: u64 = 0;
    while t < 1_000_000 {
        let done = w.fill_step(t);
        assert!(!done);
        assert!(w.water_level_micro >= last);
        assert!((-15_000_000..=1_000_000).contains(&w.water_level_micro));
        last = w.water_level_micro;
        t += 7_919;
    }
}

#[test]
fn fill_snaps_and_signals_completion_once() {
    let mut w = Water::new(100);
    let done = w.fill_step(1_000_100);
    assert!(done);
    assert_eq!(w.water_level_micro, 1_000_000);
    assert_eq!(w.start_time_us, 1_000_100);
}

#[test]
fn wave_is_nominal_at_phase_start() {
    let mut w = Water::new(0);
    let _ = w.fill_step(1_000_000);
    w.wave_step(1_000_000);
    assert_eq!(w.water_level_micro, 1_000_000);
}

#[test]
fn wave_exact_value_at_quarter_turn() {
    // At 1.25 s the first sine sits at its crest (0.25 turns) and the second
    // at 0.375 turns: 32e6 * 93_750_000_000 / 4_250_000_000_000 = 705_882.
    let mut w = Water::new(0);
    w.wave_step(1_250_000);
    assert_eq!(w.water_level_micro, (100_000_000 + 1_000_000 + 705_882) / 100);
    assert_eq!(w.water_level_micro, 1_017_058);
}

#[test]
fn wave_stays_inside_its_band() {
    let mut w = Water::new(0);
    let mut t: u64 = 0;
    while t < 25_000_000 {
        w.wave_step(t);
        assert!((980_000..=1_020_000).contains(&w.water_level_micro));
        t += 37_003;
    }
}

#[test]
fn wave_wraps_after_ten_seconds() {
    let mut a = Water::new(0);
    let mut b = Water::new(0);
    a.wave_step(1_234_567);
    b.wave_step(11_234_567);
    assert_eq!(a.water_level_micro, b.water_level_micro);
}

#[test]
fn surface_translation_matches_level() {
    let mut w = Water::new(0);
    let _ = w.fill_step(1_000_000);
    // level 1.0 on a 600-pixel window: (-1 + 0.5) * 600 = -300 pixels.
    assert_eq!(w.surface_translation_y_mpx(600), -300_000);
}

#[test]
fn water_line_tracks_level_offset() {
    let mut w = Water::new(0);
    let _ = w.fill_step(1_000_000);
    // level 1.0: the line sits exactly at the window midline.
    assert_eq!(w.water_line_y_mpx(1000), 0);
    // level 0.0 (fresh surface): half a window below the midline.
    let w2 = Water::new(0);
    assert_eq!(w2.water_line_y_mpx(1000), -500_000);
}
