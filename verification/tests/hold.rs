use leap::hold::{Hold, Moment, Span};

fn ms(n: u64) -> Span {
    Span::from_millis(n)
}

fn hold(kbd_enhanced: bool, t0: Moment) -> Hold {
    Hold::new(ms(650), ms(200), kbd_enhanced, t0)
}

/// Progress toward firing in `0.0..=1.0` while held, as the front-end's
/// meter computes it.
fn progress(h: &Hold, now: Moment) -> Option<f32> {
    h.armed_at().map(|start| {
        let held = now.duration_since(start).nanos as f32 / 1e9;
        (held / (h.duration().nanos as f32 / 1e9)).clamp(0.0, 1.0)
    })
}

#[test]
fn fires_after_duration_then_latches() {
    let t0 = Moment::from_nanos(1_000_000_000);
    let mut h = hold(true, t0);
    h.press(t0);
    assert!(!h.poll(t0.after(ms(100))), "too soon");
    assert_eq!(progress(&h, t0.after(ms(325))).map(|f| (f * 100.0).round() as u32), Some(50));
    assert!(h.poll(t0.after(ms(650))), "fires at the threshold");
    assert!(!h.poll(t0.after(ms(800))), "does not fire twice");
    assert_eq!(progress(&h, t0.after(ms(800))), None, "disarmed after firing");
}

#[test]
fn stays_consumed_until_release() {
    let t0 = Moment::from_nanos(1_000_000_000);
    let mut h = hold(true, t0);
    h.press(t0);
    assert!(h.poll(t0.after(ms(650))));
    // Still holding: a repeat must not re-arm.
    h.press(t0.after(ms(700)));
    assert_eq!(progress(&h, t0.after(ms(700))), None);
    // Release, then a new press arms a fresh hold.
    h.release();
    h.press(t0.after(ms(900)));
    assert!(progress(&h, t0.after(ms(900))).is_some());
}

#[test]
fn enhanced_ignores_repeat_gaps() {
    // With real release events, only `release()` ends a hold: a long gap
    // since the last press does not.
    let t0 = Moment::from_nanos(1_000_000_000);
    let mut h = hold(true, t0);
    h.press(t0);
    assert!(h.poll(t0.after(ms(5000))), "still armed despite the gap");
}

#[test]
fn fallback_gap_disarms() {
    let t0 = Moment::from_nanos(1_000_000_000);
    let mut h = hold(false, t0);
    h.press(t0);
    assert!(!h.poll(t0.after(ms(300))), "gap > release_gap → treated as released");
    assert_eq!(progress(&h, t0.after(ms(300))), None);
}

#[test]
fn fallback_repeats_keep_it_alive_to_fire() {
    let t0 = Moment::from_nanos(1_000_000_000);
    let mut h = hold(false, t0);
    h.press(t0);
    // Realistic auto-repeats (each gap < release_gap) keep `last` fresh, so
    // the hold start stays at t0 and accumulates toward the threshold.
    for n in (100..=600).step_by(100) {
        h.press(t0.after(ms(n)));
        assert!(h.is_armed(), "stays armed at {n}ms");
    }
    assert!(h.poll(t0.after(ms(650))), "fires: armed since t0, last repeat recent");
}

// --- more cases -----------------------------------------------------------

#[test]
fn span_and_moment_arithmetic() {
    assert_eq!(Span::from_millis(3).nanos, 3_000_000);
    let t = Moment::from_nanos(10);
    assert_eq!(t.after(Span { nanos: 5 }).nanos, 15);
    assert_eq!(t.duration_since(Moment::from_nanos(4)).nanos, 6);
    // Time never runs backwards: an earlier moment gives a zero span.
    assert_eq!(Moment::from_nanos(4).duration_since(t).nanos, 0);
}

#[test]
fn new_hold_starts_disarmed() {
    let t0 = Moment::from_nanos(0);
    let mut h = hold(true, t0);
    assert!(!h.is_armed());
    assert!(!h.poll(t0.after(ms(10_000))));
    assert_eq!(h.armed_at(), None);
    assert_eq!(h.duration(), ms(650));
}

#[test]
fn release_then_press_arms_afresh() {
    let t0 = Moment::from_nanos(0);
    let mut h = hold(true, t0);
    h.press(t0);
    h.release();
    assert!(!h.is_armed());
    h.press(t0.after(ms(50)));
    assert_eq!(h.armed_at(), Some(t0.after(ms(50))));
    assert!(!h.poll(t0.after(ms(600))));
    assert!(h.poll(t0.after(ms(700))));
}

#[test]
fn fallback_fresh_press_after_a_fire_arms_again() {
    let t0 = Moment::from_nanos(0);
    let mut h = hold(false, t0);
    h.press(t0);
    for n in (100..=600).step_by(100) {
        h.press(t0.after(ms(n)));
    }
    assert!(h.poll(t0.after(ms(650))));
    // Still auto-repeating: the latch holds.
    h.press(t0.after(ms(700)));
    assert!(!h.is_armed());
    // A gap past the release gap: the key was let go, so this press arms.
    h.press(t0.after(ms(1550)));
    assert_eq!(h.armed_at(), Some(t0.after(ms(1550))));
}
