//! Motion by the clock.

use rustydlp::anim::{Animator, Curve, CYCLE_IDLE, DURATION, FOLLOW};
use rustydlp::morph::{Motion, CLOSED};
use rustydlp::routing::Bounds;
use rustydlp::ytdlp::Single;

fn n(v: f32) -> Single {
    Single { bits: v.to_bits() }
}

fn value(a: &Animator, key: &str, now: u64) -> f32 {
    let s = a.numbers.sample(key, now).unwrap();
    let (from, to) = (f32::from_bits(s.from.bits), f32::from_bits(s.to.bits));
    if s.elapsed == s.duration {
        return to;
    }
    let t = s.elapsed as f32 / s.duration as f32;
    let eased = match s.curve {
        // What settles into place overshoots and comes back.
        Curve::Back => {
            let p = t - 1.0;
            1.0 + 2.70158 * p * p * p + 1.70158 * p * p
        }
        Curve::Out => 1.0 - (1.0 - t) * (1.0 - t) * (1.0 - t),
    };
    from + (to - from) * eased
}

fn tween(a: &mut Animator, key: &str, target: f32, now: u64, duration: u64, curve: Curve) -> f32 {
    let current = match a.numbers.sample(key, now) {
        Some(_) => value(a, key, now),
        None => target,
    };
    a.numbers.aim(key, n(target), n(current), now, duration, curve);
    value(a, key, now)
}

fn tween_f32(a: &mut Animator, key: &str, target: f32, now: u64) -> f32 {
    tween(a, key, target, now, DURATION, Curve::Back)
}

#[test]
fn a_fresh_key_returns_the_target_unanimated() {
    let mut anim = Animator::new();
    assert_eq!(tween_f32(&mut anim, "w", 260.0, 0), 260.0);
}

#[test]
fn a_settled_key_keeps_returning_its_target() {
    let mut anim = Animator::new();
    tween_f32(&mut anim, "w", 56.0, 0);
    assert_eq!(tween_f32(&mut anim, "w", 56.0, DURATION + 10), 56.0);
}

#[test]
fn retargeting_mid_flight_starts_from_the_current_value_not_the_old_target() {
    let mut anim = Animator::new();
    tween_f32(&mut anim, "w", 260.0, 0);
    // Settled at 260. Now collapse, and let the tween run partway...
    let start = DURATION + 10;
    tween_f32(&mut anim, "w", 56.0, start);
    let mid = tween_f32(&mut anim, "w", 56.0, start + 100);
    assert!(mid < 260.0 && mid > 0.0, "moved partway toward the new target: {mid}");
    // ...and immediately reopen before it finishes. The animation must
    // continue from wherever it actually is, not restart at 260.
    let reopened = tween_f32(&mut anim, "w", 260.0, start + 100);
    assert!(
        (reopened - mid).abs() < 40.0,
        "reopening should pick up near {mid}, not jump: got {reopened}"
    );
}

#[test]
fn is_animating_reports_false_once_everything_has_settled() {
    let mut anim = Animator::new();
    tween_f32(&mut anim, "w", 260.0, 0);
    assert!(!anim.is_animating(0), "no prior value to move from, so nothing to animate");
    tween_f32(&mut anim, "w", 56.0, 0);
    assert!(anim.is_animating(0));
    tween_f32(&mut anim, "w", 56.0, DURATION + 10);
    assert!(!anim.is_animating(DURATION + 10));
}

/// A progress bar follows a number that keeps changing: quickly, and never past
/// it.
#[test]
fn a_follow_tween_catches_up_quickly_and_never_overshoots() {
    let mut anim = Animator::new();
    let follow =
        |a: &mut Animator, target: f32, now: u64| tween(a, "pct", target, now, FOLLOW, Curve::Out);
    follow(&mut anim, 0.0, 0);
    let mut now = FOLLOW + 10;

    // Retargeted repeatedly, the way live progress arrives.
    let mut last = 0.0;
    for step in 1..=4 {
        let target = step as f32 * 0.2;
        let v = follow(&mut anim, target, now);
        assert!(v <= target + f32::EPSILON, "overshot {target}: {v}");
        assert!(v >= last, "went backwards: {last} then {v}");
        last = v;
        now += 40;
    }

    // And it actually arrives, well inside the 300ms a widget takes.
    now += FOLLOW + 10;
    assert_eq!(follow(&mut anim, 0.8, now), 0.8);
    assert!(!anim.is_animating(now), "settled, so the redraw loop can sleep");
}

/// The indeterminate bar's clock: it loops forever, but only holds the
/// redraw loop awake while something is still asking it for a phase.
#[test]
fn a_cycle_wraps_and_only_runs_while_it_is_polled() {
    let mut anim = Animator::new();
    let period = 120;

    let first = anim.cycles.cycle("bar", period, 1000);
    assert_eq!(first, 0, "starts at the beginning of its period");
    assert!(anim.is_animating(1000), "a polled cycle keeps the loop redrawing");

    let mid = anim.cycles.cycle("bar", period, 1060);
    assert!(mid > first, "advances: {first} then {mid}");

    // Past the end of a period it wraps rather than clamping.
    let wrapped = anim.cycles.cycle("bar", period, 1060 + period);
    assert_eq!(wrapped, 60);

    // Stop drawing the indicator -- stop polling -- and the loop is free
    // to go back to sleep without anything having to be torn down.
    assert!(
        !anim.is_animating(1060 + period + CYCLE_IDLE + 10),
        "an unpolled cycle holds nothing awake"
    );
}

#[test]
fn a_swap_keeps_the_outgoing_identity_until_it_settles() {
    let mut anim = Animator::new();
    assert_eq!(
        anim.entrances.transition("pane", 1, 0),
        (None, DURATION),
        "nothing to come from yet"
    );

    let (from, t) = anim.entrances.transition("pane", 2, 10);
    assert_eq!(from, Some(1), "the screen being replaced stays available to render");
    assert_eq!(t, 0, "and the swap starts at the beginning");

    // A second navigation before the first settles crosses over from
    // what is actually on screen, not from the screen before that.
    let (from, _) = anim.entrances.transition("pane", 3, 20);
    assert_eq!(from, Some(2));

    assert_eq!(
        anim.entrances.transition("pane", 3, 20 + DURATION + 10),
        (None, DURATION),
        "settled: nothing left to cross from"
    );
}

#[test]
fn entrance_progress_replays_from_zero_when_identity_changes() {
    let mut anim = Animator::new();
    assert_eq!(
        anim.entrances.transition("pane", 1, 0).1,
        DURATION,
        "first render has nothing to animate from"
    );
    let just_changed = anim.entrances.transition("pane", 2, 100).1;
    assert_eq!(just_changed, 0);
    // Re-rendering the *same* screen (same identity) must not restart it.
    let still_same = anim.entrances.transition("pane", 2, 150).1;
    assert_eq!(still_same, 50, "progress keeps advancing for an unchanged identity");
}

fn at(x: f32) -> Bounds {
    Bounds {
        left: n(x),
        top: n(0.0),
        right: n(x + 10.0),
        bottom: n(10.0),
    }
}

/// The card starts on the tile that was clicked and keeps to it until it is
/// dismissed.
#[test]
fn a_card_grows_out_of_the_tile_that_opened_it() {
    let mut m = Motion::new();
    m.set_click_origin(at(20.0));
    assert_eq!(m.show(7, at(100.0), Some("/a.png"), at(0.0)), at(20.0));
    m.set_click_origin(at(500.0));
    assert_eq!(m.show(7, at(110.0), Some("/a.png"), at(0.0)), at(20.0), "anchored once");
    m.dismiss();
    let back = m.collapsing(true).unwrap();
    assert_eq!((back.identity, back.from, back.to), (CLOSED, at(20.0), at(110.0)));
    assert_eq!(back.thumb.as_deref(), Some("/a.png"));
    assert!(m.collapsing(false).is_none());
    assert_eq!(m.show(7, at(100.0), None, at(0.0)), at(500.0), "opened anew");
    assert_eq!(m.show(9, at(100.0), None, at(3.0)), at(3.0), "nothing was clicked");
}
