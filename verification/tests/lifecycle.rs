use frigate_popup::config::Popup;
use frigate_popup::lifecycle::{plan, Entry, OpenStep, Popups, Signal, Timing};

/// An instant, in nanoseconds.
const T0: u128 = 5_000_000_000_000;

/// Milliseconds as nanoseconds.
fn ms(n: u128) -> u128 {
    n * 1_000_000
}

fn cfg() -> Popup {
    Popup {
        min_display_seconds: 8,
        linger_seconds: 15,
        watchdog_seconds: 20,
        max_display_seconds: 120,
        ..Popup::default()
    }
}

fn secs(t: u128, base: u128) -> u128 {
    t.saturating_sub(base) / 1_000_000_000
}

fn entry(camera: &str, timing: Timing) -> Entry {
    Entry {
        camera: camera.into(),
        timing,
        hovered: false,
        pinned: false,
    }
}

#[test]
fn a_new_popup_gets_the_full_watchdog_window() {
    let timing = Timing::new(&cfg(), T0);
    assert_eq!(secs(timing.deadline, T0), 20);
}

#[test]
fn activity_pushes_the_deadline_out() {
    let mut timing = Timing::new(&cfg(), T0);
    timing.apply(Signal::Active, &cfg(), T0 + ms(10_000));
    assert_eq!(secs(timing.deadline, T0), 30, "10s in, plus a 20s watchdog");
}

#[test]
fn an_end_event_pulls_the_deadline_in_to_the_linger() {
    let mut timing = Timing::new(&cfg(), T0);
    timing.apply(Signal::Active, &cfg(), T0 + ms(30_000));
    assert_eq!(secs(timing.deadline, T0), 50, "30s in, plus a 20s watchdog");
    timing.apply(Signal::Ended, &cfg(), T0 + ms(31_000));
    assert_eq!(
        secs(timing.deadline, T0),
        46,
        "the 15s linger is shorter than the watchdog, so it pulls the close in"
    );
}

#[test]
fn going_stationary_behaves_like_ending() {
    let mut a = Timing::new(&cfg(), T0);
    let mut b = Timing::new(&cfg(), T0);
    let at = T0 + ms(30_000);
    a.apply(Signal::Stationary, &cfg(), at);
    b.apply(Signal::Ended, &cfg(), at);
    assert_eq!(a.deadline, b.deadline);
}

#[test]
fn an_immediate_end_lingers_rather_than_blinking() {
    let mut timing = Timing::new(&cfg(), T0);
    timing.apply(Signal::Ended, &cfg(), T0 + ms(500));
    assert_eq!(secs(timing.deadline, T0), 15);
    assert!(!timing.is_expired(T0 + ms(15_000)));
}

#[test]
fn the_minimum_display_time_is_a_floor_under_a_short_linger() {
    let short = Popup {
        linger_seconds: 2,
        ..cfg()
    };
    let mut timing = Timing::new(&short, T0);
    timing.apply(Signal::Ended, &short, T0 + ms(500));
    assert_eq!(
        secs(timing.deadline, T0),
        8,
        "a 2s linger would close at 2.5s; the floor holds it to 8s"
    );
    assert!(!timing.is_expired(T0 + ms(7_000)));
    assert!(timing.is_expired(T0 + ms(8_000)));
}

#[test]
fn an_end_never_extends_a_popup_that_was_about_to_close() {
    let mut timing = Timing::new(&cfg(), T0);
    timing.deadline = T0 + ms(12_000);
    timing.apply(Signal::Ended, &cfg(), T0 + ms(10_000));
    assert_eq!(
        secs(timing.deadline, T0),
        12,
        "linger pulls in, never pushes out"
    );
}

#[test]
fn constant_activity_cannot_exceed_the_hard_ceiling() {
    let mut timing = Timing::new(&cfg(), T0);
    for i in 1..=120u128 {
        timing.apply(Signal::Active, &cfg(), T0 + ms(i * 5_000));
    }
    assert_eq!(
        secs(timing.deadline, T0),
        120,
        "capped at max_display_seconds"
    );
}

#[test]
fn expiry_is_inclusive_of_the_deadline() {
    let timing = Timing::new(&cfg(), T0);
    assert!(!timing.is_expired(T0 + ms(19_000)));
    assert!(timing.is_expired(T0 + ms(20_000)));
}

#[test]
fn hovered_popups_are_held_back_from_expiry() {
    let mut popups = Popups::new();
    assert!(popups.insert(entry("front_doorbell", Timing::new(&cfg(), T0))));
    let later = T0 + ms(60_000);
    assert_eq!(popups.expired(later), vec!["front_doorbell".to_string()]);
    popups.set_hovered("front_doorbell", true);
    assert!(
        popups.expired(later).is_empty(),
        "hovering must pause the auto-close"
    );
}

#[test]
fn a_sweep_plan_closes_the_expired_and_restacks_the_rest() {
    let mut popups = Popups::new();
    let mut stale = Timing::new(&cfg(), T0);
    stale.deadline = T0 + ms(1_000);
    popups.insert(entry("front_doorbell", stale));
    popups.insert(entry("side_camera", Timing::new(&cfg(), T0)));
    let plan = plan(&mut popups, T0 + ms(10_000));
    assert_eq!(plan.close, vec!["front_doorbell".to_string()]);
    assert_eq!(plan.restack, vec![("side_camera".to_string(), 0)]);
    assert_eq!(popups.len(), 1);
}

#[test]
fn a_sweep_with_nothing_expired_is_empty() {
    let mut popups = Popups::new();
    popups.insert(entry("front_doorbell", Timing::new(&cfg(), T0)));
    assert!(plan(&mut popups, T0 + ms(1_000)).is_empty());
}

#[test]
fn slots_close_up_when_a_popup_below_is_removed() {
    let mut popups = Popups::new();
    for camera in ["front_doorbell", "garage_camera", "side_camera"] {
        popups.insert(entry(camera, Timing::new(&cfg(), T0)));
    }
    assert!(popups.forget("garage_camera"));
    assert_eq!(
        popups.slots(),
        vec![
            ("front_doorbell".to_string(), 0),
            ("side_camera".to_string(), 1)
        ],
        "the survivor above must slide down into the vacated slot"
    );
}

#[test]
fn eviction_leaves_contiguous_slots_for_the_survivors() {
    let mut popups = Popups::new();
    for camera in ["front_doorbell", "garage_camera"] {
        popups.insert(entry(camera, Timing::new(&cfg(), T0)));
    }
    let evicted = popups.make_room(2);
    assert_eq!(evicted, vec!["front_doorbell".to_string()]);
    assert_eq!(
        popups.slots(),
        vec![("garage_camera".to_string(), 0)],
        "the survivor must be restacked to slot 0 before the new popup takes slot 1"
    );
    assert_eq!(popups.len(), 1, "and there must be room for one more");
}

#[test]
fn make_room_is_a_no_op_when_there_is_already_space() {
    let mut popups = Popups::new();
    popups.insert(entry("front_doorbell", Timing::new(&cfg(), T0)));
    assert!(popups.make_room(2).is_empty());
    assert_eq!(popups.len(), 1);
}

#[test]
fn a_max_of_one_evicts_on_every_new_popup() {
    let mut popups = Popups::new();
    popups.insert(entry("front_doorbell", Timing::new(&cfg(), T0)));
    assert_eq!(popups.make_room(1), vec!["front_doorbell".to_string()]);
    assert!(popups.is_empty());
}

#[test]
fn forgetting_an_unknown_camera_is_a_no_op() {
    let mut popups = Popups::new();
    assert!(!popups.forget("nope"));
}

#[test]
fn signals_for_a_camera_with_no_popup_are_ignored() {
    let mut popups = Popups::new();
    popups.note("front_doorbell", Signal::Ended, &cfg(), T0);
    assert!(popups.is_empty());
}

#[test]
fn a_max_of_zero_behaves_like_one() {
    let mut popups = Popups::new();
    popups.insert(entry("a", Timing::new(&cfg(), T0)));
    assert_eq!(popups.make_room(0), vec!["a".to_string()]);
    assert_eq!(popups.len(), 0);
}

#[test]
fn a_camera_is_held_at_most_once() {
    let mut popups = Popups::new();
    assert!(popups.insert(entry("a", Timing::new(&cfg(), T0))));
    assert!(!popups.insert(entry("a", Timing::new(&cfg(), T0))));
    assert_eq!(popups.len(), 1);
    assert!(popups.has("a"));
    assert!(popups.forget("a"));
    assert!(!popups.has("a"));
}

#[test]
fn pinned_popups_never_expire() {
    let mut popups = Popups::new();
    assert!(popups.opened("a".into(), &cfg(), T0, true));
    assert!(popups.expired(T0 + ms(10_000_000)).is_empty());
    assert!(plan(&mut popups, T0 + ms(10_000_000)).is_empty());
    assert_eq!(popups.len(), 1);
}

#[test]
fn opening_an_open_camera_refreshes_it() {
    let mut popups = Popups::new();
    popups.opened("a".into(), &cfg(), T0, false);
    match popups.prepare_open("a", &cfg(), T0 + ms(10_000), true) {
        OpenStep::Refreshed => {}
        other => panic!("expected a refresh, got {other:?}"),
    }
    assert_eq!(popups.len(), 1);
    // Pinned by the second request, so it no longer expires.
    assert!(popups.expired(T0 + ms(1_000_000)).is_empty());
}

#[test]
fn opening_at_the_limit_evicts_and_restacks_first() {
    let mut popups = Popups::new();
    popups.opened("a".into(), &cfg(), T0, false);
    popups.opened("b".into(), &cfg(), T0, false);
    match popups.prepare_open("c", &cfg(), T0 + ms(1_000), false) {
        OpenStep::Place {
            evicted,
            restack,
            slot,
        } => {
            assert_eq!(evicted, vec!["a".to_string()]);
            assert_eq!(restack, vec![("b".to_string(), 0)]);
            assert_eq!(slot, 1);
        }
        other => panic!("expected a placement, got {other:?}"),
    }
    assert!(popups.opened("c".into(), &cfg(), T0 + ms(1_000), false));
    assert_eq!(
        popups.slots(),
        vec![("b".to_string(), 0), ("c".to_string(), 1)]
    );
}

#[test]
fn opening_below_the_limit_needs_no_restack() {
    let mut popups = Popups::new();
    match popups.prepare_open("a", &cfg(), T0, false) {
        OpenStep::Place {
            evicted,
            restack,
            slot,
        } => {
            assert!(evicted.is_empty());
            assert!(restack.is_empty());
            assert_eq!(slot, 0);
        }
        other => panic!("expected a placement, got {other:?}"),
    }
}

#[test]
fn a_linger_that_meets_the_ceiling_is_capped() {
    let mut timing = Timing::new(&cfg(), T0);
    timing.apply(Signal::Active, &cfg(), T0 + ms(110_000));
    assert_eq!(secs(timing.deadline, T0), 120);
    timing.apply(Signal::Ended, &cfg(), T0 + ms(115_000));
    assert_eq!(secs(timing.deadline, T0), 120);
    assert_eq!(timing.opened_at, T0);
}

#[test]
fn noting_a_signal_moves_only_that_popup() {
    let mut popups = Popups::new();
    popups.opened("a".into(), &cfg(), T0, false);
    popups.opened("b".into(), &cfg(), T0, false);
    popups.note("a", Signal::Active, &cfg(), T0 + ms(30_000));
    assert_eq!(popups.expired(T0 + ms(20_000)), vec!["b".to_string()]);
    assert_eq!(popups.expired(T0 + ms(50_000)), vec!["a".to_string(), "b".to_string()]);
}

#[test]
fn a_deadline_is_kept_to_the_nanosecond() {
    let timing = Timing::new(&cfg(), T0);
    assert!(!timing.is_expired(T0 + ms(20_000) - 1));
    assert!(timing.is_expired(T0 + ms(20_000)));
}
