use toast::store::{MAX_THROTTLE_INTERVAL, MIN_THROTTLE_INTERVAL};
use toast::{
    MonitorGeometry, Size, Store, ToastError, ToastOptions, ToastPhase, ToastPosition,
};

fn monitor() -> MonitorGeometry {
    MonitorGeometry { x: 0, y: 0, width: 1000, height: 800, scale_percent: 100 }
}

fn text() -> Size {
    Size { width: 100, height: 20 }
}

#[test]
fn three_toasts_stack_from_the_bottom() {
    let mut store = Store::new();
    let options = ToastOptions { duration: 2000, margin_between_toasts: 8, ..ToastOptions::default() };
    for expected in 0..3u64 {
        assert_eq!(store.submit(format!("toast {}", expected), options, text()), Ok(expected));
    }
    assert_eq!(store.tick(0, monitor()), Some(0));
    assert_eq!(store.tick(0, monitor()), None);
    assert_eq!(store.tick(249, monitor()), None);
    assert_eq!(store.tick(250, monitor()), Some(1));
    assert_eq!(store.tick(499, monitor()), None);
    assert_eq!(store.tick(500, monitor()), Some(2));
    let active = store.active();
    assert_eq!(active.len(), 3);
    // edge distance 800 * 12% = 96; each toast 20 + 2 * 10 = 40 high, 100 + 4 * 8 = 132 wide
    let ys: Vec<i128> = active.iter().map(|t| t.position.y).collect();
    assert_eq!(ys, vec![704, 656, 608]);
    for t in active.iter() {
        assert_eq!(t.position.x, 434);
        assert_eq!(t.size, Size { width: 132, height: 40 });
    }
    for i in 1..3 {
        let below = &active[i - 1];
        let above = &active[i];
        assert!(above.position.y + 8 <= below.position.y - below.size.height as i128);
    }
    for t in active.iter() {
        assert_eq!(t.phase(800), ToastPhase::Visible);
    }
}

#[test]
fn negative_duration_is_rejected_and_store_unchanged() {
    let mut store = Store::new();
    let options = ToastOptions { duration: -1, ..ToastOptions::default() };
    assert_eq!(store.submit("hello".to_string(), options, text()), Err(ToastError::InvalidOptions));
    assert_eq!(store.pending().len(), 0);
    assert_eq!(store.active().len(), 0);
    assert_eq!(store.next_identity(), 0);
    assert_eq!(store.last_admitted_at(), None);
    assert_eq!(store.tick(0, monitor()), None);
}

#[test]
fn every_invalid_field_is_rejected() {
    let d = ToastOptions::default();
    let bad = [
        ToastOptions { padding_x: -1, ..d },
        ToastOptions { padding_y: -1, ..d },
        ToastOptions { duration: 0, ..d },
        ToastOptions { distance: -5, ..d },
        ToastOptions { font_size: -16, ..d },
        ToastOptions { margin_between_toasts: -8, ..d },
        ToastOptions { enter_animation_duration: -250, ..d },
        ToastOptions { exit_animation_duration: -400, ..d },
        ToastOptions { duration: i64::MIN, ..d },
    ];
    for options in bad.iter() {
        let mut store = Store::new();
        assert!(!options.is_valid());
        assert_eq!(store.submit(String::new(), *options, text()), Err(ToastError::InvalidOptions));
        assert_eq!(store.pending().len(), 0);
    }
    assert!(d.is_valid());
}

#[test]
fn toast_too_large_for_its_padding_is_rejected() {
    let mut store = Store::new();
    let huge = Size { width: u32::MAX - 31, height: 20 };
    assert_eq!(
        store.submit(String::new(), ToastOptions::default(), huge),
        Err(ToastError::InvalidOptions)
    );
    let fits = Size { width: u32::MAX - 32, height: 20 };
    assert_eq!(store.submit(String::new(), ToastOptions::default(), fits), Ok(0));
    assert_eq!(store.pending()[0].size, Size { width: u32::MAX, height: 40 });
}

#[test]
fn default_options() {
    let d = ToastOptions::default();
    assert_eq!(d.padding_x, 8);
    assert_eq!(d.padding_y, 10);
    assert_eq!(d.duration, 2000);
    assert_eq!(d.position, ToastPosition::Bottom);
    assert_eq!(d.distance, 12);
    assert_eq!(d.font_size, 16);
    assert_eq!(d.margin_between_toasts, 8);
    assert_eq!(d.enter_animation_duration, 250);
    assert_eq!(d.exit_animation_duration, 400);
}

#[test]
fn requests_are_admitted_in_submission_order() {
    let mut store = Store::default();
    for i in 0..10u64 {
        assert_eq!(store.submit(format!("m{}", i), ToastOptions::default(), text()), Ok(i));
    }
    let mut now = 0u64;
    let mut admitted = Vec::new();
    while let Some(id) = store.tick(now, monitor()) {
        admitted.push(id);
        now += 250;
    }
    assert_eq!(admitted, (0..10u64).collect::<Vec<u64>>());
    assert_eq!(store.pending().len(), 0);
    let ids: Vec<u64> = store.active().iter().map(|t| t.id).collect();
    assert_eq!(ids, (0..10u64).collect::<Vec<u64>>());
    let messages: Vec<String> = store.active().iter().map(|t| t.message.clone()).collect();
    assert_eq!(messages[3], "m3");
}

#[test]
fn throttle_uses_floor_for_short_enter_animation() {
    let mut store = Store::new();
    let options = ToastOptions { enter_animation_duration: 10, ..ToastOptions::default() };
    store.submit(String::new(), options, text()).unwrap();
    store.submit(String::new(), options, text()).unwrap();
    assert_eq!(store.tick(1000, monitor()), Some(0));
    assert_eq!(store.throttle_interval(), MIN_THROTTLE_INTERVAL);
    assert_eq!(store.tick(1000 + MIN_THROTTLE_INTERVAL - 1, monitor()), None);
    assert_eq!(store.tick(1000 + MIN_THROTTLE_INTERVAL, monitor()), Some(1));
    assert_eq!(store.last_admitted_at(), Some(1000 + MIN_THROTTLE_INTERVAL));
}

#[test]
fn throttle_follows_long_enter_animation() {
    let mut store = Store::new();
    let options = ToastOptions { enter_animation_duration: 700, ..ToastOptions::default() };
    store.submit(String::new(), options, text()).unwrap();
    store.submit(String::new(), ToastOptions::default(), text()).unwrap();
    assert_eq!(store.tick(5, monitor()), Some(0));
    assert_eq!(store.tick(704, monitor()), None);
    assert_eq!(store.tick(705, monitor()), Some(1));
    assert_eq!(store.throttle_interval(), 250);
    assert_eq!(MAX_THROTTLE_INTERVAL, i64::MAX as u64);
}

#[test]
fn clock_before_last_admission_admits_nothing() {
    let mut store = Store::new();
    store.submit(String::new(), ToastOptions::default(), text()).unwrap();
    store.submit(String::new(), ToastOptions::default(), text()).unwrap();
    assert_eq!(store.tick(10_000, monitor()), Some(0));
    assert_eq!(store.tick(3, monitor()), None);
}

#[test]
fn dismiss_twice_equals_dismiss_once() {
    let mut once = Store::new();
    let mut twice = Store::new();
    for store in [&mut once, &mut twice] {
        for _ in 0..3 {
            store.submit(String::new(), ToastOptions::default(), text()).unwrap();
        }
        for t in 0..3u64 {
            store.tick(t * 250, monitor());
        }
    }
    assert!(once.dismiss(1));
    assert!(twice.dismiss(1));
    assert!(!twice.dismiss(1));
    let a: Vec<(u64, i128)> = once.active().iter().map(|t| (t.id, t.position.y)).collect();
    let b: Vec<(u64, i128)> = twice.active().iter().map(|t| (t.id, t.position.y)).collect();
    assert_eq!(a, b);
    assert_eq!(a, vec![(0, 704), (2, 656)]);
    assert_eq!(once.next_identity(), twice.next_identity());
    assert_eq!(once.last_admitted_at(), twice.last_admitted_at());
}

#[test]
fn dismiss_of_unknown_identity_is_a_no_op() {
    let mut store = Store::new();
    store.submit(String::new(), ToastOptions::default(), text()).unwrap();
    store.tick(0, monitor());
    assert!(!store.dismiss(42));
    assert_eq!(store.active().len(), 1);
    assert_eq!(store.active()[0].position.y, 704);
}

#[test]
fn dismissing_the_bottom_toast_collapses_the_stack() {
    let mut store = Store::new();
    for _ in 0..3 {
        store.submit(String::new(), ToastOptions::default(), text()).unwrap();
    }
    for t in 0..3u64 {
        store.tick(t * 250, monitor());
    }
    assert!(store.dismiss(0));
    let ys: Vec<(u64, i128)> = store.active().iter().map(|t| (t.id, t.position.y)).collect();
    assert_eq!(ys, vec![(1, 704), (2, 656)]);
}

#[test]
fn lifetime_round_trip() {
    let mut store = Store::new();
    let options = ToastOptions {
        duration: 2000,
        enter_animation_duration: 250,
        exit_animation_duration: 400,
        ..ToastOptions::default()
    };
    let id = store.submit("bye".to_string(), options, text()).unwrap();
    assert_eq!(store.phase_of(id, 0), ToastPhase::Queued);
    assert_eq!(store.tick(1000, monitor()), Some(id));
    assert_eq!(store.phase_of(id, 1000), ToastPhase::Entering);
    assert_eq!(store.phase_of(id, 1249), ToastPhase::Entering);
    assert_eq!(store.phase_of(id, 1250), ToastPhase::Visible);
    assert_eq!(store.phase_of(id, 3249), ToastPhase::Visible);
    assert_eq!(store.phase_of(id, 3250), ToastPhase::Exiting);
    assert_eq!(store.phase_of(id, 3649), ToastPhase::Exiting);
    assert_eq!(store.phase_of(id, 3650), ToastPhase::Removed);
    assert_eq!(store.due_for_removal(3649), Vec::<u64>::new());
    assert_eq!(store.due_for_removal(3650), vec![id]);
    assert!(store.dismiss(id));
    assert_eq!(store.phase_of(id, 3650), ToastPhase::Removed);
    assert_eq!(store.due_for_removal(10_000), Vec::<u64>::new());
    assert!(store.active().iter().all(|t| t.id != id));
    assert_eq!(store.phase_of(99, 0), ToastPhase::Removed);
}

#[test]
fn frame_of_active_toast() {
    let mut store = Store::new();
    store.submit(String::new(), ToastOptions::default(), text()).unwrap();
    store.tick(0, monitor());
    let frame = store.active()[0].frame();
    assert_eq!(frame.origin.x, 434);
    assert_eq!(frame.origin.y, 704);
    assert_eq!(frame.size, Size { width: 132, height: 40 });
}

#[test]
fn only_one_toast_enters_at_a_time() {
    let mut store = Store::new();
    let options = ToastOptions { enter_animation_duration: 300, ..ToastOptions::default() };
    for _ in 0..4 {
        store.submit(String::new(), options, text()).unwrap();
    }
    let mut now = 0u64;
    while now <= 2000 {
        store.tick(now, monitor());
        let entering = store.active().iter().filter(|t| t.phase(now) == ToastPhase::Entering).count();
        assert!(entering <= 1);
        now += 50;
    }
    let times: Vec<u64> = store.active().iter().map(|t| t.admitted_at).collect();
    assert_eq!(times, vec![0, 300, 600, 900]);
}

#[test]
fn large_options_are_accepted() {
    let mut store = Store::new();
    let options = ToastOptions {
        padding_x: 0,
        padding_y: 0,
        duration: i64::MAX,
        distance: i64::MAX,
        font_size: i64::MAX,
        margin_between_toasts: i64::MAX,
        enter_animation_duration: i64::MAX,
        exit_animation_duration: i64::MAX,
        ..ToastOptions::default()
    };
    assert!(options.is_valid());
    assert_eq!(store.submit(String::new(), options, text()), Ok(0));
    assert_eq!(store.submit(String::new(), options, text()), Ok(1));
    assert_eq!(store.tick(0, monitor()), Some(0));
    assert_eq!(store.throttle_interval(), i64::MAX as u64);
    assert_eq!(store.tick(u64::MAX, monitor()), Some(1));
    assert_eq!(store.phase_of(0, i64::MAX as u64 - 1), ToastPhase::Entering);
    assert_eq!(store.phase_of(0, i64::MAX as u64), ToastPhase::Visible);
    assert_eq!(store.phase_of(0, u64::MAX), ToastPhase::Exiting);
    // 800 * (2^63 - 1) * 100 / 10000, above the edge; then one toast and one margin more
    let edge = 800i128 * i64::MAX as i128 / 100;
    assert_eq!(store.active()[0].position.y, 800 - edge);
    assert_eq!(store.active()[1].position.y, 800 - edge - 20 - i64::MAX as i128);
}

#[test]
fn large_padding_is_rejected_only_when_the_toast_does_not_fit() {
    let mut store = Store::new();
    let wide = ToastOptions { padding_x: i64::MAX, ..ToastOptions::default() };
    assert!(wide.is_valid());
    assert_eq!(store.submit(String::new(), wide, text()), Err(ToastError::InvalidOptions));
    let fits = ToastOptions { padding_x: 1_000_000_000, padding_y: 2_000_000_000, ..ToastOptions::default() };
    assert_eq!(
        store.submit(String::new(), fits, Size { width: 0, height: 0 }),
        Ok(0)
    );
    assert_eq!(store.pending()[0].size, Size { width: 4_000_000_000, height: 4_000_000_000 });
}

#[test]
fn short_duration_is_still_visible_after_a_long_enter() {
    let mut store = Store::new();
    let options = ToastOptions {
        duration: 100,
        enter_animation_duration: 250,
        exit_animation_duration: 400,
        ..ToastOptions::default()
    };
    let id = store.submit(String::new(), options, text()).unwrap();
    store.tick(0, monitor());
    assert_eq!(store.phase_of(id, 150), ToastPhase::Entering);
    assert_eq!(store.phase_of(id, 250), ToastPhase::Visible);
    assert_eq!(store.phase_of(id, 349), ToastPhase::Visible);
    assert_eq!(store.phase_of(id, 350), ToastPhase::Exiting);
    assert_eq!(store.phase_of(id, 750), ToastPhase::Removed);
}

#[test]
fn removal_is_listed_in_admission_order() {
    let mut store = Store::new();
    let short = ToastOptions { duration: 100, ..ToastOptions::default() };
    let long = ToastOptions { duration: 10_000, ..ToastOptions::default() };
    store.submit(String::new(), short, text()).unwrap();
    store.submit(String::new(), long, text()).unwrap();
    store.submit(String::new(), short, text()).unwrap();
    for t in 0..3u64 {
        assert_eq!(store.tick(t * 250, monitor()), Some(t));
    }
    // short toasts: 250 + 100 + 400 after admission
    assert_eq!(store.due_for_removal(1249), vec![0]);
    assert_eq!(store.due_for_removal(1250), vec![0, 2]);
    for id in store.due_for_removal(1250) {
        assert!(store.dismiss(id));
    }
    assert_eq!(store.active().len(), 1);
    assert_eq!(store.active()[0].id, 1);
    assert_eq!(store.active()[0].position.y, 704);
}
