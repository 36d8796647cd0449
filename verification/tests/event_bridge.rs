use godot_bevy::event_bridge::{power_of_two, RateLimitedWarner};

#[test]
fn event_bridge_rate_limited_warner_decays_per_name() {
    let mut w = RateLimitedWarner::new();
    let logged: Vec<bool> = (0..8).map(|_| w.should_log("damage")).collect();
    // counts 1,2,4,8 log; 3,5,6,7 do not
    assert_eq!(logged, vec![true, true, false, true, false, false, false, true]);
}

#[test]
fn event_bridge_rate_limited_warner_tracks_names_independently() {
    let mut w = RateLimitedWarner::new();
    assert!(w.should_log("a")); // 1
    assert!(w.should_log("b")); // 1
    assert!(w.should_log("a")); // 2 -> logs
    assert!(!w.should_log("a")); // 3 -> suppressed
    assert!(w.should_log("b")); // 2 -> logs
}

#[test]
fn event_bridge_tests_rate_limited_warner_decays_per_name() {
    let mut w = RateLimitedWarner::new();
    let logged: Vec<bool> = (0..8).map(|_| w.should_log("damage")).collect();
    // counts 1,2,4,8 log; 3,5,6,7 do not
    assert_eq!(logged, vec![true, true, false, true, false, false, false, true]);
}

#[test]
fn event_bridge_tests_rate_limited_warner_tracks_names_independently() {
    let mut w = RateLimitedWarner::new();
    assert!(w.should_log("a")); // 1
    assert!(w.should_log("b")); // 1
    assert!(w.should_log("a")); // 2 -> logs
    assert!(!w.should_log("a")); // 3 -> suppressed
    assert!(w.should_log("b")); // 2 -> logs
}

#[test]
fn warner_logs_exactly_at_powers_of_two() {
    let mut w = RateLimitedWarner::new();
    for count in 1u64..=70 {
        assert_eq!(w.should_log("x"), count.is_power_of_two(), "count {count}");
    }
}

#[test]
fn power_of_two_matches_std() {
    for n in [0u64, 1, 2, 3, 4, 6, 8, 12, 16, 1 << 40, (1 << 40) + 1, u64::MAX] {
        assert_eq!(power_of_two(n), n.is_power_of_two(), "{n}");
    }
}
