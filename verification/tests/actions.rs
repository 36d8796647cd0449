use godot_bevy::input::{Action, ActionRef, ActionState, Clock, GodotActions};

fn make_state_full(
    pressed: bool,
    just_pressed: bool,
    just_released: bool,
    strength: f32,
    raw_strength: f32,
) -> ActionState {
    ActionState {
        pressed,
        just_pressed,
        just_released,
        strength: strength.to_bits(),
        raw_strength: raw_strength.to_bits(),
    }
}

fn default_state() -> ActionState {
    ActionState::released()
}

fn strength(ga: &GodotActions, key: &str) -> f32 {
    f32::from_bits(ga.strength(ActionRef::named(key)))
}

fn raw_strength(ga: &GodotActions, key: &str) -> f32 {
    f32::from_bits(ga.raw_strength(ActionRef::named(key)))
}

#[test]
fn active_clock_flip_divergent_snapshots() {
    let mut ga = GodotActions::new();

    // process: "a" pressed+just_pressed, "b" all-false
    ga.record(Clock::Process, "a", make_state_full(true, true, false, 0.0, 0.0));
    ga.record(Clock::Process, "b", default_state());

    // physics: "a" all-false, "b" pressed+just_pressed
    ga.record(Clock::Physics, "a", default_state());
    ga.record(Clock::Physics, "b", make_state_full(true, true, false, 0.0, 0.0));

    assert!(ga.pressed(ActionRef::named("a")), "process: a should be pressed");
    assert!(!ga.pressed(ActionRef::named("b")), "process: b should not be pressed");

    ga.set_active(Clock::Physics);
    assert!(!ga.pressed(ActionRef::named("a")), "physics: a should not be pressed");
    assert!(ga.pressed(ActionRef::named("b")), "physics: b should be pressed");

    ga.set_active(Clock::Process);
    assert!(ga.pressed(ActionRef::named("a")), "reverted: a should be pressed again");
    assert!(!ga.pressed(ActionRef::named("b")), "reverted: b should not be pressed again");
}

fn read_a(ga: &GodotActions) -> bool {
    ga.pressed(ActionRef::named("a"))
}

#[test]
fn shared_helper_sees_active_clock() {
    let mut ga = GodotActions::new();

    ga.record(Clock::Process, "a", make_state_full(true, false, false, 0.0, 0.0));
    ga.record(Clock::Physics, "a", make_state_full(false, false, false, 0.0, 0.0));

    assert!(read_a(&ga), "helper under Process should see pressed=true");
    ga.set_active(Clock::Physics);
    assert!(!read_a(&ga), "helper under Physics should see pressed=false");
}

#[test]
fn edge_independence_no_aliasing() {
    let mut ga = GodotActions::new();

    ga.record(Clock::Process, "held", make_state_full(true, false, false, 0.0, 0.0));
    ga.record(Clock::Process, "rising", make_state_full(true, true, false, 0.0, 0.0));
    ga.record(Clock::Process, "falling", make_state_full(false, false, true, 0.0, 0.0));

    assert!(ga.pressed(ActionRef::named("held")));
    assert!(!ga.just_pressed(ActionRef::named("held")));
    assert!(!ga.just_released(ActionRef::named("held")));

    assert!(ga.pressed(ActionRef::named("rising")));
    assert!(ga.just_pressed(ActionRef::named("rising")));
    assert!(!ga.just_released(ActionRef::named("rising")));

    assert!(!ga.pressed(ActionRef::named("falling")));
    assert!(!ga.just_pressed(ActionRef::named("falling")));
    assert!(ga.just_released(ActionRef::named("falling")));
}

#[test]
fn strength_raw_strength_axis_vector() {
    let mut ga = GodotActions::new();

    ga.record(Clock::Process, "left", make_state_full(true, false, false, 0.8, 0.375));
    ga.record(Clock::Process, "right", make_state_full(true, false, false, 0.6, 0.9));
    ga.record(Clock::Process, "up", make_state_full(true, false, false, 0.4, 0.5));
    ga.record(Clock::Process, "down", make_state_full(true, false, false, 0.3, 0.7));

    // strength != raw_strength
    assert_eq!(strength(&ga, "left"), 0.8);
    assert_eq!(raw_strength(&ga, "left"), 0.375);

    // axis == pos - neg
    let ax = strength(&ga, "right") - strength(&ga, "left");
    assert_eq!(ax, 0.6_f32 - 0.8_f32);

    // vector componentwise
    let v = (
        strength(&ga, "right") - strength(&ga, "left"),
        strength(&ga, "down") - strength(&ga, "up"),
    );
    assert_eq!(v.0, 0.6_f32 - 0.8_f32);
    assert_eq!(v.1, 0.3_f32 - 0.4_f32);
}

#[test]
fn typed_unknown_action_does_not_enter_the_warning_gate() {
    let actions = GodotActions::new();
    let typed = Action::new("typed_missing");
    let state = actions.lookup(ActionRef::typed(&typed));

    assert!(!state.pressed);
    assert!(!actions.reports_unknown(ActionRef::typed(&typed)));
    assert!(actions.reports_unknown(ActionRef::named("typed_missing")));
}

#[test]
fn unknown_action_returns_defaults_no_panic() {
    let ga = GodotActions::new();

    assert!(!ga.pressed(ActionRef::named("does_not_exist")));
    assert_eq!(strength(&ga, "does_not_exist"), 0.0);

    // Second call -- must not panic either.
    assert!(!ga.pressed(ActionRef::named("does_not_exist")));
    assert_eq!(strength(&ga, "does_not_exist"), 0.0);
}

#[test]
fn recording_twice_keeps_the_latest_state() {
    let mut ga = GodotActions::new();
    ga.record(Clock::Process, "jump", make_state_full(true, true, false, 1.0, 1.0));
    ga.record(Clock::Process, "jump", make_state_full(false, false, true, 0.0, 0.0));
    assert!(!ga.pressed(ActionRef::named("jump")));
    assert!(ga.just_released(ActionRef::named("jump")));
    assert_eq!(ga.process.actions.len(), 1);
    assert!(ga.physics.actions.is_empty());
}
