use godot_bevy::transforms::{sync_plan, SyncPlan, TransformSyncMode};
use godot_bevy::signals::{route_signal, signal_argument, value_type_name, SignalRoute, SignalValueType};

#[test]
fn argument_types_are_named() {
    assert_eq!(value_type_name(SignalValueType::Nil), "Nil");
    assert_eq!(value_type_name(SignalValueType::Vector3), "Vector3");
    assert_eq!(value_type_name(SignalValueType::Other), "Unknown");
    let argument = signal_argument(SignalValueType::Int, "42".to_owned());
    assert_eq!(argument.value_type, "Int");
    assert_eq!(argument.value, "42");
}

#[test]
fn signals_with_arguments_have_their_own_handlers() {
    assert_eq!(
        route_signal("input_event"),
        SignalRoute { handler: "handle_input_event", generic: false }
    );
    assert_eq!(
        route_signal("body_entered"),
        SignalRoute { handler: "body_entered", generic: false }
    );
    assert_eq!(
        route_signal("area_entered"),
        SignalRoute { handler: "area_entered", generic: false }
    );
    assert_eq!(route_signal("pressed"), SignalRoute { handler: "event", generic: true });
    assert_eq!(route_signal(""), SignalRoute { handler: "event", generic: true });
}

#[test]
fn sync_modes_choose_the_steps() {
    let off = SyncPlan { write_3d: false, write_2d: false, read_3d: false, read_2d: false };
    assert_eq!(sync_plan(TransformSyncMode::Disabled), off);
    assert_eq!(
        sync_plan(TransformSyncMode::OneWay),
        SyncPlan { write_3d: true, write_2d: true, read_3d: true, read_2d: false }
    );
    assert_eq!(
        sync_plan(TransformSyncMode::TwoWay),
        SyncPlan { write_3d: true, write_2d: true, read_3d: true, read_2d: true }
    );
}
