use godot_bevy::debugger::edit::InspectionError;
use godot_bevy::debugger::states::{
    check_identities, describe, list, queued_reason, queued_slot, refusal, requested_variant,
    state_type_path, transition, Backing, Receipt, StateFacts, Transition, VariantKind,
};
use godot_bevy::debugger::wire::{entity, Wire};

fn text(s: &str) -> Wire {
    Wire::String(s.to_owned())
}

fn backing(bits: u64, present: bool) -> Option<Backing> {
    Some(Backing { entity: Some((bits, 0)), present, reflectable: true })
}

fn facts(path: &str) -> StateFacts {
    StateFacts {
        type_path: path.to_owned(),
        state: backing(10, true),
        next: backing(11, true),
        mutable: true,
        unit_variants: vec!["Menu".to_owned(), "Playing".to_owned()],
    }
}

fn code_and_message<T: std::fmt::Debug>(r: Result<T, godot_bevy::debugger::service::RpcError>) -> (i64, String) {
    let e = r.unwrap_err();
    (e.code, e.message.to_owned())
}

#[test]
fn refusal_reasons_come_in_order() {
    let mut f = facts("game::Mode");
    assert_eq!(refusal(&f), None);
    f.unit_variants.clear();
    assert_eq!(refusal(&f), Some("state has no fieldless enum variants"));
    f.next = backing(11, false);
    assert_eq!(refusal(&f), Some("NextState resource absent"));
    f.next = Some(Backing { entity: Some((11, 0)), present: true, reflectable: false });
    assert_eq!(refusal(&f), Some("NextState reflection unavailable"));
    assert_eq!(queued_reason(&f.next), Some("NextState reflection unavailable"));
    f.next = None;
    assert_eq!(refusal(&f), Some("NextState reflection not registered"));
    f.mutable = false;
    assert_eq!(refusal(&f), Some("state is registered read-only"));
    f.state = backing(10, false);
    assert_eq!(refusal(&f), Some("State resource absent"));
}

#[test]
fn descriptors_show_identities_and_capabilities() {
    let (d, reason) = describe(&facts("game::Mode"));
    assert_eq!(reason, None);
    assert_eq!(d.get("type_path"), Some(&text("game::Mode")));
    assert_eq!(d.get("state_entity"), Some(&entity(10, 0)));
    assert_eq!(d.get("next_state_entity"), Some(&entity(11, 0)));
    assert_eq!(d.get("present"), Some(&Wire::Bool(true)));
    assert_eq!(d.get("next_present"), Some(&Wire::Bool(true)));
    assert_eq!(d.get("queued_available"), Some(&Wire::Bool(true)));
    assert_eq!(d.get("queued_reason"), Some(&Wire::Null));
    assert_eq!(d.get("mutable"), Some(&Wire::Bool(true)));
    assert_eq!(d.get("can_request"), Some(&Wire::Bool(true)));
    assert_eq!(d.get("reason"), Some(&Wire::Null));
    assert_eq!(d.get("unit_variants"), Some(&Wire::Array(vec![text("Menu"), text("Playing")])));

    let mut computed = facts("game::Playing");
    computed.next = None;
    computed.mutable = false;
    let (d, reason) = describe(&computed);
    assert_eq!(reason, Some("state is registered read-only"));
    assert_eq!(d.get("next_state_entity"), Some(&Wire::Null));
    assert_eq!(d.get("next_present"), Some(&Wire::Null));
    assert_eq!(d.get("queued_reason"), Some(&text("NextState reflection not registered")));
    assert_eq!(d.get("can_request"), Some(&Wire::Bool(false)));
}

#[test]
fn the_catalogue_is_sorted_by_type_path() {
    let catalogue = list(&vec![facts("z::Z"), facts("a::A"), facts("m::M")]);
    let paths: Vec<&str> = catalogue
        .get("states")
        .unwrap()
        .as_array()
        .unwrap()
        .iter()
        .map(|d| d.get("type_path").unwrap().as_str().unwrap())
        .collect();
    assert_eq!(paths, vec!["a::A", "m::M", "z::Z"]);
    assert_eq!(catalogue.get("reason"), Some(&Wire::Null));
    let empty = list(&vec![]);
    assert_eq!(empty.get("states"), Some(&Wire::Array(vec![])));
    assert_eq!(
        empty.get("reason"),
        Some(&text("Register states with App::register_type_mutable_state::<S>() or App::register_type_state::<S>()"))
    );
}

#[test]
fn requests_name_the_backing_identities() {
    let (d, _) = describe(&facts("game::Mode"));
    let own = Wire::object(vec![
        ("type_path", text("game::Mode")),
        ("state_entity", entity(10, 0)),
        ("next_state_entity", entity(11, 0)),
    ]);
    assert_eq!(state_type_path(&own).unwrap(), "game::Mode");
    assert!(check_identities(&own, &d).is_ok());

    let stale = Wire::object(vec![("state_entity", entity(10, 1)), ("next_state_entity", entity(11, 0))]);
    assert_eq!(code_and_message(check_identities(&stale, &d)), (-32000, "stale state backing identity".to_owned()));

    let partial = Wire::object(vec![("state_entity", entity(10, 0))]);
    assert_eq!(code_and_message(check_identities(&partial, &d)), (-32602, "state backing identities required".to_owned()));

    assert_eq!(code_and_message(state_type_path(&Wire::object(vec![]))), (-32602, "state type_path required".to_owned()));
}

#[test]
fn transition_requests_are_validated() {
    let value = |v: Wire| Wire::object(vec![("value", v)]);
    let good = value(Wire::object(vec![("variant", text("Playing"))]));
    assert_eq!(requested_variant(None, &good).unwrap(), "Playing");
    assert_eq!(
        code_and_message(requested_variant(Some("State resource absent"), &good)),
        (-32000, "State resource absent".to_owned())
    );
    let two = value(Wire::object(vec![("variant", text("A")), ("x", Wire::Null)]));
    assert_eq!(code_and_message(requested_variant(None, &two)), (-32602, "fieldless state variant required".to_owned()));
    assert_eq!(code_and_message(requested_variant(None, &value(text("A")))), (-32602, "fieldless state variant required".to_owned()));

    assert_eq!(transition(VariantKind::Unit, "Playing", Some("Menu"), Ok(false)).unwrap(), Transition::Queue);
    assert_eq!(transition(VariantKind::Unit, "Menu", Some("Menu"), Ok(true)).unwrap(), Transition::AlreadyCurrent);
    assert_eq!(
        code_and_message(transition(VariantKind::Unit, "Playing", Some("Menu"), Ok(true))),
        (-32000, "a state transition is already queued".to_owned())
    );
    assert_eq!(
        code_and_message(transition(VariantKind::Unit, "Playing", Some("Menu"), Err(InspectionError("unsupported NextState representation")))),
        (-32000, "unsupported NextState representation".to_owned())
    );
    assert_eq!(
        code_and_message(transition(VariantKind::Unit, "Playing", None, Ok(false))),
        (-32000, "State reflection unavailable".to_owned())
    );
    assert_eq!(
        code_and_message(transition(VariantKind::WithFields, "Paused", Some("Menu"), Ok(false))),
        (-32000, "fieldless state variant required".to_owned())
    );
    assert_eq!(
        code_and_message(transition(VariantKind::NotEnum, "Paused", Some("Menu"), Ok(false))),
        (-32000, "state has no fieldless enum variants".to_owned())
    );
    assert!(Transition::Queue.outcome().is_ok());
    assert_eq!(code_and_message(Transition::AlreadyCurrent.outcome()), (-32000, "Already current".to_owned()));
}

#[test]
fn next_state_shapes() {
    assert_eq!(queued_slot("Unchanged", false), Ok(false));
    assert_eq!(queued_slot("Pending", true), Ok(true));
    assert_eq!(queued_slot("PendingIfNeq", true), Ok(true));
    assert_eq!(queued_slot("Pending", false), Err(InspectionError("unsupported NextState representation")));
    assert_eq!(queued_slot("Other", true), Err(InspectionError("unsupported NextState representation")));
}

#[test]
fn receipts_settle_once() {
    let f = facts("game::Mode");
    let mut r = Receipt::new(&f, "Playing", false);
    assert_eq!(r.sample(&f, Some("Menu"), Some("Playing")).unwrap(), "Queued: Playing; current: Menu");
    assert_eq!(r.sample(&f, Some("Playing"), None).unwrap(), "Transition to Playing observed");
    assert_eq!(r.sample(&f, Some("Menu"), Some("Paused")).unwrap(), "Transition to Playing observed");

    let mut replaced = Receipt::new(&f, "Playing", false);
    assert_eq!(replaced.sample(&f, Some("Menu"), Some("Paused")).unwrap(), "Request replaced by Paused");

    let mut consumed = Receipt::new(&f, "Playing", false);
    assert_eq!(
        consumed.sample(&f, Some("Menu"), None).unwrap(),
        "No longer pending; transition to Playing not observed"
    );

    let mut blind = Receipt::new(&f, "Playing", false);
    let mut hidden = facts("game::Mode");
    hidden.next = backing(11, false);
    assert_eq!(
        blind.sample(&hidden, Some("Menu"), None).unwrap(),
        "State or queue unavailable; request outcome unavailable"
    );
    assert!(blind.terminal.is_none());

    let mut moved = facts("game::Mode");
    moved.state = backing(12, true);
    assert!(blind.sample(&moved, Some("Menu"), None).is_none());

    let mut current = Receipt::new(&f, "Menu", true);
    assert_eq!(current.sample(&f, Some("Menu"), None).unwrap(), "Already current");
}
