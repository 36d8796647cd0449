use godot_bevy::debugger::edit::{decode_scalar, Decoded, InspectionError, LeafType, PathSegment};
use godot_bevy::debugger::inspect::{inspect_value, locate, Member, Reflected, Shape};
use godot_bevy::debugger::value::{
    permission, signed_integer_scalar, unsigned_integer_scalar, Field, InspectorRange, Kind, ReadOnlyReason,
    Scalar, Value, ValueLimits, Writable,
};
use godot_bevy::debugger::wire::{entity, wire_eq, Wire};

fn text(s: &str) -> Wire {
    Wire::String(s.to_owned())
}

fn value(type_path: &str, kind: Kind, writable: Writable) -> Value {
    Value { type_path: type_path.to_owned(), kind, writable, range: None }
}

fn reflected(type_path: &str, shape: Shape) -> Reflected {
    Reflected { type_path: type_path.to_owned(), shape }
}

fn integer(n: i64) -> Reflected {
    reflected("i64", Shape::Scalar { scalar: Scalar::Integer(n), borrowed_str: false })
}

fn member(name: &str, value: Reflected) -> Member {
    Member { name: name.to_owned(), value, read_only: false, range: None }
}

#[test]
fn scalar_values_render_with_their_kind() {
    let w = Wire::from_value(&value("i64", Kind::Scalar(Scalar::Integer(7)), Writable::Yes));
    assert_eq!(w.get("type_path"), Some(&text("i64")));
    assert_eq!(w.get("kind"), Some(&text("integer")));
    assert_eq!(w.get("value"), Some(&Wire::Integer(7)));
    assert_eq!(w.get("writable"), Some(&Wire::object(vec![("allowed", Wire::Bool(true))])));
    assert_eq!(w.get("range"), None);

    let wide = Wire::from_value(&value("u128", Kind::Scalar(Scalar::Decimal("340282366920938463463374607431768211455".to_owned())), Writable::Yes));
    assert_eq!(wide.get("kind"), Some(&text("integer")));
    assert_eq!(wide.get("value"), Some(&text("340282366920938463463374607431768211455")));

    let c = Wire::from_value(&value("char", Kind::Scalar(Scalar::Char('é')), Writable::No(ReadOnlyReason::InspectorReadOnly)));
    assert_eq!(c.get("kind"), Some(&text("char")));
    assert_eq!(c.get("value"), Some(&text("é")));
    assert_eq!(
        c.get("writable"),
        Some(&Wire::object(vec![
            ("allowed", Wire::Bool(false)),
            ("reason", text("field is marked InspectorReadOnly")),
        ]))
    );

    let mut ranged = value("f32", Kind::Scalar(Scalar::Float(1.5f64.to_bits())), Writable::Yes);
    ranged.range = Some(InspectorRange::new(0.0f64.to_bits(), 2.0f64.to_bits()));
    let r = Wire::from_value(&ranged);
    assert_eq!(r.get("kind"), Some(&text("float")));
    assert_eq!(r.get("value"), Some(&Wire::Float(1.5f64.to_bits())));
    assert_eq!(
        r.get("range"),
        Some(&Wire::object(vec![("min", Wire::Float(0.0f64.to_bits())), ("max", Wire::Float(2.0f64.to_bits()))]))
    );
}

#[test]
fn composite_values_render_their_members() {
    let inner = value("i32", Kind::Scalar(Scalar::Integer(3)), Writable::Yes);
    let s = value(
        "game::Health",
        Kind::Struct(vec![Field { name: "hp".to_owned(), value: inner }]),
        Writable::No(ReadOnlyReason::KindNotEditable),
    );
    let w = Wire::from_value(&s);
    assert_eq!(w.get("kind"), Some(&text("struct")));
    let fields = w.get("fields").unwrap().as_array().unwrap();
    assert_eq!(fields.len(), 1);
    assert_eq!(fields[0].get("name"), Some(&text("hp")));
    assert_eq!(fields[0].get("value").unwrap().get("value"), Some(&Wire::Integer(3)));

    let list = value(
        "Vec<i32>",
        Kind::List {
            items: vec![value("i32", Kind::Scalar(Scalar::Integer(1)), Writable::Yes)],
            truncated: 4,
        },
        Writable::No(ReadOnlyReason::KindNotEditable),
    );
    let w = Wire::from_value(&list);
    assert_eq!(w.get("kind"), Some(&text("list")));
    assert_eq!(w.get("truncated"), Some(&Wire::Integer(4)));
    assert_eq!(w.get("items").unwrap().as_array().unwrap().len(), 1);

    let map = value(
        "HashMap<String, i32>",
        Kind::Mapping {
            entries: vec![(
                value("String", Kind::Scalar(Scalar::String("k".to_owned())), Writable::Yes),
                value("i32", Kind::Scalar(Scalar::Integer(2)), Writable::Yes),
            )],
            truncated: 0,
        },
        Writable::No(ReadOnlyReason::KindNotEditable),
    );
    let w = Wire::from_value(&map);
    assert_eq!(w.get("kind"), Some(&text("map")));
    let entry = &w.get("entries").unwrap().as_array().unwrap()[0];
    assert_eq!(entry.get("key").unwrap().get("value"), Some(&text("k")));
    assert_eq!(entry.get("value").unwrap().get("value"), Some(&Wire::Integer(2)));

    let e = value(
        "Option<i32>",
        Kind::Enum { variant: "None".to_owned(), fields: vec![], unit_variants: vec!["None".to_owned()] },
        Writable::Yes,
    );
    let w = Wire::from_value(&e);
    assert_eq!(w.get("kind"), Some(&text("enum")));
    assert_eq!(w.get("variant"), Some(&text("None")));
    assert_eq!(w.get("unit_variants"), Some(&Wire::Array(vec![text("None")])));
    assert_eq!(w.get("fields"), Some(&Wire::Array(vec![])));
}

#[test]
fn references_and_leaves_render() {
    let w = Wire::from_value(&value("Entity", Kind::Entity { bits: 42, generation: 0 }, Writable::No(ReadOnlyReason::Reference)));
    assert_eq!(w.get("kind"), Some(&text("entity")));
    assert_eq!(w.get("entity"), Some(&entity(42, 0)));

    let w = Wire::from_value(&Value::node_handle("GodotNodeHandle".to_owned(), 123456789, true));
    assert_eq!(w.get("kind"), Some(&text("node")));
    assert_eq!(w.get("instance_id"), Some(&text("123456789")));
    assert_eq!(w.get("valid"), Some(&Wire::Bool(true)));
    assert_eq!(
        w.get("writable").unwrap().get("reason"),
        Some(&text("reference is read-only"))
    );

    let w = Wire::from_value(&value("Opaque", Kind::Opaque("Instant { .. }".to_owned()), Writable::No(ReadOnlyReason::OpaqueAncestor)));
    assert_eq!(w.get("debug"), Some(&text("Instant { .. }")));
    let w = Wire::from_value(&Value::unsupported("x::Y".to_owned(), ReadOnlyReason::ComponentNotRegistered));
    assert_eq!(w.get("kind"), Some(&text("unsupported")));
    assert_eq!(w.get("reason"), Some(&text("component not registered")));
    let w = Wire::from_value(&value("x::Deep", Kind::DepthLimit, Writable::No(ReadOnlyReason::DepthLimit)));
    assert_eq!(w.get("kind"), Some(&text("depth_limit")));
    assert_eq!(w.get("reason"), Some(&text("maximum depth reached")));
}

#[test]
fn inspection_applies_permissions_and_limits() {
    let limits = ValueLimits::default();
    let player = reflected(
        "game::Player",
        Shape::Struct(vec![
            member("hp", integer(5)),
            Member { name: "id".to_owned(), value: integer(9), read_only: true, range: None },
            Member {
                name: "speed".to_owned(),
                value: reflected("f32", Shape::Scalar { scalar: Scalar::Float(2.0f64.to_bits()), borrowed_str: false }),
                read_only: false,
                range: Some(InspectorRange::new(0.0f64.to_bits(), 10.0f64.to_bits())),
            },
        ]),
    );
    let v = inspect_value(&player, Writable::Yes, &limits);
    assert_eq!(v.writable, Writable::No(ReadOnlyReason::KindNotEditable));
    match &v.kind {
        Kind::Struct(fields) => {
            assert_eq!(fields[0].value.writable, Writable::Yes);
            assert_eq!(fields[1].value.writable, Writable::No(ReadOnlyReason::InspectorReadOnly));
            assert_eq!(fields[2].value.range, Some(InspectorRange::new(0.0f64.to_bits(), 10.0f64.to_bits())));
        }
        other => panic!("unexpected {other:?}"),
    }

    let many = reflected("Vec<i64>", Shape::List((0..130).map(integer).collect()));
    let v = inspect_value(&many, Writable::Yes, &limits);
    match &v.kind {
        Kind::List { items, truncated } => {
            assert_eq!(items.len(), 128);
            assert_eq!(*truncated, 2);
            assert_eq!(items[0].writable, Writable::Yes);
        }
        other => panic!("unexpected {other:?}"),
    }

    let set = reflected("HashSet<i64>", Shape::UnorderedSet(vec![integer(1)]));
    match inspect_value(&set, Writable::Yes, &limits).kind {
        Kind::UnorderedSet { members, truncated } => {
            assert_eq!(truncated, 0);
            assert_eq!(members[0].writable, Writable::No(ReadOnlyReason::KindNotEditable));
        }
        other => panic!("unexpected {other:?}"),
    }

    let shallow = ValueLimits { max_depth: 1, max_elements: 128 };
    let nested = reflected("Outer", Shape::Tuple(vec![member("0", reflected("Inner", Shape::Tuple(vec![member("0", integer(1))])))]));
    match inspect_value(&nested, Writable::Yes, &shallow).kind {
        Kind::Tuple(values) => {
            assert!(matches!(values[0].kind, Kind::DepthLimit));
            assert_eq!(values[0].writable, Writable::No(ReadOnlyReason::DepthLimit));
        }
        other => panic!("unexpected {other:?}"),
    }

    let e = reflected("Entity", Shape::Entity { bits: 3, generation: 1 });
    assert_eq!(inspect_value(&e, Writable::Yes, &limits).writable, Writable::No(ReadOnlyReason::Reference));
    let s = reflected("&str", Shape::Scalar { scalar: Scalar::String("x".to_owned()), borrowed_str: true });
    assert_eq!(inspect_value(&s, Writable::Yes, &limits).writable, Writable::No(ReadOnlyReason::KindNotEditable));
    let switchable = reflected(
        "Mode",
        Shape::Enum { variant: "Menu".to_owned(), fields: vec![], unit_variants: vec!["Menu".to_owned()], from_reflect: true },
    );
    assert_eq!(inspect_value(&switchable, Writable::Yes, &limits).writable, Writable::Yes);
    let fixed = reflected(
        "Mode",
        Shape::Enum { variant: "Menu".to_owned(), fields: vec![], unit_variants: vec!["Menu".to_owned()], from_reflect: false },
    );
    assert_eq!(inspect_value(&fixed, Writable::Yes, &limits).writable, Writable::No(ReadOnlyReason::KindNotEditable));
    let opaque = reflected("Instant", Shape::Opaque("Instant".to_owned()));
    assert_eq!(
        inspect_value(&opaque, Writable::No(ReadOnlyReason::ComponentImmutable), &limits).writable,
        Writable::No(ReadOnlyReason::ComponentImmutable)
    );
}

#[test]
fn component_permissions_follow_registration() {
    assert_eq!(permission(false, true, false, true), Writable::No(ReadOnlyReason::ComponentNotRegistered));
    assert_eq!(permission(true, false, false, true), Writable::No(ReadOnlyReason::ComponentImmutable));
    assert_eq!(permission(true, true, true, true), Writable::No(ReadOnlyReason::Relationship));
    assert_eq!(permission(true, true, false, false), Writable::No(ReadOnlyReason::NoReflectComponent));
    assert_eq!(permission(true, true, false, true), Writable::Yes);
    assert_eq!(
        Writable::No(ReadOnlyReason::Reference).restrict(ReadOnlyReason::DepthLimit),
        Writable::No(ReadOnlyReason::Reference)
    );
}

#[test]
fn transport_equality_compares_contents() {
    let a = Wire::object(vec![("x", Wire::Integer(1)), ("y", Wire::Array(vec![text("s")]))]);
    let b = Wire::object(vec![("y", Wire::Array(vec![text("s")])), ("x", Wire::Integer(1))]);
    assert!(wire_eq(&a, &b));
    assert!(!wire_eq(&a, &Wire::object(vec![("x", Wire::Integer(2))])));
    assert!(wire_eq(&Wire::Float(0.0f64.to_bits()), &Wire::Float((-0.0f64).to_bits())));
    assert!(!wire_eq(&Wire::Float(f64::NAN.to_bits()), &Wire::Float(f64::NAN.to_bits())));
    assert!(!wire_eq(&Wire::Null, &Wire::Bool(false)));
}

fn failed(r: Result<Decoded, InspectionError>) -> bool {
    r == Err(InspectionError("decode failure"))
}

#[test]
fn integer_edits_decode_inside_the_leaf_range() {
    assert_eq!(decode_scalar(LeafType::U8, &Scalar::Integer(200)), Ok(Decoded::Unsigned(200)));
    assert!(failed(decode_scalar(LeafType::U8, &Scalar::Integer(300))));
    assert!(failed(decode_scalar(LeafType::U8, &Scalar::Integer(-1))));
    assert_eq!(decode_scalar(LeafType::I8, &Scalar::Integer(-128)), Ok(Decoded::Signed(-128)));
    assert!(failed(decode_scalar(LeafType::I8, &Scalar::Integer(-129))));
    assert_eq!(
        decode_scalar(LeafType::I128, &Scalar::Decimal("-170141183460469231731687303715884105728".to_owned())),
        Ok(Decoded::Signed(i128::MIN))
    );
    assert_eq!(
        decode_scalar(LeafType::U128, &Scalar::Decimal("340282366920938463463374607431768211455".to_owned())),
        Ok(Decoded::Unsigned(u128::MAX))
    );
    assert!(failed(decode_scalar(
        LeafType::U128,
        &Scalar::Decimal("340282366920938463463374607431768211456".to_owned())
    )));
}

#[test]
fn integer_text_follows_the_leaf_sign_rules() {
    assert_eq!(decode_scalar(LeafType::U16, &Scalar::String("+42".to_owned())), Ok(Decoded::Unsigned(42)));
    assert!(failed(decode_scalar(LeafType::U16, &Scalar::String("-0".to_owned()))));
    assert_eq!(decode_scalar(LeafType::I16, &Scalar::String("-0".to_owned())), Ok(Decoded::Signed(0)));
    assert!(failed(decode_scalar(LeafType::I32, &Scalar::String("".to_owned()))));
    assert!(failed(decode_scalar(LeafType::I32, &Scalar::String("-".to_owned()))));
    assert!(failed(decode_scalar(LeafType::I32, &Scalar::String(" 1".to_owned()))));
    assert!(failed(decode_scalar(LeafType::I32, &Scalar::Bool(true))));
}

#[test]
fn other_leaves_take_their_own_scalars() {
    assert_eq!(decode_scalar(LeafType::Bool, &Scalar::Bool(true)), Ok(Decoded::Bool(true)));
    assert!(failed(decode_scalar(LeafType::Bool, &Scalar::Integer(1))));
    assert_eq!(
        decode_scalar(LeafType::Text, &Scalar::String("hi".to_owned())),
        Ok(Decoded::Text("hi".to_owned()))
    );
    assert_eq!(decode_scalar(LeafType::Char, &Scalar::Char('x')), Ok(Decoded::Char('x')));
    assert_eq!(decode_scalar(LeafType::Char, &Scalar::String("é".to_owned())), Ok(Decoded::Char('é')));
    assert!(failed(decode_scalar(LeafType::Char, &Scalar::String("ab".to_owned()))));
    assert!(failed(decode_scalar(LeafType::Char, &Scalar::String("".to_owned()))));
}

#[test]
fn wide_integers_become_decimal_text_past_i64() {
    assert_eq!(signed_integer_scalar(-5), Scalar::Integer(-5));
    assert_eq!(signed_integer_scalar(i64::MIN as i128), Scalar::Integer(i64::MIN));
    assert_eq!(
        signed_integer_scalar(i64::MIN as i128 - 1),
        Scalar::Decimal("-9223372036854775809".to_owned())
    );
    assert_eq!(signed_integer_scalar(i128::MIN), Scalar::Decimal(i128::MIN.to_string()));
    assert_eq!(signed_integer_scalar(i128::MAX), Scalar::Decimal(i128::MAX.to_string()));
    assert_eq!(unsigned_integer_scalar(i64::MAX as u128), Scalar::Integer(i64::MAX));
    assert_eq!(
        unsigned_integer_scalar(i64::MAX as u128 + 1),
        Scalar::Decimal("9223372036854775808".to_owned())
    );
    assert_eq!(unsigned_integer_scalar(u128::MAX), Scalar::Decimal(u128::MAX.to_string()));
}

fn field(name: &str) -> PathSegment {
    PathSegment::Field(name.to_owned())
}

fn refused(message: &'static str) -> Result<Option<InspectorRange>, InspectionError> {
    Err(InspectionError(message))
}

fn sample_component() -> Reflected {
    let outer_range = InspectorRange::new(0f64.to_bits(), 10f64.to_bits());
    let inner_range = InspectorRange::new(1f64.to_bits(), 2f64.to_bits());
    let stats = reflected(
        "game::Stats",
        Shape::Struct(vec![
            Member { name: "speed".to_owned(), value: integer(3), read_only: false, range: Some(inner_range) },
            member("level", integer(1)),
        ]),
    );
    let mode = reflected(
        "game::Mode",
        Shape::Enum {
            variant: "Fast".to_owned(),
            fields: vec![member("0", integer(5))],
            unit_variants: vec![],
            from_reflect: true,
        },
    );
    reflected(
        "game::Player",
        Shape::Struct(vec![
            Member { name: "stats".to_owned(), value: stats, read_only: false, range: Some(outer_range) },
            Member { name: "id".to_owned(), value: integer(9), read_only: true, range: None },
            member("target", reflected("bevy_ecs::entity::Entity", Shape::Entity { bits: 4, generation: 0 })),
            member("scores", reflected("Vec<i64>", Shape::List(vec![integer(1), integer(2)]))),
            member("table", reflected("HashMap<i64, i64>", Shape::Mapping(vec![]))),
            member("mode", mode),
        ]),
    )
}

#[test]
fn edit_paths_reach_leaves_with_the_nearest_range() {
    let c = sample_component();
    let outer_range = InspectorRange::new(0f64.to_bits(), 10f64.to_bits());
    let inner_range = InspectorRange::new(1f64.to_bits(), 2f64.to_bits());
    assert_eq!(locate(&c, &vec![]), Ok(None));
    assert_eq!(locate(&c, &vec![field("stats"), field("speed")]), Ok(Some(inner_range)));
    assert_eq!(locate(&c, &vec![field("stats"), field("level")]), Ok(Some(outer_range)));
    assert_eq!(locate(&c, &vec![field("scores"), PathSegment::Index(1)]), Ok(None));
    assert_eq!(
        locate(&c, &vec![field("mode"), PathSegment::Variant("Fast".to_owned()), PathSegment::Index(0)]),
        Ok(None)
    );
}

#[test]
fn edit_paths_are_refused_where_the_original_refuses() {
    let c = sample_component();
    assert_eq!(locate(&c, &vec![field("id")]), refused("field is marked InspectorReadOnly"));
    assert_eq!(
        locate(&c, &vec![field("target"), field("bits")]),
        refused("reference is read-only")
    );
    assert_eq!(
        locate(&c, &vec![field("stats"), field("speed"), field("x")]),
        refused("field reached through an opaque or unsupported ancestor")
    );
    assert_eq!(
        locate(&c, &vec![field("table"), PathSegment::Index(0)]),
        refused("kind not editable in this round")
    );
    assert_eq!(locate(&c, &vec![field("missing")]), refused("path shape changed"));
    assert_eq!(locate(&c, &vec![field("scores"), PathSegment::Index(2)]), refused("path shape changed"));
    assert_eq!(
        locate(&c, &vec![field("mode"), PathSegment::Variant("Slow".to_owned()), PathSegment::Index(0)]),
        refused("path shape changed")
    );
    assert_eq!(
        locate(&c, &vec![field("mode"), PathSegment::Variant("Fast".to_owned()), field("0")]),
        refused("path shape changed")
    );
    assert_eq!(
        locate(&c, &vec![field("mode"), PathSegment::Variant("Fast".to_owned())]),
        refused("path shape changed")
    );
}
