use godot_bevy::debugger::decode::{decode_request, RequestValue, REQUEST_BUDGET};
use godot_bevy::debugger::edit::{Edit, PathSegment};
use godot_bevy::debugger::service::{is_notification, reply, requests_per_frame};
use godot_bevy::debugger::service::{
    components_reply, discover, edit_path, edit_value, incoming, index, method_params,
    mutation_request, optional_string, page_request, request_method, request_params,
    requested_components, resolve_paths, resolve_reply, route, sorted_refs, string,
    subscribed_reply, subscription_interval, target, Interval, Method, RpcError,
};
use godot_bevy::debugger::value::Scalar;
use godot_bevy::debugger::wire::{entity, Wire};

fn text(s: &str) -> Wire {
    Wire::String(s.to_owned())
}

fn request(method: Wire, params: Option<Wire>) -> Wire {
    let mut fields = vec![("jsonrpc", text("2.0")), ("method", method)];
    if let Some(p) = params {
        fields.push(("params", p));
    }
    Wire::object(fields)
}

fn error(code: i64, message: &str) -> (i64, String) {
    (code, message.to_owned())
}

fn err_of<T>(r: Result<T, RpcError>) -> (i64, String) {
    match r {
        Ok(_) => panic!("expected an error"),
        Err(e) => (e.code, e.message.to_owned()),
    }
}

#[test]
fn request_envelope_and_method_are_checked() {
    let ok = request(text("godot.query"), None);
    assert_eq!(request_method(&ok).unwrap(), "godot.query");

    let no_version = Wire::object(vec![("method", text("godot.query"))]);
    assert_eq!(err_of(request_method(&no_version)), error(-32600, "expected a JSON-RPC 2.0 request"));

    let old = Wire::object(vec![("jsonrpc", text("1.0")), ("method", text("x"))]);
    assert_eq!(err_of(request_method(&old)), error(-32600, "expected a JSON-RPC 2.0 request"));

    let reply = Wire::object(vec![
        ("jsonrpc", text("2.0")),
        ("method", text("x")),
        ("result", Wire::Null),
    ]);
    assert_eq!(err_of(request_method(&reply)), error(-32600, "expected a JSON-RPC 2.0 request"));

    let numeric = request(Wire::Integer(3), None);
    assert_eq!(err_of(request_method(&numeric)), error(-32600, "method must be a string"));
}

#[test]
fn params_must_be_an_object_or_absent() {
    assert!(request_params(&request(text("m"), None)).unwrap().is_none());
    assert!(request_params(&request(text("m"), Some(Wire::Null))).unwrap().is_none());
    let with = request(text("m"), Some(Wire::object(vec![("a", Wire::Integer(1))])));
    assert_eq!(
        request_params(&with).unwrap().unwrap().get("a"),
        Some(&Wire::Integer(1))
    );
    let bad = request(text("m"), Some(Wire::Integer(1)));
    assert_eq!(err_of(request_params(&bad)), error(-32602, "params must be a Dictionary"));
}

#[test]
fn incoming_requests_follow_the_refusal_order() {
    let query = request(text("godot.query"), None);
    let (method, params) = incoming(&query, true).unwrap();
    assert_eq!(method, Method::Query);
    assert!(params.is_none());

    assert_eq!(err_of(incoming(&query, false)), error(-32000, "debugger disabled"));
    let unsubscribe = request(text("godot.unsubscribe"), None);
    assert_eq!(incoming(&unsubscribe, false).unwrap().0, Method::Unsubscribe);

    let unknown = request(text("world.query"), None);
    assert_eq!(err_of(incoming(&unknown, true)), error(-32601, "method not found"));
    let bad_params = request(text("world.query"), Some(Wire::Bool(true)));
    assert_eq!(err_of(incoming(&bad_params, true)), error(-32602, "params must be a Dictionary"));

    assert_eq!(route("godot.list_states").unwrap(), Method::ListStates);
    assert_eq!(route("godot.get_state").unwrap(), Method::GetState);
    assert_eq!(route("godot.request_state_transition").unwrap(), Method::RequestState);
    assert_eq!(route("rpc.discover").unwrap(), Method::Discover);
}

#[test]
fn scalar_parameters() {
    let params = Wire::object(vec![
        ("name", text("player")),
        ("page", Wire::Integer(3)),
        ("negative", Wire::Integer(-2)),
        ("flag", Wire::Bool(true)),
    ]);
    assert_eq!(string(&params, "name").unwrap(), "player");
    assert_eq!(err_of(string(&params, "flag")), error(-32602, "missing or invalid string parameter"));
    assert_eq!(err_of(string(&params, "absent")), error(-32602, "missing or invalid string parameter"));
    assert_eq!(optional_string(&params, "absent").unwrap(), None);
    assert_eq!(optional_string(&params, "name").unwrap(), Some("player"));
    assert_eq!(err_of(optional_string(&params, "page")), error(-32602, "invalid string parameter"));
    assert_eq!(index(&params, "page").unwrap(), 3);
    assert_eq!(err_of(index(&params, "negative")), error(-32602, "index must be nonnegative"));
    assert_eq!(err_of(index(&params, "name")), error(-32602, "missing or invalid integer parameter"));
}

fn entity_params(reference: Wire) -> Wire {
    Wire::object(vec![("entity", reference)])
}

#[test]
fn entity_references_are_read_back() {
    let bits = (5u64 << 32) | 7;
    let reference = entity(bits, 5);
    assert_eq!(reference.get("bits"), Some(&text("21474836487")));
    assert_eq!(reference.get("generation"), Some(&Wire::Integer(5)));
    assert_eq!(target(&entity_params(reference)).unwrap(), bits);

    let stale = entity(bits, 4);
    assert_eq!(err_of(target(&entity_params(stale))), error(-32000, "stale entity"));

    let signed = Wire::object(vec![("bits", text("+21474836487")), ("generation", Wire::Integer(5))]);
    assert_eq!(target(&entity_params(signed)).unwrap(), bits);

    let zero_row = Wire::object(vec![("bits", text("4294967296")), ("generation", Wire::Integer(1))]);
    assert_eq!(err_of(target(&entity_params(zero_row))), error(-32602, "invalid entity bits"));

    let words = Wire::object(vec![("bits", text("seven")), ("generation", Wire::Integer(0))]);
    assert_eq!(err_of(target(&entity_params(words))), error(-32602, "invalid entity bits"));

    let too_big = Wire::object(vec![("bits", text("18446744073709551616")), ("generation", Wire::Integer(0))]);
    assert_eq!(err_of(target(&entity_params(too_big))), error(-32602, "invalid entity bits"));

    let numeric = Wire::object(vec![("bits", Wire::Integer(7)), ("generation", Wire::Integer(0))]);
    assert_eq!(err_of(target(&entity_params(numeric))), error(-32602, "missing or invalid string parameter"));

    let negative = Wire::object(vec![("bits", text("7")), ("generation", Wire::Integer(-1))]);
    assert_eq!(err_of(target(&entity_params(negative))), error(-32602, "index must be nonnegative"));

    assert_eq!(err_of(target(&Wire::object(vec![]))), error(-32602, "entity reference required"));
}

#[test]
fn edit_paths_are_parsed_in_order() {
    let params = Wire::object(vec![(
        "path",
        Wire::Array(vec![
            Wire::object(vec![("field", text("position"))]),
            Wire::object(vec![("index", Wire::Integer(2))]),
            Wire::object(vec![("variant", text("Some"))]),
        ]),
    )]);
    assert_eq!(
        edit_path(&params).unwrap(),
        vec![
            PathSegment::Field("position".to_owned()),
            PathSegment::Index(2),
            PathSegment::Variant("Some".to_owned()),
        ]
    );

    let unknown_key = Wire::object(vec![(
        "path",
        Wire::Array(vec![Wire::object(vec![("name", text("x"))])]),
    )]);
    assert_eq!(err_of(edit_path(&unknown_key)), error(-32602, "invalid path segment"));

    let two_keys = Wire::object(vec![(
        "path",
        Wire::Array(vec![Wire::object(vec![("field", text("x")), ("index", Wire::Integer(0))])]),
    )]);
    assert_eq!(err_of(edit_path(&two_keys)), error(-32602, "invalid path segment"));

    let first_error_wins = Wire::object(vec![(
        "path",
        Wire::Array(vec![
            Wire::object(vec![("index", Wire::Integer(-1))]),
            Wire::Integer(3),
        ]),
    )]);
    assert_eq!(err_of(edit_path(&first_error_wins)), error(-32602, "index must be nonnegative"));

    assert_eq!(
        err_of(edit_path(&Wire::object(vec![]))),
        error(-32602, "path must be an array of field, index or variant segments")
    );
}

#[test]
fn edit_values_decode_scalars_and_variants() {
    let value = |v: Wire| Wire::object(vec![("value", v)]);
    assert!(matches!(edit_value(&value(Wire::Bool(true))).unwrap(), Edit::Scalar(Scalar::Bool(true))));
    assert!(matches!(edit_value(&value(Wire::Integer(-4))).unwrap(), Edit::Scalar(Scalar::Integer(-4))));
    let half = 0.5f64.to_bits();
    assert!(matches!(edit_value(&value(Wire::Float(half))).unwrap(), Edit::Scalar(Scalar::Float(b)) if b == half));
    assert!(matches!(edit_value(&value(text("hi"))).unwrap(), Edit::Scalar(Scalar::String(s)) if s == "hi"));
    assert!(matches!(
        edit_value(&value(Wire::object(vec![("variant", text("On"))]))).unwrap(),
        Edit::Variant(v) if v == "On"
    ));
    assert_eq!(
        err_of(edit_value(&value(Wire::object(vec![("variant", Wire::Integer(1))])))),
        error(-32602, "missing or invalid string parameter")
    );
    assert_eq!(err_of(edit_value(&value(Wire::Null))), error(-32602, "decode failure"));
    assert_eq!(err_of(edit_value(&value(Wire::Array(vec![])))), error(-32602, "decode failure"));
    assert_eq!(err_of(edit_value(&Wire::object(vec![]))), error(-32602, "decode failure"));
}

#[test]
fn mutation_requests_refuse_the_node_handle() {
    let handle = "godot_bevy::interop::GodotNodeHandle";
    let params = Wire::object(vec![
        ("component", text(handle)),
        ("path", Wire::Array(vec![])),
        ("value", Wire::Bool(true)),
    ]);
    assert_eq!(err_of(mutation_request(&params, handle)), error(-32000, "reference is read-only"));

    let params = Wire::object(vec![
        ("component", text("game::Health")),
        ("path", Wire::Array(vec![Wire::object(vec![("field", text("hp"))])])),
        ("value", Wire::Integer(9)),
    ]);
    let (component, path, edit) = mutation_request(&params, handle).unwrap();
    assert_eq!(component, "game::Health");
    assert_eq!(path, vec![PathSegment::Field("hp".to_owned())]);
    assert!(matches!(edit, Edit::Scalar(Scalar::Integer(9))));

    let missing = Wire::object(vec![("path", Wire::Array(vec![]))]);
    assert_eq!(err_of(mutation_request(&missing, handle)), error(-32602, "missing or invalid string parameter"));
}

#[test]
fn node_lookups_take_authored_relative_paths() {
    let paths = |scene: &str, node: &str| {
        Wire::object(vec![("scene_path", text(scene)), ("node_path", text(node))])
    };
    let ok = paths("res://level.tscn", "Player/Sprite");
    assert_eq!(resolve_paths(&ok).unwrap(), ("res://level.tscn", "Player/Sprite"));
    let refused = "expected an authored scene and relative node path";
    assert_eq!(err_of(resolve_paths(&paths("", "Player"))), error(-32602, refused));
    assert_eq!(err_of(resolve_paths(&paths("res://a.tscn", ""))), error(-32602, refused));
    assert_eq!(err_of(resolve_paths(&paths("res://a.tscn", "/root/Player"))), error(-32602, refused));
    assert_eq!(err_of(resolve_paths(&paths("res://a.tscn", "Player:position"))), error(-32602, refused));
    assert_eq!(err_of(resolve_paths(&paths("res://a.tscn", "a/../b"))), error(-32602, refused));
    assert_eq!(err_of(resolve_paths(&paths("res://a.tscn", "a/.."))), error(-32602, refused));
    assert!(resolve_paths(&paths("res://a.tscn", "a/..b")).is_ok());
    assert!(resolve_paths(&paths("res://a.tscn", "...")).is_ok());
}

#[test]
fn resolved_candidates_are_sorted_once_each() {
    let reply = resolve_reply(&vec![(9, 1), (3, 0), (9, 1), (3, 2)]);
    assert_eq!(
        reply.get("candidates"),
        Some(&Wire::Array(vec![entity(3, 0), entity(3, 2), entity(9, 1)]))
    );
    assert_eq!(reply.get("reason"), Some(&Wire::Null));
    assert_eq!(sorted_refs(&vec![(2, 0), (1, 0), (2, 0)]), vec![(1, 0), (2, 0)]);
    assert_eq!(sorted_refs(&vec![]), Vec::<(u64, u32)>::new());
}

#[test]
fn subscription_intervals_must_be_finite_and_not_negative() {
    let interval = |v: Wire| subscription_interval(&Wire::object(vec![("interval_s", v)]));
    assert_eq!(interval(Wire::Float(0.5f64.to_bits())).unwrap(), Interval::Seconds(0.5f64.to_bits()));
    assert_eq!(interval(Wire::Float((-0.0f64).to_bits())).unwrap(), Interval::Seconds((-0.0f64).to_bits()));
    assert_eq!(interval(Wire::Integer(2)).unwrap(), Interval::WholeSeconds(2));
    let refused = "interval_s must be a finite nonnegative number";
    assert_eq!(err_of(interval(Wire::Float((-1.0f64).to_bits()))), error(-32602, refused));
    assert_eq!(err_of(interval(Wire::Float(f64::NAN.to_bits()))), error(-32602, refused));
    assert_eq!(err_of(interval(Wire::Float(f64::INFINITY.to_bits()))), error(-32602, refused));
    assert_eq!(err_of(interval(Wire::Integer(-1))), error(-32602, refused));
    assert_eq!(err_of(interval(text("1"))), error(-32602, refused));
}

#[test]
fn query_pages_and_filters() {
    let q = page_request(&Wire::object(vec![
        ("page", Wire::Integer(1)),
        ("page_size", Wire::Integer(10)),
        ("name_contains", text("Play")),
    ]))
    .unwrap();
    assert_eq!(q.page, 1);
    assert_eq!(q.page_size, 10);
    assert_eq!(q.offset, 10);
    assert_eq!(q.name_contains.as_deref(), Some("Play"));
    assert!(q.component.is_none());
    assert!(q.node_path.is_none());

    let sized = |n: i64| {
        page_request(&Wire::object(vec![("page", Wire::Integer(0)), ("page_size", Wire::Integer(n))]))
    };
    assert_eq!(err_of(sized(0)), error(-32602, "page_size must be between 1 and 256"));
    assert_eq!(err_of(sized(257)), error(-32602, "page_size must be between 1 and 256"));
    assert_eq!(sized(256).unwrap().page_size, 256);

    let huge = page_request(&Wire::object(vec![
        ("page", Wire::Integer(i64::MAX)),
        ("page_size", Wire::Integer(256)),
    ]));
    assert_eq!(err_of(huge), error(-32602, "page offset overflow"));

    let bad_filter = page_request(&Wire::object(vec![
        ("page", Wire::Integer(0)),
        ("page_size", Wire::Integer(1)),
        ("component", Wire::Integer(1)),
    ]));
    assert_eq!(err_of(bad_filter), error(-32602, "invalid string parameter"));

    let no_page = page_request(&Wire::object(vec![("page_size", Wire::Integer(1))]));
    assert_eq!(err_of(no_page), error(-32602, "missing or invalid integer parameter"));
}

#[test]
fn discovery_lists_the_methods_and_their_parameters() {
    let document = discover("0.9.0");
    assert_eq!(document.get("openrpc"), Some(&text("1.2.6")));
    let info = document.get("info").unwrap();
    assert_eq!(info.get("title"), Some(&text("godot-bevy inspection service")));
    assert_eq!(info.get("version"), Some(&text("0.9.0")));
    let methods = document.get("methods").unwrap().as_array().unwrap();
    let names: Vec<&str> = methods.iter().map(|m| m.get("name").unwrap().as_str().unwrap()).collect();
    assert_eq!(
        names,
        vec![
            "rpc.discover",
            "godot.subscribe",
            "godot.unsubscribe",
            "godot.query",
            "godot.get_components",
            "godot.mutate_leaf",
            "godot.resolve_node",
        ]
    );
    assert!(methods.iter().all(|m| !m.get("name").unwrap().as_str().unwrap().starts_with("world.")));
    let query = &methods[3];
    let params = query.get("params").unwrap().as_array().unwrap();
    assert_eq!(params.len(), 5);
    assert_eq!(params[3].get("name"), Some(&text("page")));
    assert_eq!(params[3].get("required"), Some(&Wire::Bool(true)));
    assert_eq!(params[3].get("schema").unwrap().get("type"), Some(&text("integer")));
    let result = query.get("result").unwrap();
    assert_eq!(result.get("name"), Some(&text("result")));
    assert_eq!(result.get("schema"), Some(&Wire::Object(vec![])));

    let mutate = method_params("godot.mutate_leaf");
    let value = &mutate.as_array().unwrap()[3];
    assert_eq!(value.get("name"), Some(&text("value")));
    assert_eq!(value.get("schema"), Some(&Wire::Object(vec![])));
    assert_eq!(method_params("rpc.discover"), Wire::Array(vec![]));
}

#[test]
fn subscription_replies() {
    assert_eq!(subscribed_reply(true), Wire::object(vec![("subscribed", Wire::Bool(true))]));
    assert_eq!(subscribed_reply(false).get("subscribed"), Some(&Wire::Bool(false)));
}

#[test]
fn requested_components_default_to_all() {
    let all = vec!["a::A".to_owned(), "b::B".to_owned()];
    assert_eq!(requested_components(&Wire::object(vec![]), &all).unwrap(), all);
    let some = Wire::object(vec![("components", Wire::Array(vec![text("b::B")]))]);
    assert_eq!(requested_components(&some, &all).unwrap(), vec!["b::B".to_owned()]);
    let mixed = Wire::object(vec![("components", Wire::Array(vec![text("b::B"), Wire::Integer(1)]))]);
    assert_eq!(err_of(requested_components(&mixed, &all)), error(-32602, "components must contain type paths"));
    let single = Wire::object(vec![("components", text("b::B"))]);
    assert_eq!(err_of(requested_components(&single, &all)), error(-32602, "components must be an array"));
}

#[test]
fn component_replies_are_sorted_and_keep_the_last_value() {
    let reply = components_reply(vec![
        ("z::Z".to_owned(), Wire::Integer(1)),
        ("a::A".to_owned(), Wire::Integer(2)),
        ("z::Z".to_owned(), Wire::Integer(3)),
    ]);
    assert_eq!(
        reply,
        Wire::Object(vec![
            ("a::A".to_owned(), Wire::Integer(2)),
            ("z::Z".to_owned(), Wire::Integer(3)),
        ])
    );
}

#[test]
fn errors_carry_their_reason() {
    let e = RpcError::invalid("expected a JSON-RPC 2.0 request");
    let w = e.to_wire();
    assert_eq!(w.get("code"), Some(&Wire::Integer(-32600)));
    assert_eq!(w.get("message"), Some(&text("expected a JSON-RPC 2.0 request")));
    assert_eq!(
        w.get("data"),
        Some(&Wire::object(vec![("reason", text("expected a JSON-RPC 2.0 request"))]))
    );
    assert_eq!(RpcError::method_not_found().code, -32601);
}

#[test]
fn requests_decode_within_their_budget() {
    let request = RequestValue::Dictionary {
        typed: false,
        entries: vec![
            (RequestValue::Text("jsonrpc".to_owned()), RequestValue::Text("2.0".to_owned())),
            (RequestValue::Text("id".to_owned()), RequestValue::Int(4)),
            (
                RequestValue::Text("params".to_owned()),
                RequestValue::Array { typed: false, items: vec![RequestValue::Nil, RequestValue::Float(1.5f64.to_bits())] },
            ),
            (RequestValue::Text("id".to_owned()), RequestValue::Int(5)),
        ],
    };
    let mut remaining = REQUEST_BUDGET;
    let w = decode_request(&request, 0, &mut remaining).unwrap();
    assert_eq!(remaining, REQUEST_BUDGET - 7);
    assert_eq!(w.get("id"), Some(&Wire::Integer(5)));
    assert_eq!(w.get("jsonrpc"), Some(&text("2.0")));
    assert_eq!(
        w.get("params"),
        Some(&Wire::Array(vec![Wire::Null, Wire::Float(1.5f64.to_bits())]))
    );

    let mut small = 2;
    assert_eq!(decode_request(&request, 0, &mut small).unwrap_err(), "request exceeds decoding budget");
    let mut plenty = REQUEST_BUDGET;
    let typed = RequestValue::Array { typed: true, items: vec![] };
    assert_eq!(decode_request(&typed, 0, &mut plenty).unwrap_err(), "typed arrays are not supported in requests");
    let typed = RequestValue::Dictionary { typed: true, entries: vec![] };
    assert_eq!(decode_request(&typed, 0, &mut plenty).unwrap_err(), "typed dictionaries are not supported in requests");
    let keyed = RequestValue::Dictionary { typed: false, entries: vec![(RequestValue::Int(1), RequestValue::Nil)] };
    assert_eq!(decode_request(&keyed, 0, &mut plenty).unwrap_err(), "dictionary keys must be strings");
    assert_eq!(decode_request(&RequestValue::Other, 0, &mut plenty).unwrap_err(), "unsupported Variant in request");

    let mut deep = RequestValue::Nil;
    for _ in 0..32 {
        deep = RequestValue::Array { typed: false, items: vec![deep] };
    }
    let mut budget = REQUEST_BUDGET;
    assert!(decode_request(&deep, 0, &mut budget).is_ok());
    let deeper = RequestValue::Array { typed: false, items: vec![deep] };
    let mut budget = REQUEST_BUDGET;
    assert_eq!(decode_request(&deeper, 0, &mut budget).unwrap_err(), "request exceeds decoding budget");
}

#[test]
fn replies_and_notifications() {
    let ok = reply(Wire::Integer(3), Ok(Wire::Bool(true)));
    assert_eq!(ok.get("jsonrpc"), Some(&text("2.0")));
    assert_eq!(ok.get("id"), Some(&Wire::Integer(3)));
    assert_eq!(ok.get("result"), Some(&Wire::Bool(true)));
    assert_eq!(ok.get("error"), None);
    let failed = reply(Wire::Null, Err(RpcError::method_not_found()));
    assert_eq!(failed.get("error").unwrap().get("code"), Some(&Wire::Integer(-32601)));
    assert_eq!(failed.get("result"), None);

    assert!(is_notification(&request(text("godot.query"), None)));
    let with_id = Wire::object(vec![("jsonrpc", text("2.0")), ("id", Wire::Integer(1)), ("method", text("x"))]);
    assert!(!is_notification(&with_id));
    assert!(!is_notification(&Wire::object(vec![("method", text("x"))])));
    assert_eq!(requests_per_frame(0), 1);
    assert_eq!(requests_per_frame(64), 64);
}
