//! Engine signals forwarded as ECS messages: which watcher handler a signal is
//! routed to, and how its arguments are described.

use crate::markers::GodotSignalArgument;
use crate::text::str_eq;
use vstd::prelude::*;

verus! {

/// The engine type of a signal argument, as far as messages name it.
#[derive(Debug, Clone, Copy, PartialEq, Eq)]
pub enum SignalValueType {
    Nil,
    Bool,
    Int,
    Float,
    String,
    Vector2,
    Vector3,
    Object,
    Other,
}

/// The name of an argument type; every other engine type is `Unknown`.
pub open spec fn type_label(t: SignalValueType) -> Seq<char> {
    match t {
        SignalValueType::Nil => "Nil"@,
        SignalValueType::Bool => "Bool"@,
        SignalValueType::Int => "Int"@,
        SignalValueType::Float => "Float"@,
        SignalValueType::String => "String"@,
        SignalValueType::Vector2 => "Vector2"@,
        SignalValueType::Vector3 => "Vector3"@,
        SignalValueType::Object => "Object"@,
        SignalValueType::Other => "Unknown"@,
    }
}

/// Each argument type is described by the engine's own name for it (`Nil`,
/// `Bool`, `Int`, `Float`, `String`, `Vector2`, `Vector3`, `Object`), any
/// other engine type as `Unknown`, and distinct types get distinct names.
pub proof fn law_argument_type_names()
    ensures
        type_label(SignalValueType::Nil) == "Nil"@,
        type_label(SignalValueType::Bool) == "Bool"@,
        type_label(SignalValueType::Int) == "Int"@,
        type_label(SignalValueType::Float) == "Float"@,
        type_label(SignalValueType::String) == "String"@,
        type_label(SignalValueType::Vector2) == "Vector2"@,
        type_label(SignalValueType::Vector3) == "Vector3"@,
        type_label(SignalValueType::Object) == "Object"@,
        type_label(SignalValueType::Other) == "Unknown"@,
        forall|a: SignalValueType, b: SignalValueType| type_label(a) == type_label(b) ==> a == b,
{
    reveal_strlit("Nil");
    reveal_strlit("Bool");
    reveal_strlit("Int");
    reveal_strlit("Float");
    reveal_strlit("String");
    reveal_strlit("Vector2");
    reveal_strlit("Vector3");
    reveal_strlit("Object");
    reveal_strlit("Unknown");
    assert forall|a: SignalValueType, b: SignalValueType| type_label(a) == type_label(b) implies a
        == b by {
        let x = type_label(a);
        let y = type_label(b);
        if a != b {
            assert(x.len() != y.len() || x[0] != y[0] || x[6] != y[6]);
        }
    }
}

/// The name of an argument type.
pub fn value_type_name(t: SignalValueType) -> (name: &'static str)
    ensures
        name@ == type_label(t),
{
    proof {
        reveal_strlit("Nil");
        reveal_strlit("Bool");
        reveal_strlit("Int");
        reveal_strlit("Float");
        reveal_strlit("String");
        reveal_strlit("Vector2");
        reveal_strlit("Vector3");
        reveal_strlit("Object");
        reveal_strlit("Unknown");
    }
    match t {
        SignalValueType::Nil => "Nil",
        SignalValueType::Bool => "Bool",
        SignalValueType::Int => "Int",
        SignalValueType::Float => "Float",
        SignalValueType::String => "String",
        SignalValueType::Vector2 => "Vector2",
        SignalValueType::Vector3 => "Vector3",
        SignalValueType::Object => "Object",
        SignalValueType::Other => "Unknown",
    }
}

/// A signal argument of type `t` whose text is `value`.
pub fn signal_argument(t: SignalValueType, value: String) -> (a: GodotSignalArgument)
    ensures
        a.value_type@ == type_label(t),
        a.value@ == value@,
{
    GodotSignalArgument { value_type: value_type_name(t).to_owned(), value }
}

/// The watcher handler a connected signal calls, and whether it is the generic
/// handler, which is also bound the signal's origin, target and name; the
/// specific handlers are bound the node alone.
#[derive(Debug, Clone, Copy, PartialEq, Eq)]
pub struct SignalRoute {
    pub handler: &'static str,
    pub generic: bool,
}

/// Input events, bodies entering and areas entering have handlers of their
/// own that capture the signal's arguments; any other signal goes to the
/// generic `event` handler.
pub open spec fn route_of(name: Seq<char>) -> (Seq<char>, bool) {
    if name == "input_event"@ {
        ("handle_input_event"@, false)
    } else if name == "body_entered"@ {
        ("body_entered"@, false)
    } else if name == "area_entered"@ {
        ("area_entered"@, false)
    } else {
        ("event"@, true)
    }
}

/// The route of the signal named `name`.
pub fn route_signal(name: &str) -> (r: SignalRoute)
    ensures
        (r.handler@, r.generic) == route_of(name@),
{
    proof {
        reveal_strlit("input_event");
        reveal_strlit("handle_input_event");
        reveal_strlit("body_entered");
        reveal_strlit("area_entered");
        reveal_strlit("event");
    }
    if str_eq(name, "input_event") {
        SignalRoute { handler: "handle_input_event", generic: false }
    } else if str_eq(name, "body_entered") {
        SignalRoute { handler: "body_entered", generic: false }
    } else if str_eq(name, "area_entered") {
        SignalRoute { handler: "area_entered", generic: false }
    } else {
        SignalRoute { handler: "event", generic: true }
    }
}

} // verus!
