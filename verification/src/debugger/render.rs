//! The transport form of an inspected value: its type path, whether and why it
//! may be edited, its inspector bounds, its kind and the members of that kind.

use super::service::member_names;
use super::summary::{lists_strings, string_list, views};
use super::value::{Field, InspectorRange, Kind, Scalar, Value, Writable, reason_text};
use super::wire::{
    assoc_last, decimal, decimal_string, entity, entity_ref, field_value, insert_field, keys_sorted,
    string_member, wire_get, Wire,
};
use crate::text::push_char;
use vstd::prelude::*;

verus! {

/// The name of a kind on the wire.
pub open spec fn kind_name(k: Kind) -> Seq<char> {
    match k {
        Kind::Scalar(s) => match s {
            Scalar::Bool(_) => "bool"@,
            Scalar::Integer(_) | Scalar::Decimal(_) => "integer"@,
            Scalar::Float(_) => "float"@,
            Scalar::String(_) => "string"@,
            Scalar::Char(_) => "char"@,
        },
        Kind::Struct(_) => "struct"@,
        Kind::TupleStruct(_) => "tuple_struct"@,
        Kind::Tuple(_) => "tuple"@,
        Kind::List { .. } => "list"@,
        Kind::Array { .. } => "array"@,
        Kind::Mapping { .. } => "map"@,
        Kind::UnorderedSet { .. } => "set"@,
        Kind::Enum { .. } => "enum"@,
        Kind::Entity { .. } => "entity"@,
        Kind::Node { .. } => "node"@,
        Kind::Asset { .. } => "asset"@,
        Kind::Opaque(_) => "opaque"@,
        Kind::Unsupported(_) => "unsupported"@,
        Kind::DepthLimit => "depth_limit"@,
    }
}

/// Each scalar is rendered under the name of its own kind: a boolean as
/// `bool`, an integer (an `i64` or a wider one held as text) as `integer`, a
/// float as `float`, a string as `string` and a character as `char`. Two
/// scalars share a kind name exactly when they are of the same kind. Every
/// other kind has its own name too.
pub proof fn law_scalar_kind_names(a: Scalar, b: Scalar)
    ensures
        forall|v: bool| kind_name(Kind::Scalar(Scalar::Bool(v))) == "bool"@,
        forall|v: i64| kind_name(Kind::Scalar(Scalar::Integer(v))) == "integer"@,
        forall|v: String| kind_name(Kind::Scalar(Scalar::Decimal(v))) == "integer"@,
        forall|v: u64| kind_name(Kind::Scalar(Scalar::Float(v))) == "float"@,
        forall|v: String| kind_name(Kind::Scalar(Scalar::String(v))) == "string"@,
        forall|v: char| kind_name(Kind::Scalar(Scalar::Char(v))) == "char"@,
        kind_name(Kind::Scalar(a)) == kind_name(Kind::Scalar(b)) <==> {
            &&& (a is Bool <==> b is Bool)
            &&& (a is Integer || a is Decimal) == (b is Integer || b is Decimal)
            &&& (a is Float <==> b is Float)
            &&& (a is String <==> b is String)
            &&& (a is Char <==> b is Char)
        },
        forall|v: Vec<Field>| kind_name(Kind::Struct(v)) == "struct"@,
        forall|v: Vec<Value>| kind_name(Kind::TupleStruct(v)) == "tuple_struct"@,
        forall|v: Vec<Value>| kind_name(Kind::Tuple(v)) == "tuple"@,
        forall|v: Vec<Value>, t: usize| kind_name(Kind::List { items: v, truncated: t }) == "list"@,
        forall|v: Vec<Value>, t: usize| kind_name(Kind::Array { items: v, truncated: t }) == "array"@,
        forall|v: Vec<(Value, Value)>, t: usize|
            kind_name(Kind::Mapping { entries: v, truncated: t }) == "map"@,
        forall|v: Vec<Value>, t: usize|
            kind_name(Kind::UnorderedSet { members: v, truncated: t }) == "set"@,
        forall|n: String, f: Vec<Field>, u: Vec<String>|
            kind_name(Kind::Enum { variant: n, fields: f, unit_variants: u }) == "enum"@,
        forall|b: u64, g: u32| kind_name(Kind::Entity { bits: b, generation: g }) == "entity"@,
        forall|i: u64, v: bool| kind_name(Kind::Node { instance_id: i, valid: v }) == "node"@,
        forall|i: String| kind_name(Kind::Asset { id: i }) == "asset"@,
        forall|d: String| kind_name(Kind::Opaque(d)) == "opaque"@,
        forall|d: String| kind_name(Kind::Unsupported(d)) == "unsupported"@,
        kind_name(Kind::DepthLimit) == "depth_limit"@,
{
    reveal_strlit("bool");
    reveal_strlit("integer");
    reveal_strlit("float");
    reveal_strlit("string");
    reveal_strlit("char");
    let x = kind_name(Kind::Scalar(a));
    let y = kind_name(Kind::Scalar(b));
    if x == y {
        assert(x.len() == y.len() && x[0] == y[0]);
    }
}

/// The members a kind adds to its value.
pub open spec fn kind_members(k: Kind) -> Set<Seq<char>> {
    match k {
        Kind::Scalar(_) => set!["value"@],
        Kind::Struct(_) | Kind::TupleStruct(_) | Kind::Tuple(_) => set!["fields"@],
        Kind::List { .. } | Kind::Array { .. } => set!["items"@, "truncated"@],
        Kind::Mapping { .. } => set!["entries"@, "truncated"@],
        Kind::UnorderedSet { .. } => set!["members"@, "truncated"@],
        Kind::Enum { .. } => set!["variant"@, "fields"@, "unit_variants"@],
        Kind::Entity { .. } => set!["entity"@],
        Kind::Node { .. } => set!["instance_id"@, "valid"@],
        Kind::Asset { .. } => set!["id"@],
        Kind::Opaque(_) => set!["debug"@],
        Kind::Unsupported(_) | Kind::DepthLimit => set!["reason"@],
    }
}

/// The transport form of a scalar.
pub open spec fn scalar_wire(w: Wire, s: Scalar) -> bool {
    match s {
        Scalar::Bool(b) => w == Wire::Bool(b),
        Scalar::Integer(i) => w == Wire::Integer(i),
        Scalar::Float(f) => w == Wire::Float(f),
        Scalar::Decimal(d) => w matches Wire::String(t) && t@ == d@,
        Scalar::String(x) => w matches Wire::String(t) && t@ == x@,
        Scalar::Char(c) => w matches Wire::String(t) && t@ == seq![c],
    }
}

/// The transport form of an edit permission: `{allowed: true}` or
/// `{allowed: false, reason}`.
pub open spec fn writable_wire(w: Wire, p: Writable) -> bool {
    &&& w matches Wire::Object(f) && keys_sorted(f@)
    &&& match p {
        Writable::Yes => member_names(w) == set!["allowed"@] && wire_get(w, "allowed"@) == Some(
            Wire::Bool(true),
        ),
        Writable::No(reason) => member_names(w) == set!["allowed"@, "reason"@] && wire_get(
            w,
            "allowed"@,
        ) == Some(Wire::Bool(false)) && string_member(w, "reason"@) == Some(reason_text(reason)),
    }
}

/// The transport form of inspector bounds: `{min, max}`.
pub open spec fn range_wire(w: Wire, r: InspectorRange) -> bool {
    &&& w matches Wire::Object(f) && keys_sorted(f@)
    &&& member_names(w) == set!["max"@, "min"@]
    &&& wire_get(w, "min"@) == Some(Wire::Float(r.min))
    &&& wire_get(w, "max"@) == Some(Wire::Float(r.max))
}

/// An object `{name: <text>, value: <v>}`.
pub open spec fn named(w: Wire, name: Seq<char>, value: Wire) -> bool {
    &&& w matches Wire::Object(f) && keys_sorted(f@)
    &&& member_names(w) == set!["name"@, "value"@]
    &&& string_member(w, "name"@) == Some(name)
    &&& wire_get(w, "value"@) == Some(value)
}

/// An object `{key: <k>, value: <v>}`.
pub open spec fn keyed(w: Wire, key: Wire, value: Wire) -> bool {
    &&& w matches Wire::Object(f) && keys_sorted(f@)
    &&& member_names(w) == set!["key"@, "value"@]
    &&& wire_get(w, "key"@) == Some(key)
    &&& wire_get(w, "value"@) == Some(value)
}

/// The value a member holds; null where there is none.
pub open spec fn member(w: Wire, key: Seq<char>) -> Wire {
    match wire_get(w, key) {
        Some(x) => x,
        None => Wire::Null,
    }
}

/// The members that every value has, and `range` when it has bounds.
pub open spec fn common_members(v: Value) -> Set<Seq<char>> {
    if v.range is Some {
        set!["type_path"@, "writable"@, "kind"@, "range"@]
    } else {
        set!["type_path"@, "writable"@, "kind"@]
    }
}

/// `w` is the transport form of `v`.
pub open spec fn describes(w: Wire, v: Value) -> bool
    decreases v,
{
    &&& w matches Wire::Object(f) && keys_sorted(f@)
    &&& member_names(w) == common_members(v) + kind_members(v.kind)
    &&& string_member(w, "type_path"@) == Some(v.type_path@)
    &&& writable_wire(member(w, "writable"@), v.writable)
    &&& (v.range matches Some(r) ==> range_wire(member(w, "range"@), r))
    &&& string_member(w, "kind"@) == Some(kind_name(v.kind))
    &&& match v.kind {
        Kind::Scalar(s) => scalar_wire(member(w, "value"@), s),
        Kind::Struct(fs) => member(w, "fields"@) matches Wire::Array(items) && items@.len()
            == fs@.len() && forall|i: int|
            0 <= i < fs@.len() ==> named(
                #[trigger] items@[i],
                fs@[i].name@,
                member(items@[i], "value"@),
            ) && describes(member(items@[i], "value"@), fs@[i].value),
        Kind::TupleStruct(vs) | Kind::Tuple(vs) => member(w, "fields"@) matches Wire::Array(items)
            && items@.len() == vs@.len() && forall|i: int|
            0 <= i < vs@.len() ==> describes(#[trigger] items@[i], vs@[i]),
        Kind::List { items: vs, truncated } | Kind::Array { items: vs, truncated } => member(
            w,
            "items"@,
        ) matches Wire::Array(items) && items@.len() == vs@.len() && (forall|i: int|
            0 <= i < vs@.len() ==> describes(#[trigger] items@[i], vs@[i])) && member(
            w,
            "truncated"@,
        ) == Wire::Integer(truncated as i64),
        Kind::Mapping { entries, truncated } => member(w, "entries"@) matches Wire::Array(items)
            && items@.len() == entries@.len() && (forall|i: int|
            0 <= i < entries@.len() ==> keyed(
                #[trigger] items@[i],
                member(items@[i], "key"@),
                member(items@[i], "value"@),
            ) && describes(member(items@[i], "key"@), entries@[i].0) && describes(
                member(items@[i], "value"@),
                entries@[i].1,
            )) && member(w, "truncated"@) == Wire::Integer(truncated as i64),
        Kind::UnorderedSet { members, truncated } => member(w, "members"@) matches Wire::Array(
            items,
        ) && items@.len() == members@.len() && (forall|i: int|
            0 <= i < members@.len() ==> describes(#[trigger] items@[i], members@[i])) && member(
            w,
            "truncated"@,
        ) == Wire::Integer(truncated as i64),
        Kind::Enum { variant, fields: fs, unit_variants } => string_member(w, "variant"@) == Some(
            variant@,
        ) && (member(w, "fields"@) matches Wire::Array(items) && items@.len() == fs@.len()
            && forall|i: int|
            0 <= i < fs@.len() ==> named(
                #[trigger] items@[i],
                fs@[i].name@,
                member(items@[i], "value"@),
            ) && describes(member(items@[i], "value"@), fs@[i].value)) && (member(
            w,
            "unit_variants"@,
        ) matches Wire::Array(names) && lists_strings(names@, views(unit_variants@))),
        Kind::Entity { bits, generation } => entity_ref(member(w, "entity"@), bits, generation),
        Kind::Node { instance_id, valid } => string_member(w, "instance_id"@) == Some(
            decimal(instance_id as nat),
        ) && wire_get(w, "valid"@) == Some(Wire::Bool(valid)),
        Kind::Asset { id } => string_member(w, "id"@) == Some(id@),
        Kind::Opaque(debug) => string_member(w, "debug"@) == Some(debug@),
        Kind::Unsupported(reason) => string_member(w, "reason"@) == Some(reason@),
        Kind::DepthLimit => string_member(w, "reason"@) == Some("maximum depth reached"@),
    }
}

fn scalar(s: &Scalar) -> (r: (&'static str, Wire))
    ensures
        r.0@ == kind_name(Kind::Scalar(*s)),
        scalar_wire(r.1, *s),
{
    match s {
        Scalar::Bool(b) => ("bool", Wire::Bool(*b)),
        Scalar::Integer(i) => ("integer", Wire::Integer(*i)),
        Scalar::Decimal(d) => ("integer", Wire::String(d.as_str().to_owned())),
        Scalar::Float(f) => ("float", Wire::Float(*f)),
        Scalar::String(x) => ("string", Wire::String(x.as_str().to_owned())),
        Scalar::Char(c) => {
            let mut t = String::new();
            push_char(&mut t, *c);
            assert(t@ =~= seq![*c]);
            ("char", Wire::String(t))
        },
    }
}

#[verifier::spinoff_prover]
fn writable(p: Writable) -> (w: Wire)
    ensures
        writable_wire(w, p),
{
    match p {
        Writable::Yes => {
            let pairs = vec![("allowed", Wire::Bool(true))];
            let ghost pv = pairs@;
            let w = Wire::object(pairs);
            proof {
                reveal_strlit("allowed");
                reveal_with_fuel(assoc_last, 2);
                assert(wire_get(w, "allowed"@) == assoc_last(pv, "allowed"@));
                assert forall|k: Seq<char>| #[trigger] member_names(w).contains(k) <==> set![
                    "allowed"@,
                ].contains(k) by {
                    assert(wire_get(w, k) == assoc_last(pv, k));
                }
                assert(member_names(w) =~= set!["allowed"@]);
            }
            w
        },
        Writable::No(reason) => {
            let pairs = vec![
                ("allowed", Wire::Bool(false)),
                ("reason", Wire::String(reason.as_str().to_owned())),
            ];
            let ghost pv = pairs@;
            let w = Wire::object(pairs);
            proof {
                reveal_strlit("allowed");
                reveal_strlit("reason");
                reveal_with_fuel(assoc_last, 3);
                assert(wire_get(w, "allowed"@) == assoc_last(pv, "allowed"@));
                assert(wire_get(w, "reason"@) == assoc_last(pv, "reason"@));
                assert forall|k: Seq<char>| #[trigger] member_names(w).contains(k) <==> set![
                    "allowed"@,
                    "reason"@,
                ].contains(k) by {
                    assert(wire_get(w, k) == assoc_last(pv, k));
                }
                assert(member_names(w) =~= set!["allowed"@, "reason"@]);
            }
            w
        },
    }
}

fn range(r: InspectorRange) -> (w: Wire)
    ensures
        range_wire(w, r),
{
    let pairs = vec![("min", Wire::Float(r.min)), ("max", Wire::Float(r.max))];
    let ghost pv = pairs@;
    let w = Wire::object(pairs);
    proof {
        reveal_strlit("min");
        reveal_strlit("max");
        reveal_with_fuel(assoc_last, 3);
        assert("min"@[1] != "max"@[1]);
        assert(wire_get(w, "min"@) == assoc_last(pv, "min"@));
        assert(wire_get(w, "max"@) == assoc_last(pv, "max"@));
        assert forall|k: Seq<char>| #[trigger] member_names(w).contains(k) <==> set![
            "max"@,
            "min"@,
        ].contains(k) by {
            assert(wire_get(w, k) == assoc_last(pv, k));
        }
        assert(member_names(w) =~= set!["max"@, "min"@]);
    }
    w
}

fn named_wire(name: &str, value: Wire) -> (w: Wire)
    ensures
        named(w, name@, value),
        member(w, "value"@) == value,
{
    let pairs = vec![("name", Wire::String(name.to_owned())), ("value", value)];
    let ghost pv = pairs@;
    let w = Wire::object(pairs);
    proof {
        reveal_strlit("name");
        reveal_strlit("value");
        reveal_with_fuel(assoc_last, 3);
        assert("name"@.len() != "value"@.len());
        assert(wire_get(w, "name"@) == assoc_last(pv, "name"@));
        assert(wire_get(w, "value"@) == assoc_last(pv, "value"@));
        assert forall|k: Seq<char>| #[trigger] member_names(w).contains(k) <==> set![
            "name"@,
            "value"@,
        ].contains(k) by {
            assert(wire_get(w, k) == assoc_last(pv, k));
        }
        assert(member_names(w) =~= set!["name"@, "value"@]);
    }
    w
}

fn keyed_wire(key: Wire, value: Wire) -> (w: Wire)
    ensures
        keyed(w, key, value),
        member(w, "key"@) == key,
        member(w, "value"@) == value,
{
    let pairs = vec![("key", key), ("value", value)];
    let ghost pv = pairs@;
    let w = Wire::object(pairs);
    proof {
        reveal_strlit("key");
        reveal_strlit("value");
        reveal_with_fuel(assoc_last, 3);
        assert("key"@.len() != "value"@.len());
        assert(wire_get(w, "key"@) == assoc_last(pv, "key"@));
        assert(wire_get(w, "value"@) == assoc_last(pv, "value"@));
        assert forall|k: Seq<char>| #[trigger] member_names(w).contains(k) <==> set![
            "key"@,
            "value"@,
        ].contains(k) by {
            assert(wire_get(w, k) == assoc_last(pv, k));
        }
        assert(member_names(w) =~= set!["key"@, "value"@]);
    }
    w
}

/// A member name of its own kind, not one that every value has.
pub open spec fn own_member(k: Seq<char>) -> bool {
    k != "type_path"@ && k != "writable"@ && k != "kind"@ && k != "range"@
}

/// Adds to the members of a kind those that every value has.
fn assemble(v: &Value, kind: &'static str, fields: Vec<(String, Wire)>) -> (w: Wire)
    requires
        keys_sorted(fields@),
        kind@ == kind_name(v.kind),
        forall|k: Seq<char>| #[trigger] field_value(fields@, k) is Some ==> own_member(k),
    ensures
        w matches Wire::Object(f) && keys_sorted(f@),
        string_member(w, "type_path"@) == Some(v.type_path@),
        writable_wire(member(w, "writable"@), v.writable),
        v.range matches Some(r) ==> range_wire(member(w, "range"@), r),
        string_member(w, "kind"@) == Some(kind@),
        forall|k: Seq<char>| own_member(k) ==> #[trigger] wire_get(w, k) == field_value(fields@, k),
        member_names(w) == common_members(*v) + Set::new(
            |k: Seq<char>| field_value(fields@, k) is Some,
        ),
{
    proof {
        reveal_strlit("type_path");
        reveal_strlit("writable");
        reveal_strlit("kind");
        reveal_strlit("range");
        assert("type_path"@.len() != "writable"@.len());
        assert("type_path"@.len() != "kind"@.len());
        assert("type_path"@.len() != "range"@.len());
        assert("writable"@.len() != "kind"@.len());
        assert("writable"@.len() != "range"@.len());
        assert("kind"@.len() != "range"@.len());
    }
    let ghost f0 = fields@;
    let mut fields = fields;
    match v.range {
        Some(r) => insert_field(&mut fields, "range".to_owned(), range(r)),
        None => {},
    }
    let ghost f1 = fields@;
    insert_field(&mut fields, "kind".to_owned(), Wire::String(kind.to_owned()));
    let ghost f2 = fields@;
    insert_field(&mut fields, "writable".to_owned(), writable(v.writable));
    let ghost f3 = fields@;
    insert_field(&mut fields, "type_path".to_owned(), Wire::String(v.type_path.as_str().to_owned()));
    let w = Wire::Object(fields);
    proof {
        assert forall|k: Seq<char>| own_member(k) implies #[trigger] wire_get(w, k) == field_value(
            f0,
            k,
        ) by {
            assert(wire_get(w, k) == field_value(fields@, k));
            assert(field_value(f1, k) == field_value(f0, k));
        }
        assert(wire_get(w, "type_path"@) == field_value(fields@, "type_path"@));
        assert(wire_get(w, "writable"@) == field_value(fields@, "writable"@));
        assert(wire_get(w, "kind"@) == field_value(fields@, "kind"@));
        assert(wire_get(w, "range"@) == field_value(fields@, "range"@));
        assert(field_value(f2, "kind"@) is Some);
        assert forall|k: Seq<char>| #[trigger] member_names(w).contains(k) <==> (common_members(
            *v,
        ) + Set::new(|k: Seq<char>| field_value(f0, k) is Some)).contains(k) by {
            assert(wire_get(w, k) == field_value(fields@, k));
            assert(v.range is None ==> field_value(f1, k) == field_value(f0, k));
            if !own_member(k) {
                assert(field_value(f0, k) is None);
            }
        }
        assert(member_names(w) =~= common_members(*v) + Set::new(
            |k: Seq<char>| field_value(f0, k) is Some,
        ));
    }
    w
}

fn one(key: &'static str, value: Wire) -> (f: Vec<(String, Wire)>)
    ensures
        keys_sorted(f@),
        forall|k: Seq<char>| #[trigger]
            field_value(f@, k) == if k == key@ {
                Some(value)
            } else {
                None::<Wire>
            },
{
    let mut f: Vec<(String, Wire)> = Vec::new();
    insert_field(&mut f, key.to_owned(), value);
    f
}

fn two(k1: &'static str, v1: Wire, k2: &'static str, v2: Wire) -> (f: Vec<(String, Wire)>)
    requires
        k1@ != k2@,
    ensures
        keys_sorted(f@),
        forall|k: Seq<char>| #[trigger]
            field_value(f@, k) == if k == k1@ {
                Some(v1)
            } else if k == k2@ {
                Some(v2)
            } else {
                None::<Wire>
            },
{
    let mut f = one(k1, v1);
    insert_field(&mut f, k2.to_owned(), v2);
    f
}

fn three(k1: &'static str, v1: Wire, k2: &'static str, v2: Wire, k3: &'static str, v3: Wire) -> (f:
    Vec<(String, Wire)>)
    requires
        k1@ != k2@,
        k1@ != k3@,
        k2@ != k3@,
    ensures
        keys_sorted(f@),
        forall|k: Seq<char>| #[trigger]
            field_value(f@, k) == if k == k1@ {
                Some(v1)
            } else if k == k2@ {
                Some(v2)
            } else if k == k3@ {
                Some(v3)
            } else {
                None::<Wire>
            },
{
    let mut f = two(k1, v1, k2, v2);
    insert_field(&mut f, k3.to_owned(), v3);
    f
}

/// The transport forms of values, in order.
pub open spec fn describes_all(items: Seq<Wire>, vs: Seq<Value>) -> bool
    decreases vs,
{
    &&& items.len() == vs.len()
    &&& forall|i: int| 0 <= i < vs.len() ==> describes(#[trigger] items[i], vs[i])
}

impl Wire {
    /// The transport form of an inspected value.
    pub fn from_value(v: &Value) -> (w: Wire)
        ensures
            describes(w, *v),
        decreases v,
    {
        proof {
            reveal_strlit("type_path");
            reveal_strlit("writable");
            reveal_strlit("kind");
            reveal_strlit("range");
            reveal_strlit("value");
            reveal_strlit("fields");
            reveal_strlit("items");
            reveal_strlit("truncated");
            reveal_strlit("entries");
            reveal_strlit("members");
            reveal_strlit("variant");
            reveal_strlit("unit_variants");
            reveal_strlit("entity");
            reveal_strlit("instance_id");
            reveal_strlit("valid");
            reveal_strlit("id");
            reveal_strlit("debug");
            reveal_strlit("reason");
            reveal_strlit("maximum depth reached");
            assert("value"@[0] != "range"@[0]);
            assert("items"@[0] != "range"@[0]);
            assert("valid"@[0] != "range"@[0]);
            assert("debug"@[0] != "range"@[0]);
            assert("truncated"@[1] != "type_path"@[1]);
            assert("variant"@.len() != "fields"@.len());
            assert("variant"@.len() != "unit_variants"@.len());
            assert("fields"@.len() != "unit_variants"@.len());
            assert("items"@.len() != "truncated"@.len());
            assert("entries"@.len() != "truncated"@.len());
            assert("members"@.len() != "truncated"@.len());
            assert("instance_id"@.len() != "valid"@.len());
            assert(own_member("value"@));
            assert(own_member("fields"@));
            assert(own_member("items"@));
            assert(own_member("truncated"@));
            assert(own_member("entries"@));
            assert(own_member("members"@));
            assert(own_member("variant"@));
            assert(own_member("unit_variants"@));
            assert("entity"@.len() != "type_path"@.len() && "entity"@.len() != "writable"@.len()
                && "entity"@.len() != "kind"@.len() && "entity"@.len() != "range"@.len());
            assert(own_member("entity"@));
            assert(own_member("instance_id"@));
            assert(own_member("valid"@));
            assert("id"@.len() != "type_path"@.len() && "id"@.len() != "writable"@.len()
                && "id"@.len() != "kind"@.len() && "id"@.len() != "range"@.len());
            assert(own_member("id"@));
            assert(own_member("debug"@));
            assert(own_member("reason"@));
        }
        let (kind, fields): (&'static str, Vec<(String, Wire)>) = match &v.kind {
            Kind::Scalar(sc) => {
                let (name, value) = scalar(sc);
                (name, one("value", value))
            },
            Kind::Struct(fs) => ("struct", one("fields", Wire::Array(Self::named_fields(v, fs)))),
            Kind::TupleStruct(vs) => ("tuple_struct", one("fields", Wire::Array(Self::values(v, vs)))),
            Kind::Tuple(vs) => ("tuple", one("fields", Wire::Array(Self::values(v, vs)))),
            Kind::List { items, truncated } => (
                "list",
                two(
                    "items",
                    Wire::Array(Self::values(v, items)),
                    "truncated",
                    Wire::Integer(#[verifier::truncate] (*truncated as i64)),
                ),
            ),
            Kind::Array { items, truncated } => (
                "array",
                two(
                    "items",
                    Wire::Array(Self::values(v, items)),
                    "truncated",
                    Wire::Integer(#[verifier::truncate] (*truncated as i64)),
                ),
            ),
            Kind::Mapping { entries, truncated } => (
                "map",
                two(
                    "entries",
                    Wire::Array(Self::entries(v, entries)),
                    "truncated",
                    Wire::Integer(#[verifier::truncate] (*truncated as i64)),
                ),
            ),
            Kind::UnorderedSet { members, truncated } => (
                "set",
                two(
                    "members",
                    Wire::Array(Self::values(v, members)),
                    "truncated",
                    Wire::Integer(#[verifier::truncate] (*truncated as i64)),
                ),
            ),
            Kind::Enum { variant, fields, unit_variants } => (
                "enum",
                three(
                    "variant",
                    Wire::String(variant.as_str().to_owned()),
                    "fields",
                    Wire::Array(Self::named_fields(v, fields)),
                    "unit_variants",
                    Wire::Array(string_list(unit_variants)),
                ),
            ),
            Kind::Entity { bits, generation } => ("entity", one("entity", entity(*bits, *generation))),
            Kind::Node { instance_id, valid } => (
                "node",
                two(
                    "instance_id",
                    Wire::String(decimal_string(*instance_id)),
                    "valid",
                    Wire::Bool(*valid),
                ),
            ),
            Kind::Asset { id } => ("asset", one("id", Wire::String(id.as_str().to_owned()))),
            Kind::Opaque(debug) => ("opaque", one("debug", Wire::String(debug.as_str().to_owned()))),
            Kind::Unsupported(reason) => (
                "unsupported",
                one("reason", Wire::String(reason.as_str().to_owned())),
            ),
            Kind::DepthLimit => (
                "depth_limit",
                one("reason", Wire::String("maximum depth reached".to_owned())),
            ),
        };
        let ghost f = fields@;
        proof {
            assert(Set::new(|k: Seq<char>| field_value(f, k) is Some) =~= kind_members(v.kind));
        }
        let w = assemble(v, kind, fields);
        proof {
            assert(member_names(w) =~= common_members(*v) + kind_members(v.kind));
            assert forall|k: Seq<char>| #[trigger] kind_members(v.kind).contains(k) implies member(
                w,
                k,
            ) == field_value(f, k).unwrap() by {
                assert(own_member(k));
                assert(wire_get(w, k) == field_value(f, k));
            }
        }
        w
    }

    fn values(v: &Value, vs: &Vec<Value>) -> (items: Vec<Wire>)
        requires
            ({
                ||| (v.kind matches Kind::TupleStruct(x) && *vs == x)
                ||| (v.kind matches Kind::Tuple(x) && *vs == x)
                ||| (v.kind matches Kind::List { items, .. } && *vs == items)
                ||| (v.kind matches Kind::Array { items, .. } && *vs == items)
                ||| (v.kind matches Kind::UnorderedSet { members, .. } && *vs == members)
            }),
        ensures
            describes_all(items@, vs@),
        decreases v, 0nat,
    {
        let mut items: Vec<Wire> = Vec::new();
        let mut i: usize = 0;
        while i < vs.len()
            invariant
                ({
                    ||| (v.kind matches Kind::TupleStruct(x) && *vs == x)
                    ||| (v.kind matches Kind::Tuple(x) && *vs == x)
                    ||| (v.kind matches Kind::List { items, .. } && *vs == items)
                    ||| (v.kind matches Kind::Array { items, .. } && *vs == items)
                    ||| (v.kind matches Kind::UnorderedSet { members, .. } && *vs == members)
                }),
                i <= vs@.len(),
                items@.len() == i,
                forall|j: int| 0 <= j < i ==> describes(#[trigger] items@[j], vs@[j]),
            decreases vs.len() - i,
        {
            proof {
                assert(decreases_to!(*v => v.kind));
                if v.kind is TupleStruct {
                    assert(decreases_to!(v.kind => v.kind->TupleStruct_0));
                } else if v.kind is Tuple {
                    assert(decreases_to!(v.kind => v.kind->Tuple_0));
                } else if v.kind is List {
                    assert(decreases_to!(v.kind => v.kind->List_items));
                } else if v.kind is Array {
                    assert(decreases_to!(v.kind => v.kind->Array_items));
                } else {
                    assert(decreases_to!(v.kind => v.kind->UnorderedSet_members));
                }
                assert(decreases_to!(*vs => vs@));
                assert(decreases_to!(vs@ => vs@[i as int]));
            }
            items.push(Wire::from_value(&vs[i]));
            i = i + 1;
        }
        items
    }

    fn named_fields(v: &Value, fs: &Vec<Field>) -> (items: Vec<Wire>)
        requires
            ({
                ||| (v.kind matches Kind::Struct(x) && *fs == x)
                ||| (v.kind matches Kind::Enum { fields, .. } && *fs == fields)
            }),
        ensures
            items@.len() == fs@.len(),
            forall|i: int|
                0 <= i < fs@.len() ==> named(
                    #[trigger] items@[i],
                    fs@[i].name@,
                    member(items@[i], "value"@),
                ) && describes(member(items@[i], "value"@), fs@[i].value),
        decreases v, 0nat,
    {
        let mut items: Vec<Wire> = Vec::new();
        let mut i: usize = 0;
        while i < fs.len()
            invariant
                ({
                    ||| (v.kind matches Kind::Struct(x) && *fs == x)
                    ||| (v.kind matches Kind::Enum { fields, .. } && *fs == fields)
                }),
                i <= fs@.len(),
                items@.len() == i,
                forall|j: int|
                    0 <= j < i ==> named(
                        #[trigger] items@[j],
                        fs@[j].name@,
                        member(items@[j], "value"@),
                    ) && describes(member(items@[j], "value"@), fs@[j].value),
            decreases fs.len() - i,
        {
            proof {
                assert(decreases_to!(*v => v.kind));
                if v.kind is Struct {
                    assert(decreases_to!(v.kind => v.kind->Struct_0));
                } else {
                    assert(decreases_to!(v.kind => v.kind->Enum_fields));
                }
                assert(decreases_to!(*fs => fs@));
                assert(decreases_to!(fs@ => fs@[i as int]));
                assert(decreases_to!(fs@[i as int] => fs@[i as int].value));
            }
            let value = Wire::from_value(&fs[i].value);
            items.push(named_wire(fs[i].name.as_str(), value));
            i = i + 1;
        }
        items
    }

    fn entries(v: &Value, es: &Vec<(Value, Value)>) -> (items: Vec<Wire>)
        requires
            v.kind matches Kind::Mapping { entries, .. } && *es == entries,
        ensures
            items@.len() == es@.len(),
            forall|i: int|
                0 <= i < es@.len() ==> keyed(
                    #[trigger] items@[i],
                    member(items@[i], "key"@),
                    member(items@[i], "value"@),
                ) && describes(member(items@[i], "key"@), es@[i].0) && describes(
                    member(items@[i], "value"@),
                    es@[i].1,
                ),
        decreases v, 0nat,
    {
        let mut items: Vec<Wire> = Vec::new();
        let mut i: usize = 0;
        while i < es.len()
            invariant
                v.kind matches Kind::Mapping { entries, .. } && *es == entries,
                i <= es@.len(),
                items@.len() == i,
                forall|j: int|
                    0 <= j < i ==> keyed(
                        #[trigger] items@[j],
                        member(items@[j], "key"@),
                        member(items@[j], "value"@),
                    ) && describes(member(items@[j], "key"@), es@[j].0) && describes(
                        member(items@[j], "value"@),
                        es@[j].1,
                    ),
            decreases es.len() - i,
        {
            proof {
                assert(decreases_to!(*v => v.kind));
                assert(decreases_to!(v.kind => v.kind->Mapping_entries));
                assert(decreases_to!(*es => es@));
                assert(decreases_to!(es@ => es@[i as int]));
                assert(decreases_to!(es@[i as int] => es@[i as int].0));
                assert(decreases_to!(es@[i as int] => es@[i as int].1));
            }
            let key = Wire::from_value(&es[i].0);
            let value = Wire::from_value(&es[i].1);
            items.push(keyed_wire(key, value));
            i = i + 1;
        }
        items
    }
}

} // verus!
