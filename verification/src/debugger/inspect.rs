//! Reading a reflected value for the inspector: which parts are shown, how deep
//! and how many elements, and which of them may be edited.

use super::value::{
    restricted, Field, InspectorRange, Kind, ReadOnlyReason, Scalar, Value, ValueLimits, Writable,
};
use super::summary::views;
use super::edit::{InspectionError, PathSegment};
use super::value::reason_text;
use crate::text::str_eq;
use vstd::prelude::*;

verus! {

/// A reflected value as reflection describes it: its type path and its shape.
#[derive(Debug)]
pub struct Reflected {
    pub type_path: String,
    pub shape: Shape,
}

/// A named or positional member of a struct, tuple or enum variant, with the
/// inspector attributes of its field.
#[derive(Debug)]
pub struct Member {
    pub name: String,
    pub value: Reflected,
    /// The field carries `InspectorReadOnly`.
    pub read_only: bool,
    /// The field's `InspectorRange`, if any.
    pub range: Option<InspectorRange>,
}

/// The shape of a reflected value.
#[derive(Debug)]
pub enum Shape {
    /// An entity reference.
    Entity { bits: u64, generation: u32 },
    /// An asset handle, with its id as text.
    Asset { id: String },
    /// A scalar; `borrowed_str` for a `&str`, which cannot be edited.
    Scalar { scalar: Scalar, borrowed_str: bool },
    Struct(Vec<Member>),
    TupleStruct(Vec<Member>),
    Tuple(Vec<Member>),
    List(Vec<Reflected>),
    Array(Vec<Reflected>),
    Mapping(Vec<(Reflected, Reflected)>),
    UnorderedSet(Vec<Reflected>),
    /// An enum value: its variant, the variant's fields, the enum's fieldless
    /// variants, and whether a value can be rebuilt from reflection.
    Enum { variant: String, fields: Vec<Member>, unit_variants: Vec<String>, from_reflect: bool },
    /// A value reflection cannot look into, with its debug text.
    Opaque(String),
}

/// The permission a member is read with.
pub open spec fn member_writable(w: Writable, m: Member) -> Writable {
    if m.read_only {
        restricted(w, ReadOnlyReason::InspectorReadOnly)
    } else {
        w
    }
}

/// Two scalars hold the same value.
pub open spec fn scalar_same(a: Scalar, b: Scalar) -> bool {
    match (a, b) {
        (Scalar::Bool(x), Scalar::Bool(y)) => x == y,
        (Scalar::Integer(x), Scalar::Integer(y)) => x == y,
        (Scalar::Float(x), Scalar::Float(y)) => x == y,
        (Scalar::Decimal(x), Scalar::Decimal(y)) => x@ == y@,
        (Scalar::String(x), Scalar::String(y)) => x@ == y@,
        (Scalar::Char(x), Scalar::Char(y)) => x == y,
        _ => false,
    }
}

/// How many elements a collection shows.
pub open spec fn shown_count(len: int, limits: ValueLimits) -> int {
    if len <= limits.max_elements {
        len
    } else {
        limits.max_elements as int
    }
}

/// How many elements a collection leaves out.
pub open spec fn left_out(len: int, limits: ValueLimits) -> usize {
    if len <= limits.max_elements {
        0
    } else {
        (len - limits.max_elements) as usize
    }
}

/// `v` is what the inspector shows of `r` read with permission `w` at nesting
/// `depth`, with bounds `range` from the field that holds it. Entities and asset
/// handles are references and never editable; a `&str` is not editable; past
/// the depth limit a composite value is cut off; collections show at most
/// `max_elements` elements; map and set contents are not editable; members
/// marked read-only are not editable; an enum can be edited only when it has
/// fieldless variants and can be rebuilt from reflection; any other composite
/// is not editable itself while its members keep the permission they were read with.
pub open spec fn shown(
    v: Value,
    r: Reflected,
    w: Writable,
    limits: ValueLimits,
    depth: int,
    range: Option<InspectorRange>,
) -> bool
    decreases r,
{
    &&& v.type_path@ == r.type_path@
    &&& v.range == range
    &&& match r.shape {
        Shape::Entity { bits, generation } => v.kind == (Kind::Entity { bits, generation })
            && v.writable == restricted(w, ReadOnlyReason::Reference),
        Shape::Asset { id } => (v.kind matches Kind::Asset { id: x } && x@ == id@) && v.writable
            == restricted(w, ReadOnlyReason::Reference),
        Shape::Scalar { scalar, borrowed_str } => (v.kind matches Kind::Scalar(s) && scalar_same(
            s,
            scalar,
        )) && v.writable == (if borrowed_str {
            restricted(w, ReadOnlyReason::KindNotEditable)
        } else {
            w
        }),
        _ => if depth >= limits.max_depth {
            v.kind == Kind::DepthLimit && v.writable == restricted(w, ReadOnlyReason::DepthLimit)
        } else {
            match r.shape {
                Shape::Struct(ms) => (v.kind matches Kind::Struct(fs) && fs@.len() == ms@.len()
                    && forall|i: int|
                    0 <= i < ms@.len() ==> (#[trigger] fs@[i]).name@ == ms@[i].name@ && shown(
                        fs@[i].value,
                        ms@[i].value,
                        member_writable(w, ms@[i]),
                        limits,
                        depth + 1,
                        ms@[i].range,
                    )) && v.writable == restricted(w, ReadOnlyReason::KindNotEditable),
                Shape::TupleStruct(ms) => (v.kind matches Kind::TupleStruct(vs) && vs@.len()
                    == ms@.len() && forall|i: int|
                    0 <= i < ms@.len() ==> shown(
                        #[trigger] vs@[i],
                        ms@[i].value,
                        member_writable(w, ms@[i]),
                        limits,
                        depth + 1,
                        ms@[i].range,
                    )) && v.writable == restricted(w, ReadOnlyReason::KindNotEditable),
                Shape::Tuple(ms) => (v.kind matches Kind::Tuple(vs) && vs@.len() == ms@.len()
                    && forall|i: int|
                    0 <= i < ms@.len() ==> shown(
                        #[trigger] vs@[i],
                        ms@[i].value,
                        member_writable(w, ms@[i]),
                        limits,
                        depth + 1,
                        ms@[i].range,
                    )) && v.writable == restricted(w, ReadOnlyReason::KindNotEditable),
                Shape::List(rs) => (v.kind matches Kind::List { items, truncated } && items@.len()
                    == shown_count(rs@.len() as int, limits) && truncated == left_out(
                    rs@.len() as int,
                    limits,
                ) && forall|i: int|
                    0 <= i < items@.len() ==> shown(
                        #[trigger] items@[i],
                        rs@[i],
                        w,
                        limits,
                        depth + 1,
                        None,
                    )) && v.writable == restricted(w, ReadOnlyReason::KindNotEditable),
                Shape::Array(rs) => (v.kind matches Kind::Array { items, truncated }
                    && items@.len() == shown_count(rs@.len() as int, limits) && truncated
                    == left_out(rs@.len() as int, limits) && forall|i: int|
                    0 <= i < items@.len() ==> shown(
                        #[trigger] items@[i],
                        rs@[i],
                        w,
                        limits,
                        depth + 1,
                        None,
                    )) && v.writable == restricted(w, ReadOnlyReason::KindNotEditable),
                Shape::Mapping(es) => (v.kind matches Kind::Mapping { entries, truncated }
                    && entries@.len() == shown_count(es@.len() as int, limits) && truncated
                    == left_out(es@.len() as int, limits) && forall|i: int|
                    0 <= i < entries@.len() ==> shown(
                        (#[trigger] entries@[i]).0,
                        es@[i].0,
                        restricted(w, ReadOnlyReason::KindNotEditable),
                        limits,
                        depth + 1,
                        None,
                    ) && shown(
                        entries@[i].1,
                        es@[i].1,
                        restricted(w, ReadOnlyReason::KindNotEditable),
                        limits,
                        depth + 1,
                        None,
                    )) && v.writable == restricted(w, ReadOnlyReason::KindNotEditable),
                Shape::UnorderedSet(rs) => (v.kind matches Kind::UnorderedSet { members, truncated }
                    && members@.len() == shown_count(rs@.len() as int, limits) && truncated
                    == left_out(rs@.len() as int, limits) && forall|i: int|
                    0 <= i < members@.len() ==> shown(
                        #[trigger] members@[i],
                        rs@[i],
                        restricted(w, ReadOnlyReason::KindNotEditable),
                        limits,
                        depth + 1,
                        None,
                    )) && v.writable == restricted(w, ReadOnlyReason::KindNotEditable),
                Shape::Enum { variant, fields: ms, unit_variants, from_reflect } => (v.kind matches Kind::Enum {
                    variant: x,
                    fields: fs,
                    unit_variants: us,
                } && x@ == variant@ && views(us@) == views(unit_variants@) && fs@.len()
                    == ms@.len() && forall|i: int|
                    0 <= i < ms@.len() ==> (#[trigger] fs@[i]).name@ == ms@[i].name@ && shown(
                        fs@[i].value,
                        ms@[i].value,
                        member_writable(w, ms@[i]),
                        limits,
                        depth + 1,
                        ms@[i].range,
                    )) && v.writable == (if unit_variants@.len() > 0 && from_reflect {
                    w
                } else {
                    restricted(w, ReadOnlyReason::KindNotEditable)
                }),
                Shape::Opaque(debug) => (v.kind matches Kind::Opaque(d) && d@ == debug@)
                    && v.writable == restricted(w, ReadOnlyReason::OpaqueAncestor),
                _ => false,
            }
        },
    }
}

fn copy_scalar(s: &Scalar) -> (c: Scalar)
    ensures
        scalar_same(c, *s),
{
    match s {
        Scalar::Bool(b) => Scalar::Bool(*b),
        Scalar::Integer(i) => Scalar::Integer(*i),
        Scalar::Float(f) => Scalar::Float(*f),
        Scalar::Decimal(d) => Scalar::Decimal(d.as_str().to_owned()),
        Scalar::String(x) => Scalar::String(x.as_str().to_owned()),
        Scalar::Char(c) => Scalar::Char(*c),
    }
}

fn copy_strings(v: &Vec<String>) -> (c: Vec<String>)
    ensures
        views(c@) == views(v@),
{
    let mut c: Vec<String> = Vec::new();
    let mut i: usize = 0;
    while i < v.len()
        invariant
            i <= v@.len(),
            c@.len() == i,
            forall|j: int| 0 <= j < i ==> #[trigger] c@[j]@ == v@[j]@,
        decreases v.len() - i,
    {
        c.push(v[i].as_str().to_owned());
        i = i + 1;
    }
    assert(views(c@) =~= views(v@));
    c
}

fn narrowed(w: Writable, reason: ReadOnlyReason) -> (n: Writable)
    ensures
        n == restricted(w, reason),
{
    w.restrict(reason)
}

/// Reads a reflected value for the inspector with permission `writable` at
/// nesting `depth`; `range` is the bounds of the field that holds it.
pub fn inspect(
    r: &Reflected,
    writable: Writable,
    limits: &ValueLimits,
    depth: usize,
    range: Option<InspectorRange>,
) -> (v: Value)
    ensures
        shown(v, *r, writable, *limits, depth as int, range),
    decreases r,
{
    let type_path = r.type_path.as_str().to_owned();
    match &r.shape {
        Shape::Entity { bits, generation } => {
            return Value {
                type_path,
                kind: Kind::Entity { bits: *bits, generation: *generation },
                writable: narrowed(writable, ReadOnlyReason::Reference),
                range,
            };
        },
        Shape::Asset { id } => {
            return Value {
                type_path,
                kind: Kind::Asset { id: id.as_str().to_owned() },
                writable: narrowed(writable, ReadOnlyReason::Reference),
                range,
            };
        },
        Shape::Scalar { scalar, borrowed_str } => {
            let w = if *borrowed_str {
                narrowed(writable, ReadOnlyReason::KindNotEditable)
            } else {
                writable
            };
            return Value { type_path, kind: Kind::Scalar(copy_scalar(scalar)), writable: w, range };
        },
        _ => {},
    }
    if depth >= limits.max_depth {
        return Value {
            type_path,
            kind: Kind::DepthLimit,
            writable: narrowed(writable, ReadOnlyReason::DepthLimit),
            range,
        };
    }
    let not_editable = narrowed(writable, ReadOnlyReason::KindNotEditable);
    match &r.shape {
        Shape::Struct(ms) => Value {
            type_path,
            kind: Kind::Struct(read_fields(r, ms, writable, limits, depth)),
            writable: not_editable,
            range,
        },
        Shape::TupleStruct(ms) => Value {
            type_path,
            kind: Kind::TupleStruct(read_positional(r, ms, writable, limits, depth)),
            writable: not_editable,
            range,
        },
        Shape::Tuple(ms) => Value {
            type_path,
            kind: Kind::Tuple(read_positional(r, ms, writable, limits, depth)),
            writable: not_editable,
            range,
        },
        Shape::List(rs) => {
            let (items, truncated) = read_elements(r, rs, writable, limits, depth);
            Value { type_path, kind: Kind::List { items, truncated }, writable: not_editable, range }
        },
        Shape::Array(rs) => {
            let (items, truncated) = read_elements(r, rs, writable, limits, depth);
            Value { type_path, kind: Kind::Array { items, truncated }, writable: not_editable, range }
        },
        Shape::UnorderedSet(rs) => {
            let (members, truncated) = read_elements(r, rs, not_editable, limits, depth);
            Value {
                type_path,
                kind: Kind::UnorderedSet { members, truncated },
                writable: not_editable,
                range,
            }
        },
        Shape::Mapping(es) => {
            let (entries, truncated) = read_entries(r, es, not_editable, limits, depth);
            Value {
                type_path,
                kind: Kind::Mapping { entries, truncated },
                writable: not_editable,
                range,
            }
        },
        Shape::Enum { variant, fields, unit_variants, from_reflect } => {
            let w = if unit_variants.len() > 0 && *from_reflect {
                writable
            } else {
                not_editable
            };
            Value {
                type_path,
                kind: Kind::Enum {
                    variant: variant.as_str().to_owned(),
                    fields: read_fields(r, fields, writable, limits, depth),
                    unit_variants: copy_strings(unit_variants),
                },
                writable: w,
                range,
            }
        },
        Shape::Opaque(debug) => Value {
            type_path,
            kind: Kind::Opaque(debug.as_str().to_owned()),
            writable: narrowed(writable, ReadOnlyReason::OpaqueAncestor),
            range,
        },
        _ => {
            assert(false);
            Value { type_path, kind: Kind::DepthLimit, writable, range }
        },
    }
}

fn read_fields(
    r: &Reflected,
    ms: &Vec<Member>,
    writable: Writable,
    limits: &ValueLimits,
    depth: usize,
) -> (fs: Vec<Field>)
    requires
        depth < limits.max_depth,
        ({
            ||| (r.shape matches Shape::Struct(x) && *ms == x)
            ||| (r.shape matches Shape::Enum { fields, .. } && *ms == fields)
        }),
    ensures
        fs@.len() == ms@.len(),
        forall|i: int|
            0 <= i < ms@.len() ==> (#[trigger] fs@[i]).name@ == ms@[i].name@ && shown(
                fs@[i].value,
                ms@[i].value,
                member_writable(writable, ms@[i]),
                *limits,
                depth + 1,
                ms@[i].range,
            ),
    decreases r, 0nat,
{
    let mut fs: Vec<Field> = Vec::new();
    let mut i: usize = 0;
    while i < ms.len()
        invariant
            depth < limits.max_depth,
            ({
                ||| (r.shape matches Shape::Struct(x) && *ms == x)
                ||| (r.shape matches Shape::Enum { fields, .. } && *ms == fields)
            }),
            i <= ms@.len(),
            fs@.len() == i,
            forall|j: int|
                0 <= j < i ==> (#[trigger] fs@[j]).name@ == ms@[j].name@ && shown(
                    fs@[j].value,
                    ms@[j].value,
                    member_writable(writable, ms@[j]),
                    *limits,
                    depth + 1,
                    ms@[j].range,
                ),
        decreases ms.len() - i,
    {
        proof {
            assert(decreases_to!(*r => r.shape));
            if r.shape is Struct {
                assert(decreases_to!(r.shape => r.shape->Struct_0));
            } else {
                assert(decreases_to!(r.shape => r.shape->Enum_fields));
            }
            assert(decreases_to!(*ms => ms@));
            assert(decreases_to!(ms@ => ms@[i as int]));
            assert(decreases_to!(ms@[i as int] => ms@[i as int].value));
        }
        let m = &ms[i];
        let w = if m.read_only {
            narrowed(writable, ReadOnlyReason::InspectorReadOnly)
        } else {
            writable
        };
        let value = inspect(&m.value, w, limits, depth + 1, m.range);
        fs.push(Field { name: m.name.as_str().to_owned(), value });
        i = i + 1;
    }
    fs
}

fn read_positional(
    r: &Reflected,
    ms: &Vec<Member>,
    writable: Writable,
    limits: &ValueLimits,
    depth: usize,
) -> (vs: Vec<Value>)
    requires
        depth < limits.max_depth,
        ({
            ||| (r.shape matches Shape::TupleStruct(x) && *ms == x)
            ||| (r.shape matches Shape::Tuple(x) && *ms == x)
        }),
    ensures
        vs@.len() == ms@.len(),
        forall|i: int|
            0 <= i < ms@.len() ==> shown(
                #[trigger] vs@[i],
                ms@[i].value,
                member_writable(writable, ms@[i]),
                *limits,
                depth + 1,
                ms@[i].range,
            ),
    decreases r, 0nat,
{
    let mut vs: Vec<Value> = Vec::new();
    let mut i: usize = 0;
    while i < ms.len()
        invariant
            depth < limits.max_depth,
            ({
                ||| (r.shape matches Shape::TupleStruct(x) && *ms == x)
                ||| (r.shape matches Shape::Tuple(x) && *ms == x)
            }),
            i <= ms@.len(),
            vs@.len() == i,
            forall|j: int|
                0 <= j < i ==> shown(
                    #[trigger] vs@[j],
                    ms@[j].value,
                    member_writable(writable, ms@[j]),
                    *limits,
                    depth + 1,
                    ms@[j].range,
                ),
        decreases ms.len() - i,
    {
        proof {
            assert(decreases_to!(*r => r.shape));
            if r.shape is TupleStruct {
                assert(decreases_to!(r.shape => r.shape->TupleStruct_0));
            } else {
                assert(decreases_to!(r.shape => r.shape->Tuple_0));
            }
            assert(decreases_to!(*ms => ms@));
            assert(decreases_to!(ms@ => ms@[i as int]));
            assert(decreases_to!(ms@[i as int] => ms@[i as int].value));
        }
        let m = &ms[i];
        let w = if m.read_only {
            narrowed(writable, ReadOnlyReason::InspectorReadOnly)
        } else {
            writable
        };
        vs.push(inspect(&m.value, w, limits, depth + 1, m.range));
        i = i + 1;
    }
    vs
}

fn read_elements(
    r: &Reflected,
    rs: &Vec<Reflected>,
    writable: Writable,
    limits: &ValueLimits,
    depth: usize,
) -> (out: (Vec<Value>, usize))
    requires
        depth < limits.max_depth,
        ({
            ||| (r.shape matches Shape::List(x) && *rs == x)
            ||| (r.shape matches Shape::Array(x) && *rs == x)
            ||| (r.shape matches Shape::UnorderedSet(x) && *rs == x)
        }),
    ensures
        out.0@.len() == shown_count(rs@.len() as int, *limits),
        out.1 == left_out(rs@.len() as int, *limits),
        forall|i: int|
            0 <= i < out.0@.len() ==> shown(
                #[trigger] out.0@[i],
                rs@[i],
                writable,
                *limits,
                depth + 1,
                None,
            ),
    decreases r, 0nat,
{
    let n = if rs.len() <= limits.max_elements {
        rs.len()
    } else {
        limits.max_elements
    };
    let mut items: Vec<Value> = Vec::new();
    let mut i: usize = 0;
    while i < n
        invariant
            depth < limits.max_depth,
            ({
                ||| (r.shape matches Shape::List(x) && *rs == x)
                ||| (r.shape matches Shape::Array(x) && *rs == x)
                ||| (r.shape matches Shape::UnorderedSet(x) && *rs == x)
            }),
            n <= rs@.len(),
            i <= n,
            items@.len() == i,
            forall|j: int|
                0 <= j < i ==> shown(#[trigger] items@[j], rs@[j], writable, *limits, depth + 1, None),
        decreases n - i,
    {
        proof {
            assert(decreases_to!(*r => r.shape));
            if r.shape is List {
                assert(decreases_to!(r.shape => r.shape->List_0));
            } else if r.shape is Array {
                assert(decreases_to!(r.shape => r.shape->Array_0));
            } else {
                assert(decreases_to!(r.shape => r.shape->UnorderedSet_0));
            }
            assert(decreases_to!(*rs => rs@));
            assert(decreases_to!(rs@ => rs@[i as int]));
        }
        items.push(inspect(&rs[i], writable, limits, depth + 1, None));
        i = i + 1;
    }
    let truncated = if rs.len() <= limits.max_elements {
        0
    } else {
        rs.len() - limits.max_elements
    };
    (items, truncated)
}

fn read_entries(
    r: &Reflected,
    es: &Vec<(Reflected, Reflected)>,
    writable: Writable,
    limits: &ValueLimits,
    depth: usize,
) -> (out: (Vec<(Value, Value)>, usize))
    requires
        depth < limits.max_depth,
        r.shape matches Shape::Mapping(x) && *es == x,
    ensures
        out.0@.len() == shown_count(es@.len() as int, *limits),
        out.1 == left_out(es@.len() as int, *limits),
        forall|i: int|
            0 <= i < out.0@.len() ==> shown(
                (#[trigger] out.0@[i]).0,
                es@[i].0,
                writable,
                *limits,
                depth + 1,
                None,
            ) && shown(out.0@[i].1, es@[i].1, writable, *limits, depth + 1, None),
    decreases r, 0nat,
{
    let n = if es.len() <= limits.max_elements {
        es.len()
    } else {
        limits.max_elements
    };
    let mut entries: Vec<(Value, Value)> = Vec::new();
    let mut i: usize = 0;
    while i < n
        invariant
            depth < limits.max_depth,
            r.shape matches Shape::Mapping(x) && *es == x,
            n <= es@.len(),
            i <= n,
            entries@.len() == i,
            forall|j: int|
                0 <= j < i ==> shown(
                    (#[trigger] entries@[j]).0,
                    es@[j].0,
                    writable,
                    *limits,
                    depth + 1,
                    None,
                ) && shown(entries@[j].1, es@[j].1, writable, *limits, depth + 1, None),
        decreases n - i,
    {
        proof {
            assert(decreases_to!(*r => r.shape));
            assert(decreases_to!(r.shape => r.shape->Mapping_0));
            assert(decreases_to!(*es => es@));
            assert(decreases_to!(es@ => es@[i as int]));
            assert(decreases_to!(es@[i as int] => es@[i as int].0));
            assert(decreases_to!(es@[i as int] => es@[i as int].1));
        }
        let key = inspect(&es[i].0, writable, limits, depth + 1, None);
        let value = inspect(&es[i].1, writable, limits, depth + 1, None);
        entries.push((key, value));
        i = i + 1;
    }
    let truncated = if es.len() <= limits.max_elements {
        0
    } else {
        es.len() - limits.max_elements
    };
    (entries, truncated)
}

/// What the inspector shows of a reflected value read with permission `writable`.
pub fn inspect_value(r: &Reflected, writable: Writable, limits: &ValueLimits) -> (v: Value)
    ensures
        shown(v, *r, writable, *limits, 0, None),
{
    inspect(r, writable, limits, 0, None)
}

/// `i` is the first member named `n`.
pub open spec fn is_first_named(ms: Seq<Member>, n: Seq<char>, i: int) -> bool {
    &&& 0 <= i < ms.len()
    &&& ms[i].name@ == n
    &&& forall|j: int| 0 <= j < i ==> ms[j].name@ != n
}

/// The first member named `n`, if any.
pub open spec fn named_member(ms: Seq<Member>, n: Seq<char>) -> Option<Member> {
    if exists|i: int| is_first_named(ms, n, i) {
        Some(ms[choose|i: int| is_first_named(ms, n, i)])
    } else {
        None
    }
}

/// A label that reflection gives a positional field: it starts with a digit,
/// which no field name does.
pub open spec fn positional(name: Seq<char>) -> bool {
    name.len() > 0 && '0' <= name[0] <= '9'
}

/// The refusal of a path that does not fit the value.
pub open spec fn shape_changed() -> Seq<char> {
    "path shape changed"@
}

/// The outcome of following `path` from `r` to the leaf an edit addresses:
/// the `InspectorRange` that governs the leaf (the one nearest to it on the
/// way), or the message of the refusal. References, opaque values and scalars,
/// maps and sets cannot be entered; a member marked `InspectorReadOnly` cannot
/// be passed; a segment that does not fit the value, or an enum variant that is
/// not the active one, means the path no longer fits.
pub open spec fn walk(r: Reflected, path: Seq<PathSegment>) -> Result<Option<InspectorRange>, Seq<char>>
    decreases path.len(),
{
    if path.len() == 0 {
        Ok(None)
    } else {
        let rest = path.drop_first();
        match r.shape {
            Shape::Entity { .. } => Err(reason_text(ReadOnlyReason::Reference)),
            Shape::Asset { .. } => Err(reason_text(ReadOnlyReason::Reference)),
            Shape::Scalar { .. } => Err(reason_text(ReadOnlyReason::OpaqueAncestor)),
            Shape::Opaque(_) => Err(reason_text(ReadOnlyReason::OpaqueAncestor)),
            Shape::Mapping(_) => Err(reason_text(ReadOnlyReason::KindNotEditable)),
            Shape::UnorderedSet(_) => Err(reason_text(ReadOnlyReason::KindNotEditable)),
            Shape::Struct(ms) => match path[0] {
                PathSegment::Field(n) => match named_member(ms@, n@) {
                    Some(m) => if m.read_only {
                        Err(reason_text(ReadOnlyReason::InspectorReadOnly))
                    } else {
                        match walk(m.value, rest) {
                            Ok(inner) => Ok(if inner is Some { inner } else { m.range }),
                            Err(e) => Err(e),
                        }
                    },
                    None => Err(shape_changed()),
                },
                _ => Err(shape_changed()),
            },
            Shape::TupleStruct(ms) => match path[0] {
                PathSegment::Index(i) => if i < ms@.len() {
                    let m = ms@[i as int];
                    if m.read_only {
                        Err(reason_text(ReadOnlyReason::InspectorReadOnly))
                    } else {
                        match walk(m.value, rest) {
                            Ok(inner) => Ok(if inner is Some { inner } else { m.range }),
                            Err(e) => Err(e),
                        }
                    }
                } else {
                    Err(shape_changed())
                },
                _ => Err(shape_changed()),
            },
            Shape::Tuple(ms) => match path[0] {
                PathSegment::Index(i) => if i < ms@.len() {
                    let m = ms@[i as int];
                    if m.read_only {
                        Err(reason_text(ReadOnlyReason::InspectorReadOnly))
                    } else {
                        match walk(m.value, rest) {
                            Ok(inner) => Ok(if inner is Some { inner } else { m.range }),
                            Err(e) => Err(e),
                        }
                    }
                } else {
                    Err(shape_changed())
                },
                _ => Err(shape_changed()),
            },
            Shape::List(es) => match path[0] {
                PathSegment::Index(i) => if i < es@.len() {
                    walk(es@[i as int], rest)
                } else {
                    Err(shape_changed())
                },
                _ => Err(shape_changed()),
            },
            Shape::Array(es) => match path[0] {
                PathSegment::Index(i) => if i < es@.len() {
                    walk(es@[i as int], rest)
                } else {
                    Err(shape_changed())
                },
                _ => Err(shape_changed()),
            },
            Shape::Enum { variant, fields, .. } => match path[0] {
                PathSegment::Variant(n) => if n@ == variant@ && rest.len() > 0 {
                    let member = match rest[0] {
                        PathSegment::Field(f) => if positional(f@) {
                            None
                        } else {
                            named_member(fields@, f@)
                        },
                        PathSegment::Index(i) => if i < fields@.len() {
                            Some(fields@[i as int])
                        } else {
                            None
                        },
                        PathSegment::Variant(_) => None,
                    };
                    match member {
                        Some(m) => if m.read_only {
                            Err(reason_text(ReadOnlyReason::InspectorReadOnly))
                        } else {
                            match walk(m.value, rest.drop_first()) {
                                Ok(inner) => Ok(if inner is Some { inner } else { m.range }),
                                Err(e) => Err(e),
                            }
                        },
                        None => Err(shape_changed()),
                    }
                } else {
                    Err(shape_changed())
                },
                _ => Err(shape_changed()),
            },
        }
    }
}

/// Whether `r` is `walk`'s outcome, with a refusal carried as its message.
pub open spec fn walked(r: Result<Option<InspectorRange>, InspectionError>, w: Result<Option<InspectorRange>, Seq<char>>) -> bool {
    match r {
        Ok(x) => w == Ok::<Option<InspectorRange>, Seq<char>>(x),
        Err(e) => w == Err::<Option<InspectorRange>, Seq<char>>(e.0@),
    }
}

/// The first member named `n`, found by position.
fn find_named(ms: &Vec<Member>, n: &str) -> (found: Option<usize>)
    ensures
        match found {
            Some(i) => is_first_named(ms@, n@, i as int) && named_member(ms@, n@) == Some(ms@[i as int]),
            None => named_member(ms@, n@) is None,
        },
{
    let mut i: usize = 0;
    while i < ms.len()
        invariant
            i <= ms.len(),
            forall|j: int| 0 <= j < i ==> ms@[j].name@ != n@,
        decreases ms.len() - i,
    {
        if str_eq(ms[i].name.as_str(), n) {
            proof {
                assert(is_first_named(ms@, n@, i as int));
                let c = choose|c: int| is_first_named(ms@, n@, c);
                if c < i {
                } else if c > i {
                    assert(ms@[i as int].name@ != n@);
                }
                assert(c == i);
            }
            return Some(i);
        }
        i = i + 1;
    }
    proof {
        if exists|c: int| is_first_named(ms@, n@, c) {
            let c = choose|c: int| is_first_named(ms@, n@, c);
            assert(ms@[c].name@ != n@);
        }
    }
    None
}

/// Passes member `m` on the way to the leaf, then follows `path[from..]` in it.
fn through(m: &Member, path: &Vec<PathSegment>, from: usize) -> (r: Result<Option<InspectorRange>, InspectionError>)
    requires
        from <= path.len(),
    ensures
        walked(r, if m.read_only {
            Err(reason_text(ReadOnlyReason::InspectorReadOnly))
        } else {
            match walk(m.value, path@.subrange(from as int, path@.len() as int)) {
                Ok(inner) => Ok(if inner is Some { inner } else { m.range }),
                Err(e) => Err(e),
            }
        }),
    decreases path.len() - from, 1nat,
{
    if m.read_only {
        return Err(InspectionError(ReadOnlyReason::InspectorReadOnly.as_str()));
    }
    match locate_from(&m.value, path, from) {
        Ok(Some(range)) => Ok(Some(range)),
        Ok(None) => Ok(m.range),
        Err(e) => Err(e),
    }
}

/// Follows `path[from..]` from `r`, as `walk` says.
fn locate_from(r: &Reflected, path: &Vec<PathSegment>, from: usize) -> (out: Result<Option<InspectorRange>, InspectionError>)
    requires
        from <= path.len(),
    ensures
        walked(out, walk(*r, path@.subrange(from as int, path@.len() as int))),
    decreases path.len() - from, 0nat,
{
    let ghost p = path@.subrange(from as int, path@.len() as int);
    if from == path.len() {
        return Ok(None);
    }
    assert(p[0] == path@[from as int]);
    assert(p.drop_first() =~= path@.subrange(from + 1, path@.len() as int));
    let changed = InspectionError("path shape changed");
    match &r.shape {
        Shape::Entity { .. } => Err(InspectionError(ReadOnlyReason::Reference.as_str())),
        Shape::Asset { .. } => Err(InspectionError(ReadOnlyReason::Reference.as_str())),
        Shape::Scalar { .. } => Err(InspectionError(ReadOnlyReason::OpaqueAncestor.as_str())),
        Shape::Opaque(_) => Err(InspectionError(ReadOnlyReason::OpaqueAncestor.as_str())),
        Shape::Mapping(_) => Err(InspectionError(ReadOnlyReason::KindNotEditable.as_str())),
        Shape::UnorderedSet(_) => Err(InspectionError(ReadOnlyReason::KindNotEditable.as_str())),
        Shape::Struct(ms) => match &path[from] {
            PathSegment::Field(n) => match find_named(ms, n.as_str()) {
                Some(i) => through(&ms[i], path, from + 1),
                None => Err(changed),
            },
            _ => Err(changed),
        },
        Shape::TupleStruct(ms) => match &path[from] {
            PathSegment::Index(i) => if *i < ms.len() {
                through(&ms[*i], path, from + 1)
            } else {
                Err(changed)
            },
            _ => Err(changed),
        },
        Shape::Tuple(ms) => match &path[from] {
            PathSegment::Index(i) => if *i < ms.len() {
                through(&ms[*i], path, from + 1)
            } else {
                Err(changed)
            },
            _ => Err(changed),
        },
        Shape::List(es) => match &path[from] {
            PathSegment::Index(i) => if *i < es.len() {
                locate_from(&es[*i], path, from + 1)
            } else {
                Err(changed)
            },
            _ => Err(changed),
        },
        Shape::Array(es) => match &path[from] {
            PathSegment::Index(i) => if *i < es.len() {
                locate_from(&es[*i], path, from + 1)
            } else {
                Err(changed)
            },
            _ => Err(changed),
        },
        Shape::Enum { variant, fields, .. } => match &path[from] {
            PathSegment::Variant(n) => {
                if str_eq(n.as_str(), variant.as_str()) && from + 1 < path.len() {
                    assert(p.drop_first()[0] == path@[from + 1]);
                    assert(p.drop_first().drop_first() =~= path@.subrange(from + 2, path@.len() as int));
                    let member: Option<usize> = match &path[from + 1] {
                        PathSegment::Field(f) => if starts_with_digit(f.as_str()) {
                            None
                        } else {
                            find_named(fields, f.as_str())
                        },
                        PathSegment::Index(i) => if *i < fields.len() {
                            Some(*i)
                        } else {
                            None
                        },
                        PathSegment::Variant(_) => None,
                    };
                    match member {
                        Some(k) => through(&fields[k], path, from + 2),
                        None => Err(changed),
                    }
                } else {
                    Err(changed)
                }
            },
            _ => Err(changed),
        },
    }
}

/// Whether `s` starts with an ASCII digit.
fn starts_with_digit(s: &str) -> (digit: bool)
    ensures
        digit == positional(s@),
{
    if s.unicode_len() == 0 {
        false
    } else {
        let c = s.get_char(0);
        '0' <= c && c <= '9'
    }
}

/// Follows `path` from the reflected component `r` to the leaf an edit
/// addresses, as `walk` says: the range that governs the leaf, or the refusal.
pub fn locate(r: &Reflected, path: &Vec<PathSegment>) -> (out: Result<Option<InspectorRange>, InspectionError>)
    ensures
        walked(out, walk(*r, path@)),
{
    assert(path@.subrange(0, path@.len() as int) =~= path@);
    locate_from(r, path, 0)
}

} // verus!
