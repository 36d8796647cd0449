//! The model of an inspected value and of who may edit it.

use super::wire::{decimal, decimal_string_wide};
use crate::text::concat;
use vstd::prelude::*;

verus! {

/// Why a value cannot be edited from the inspector.
#[derive(Debug, Clone, Copy, PartialEq, Eq, Hash)]
pub enum ReadOnlyReason {
    ComponentNotRegistered,
    NoReflectComponent,
    ComponentImmutable,
    OpaqueAncestor,
    KindNotEditable,
    Reference,
    Relationship,
    DepthLimit,
    InspectorReadOnly,
    StateValue,
}

/// The message shown for each reason.
pub open spec fn reason_text(reason: ReadOnlyReason) -> Seq<char> {
    match reason {
        ReadOnlyReason::ComponentNotRegistered => "component not registered"@,
        ReadOnlyReason::NoReflectComponent => "no ReflectComponent"@,
        ReadOnlyReason::ComponentImmutable => "component immutable"@,
        ReadOnlyReason::OpaqueAncestor => "field reached through an opaque or unsupported ancestor"@,
        ReadOnlyReason::KindNotEditable => "kind not editable in this round"@,
        ReadOnlyReason::Reference => "reference is read-only"@,
        ReadOnlyReason::Relationship => "relationship is read-only"@,
        ReadOnlyReason::DepthLimit => "maximum depth reached"@,
        ReadOnlyReason::InspectorReadOnly => "field is marked InspectorReadOnly"@,
        ReadOnlyReason::StateValue => "state wrapper requires a transition request"@,
    }
}

impl ReadOnlyReason {
    /// The message for this reason.
    pub fn as_str(&self) -> (text: &'static str)
        ensures
            text@ == reason_text(*self),
    {
        match self {
            ReadOnlyReason::ComponentNotRegistered => "component not registered",
            ReadOnlyReason::NoReflectComponent => "no ReflectComponent",
            ReadOnlyReason::ComponentImmutable => "component immutable",
            ReadOnlyReason::OpaqueAncestor => "field reached through an opaque or unsupported ancestor",
            ReadOnlyReason::KindNotEditable => "kind not editable in this round",
            ReadOnlyReason::Reference => "reference is read-only",
            ReadOnlyReason::Relationship => "relationship is read-only",
            ReadOnlyReason::DepthLimit => "maximum depth reached",
            ReadOnlyReason::InspectorReadOnly => "field is marked InspectorReadOnly",
            ReadOnlyReason::StateValue => "state wrapper requires a transition request",
        }
    }
}

/// Whether the inspector may edit a value, and if not, why.
#[derive(Debug, Clone, Copy, PartialEq, Eq)]
pub enum Writable {
    Yes,
    No(ReadOnlyReason),
}

impl Writable {
    /// Narrows the permission: an editable value becomes read-only for `reason`;
    /// a read-only value keeps the reason it already has.
    pub fn restrict(&self, reason: ReadOnlyReason) -> (narrowed: Self)
        ensures
            narrowed == restricted(*self, reason),
    {
        match self {
            Writable::Yes => Writable::No(reason),
            Writable::No(first) => Writable::No(*first),
        }
    }
}

/// Whether a component may be edited: it must be registered for reflection,
/// mutable, not a relationship, and reflectable as a component, checked in that order.
pub fn permission(registered: bool, mutable: bool, relationship: bool, reflect_component: bool) -> (p:
    Writable)
    ensures
        p == (if !registered {
            Writable::No(ReadOnlyReason::ComponentNotRegistered)
        } else if !mutable {
            Writable::No(ReadOnlyReason::ComponentImmutable)
        } else if relationship {
            Writable::No(ReadOnlyReason::Relationship)
        } else if !reflect_component {
            Writable::No(ReadOnlyReason::NoReflectComponent)
        } else {
            Writable::Yes
        }),
{
    if !registered {
        Writable::No(ReadOnlyReason::ComponentNotRegistered)
    } else if !mutable {
        Writable::No(ReadOnlyReason::ComponentImmutable)
    } else if relationship {
        Writable::No(ReadOnlyReason::Relationship)
    } else if !reflect_component {
        Writable::No(ReadOnlyReason::NoReflectComponent)
    } else {
        Writable::Yes
    }
}

/// A permission narrowed by `reason`: an editable value becomes read-only for
/// `reason`; a read-only value keeps the reason it has.
pub open spec fn restricted(w: Writable, reason: ReadOnlyReason) -> Writable {
    match w {
        Writable::Yes => Writable::No(reason),
        Writable::No(first) => Writable::No(first),
    }
}

/// Narrowing keeps the first reason given: narrowing again changes nothing, the
/// result is never editable, and a read-only value keeps its reason.
pub proof fn law_restrict_keeps_first_reason(
    w: Writable,
    first: ReadOnlyReason,
    second: ReadOnlyReason,
)
    ensures
        restricted(restricted(w, first), second) == restricted(w, first),
        restricted(w, first) is No,
        w is No ==> restricted(w, first) == w,
{
}

/// Field attribute that shows a value in the inspector but rejects edits to it
/// or its children.
#[derive(Debug, Clone, Copy)]
pub struct InspectorReadOnly;

/// Inclusive bounds on scalar edits, each held as the bit pattern of an `f64`.
#[derive(Debug, Clone, Copy, PartialEq, Eq)]
pub struct InspectorRange {
    pub min: u64,
    pub max: u64,
}

impl InspectorRange {
    /// Bounds from the bit patterns of two `f64` values.
    pub fn new(min: u64, max: u64) -> (range: Self)
        ensures
            range.min == min,
            range.max == max,
    {
        InspectorRange { min, max }
    }
}

/// Bounds on collection elements and nesting depth when reading values.
#[derive(Debug, Clone, Copy, PartialEq, Eq)]
pub struct ValueLimits {
    pub max_depth: usize,
    pub max_elements: usize,
}

impl ValueLimits {
    /// Sixteen levels of nesting and 128 elements per collection.
    pub fn default() -> (limits: Self)
        ensures
            limits.max_depth == 16,
            limits.max_elements == 128,
    {
        ValueLimits { max_depth: 16, max_elements: 128 }
    }
}

/// A scalar leaf. Floating-point values are held as the bit pattern of an `f64`;
/// integers that do not fit an `i64` are held as their decimal text.
#[derive(Debug, Clone, PartialEq)]
pub enum Scalar {
    Bool(bool),
    Integer(i64),
    Float(u64),
    Decimal(String),
    String(String),
    Char(char),
}

/// The decimal text of an integer, with `-` before a negative one.
pub open spec fn signed_decimal(v: int) -> Seq<char> {
    if v < 0 {
        "-"@ + decimal((-v) as nat)
    } else {
        decimal(v as nat)
    }
}

/// The scalar of a signed integer of any width: an `Integer` when it fits an
/// `i64`, else its decimal text.
pub fn signed_integer_scalar(v: i128) -> (s: Scalar)
    ensures
        i64::MIN <= v <= i64::MAX ==> s == Scalar::Integer(v as i64),
        !(i64::MIN <= v <= i64::MAX) ==> (s matches Scalar::Decimal(t) && t@ == signed_decimal(
            v as int,
        )),
{
    if i64::MIN as i128 <= v && v <= i64::MAX as i128 {
        Scalar::Integer(v as i64)
    } else if v < 0 {
        let magnitude: u128 = if v == i128::MIN {
            170141183460469231731687303715884105728u128
        } else {
            (0i128 - v) as u128
        };
        let digits = decimal_string_wide(magnitude);
        Scalar::Decimal(concat("-", digits.as_str()))
    } else {
        Scalar::Decimal(decimal_string_wide(v as u128))
    }
}

/// The scalar of an unsigned integer of any width: an `Integer` when it fits an
/// `i64`, else its decimal text.
pub fn unsigned_integer_scalar(v: u128) -> (s: Scalar)
    ensures
        v <= i64::MAX ==> s == Scalar::Integer(v as i64),
        v > i64::MAX ==> (s matches Scalar::Decimal(t) && t@ == decimal(v as nat)),
{
    if v <= i64::MAX as u128 {
        Scalar::Integer(v as i64)
    } else {
        Scalar::Decimal(decimal_string_wide(v))
    }
}

/// A named member of a struct or enum variant.
#[derive(Debug)]
pub struct Field {
    pub name: String,
    pub value: Value,
}

/// The shape of an inspected value.
#[derive(Debug)]
pub enum Kind {
    Scalar(Scalar),
    Struct(Vec<Field>),
    TupleStruct(Vec<Value>),
    Tuple(Vec<Value>),
    List { items: Vec<Value>, truncated: usize },
    Array { items: Vec<Value>, truncated: usize },
    Mapping { entries: Vec<(Value, Value)>, truncated: usize },
    UnorderedSet { members: Vec<Value>, truncated: usize },
    Enum { variant: String, fields: Vec<Field>, unit_variants: Vec<String> },
    Entity { bits: u64, generation: u32 },
    Node { instance_id: u64, valid: bool },
    Asset { id: String },
    Opaque(String),
    Unsupported(String),
    DepthLimit,
}

/// An inspected value with its type path, permission and inspector bounds.
#[derive(Debug)]
pub struct Value {
    pub type_path: String,
    pub kind: Kind,
    pub writable: Writable,
    pub range: Option<InspectorRange>,
}

impl Value {
    /// The value shown for an entity's node handle: the node's instance id and
    /// whether the node still exists; a reference, so never editable.
    pub fn node_handle(type_path: String, instance_id: u64, valid: bool) -> (value: Self)
        ensures
            value.type_path@ == type_path@,
            value.kind == (Kind::Node { instance_id, valid }),
            value.writable == Writable::No(ReadOnlyReason::Reference),
            value.range is None,
    {
        Value {
            type_path,
            kind: Kind::Node { instance_id, valid },
            writable: Writable::No(ReadOnlyReason::Reference),
            range: None,
        }
    }

    /// A value that cannot be shown, for `reason`.
    pub fn unsupported(type_path: String, reason: ReadOnlyReason) -> (value: Self)
        ensures
            value.type_path@ == type_path@,
            value.kind matches Kind::Unsupported(text) && text@ == reason_text(reason),
            value.writable == Writable::No(reason),
            value.range is None,
    {
        Value {
            type_path,
            kind: Kind::Unsupported(reason.as_str().to_owned()),
            writable: Writable::No(reason),
            range: None,
        }
    }
}

} // verus!
