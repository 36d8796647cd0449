//! Validation of JSON-RPC requests from the editor and the shapes of the replies.

use super::edit::{Edit, InspectionError, PathSegment};
use super::value::{reason_text, ReadOnlyReason, Scalar};
use super::wire::{decimal, lemma_decimal_reads_back, lemma_sorted_value, field_value, insert_field, assoc_last, entity, entity_ref, keys_sorted, string_member, wire_get, Wire};
use crate::text::{chars_of, decimal_value, parse_u64, str_eq};
use bevy_ecs::entity::Entity;
use vstd::prelude::*;

verus! {

/// The names of the fields of an object.
pub open spec fn member_names(w: Wire) -> Set<Seq<char>> {
    Set::new(|k: Seq<char>| wire_get(w, k) is Some)
}

/// A JSON-RPC error: its code and message.
#[derive(Debug, Clone, Copy, PartialEq, Eq)]
pub struct RpcError {
    pub code: i64,
    pub message: &'static str,
}

/// The transport form of an error: `{code, message, data: {reason}}`, the reason
/// repeating the message.
pub open spec fn error_wire(w: Wire, code: i64, message: Seq<char>) -> bool {
    &&& w matches Wire::Object(fields) && keys_sorted(fields@)
    &&& member_names(w) == set!["code"@, "data"@, "message"@]
    &&& wire_get(w, "code"@) == Some(Wire::Integer(code))
    &&& string_member(w, "message"@) == Some(message)
    &&& wire_get(w, "data"@) matches Some(d) && member_names(d) == set!["reason"@]
        && string_member(d, "reason"@) == Some(message)
}

impl RpcError {
    /// An invalid request (`-32600`).
    pub fn invalid(message: &'static str) -> (e: Self)
        ensures
            e.code == -32600,
            e.message == message,
    {
        RpcError { code: -32600, message }
    }

    /// Invalid parameters (`-32602`).
    pub fn params(message: &'static str) -> (e: Self)
        ensures
            e.code == -32602,
            e.message == message,
    {
        RpcError { code: -32602, message }
    }

    /// An unknown method (`-32601`).
    pub fn method_not_found() -> (e: Self)
        ensures
            e.code == -32601,
            e.message@ == "method not found"@,
    {
        RpcError { code: -32601, message: "method not found" }
    }

    /// A refused inspection (`-32000`) carrying the refusal's message.
    pub fn from_inspection(error: InspectionError) -> (e: Self)
        ensures
            e.code == -32000,
            e.message == error.0,
    {
        RpcError { code: -32000, message: error.0 }
    }

    /// The transport form of this error.
    pub fn to_wire(&self) -> (w: Wire)
        ensures
            error_wire(w, self.code, self.message@),
    {
        let inner = vec![("reason", Wire::String(self.message.to_owned()))];
        let ghost inner_pairs = inner@;
        let data = Wire::object(inner);
        let outer = vec![
            ("code", Wire::Integer(self.code)),
            ("message", Wire::String(self.message.to_owned())),
            ("data", data),
        ];
        let ghost outer_pairs = outer@;
        let w = Wire::object(outer);
        proof {
            reveal_strlit("code");
            reveal_strlit("message");
            reveal_strlit("data");
            reveal_strlit("reason");
            reveal_with_fuel(assoc_last, 4);
            assert(outer_pairs.len() == 3);
            assert(inner_pairs.len() == 1);
            assert forall|k: Seq<char>| #[trigger] member_names(data).contains(k) <==> set![
                "reason"@,
            ].contains(k) by {
                assert(wire_get(data, k) == assoc_last(inner_pairs, k));
            }
            assert(member_names(data) =~= set!["reason"@]);
            assert forall|k: Seq<char>| #[trigger] member_names(w).contains(k) <==> set![
                "code"@,
                "data"@,
                "message"@,
            ].contains(k) by {
                assert(wire_get(w, k) == assoc_last(outer_pairs, k));
            }
            assert(member_names(w) =~= set!["code"@, "data"@, "message"@]);
            assert(wire_get(w, "code"@) == assoc_last(outer_pairs, "code"@));
            assert(wire_get(w, "message"@) == assoc_last(outer_pairs, "message"@));
            assert(wire_get(w, "data"@) == assoc_last(outer_pairs, "data"@));
            assert(wire_get(data, "reason"@) == assoc_last(inner_pairs, "reason"@));
            assert(w is Object);
            assert(outer_pairs.drop_last().drop_last().last() == outer_pairs[0]);
            assert(outer_pairs[0].1 == Wire::Integer(self.code));
            assert("code"@[0] != "data"@[0]);
            assert("code"@.len() != "message"@.len());
            assert(assoc_last(outer_pairs.drop_last().drop_last(), "code"@) == Some(outer_pairs[0].1));
            assert(assoc_last(outer_pairs.drop_last(), "code"@) == Some(outer_pairs[0].1));
            assert(assoc_last(outer_pairs, "code"@) == Some(outer_pairs[0].1));
            assert(wire_get(w, "code"@) == Some(Wire::Integer(self.code)));
            assert(string_member(w, "message"@) == Some(self.message@));
            assert(string_member(data, "reason"@) == Some(self.message@));
            assert(wire_get(w, "data"@) == Some(data));
        }
        w
    }
}

/// `r` is the error with this code and message.
pub open spec fn is_error<T>(r: Result<T, RpcError>, code: int, message: Seq<char>) -> bool {
    r matches Err(e) && e.code == code && e.message@ == message
}

/// The envelope of a JSON-RPC 2.0 request: `jsonrpc` is `"2.0"` and it carries
/// neither `result` nor `error`.
pub open spec fn is_request_envelope(request: Wire) -> bool {
    &&& string_member(request, "jsonrpc"@) == Some("2.0"@)
    &&& wire_get(request, "result"@) is None
    &&& wire_get(request, "error"@) is None
}

/// The method of a request, or why it is not a request.
pub fn request_method(request: &Wire) -> (method: Result<&str, RpcError>)
    ensures
        !is_request_envelope(*request) ==> is_error(
            method,
            -32600,
            "expected a JSON-RPC 2.0 request"@,
        ),
        is_request_envelope(*request) && string_member(*request, "method"@) is None ==> is_error(
            method,
            -32600,
            "method must be a string"@,
        ),
        is_request_envelope(*request) && string_member(*request, "method"@) is Some ==> (
        method matches Ok(name) && string_member(*request, "method"@) == Some(name@)),
{
    let version_ok = match request.get("jsonrpc") {
        Some(v) => match v.as_str() {
            Some(text) => str_eq(text, "2.0"),
            None => false,
        },
        None => false,
    };
    if !version_ok || request.get("result").is_some() || request.get("error").is_some() {
        return Err(RpcError::invalid("expected a JSON-RPC 2.0 request"));
    }
    match request.get("method") {
        Some(m) => match m.as_str() {
            Some(name) => Ok(name),
            None => Err(RpcError::invalid("method must be a string")),
        },
        None => Err(RpcError::invalid("method must be a string")),
    }
}

/// The parameters of a request: an object, or none when absent or null.
pub fn request_params(request: &Wire) -> (params: Result<Option<&Wire>, RpcError>)
    ensures
        match wire_get(*request, "params"@) {
            None | Some(Wire::Null) => params == Ok::<Option<&Wire>, RpcError>(None),
            Some(Wire::Object(f)) => params matches Ok(Some(p)) && *p == Wire::Object(f),
            Some(_) => params matches Err(e) && e.code == -32602 && e.message@
                == "params must be a Dictionary"@,
        },
{
    match request.get("params") {
        None => Ok(None),
        Some(p) => match p {
            Wire::Null => Ok(None),
            Wire::Object(_) => Ok(Some(p)),
            _ => Err(RpcError::params("params must be a Dictionary")),
        },
    }
}

/// The refusal of a request while the debugger is disabled: everything but
/// `godot.unsubscribe` is refused.
pub fn disabled_refusal(enabled: bool, method: &str) -> (refusal: Option<RpcError>)
    ensures
        refusal is Some <==> (!enabled && method@ != "godot.unsubscribe"@),
        refusal matches Some(e) ==> e.code == -32000 && e.message@ == "debugger disabled"@,
{
    if !enabled && !str_eq(method, "godot.unsubscribe") {
        Some(RpcError::from_inspection(InspectionError("debugger disabled")))
    } else {
        None
    }
}

/// A required string parameter.
pub fn string<'a>(params: &'a Wire, key: &str) -> (value: Result<&'a str, RpcError>)
    ensures
        string_member(*params, key@) is Some ==> (value matches Ok(v) && string_member(
            *params,
            key@,
        ) == Some(v@)),
        string_member(*params, key@) is None ==> is_error(
            value,
            -32602,
            "missing or invalid string parameter"@,
        ),
{
    match params.get(key) {
        Some(v) => match v.as_str() {
            Some(text) => Ok(text),
            None => Err(RpcError::params("missing or invalid string parameter")),
        },
        None => Err(RpcError::params("missing or invalid string parameter")),
    }
}

/// An optional string parameter: absent gives none, a non-string is refused.
pub fn optional_string<'a>(params: &'a Wire, key: &str) -> (value: Result<Option<&'a str>, RpcError>)
    ensures
        wire_get(*params, key@) is None ==> value == Ok::<Option<&str>, RpcError>(None),
        string_member(*params, key@) is Some ==> (value matches Ok(Some(v)) && string_member(
            *params,
            key@,
        ) == Some(v@)),
        wire_get(*params, key@) is Some && string_member(*params, key@) is None ==> is_error(
            value,
            -32602,
            "invalid string parameter"@,
        ),
{
    match params.get(key) {
        None => Ok(None),
        Some(v) => match v.as_str() {
            Some(text) => Ok(Some(text)),
            None => Err(RpcError::params("invalid string parameter")),
        },
    }
}

/// A required nonnegative integer parameter that fits a `usize`.
pub fn index(params: &Wire, key: &str) -> (value: Result<usize, RpcError>)
    ensures
        match wire_get(*params, key@) {
            Some(Wire::Integer(v)) => if 0 <= v <= usize::MAX {
                value == Ok::<usize, RpcError>(v as usize)
            } else {
                value matches Err(e) && e.code == -32602 && e.message@
                    == "index must be nonnegative"@
            },
            _ => value matches Err(e) && e.code == -32602 && e.message@
                == "missing or invalid integer parameter"@,
        },
{
    match params.get(key) {
        Some(v) => match v {
            Wire::Integer(n) => {
                let n = *n;
                if n >= 0 && (n as u64) <= (usize::MAX as u64) {
                    Ok(n as usize)
                } else {
                    Err(RpcError::params("index must be nonnegative"))
                }
            },
            _ => Err(RpcError::params("missing or invalid integer parameter")),
        },
        None => Err(RpcError::params("missing or invalid integer parameter")),
    }
}

/// `Entity::try_from_bits` of `bevy_ecs`, giving the generation of the entity it
/// rebuilds. The source takes the low 32 bits as the row, which must not be zero,
/// and the high 32 bits as the generation.
#[verifier::external_body]
fn entity_generation(bits: u64) -> (generation: Option<u32>)
    ensures
        generation is Some <==> bits % 0x1_0000_0000 != 0,
        generation matches Some(g) ==> g == bits / 0x1_0000_0000,
{
    match Entity::try_from_bits(bits) {
        Some(entity) => Some(entity.generation().to_bits()),
        None => None,
    }
}

/// What `target` answers for the entity reference `e`.
pub open spec fn target_outcome(e: Wire, r: Result<u64, RpcError>) -> bool {
    match string_member(e, "bits"@) {
        None => is_error(r, -32602, "missing or invalid string parameter"@),
        Some(text) => match decimal_value(text) {
            Some(bits) if bits <= u64::MAX && bits % 0x1_0000_0000 != 0 => match wire_get(
                e,
                "generation"@,
            ) {
                Some(Wire::Integer(g)) => if g < 0 || g > usize::MAX {
                    is_error(r, -32602, "index must be nonnegative"@)
                } else if g == bits / 0x1_0000_0000 {
                    r == Ok::<u64, RpcError>(bits as u64)
                } else {
                    is_error(r, -32000, "stale entity"@)
                },
                _ => is_error(r, -32602, "missing or invalid integer parameter"@),
            },
            _ => is_error(r, -32602, "invalid entity bits"@),
        },
    }
}

/// The entity a request addresses through its `entity` parameter,
/// `{bits: <decimal text>, generation: <integer>}`, given by its bits.
pub fn target(params: &Wire) -> (entity: Result<u64, RpcError>)
    ensures
        wire_get(*params, "entity"@) is None ==> is_error(
            entity,
            -32602,
            "entity reference required"@,
        ),
        wire_get(*params, "entity"@) matches Some(e) ==> target_outcome(e, entity),
{
    let value = match params.get("entity") {
        Some(v) => v,
        None => return Err(RpcError::params("entity reference required")),
    };
    let text = match string(value, "bits") {
        Ok(t) => t,
        Err(e) => return Err(e),
    };
    let bits = match parse_u64(text) {
        Some(b) => b,
        None => return Err(RpcError::params("invalid entity bits")),
    };
    let generation = match entity_generation(bits) {
        Some(g) => g,
        None => return Err(RpcError::params("invalid entity bits")),
    };
    let expected = match index(value, "generation") {
        Ok(i) => i,
        Err(e) => return Err(e),
    };
    if expected != generation as usize {
        return Err(RpcError::from_inspection(InspectionError("stale entity")));
    }
    Ok(bits)
}

/// A path segment is one of `{field: <string>}`, `{index: <integer that fits a
/// usize>}` or `{variant: <string>}`.
pub open spec fn segment_ok(w: Wire) -> bool {
    match w {
        Wire::Object(fields) => fields@.len() == 1 && {
            let key = fields@[0].0@;
            let v = fields@[0].1;
            ||| (key == "field"@ || key == "variant"@) && v is String
            ||| key == "index"@ && (v matches Wire::Integer(i) && 0 <= i <= usize::MAX)
        },
        _ => false,
    }
}

/// What one path segment parses to, or why it is refused.
pub open spec fn segment_outcome(w: Wire, r: Result<PathSegment, RpcError>) -> bool {
    match w {
        Wire::Object(fields) => if fields@.len() != 1 {
            is_error(r, -32602, "invalid path segment"@)
        } else {
            let key = fields@[0].0@;
            let v = fields@[0].1;
            if key == "field"@ {
                match v {
                    Wire::String(s) => r matches Ok(PathSegment::Field(t)) && t@ == s@,
                    _ => is_error(r, -32602, "missing or invalid string parameter"@),
                }
            } else if key == "index"@ {
                match v {
                    Wire::Integer(i) => if 0 <= i <= usize::MAX {
                        r == Ok::<PathSegment, RpcError>(PathSegment::Index(i as usize))
                    } else {
                        is_error(r, -32602, "index must be nonnegative"@)
                    },
                    _ => is_error(r, -32602, "missing or invalid integer parameter"@),
                }
            } else if key == "variant"@ {
                match v {
                    Wire::String(s) => r matches Ok(PathSegment::Variant(t)) && t@ == s@,
                    _ => is_error(r, -32602, "missing or invalid string parameter"@),
                }
            } else {
                is_error(r, -32602, "invalid path segment"@)
            }
        },
        _ => is_error(r, -32602, "invalid path segment"@),
    }
}

/// Parses one path segment.
pub fn path_segment(segment: &Wire) -> (r: Result<PathSegment, RpcError>)
    ensures
        segment_outcome(*segment, r),
        r is Ok <==> segment_ok(*segment),
{
    proof {
        reveal_strlit("field");
        reveal_strlit("index");
        reveal_strlit("variant");
        assert("field"@[0] != "index"@[0]);
        assert("field"@.len() != "variant"@.len());
        assert("index"@.len() != "variant"@.len());
    }
    match segment {
        Wire::Object(fields) => {
            if fields.len() != 1 {
                return Err(RpcError::params("invalid path segment"));
            }
            let key = fields[0].0.as_str();
            let value = &fields[0].1;
            if str_eq(key, "field") {
                match value {
                    Wire::String(s) => Ok(PathSegment::Field(s.as_str().to_owned())),
                    _ => Err(RpcError::params("missing or invalid string parameter")),
                }
            } else if str_eq(key, "index") {
                match value {
                    Wire::Integer(n) => {
                        let n = *n;
                        if n >= 0 && (n as u64) <= (usize::MAX as u64) {
                            Ok(PathSegment::Index(n as usize))
                        } else {
                            Err(RpcError::params("index must be nonnegative"))
                        }
                    },
                    _ => Err(RpcError::params("missing or invalid integer parameter")),
                }
            } else if str_eq(key, "variant") {
                match value {
                    Wire::String(s) => Ok(PathSegment::Variant(s.as_str().to_owned())),
                    _ => Err(RpcError::params("missing or invalid string parameter")),
                }
            } else {
                Err(RpcError::params("invalid path segment"))
            }
        },
        _ => Err(RpcError::params("invalid path segment")),
    }
}

/// The `path` parameter of an edit: an array of segments, parsed in order; the
/// first refused segment gives the error.
pub fn edit_path(params: &Wire) -> (r: Result<Vec<PathSegment>, RpcError>)
    ensures
        !(wire_get(*params, "path"@) matches Some(Wire::Array(_))) ==> is_error(
            r,
            -32602,
            "path must be an array of field, index or variant segments"@,
        ),
        wire_get(*params, "path"@) matches Some(Wire::Array(segments)) ==> {
            &&& r is Ok <==> forall|i: int|
                0 <= i < segments@.len() ==> segment_ok(#[trigger] segments@[i])
            &&& r matches Ok(path) ==> path@.len() == segments@.len() && forall|i: int|
                0 <= i < segments@.len() ==> segment_outcome(
                    #[trigger] segments@[i],
                    Ok::<PathSegment, RpcError>(path@[i]),
                )
            &&& r matches Err(e) ==> exists|i: int|
                0 <= i < segments@.len() && segment_outcome(
                    #[trigger] segments@[i],
                    Err::<PathSegment, RpcError>(e),
                ) && forall|j: int| 0 <= j < i ==> segment_ok(#[trigger] segments@[j])
        },
{
    let segments = match params.get("path") {
        Some(w) => match w.as_array() {
            Some(items) => items,
            None => {
                return Err(
                    RpcError::params("path must be an array of field, index or variant segments"),
                )
            },
        },
        None => {
            return Err(
                RpcError::params("path must be an array of field, index or variant segments"),
            )
        },
    };
    let mut path: Vec<PathSegment> = Vec::new();
    let mut i: usize = 0;
    while i < segments.len()
        invariant
            wire_get(*params, "path"@) matches Some(Wire::Array(v)) && v@ == segments@,
            i <= segments.len(),
            path@.len() == i,
            forall|j: int| 0 <= j < i ==> segment_ok(#[trigger] segments@[j]),
            forall|j: int|
                0 <= j < i ==> segment_outcome(
                    #[trigger] segments@[j],
                    Ok::<PathSegment, RpcError>(path@[j]),
                ),
        decreases segments.len() - i,
    {
        match path_segment(&segments[i]) {
            Ok(p) => path.push(p),
            Err(e) => {
                proof {
                    let r = Err::<PathSegment, RpcError>(e);
                    assert(segment_outcome(segments@[i as int], r));
                }
                return Err(e);
            },
        }
        i = i + 1;
    }
    Ok(path)
}

/// The new content of an edit, from the `value` parameter.
pub open spec fn edit_outcome(params: Wire, r: Result<Edit, RpcError>) -> bool {
    match wire_get(params, "value"@) {
        Some(Wire::Bool(b)) => r == Ok::<Edit, RpcError>(Edit::Scalar(Scalar::Bool(b))),
        Some(Wire::Integer(i)) => r == Ok::<Edit, RpcError>(Edit::Scalar(Scalar::Integer(i))),
        Some(Wire::Float(f)) => r == Ok::<Edit, RpcError>(Edit::Scalar(Scalar::Float(f))),
        Some(Wire::String(s)) => r matches Ok(Edit::Scalar(Scalar::String(t))) && t@ == s@,
        Some(Wire::Object(fields)) if fields@.len() == 1 => match string_member(
            Wire::Object(fields),
            "variant"@,
        ) {
            Some(name) => r matches Ok(Edit::Variant(t)) && t@ == name,
            None => is_error(r, -32602, "missing or invalid string parameter"@),
        },
        _ => is_error(r, -32602, "decode failure"@),
    }
}

/// The `value` parameter of an edit decodes: a scalar, or an object of one
/// member whose `variant` is a string.
pub open spec fn edit_value_ok(params: Wire) -> bool {
    match wire_get(params, "value"@) {
        Some(Wire::Bool(_)) | Some(Wire::Integer(_)) | Some(Wire::Float(_)) | Some(
            Wire::String(_),
        ) => true,
        Some(Wire::Object(fields)) => fields@.len() == 1 && string_member(
            Wire::Object(fields),
            "variant"@,
        ) is Some,
        _ => false,
    }
}

/// Decodes the `value` parameter of an edit: a scalar, or `{variant: <name>}`.
pub fn edit_value(params: &Wire) -> (r: Result<Edit, RpcError>)
    ensures
        edit_outcome(*params, r),
        r is Ok <==> edit_value_ok(*params),
{
    match params.get("value") {
        Some(value) => match value {
            Wire::Bool(b) => Ok(Edit::Scalar(Scalar::Bool(*b))),
            Wire::Integer(i) => Ok(Edit::Scalar(Scalar::Integer(*i))),
            Wire::Float(f) => Ok(Edit::Scalar(Scalar::Float(*f))),
            Wire::String(s) => Ok(Edit::Scalar(Scalar::String(s.as_str().to_owned()))),
            Wire::Object(fields) => {
                if fields.len() == 1 {
                    match string(value, "variant") {
                        Ok(name) => Ok(Edit::Variant(name.to_owned())),
                        Err(e) => Err(e),
                    }
                } else {
                    Err(RpcError::params("decode failure"))
                }
            },
            _ => Err(RpcError::params("decode failure")),
        },
        None => Err(RpcError::params("decode failure")),
    }
}

/// `p` has a `..` segment between slashes.
pub open spec fn has_parent_segment(p: Seq<char>) -> bool {
    exists|i: int|
        #![trigger p[i]]
        0 <= i && i + 2 <= p.len() && p[i] == '.' && p[i + 1] == '.' && (i == 0 || p[i - 1]
            == '/') && (i + 2 == p.len() || p[i + 2] == '/')
}

/// A scene file path and a node path relative to that scene's root: both non-empty,
/// the node path neither absolute nor holding `:` or a `..` segment.
pub open spec fn authored_paths(scene: Seq<char>, node: Seq<char>) -> bool {
    &&& scene.len() > 0
    &&& node.len() > 0
    &&& node[0] != '/'
    &&& !node.contains(':')
    &&& !has_parent_segment(node)
}

/// Whether `p` has a `..` segment.
fn parent_segment(p: &str) -> (found: bool)
    ensures
        found == has_parent_segment(p@),
{
    let chars = chars_of(p);
    let n = chars.len();
    let mut i: usize = 0;
    while i < n && n - i >= 2
        invariant
            i <= n,
            chars@ == p@,
            n == p@.len(),
            forall|j: int|
                #![trigger p@[j]]
                0 <= j < i ==> !(j + 2 <= p@.len() && p@[j] == '.' && p@[j + 1] == '.' && (j == 0
                    || p@[j - 1] == '/') && (j + 2 == p@.len() || p@[j + 2] == '/')),
        decreases n - i,
    {
        if chars[i] == '.' && chars[i + 1] == '.' && (i == 0 || chars[i - 1] == '/') && (i + 2
            == n || chars[i + 2] == '/') {
            return true;
        }
        i = i + 1;
    }
    proof {
        assert forall|j: int|
            #![trigger p@[j]]
            0 <= j && j + 2 <= p@.len() implies !(p@[j] == '.' && p@[j + 1] == '.' && (j == 0
                || p@[j - 1] == '/') && (j + 2 == p@.len() || p@[j + 2] == '/')) by {
            assert(j < i);
        }
    }
    false
}

/// Whether `p` holds `c`.
fn holds_char(p: &str, c: char) -> (found: bool)
    ensures
        found == p@.contains(c),
{
    let chars = chars_of(p);
    let mut i: usize = 0;
    while i < chars.len()
        invariant
            chars@ == p@,
            i <= chars.len(),
            forall|j: int| 0 <= j < i ==> p@[j] != c,
        decreases chars.len() - i,
    {
        if chars[i] == c {
            return true;
        }
        i = i + 1;
    }
    false
}

/// The `scene_path` and `node_path` parameters of a node lookup.
pub fn resolve_paths<'a>(params: &'a Wire) -> (r: Result<(&'a str, &'a str), RpcError>)
    ensures
        string_member(*params, "scene_path"@) is None ==> is_error(
            r,
            -32602,
            "missing or invalid string parameter"@,
        ),
        string_member(*params, "scene_path"@) is Some && string_member(*params, "node_path"@) is None
            ==> is_error(r, -32602, "missing or invalid string parameter"@),
        string_member(*params, "scene_path"@) matches Some(scene) ==> (string_member(
            *params,
            "node_path"@,
        ) matches Some(node) ==> if authored_paths(scene, node) {
            r matches Ok((s, n)) && s@ == scene && n@ == node
        } else {
            is_error(r, -32602, "expected an authored scene and relative node path"@)
        }),
{
    let scene = match string(params, "scene_path") {
        Ok(s) => s,
        Err(e) => return Err(e),
    };
    let node = match string(params, "node_path") {
        Ok(n) => n,
        Err(e) => return Err(e),
    };
    if scene.unicode_len() == 0 || node.unicode_len() == 0 || node.get_char(0) == '/'
        || holds_char(node, ':') || parent_segment(node) {
        return Err(RpcError::params("expected an authored scene and relative node path"));
    }
    Ok((scene, node))
}

/// Entity references ordered by bits, then generation.
pub open spec fn ref_lt(a: (u64, u32), b: (u64, u32)) -> bool {
    a.0 < b.0 || (a.0 == b.0 && a.1 < b.1)
}

/// Strictly increasing references, so each occurs once.
pub open spec fn refs_sorted(s: Seq<(u64, u32)>) -> bool {
    forall|i: int, j: int| 0 <= i < j < s.len() ==> ref_lt(#[trigger] s[i], #[trigger] s[j])
}

/// Adds `x` to sorted references unless it is already there.
fn insert_ref(out: &mut Vec<(u64, u32)>, x: (u64, u32))
    requires
        refs_sorted(old(out)@),
    ensures
        refs_sorted(final(out)@),
        final(out)@.to_set() == old(out)@.to_set().insert(x),
{
    let ghost before = out@;
    let mut i: usize = 0;
    while i < out.len() && ref_before(out[i], x)
        invariant
            out@ == before,
            refs_sorted(before),
            i <= out.len(),
            forall|j: int| 0 <= j < i ==> ref_lt(#[trigger] before[j], x),
        decreases out.len() - i,
    {
        i = i + 1;
    }
    if i < out.len() && out[i].0 == x.0 && out[i].1 == x.1 {
        assert(before.to_set().insert(x) =~= before.to_set()) by {
            assert(before.to_set().contains(before[i as int]));
        }
        return;
    }
    out.insert(i, x);
    proof {
        let after = out@;
        assert(after =~= before.subrange(0, i as int).push(x) + before.subrange(
            i as int,
            before.len() as int,
        ));
        assert forall|a: int, b: int| 0 <= a < b < after.len() implies ref_lt(
            #[trigger] after[a],
            #[trigger] after[b],
        ) by {
            if b < i {
                assert(after[a] == before[a] && after[b] == before[b]);
            } else if b == i {
                assert(after[a] == before[a]);
            } else if a == i {
                assert(after[b] == before[b - 1]);
                if b - 1 > i {
                    assert(ref_lt(before[i as int], before[b - 1]));
                }
            } else if a < i {
                assert(after[a] == before[a] && after[b] == before[b - 1]);
            } else {
                assert(after[a] == before[a - 1] && after[b] == before[b - 1]);
            }
        }
        assert forall|y: (u64, u32)| after.to_set().contains(y) <==> before.to_set().insert(
            x,
        ).contains(y) by {
            if after.contains(y) {
                let k = choose|k: int| 0 <= k < after.len() && after[k] == y;
                if k < i {
                    assert(before[k] == y);
                } else if k > i {
                    assert(before[k - 1] == y);
                }
            }
            if before.contains(y) {
                let k = choose|k: int| 0 <= k < before.len() && before[k] == y;
                if k < i {
                    assert(after[k] == y);
                } else {
                    assert(after[k + 1] == y);
                }
            }
            if y == x {
                assert(after[i as int] == x);
            }
        }
        assert(after.to_set() =~= before.to_set().insert(x));
    }
}

pub(crate) fn ref_before(a: (u64, u32), b: (u64, u32)) -> (before: bool)
    ensures
        before == ref_lt(a, b),
{
    a.0 < b.0 || (a.0 == b.0 && a.1 < b.1)
}

/// The references, sorted and each once.
pub fn sorted_refs(refs: &Vec<(u64, u32)>) -> (out: Vec<(u64, u32)>)
    ensures
        refs_sorted(out@),
        out@.to_set() == refs@.to_set(),
{
    let mut out: Vec<(u64, u32)> = Vec::new();
    let mut i: usize = 0;
    while i < refs.len()
        invariant
            i <= refs.len(),
            refs_sorted(out@),
            out@.to_set() == refs@.subrange(0, i as int).to_set(),
        decreases refs.len() - i,
    {
        insert_ref(&mut out, refs[i]);
        assert(refs@.subrange(0, i + 1) =~= refs@.subrange(0, i as int).push(refs@[i as int]));
        proof {
            refs@.subrange(0, i as int).lemma_push_to_set_commute(refs@[i as int]);
        }
        i = i + 1;
    }
    assert(refs@.subrange(0, refs.len() as int) =~= refs@);
    out
}

/// The items list each reference in order.
pub open spec fn lists_refs(items: Seq<Wire>, refs: Seq<(u64, u32)>) -> bool {
    &&& items.len() == refs.len()
    &&& forall|i: int| 0 <= i < items.len() ==> entity_ref(#[trigger] items[i], refs[i].0, refs[i].1)
}

/// An array of entity references, in the order given.
pub fn reference_list(refs: &Vec<(u64, u32)>) -> (items: Vec<Wire>)
    ensures
        lists_refs(items@, refs@),
{
    let mut items: Vec<Wire> = Vec::new();
    let mut i: usize = 0;
    while i < refs.len()
        invariant
            i <= refs.len(),
            items@.len() == i,
            forall|j: int| 0 <= j < i ==> entity_ref(#[trigger] items@[j], refs@[j].0, refs@[j].1),
        decreases refs.len() - i,
    {
        let (bits, generation) = refs[i];
        items.push(entity(bits, generation));
        i = i + 1;
    }
    items
}

/// The answer to a node lookup: the matching entities sorted, each once, and no reason.
pub fn resolve_reply(candidates: &Vec<(u64, u32)>) -> (w: Wire)
    ensures
        exists|sorted: Seq<(u64, u32)>|
            refs_sorted(sorted) && sorted.to_set() == candidates@.to_set() && (wire_get(
                w,
                "candidates"@,
            ) matches Some(Wire::Array(items)) && lists_refs(items@, sorted)),
        wire_get(w, "reason"@) == Some(Wire::Null),
        member_names(w) == set!["candidates"@, "reason"@],
{
    let sorted = sorted_refs(candidates);
    let items = reference_list(&sorted);
    let list = Wire::Array(items);
    let pairs = vec![("candidates", list), ("reason", Wire::Null)];
    let ghost p = pairs@;
    let w = Wire::object(pairs);
    proof {
        reveal_strlit("candidates");
        reveal_strlit("reason");
        reveal_with_fuel(assoc_last, 3);
        assert("candidates"@[0] != "reason"@[0]);
        assert(wire_get(w, "candidates"@) == assoc_last(p, "candidates"@));
        assert(wire_get(w, "reason"@) == assoc_last(p, "reason"@));
        assert forall|k: Seq<char>| #[trigger] member_names(w).contains(k) <==> set![
            "candidates"@,
            "reason"@,
        ].contains(k) by {
            assert(wire_get(w, k) == assoc_last(p, k));
        }
        assert(member_names(w) =~= set!["candidates"@, "reason"@]);
    }
    w
}

/// A subscription's interval in seconds, as the request gave it.
#[derive(Debug, Clone, Copy, PartialEq, Eq)]
pub enum Interval {
    /// The bit pattern of an `f64`.
    Seconds(u64),
    /// A whole number of seconds.
    WholeSeconds(i64),
}

/// The bit pattern of an `f64` that is finite and not below zero (negative zero
/// included, as `-0.0 < 0.0` is false).
pub open spec fn finite_nonnegative(bits: u64) -> bool {
    let magnitude = bits % 0x8000_0000_0000_0000u64;
    magnitude < 0x7FF0_0000_0000_0000 && (bits < 0x8000_0000_0000_0000u64 || magnitude == 0)
}

/// Whether a subscription's `interval_s` is a finite nonnegative number.
pub open spec fn interval_ok(params: Wire) -> bool {
    match wire_get(params, "interval_s"@) {
        Some(Wire::Float(bits)) => finite_nonnegative(bits),
        Some(Wire::Integer(n)) => n >= 0,
        _ => false,
    }
}

/// The `interval_s` parameter of a subscription: a finite nonnegative number.
pub fn subscription_interval(params: &Wire) -> (r: Result<Interval, RpcError>)
    ensures
        r is Ok <==> interval_ok(*params),
        match wire_get(*params, "interval_s"@) {
            Some(Wire::Float(bits)) if finite_nonnegative(bits) => r == Ok::<Interval, RpcError>(
                Interval::Seconds(bits),
            ),
            Some(Wire::Integer(n)) if n >= 0 => r == Ok::<Interval, RpcError>(
                Interval::WholeSeconds(n),
            ),
            _ => is_error(r, -32602, "interval_s must be a finite nonnegative number"@),
        },
{
    match params.get("interval_s") {
        Some(Wire::Float(bits)) => {
            let bits = *bits;
            let magnitude = bits % 0x8000_0000_0000_0000u64;
            if magnitude < 0x7FF0_0000_0000_0000u64 && (bits < 0x8000_0000_0000_0000u64
                || magnitude == 0) {
                Ok(Interval::Seconds(bits))
            } else {
                Err(RpcError::params("interval_s must be a finite nonnegative number"))
            }
        },
        Some(Wire::Integer(n)) => {
            if *n >= 0 {
                Ok(Interval::WholeSeconds(*n))
            } else {
                Err(RpcError::params("interval_s must be a finite nonnegative number"))
            }
        },
        _ => Err(RpcError::params("interval_s must be a finite nonnegative number")),
    }
}

/// The page and filters of an entity query.
#[derive(Debug, Clone, PartialEq, Eq)]
pub struct PageRequest {
    pub page: usize,
    pub page_size: usize,
    /// `page * page_size`: the position of the page's first match.
    pub offset: usize,
    pub name_contains: Option<String>,
    pub component: Option<String>,
    pub node_path: Option<String>,
}

/// An optional string filter equals the parameter's text.
pub open spec fn same_filter(filter: Option<String>, given: Option<Seq<char>>) -> bool {
    match filter {
        Some(f) => given == Some(f@),
        None => given is None,
    }
}

/// The largest page the service answers.
pub const MAX_PAGE_SIZE: usize = 256;

/// Why an integer parameter is refused, if it is: it must be an integer that fits a `usize`.
pub open spec fn index_error(params: Wire, key: Seq<char>) -> Option<Seq<char>> {
    match wire_get(params, key) {
        Some(Wire::Integer(v)) => if 0 <= v <= usize::MAX {
            None
        } else {
            Some("index must be nonnegative"@)
        },
        _ => Some("missing or invalid integer parameter"@),
    }
}

/// The value of an integer parameter that `index_error` accepts.
pub open spec fn index_value(params: Wire, key: Seq<char>) -> int {
    match wire_get(params, key) {
        Some(Wire::Integer(v)) => v as int,
        _ => 0,
    }
}

/// Why an optional string parameter is refused, if it is: present but not a string.
pub open spec fn optional_error(params: Wire, key: Seq<char>) -> Option<Seq<char>> {
    if wire_get(params, key) is Some && string_member(params, key) is None {
        Some("invalid string parameter"@)
    } else {
        None
    }
}

/// The first refusal of an entity query's parameters, if any; every one has code `-32602`.
pub open spec fn page_request_error(params: Wire) -> Option<Seq<char>> {
    let page = index_value(params, "page"@);
    let size = index_value(params, "page_size"@);
    if index_error(params, "page"@) is Some {
        index_error(params, "page"@)
    } else if index_error(params, "page_size"@) is Some {
        index_error(params, "page_size"@)
    } else if !(1 <= size <= MAX_PAGE_SIZE) {
        Some("page_size must be between 1 and 256"@)
    } else if page * size > usize::MAX {
        Some("page offset overflow"@)
    } else if optional_error(params, "name_contains"@) is Some {
        optional_error(params, "name_contains"@)
    } else if optional_error(params, "component"@) is Some {
        optional_error(params, "component"@)
    } else {
        optional_error(params, "node_path"@)
    }
}

/// The page and filters of an entity query. Parameters are read in order (`page`,
/// `page_size`, then the filters `name_contains`, `component`, `node_path`) and the
/// first refusal is the answer.
pub fn page_request(params: &Wire) -> (r: Result<PageRequest, RpcError>)
    ensures
        page_request_error(*params) matches Some(m) ==> is_error(r, -32602, m),
        page_request_error(*params) is None ==> (r matches Ok(q) && {
            &&& q.page == index_value(*params, "page"@)
            &&& q.page_size == index_value(*params, "page_size"@)
            &&& q.offset == q.page * q.page_size
            &&& same_filter(q.name_contains, string_member(*params, "name_contains"@))
            &&& same_filter(q.component, string_member(*params, "component"@))
            &&& same_filter(q.node_path, string_member(*params, "node_path"@))
        }),
{
    let page = match index(params, "page") {
        Ok(p) => p,
        Err(e) => return Err(e),
    };
    let page_size = match index(params, "page_size") {
        Ok(z) => z,
        Err(e) => return Err(e),
    };
    if page_size == 0 || page_size > MAX_PAGE_SIZE {
        return Err(RpcError::params("page_size must be between 1 and 256"));
    }
    let offset = match page.checked_mul(page_size) {
        Some(o) => o,
        None => return Err(RpcError::params("page offset overflow")),
    };
    let name_contains = match optional_string(params, "name_contains") {
        Ok(v) => owned(v),
        Err(e) => return Err(e),
    };
    let component = match optional_string(params, "component") {
        Ok(v) => owned(v),
        Err(e) => return Err(e),
    };
    let node_path = match optional_string(params, "node_path") {
        Ok(v) => owned(v),
        Err(e) => return Err(e),
    };
    Ok(PageRequest { page, page_size, offset, name_contains, component, node_path })
}

fn owned(text: Option<&str>) -> (s: Option<String>)
    ensures
        match text {
            Some(t) => s matches Some(o) && o@ == t@,
            None => s is None,
        },
{
    match text {
        Some(t) => Some(t.to_owned()),
        None => None,
    }
}

/// The methods the inspection service answers.
#[derive(Debug, Clone, Copy, PartialEq, Eq)]
pub enum Method {
    Discover,
    Subscribe,
    Unsubscribe,
    Query,
    GetComponents,
    MutateLeaf,
    ResolveNode,
    ListStates,
    GetState,
    RequestState,
}

/// The name of each method on the wire.
pub open spec fn method_name(m: Method) -> Seq<char> {
    match m {
        Method::Discover => "rpc.discover"@,
        Method::Subscribe => "godot.subscribe"@,
        Method::Unsubscribe => "godot.unsubscribe"@,
        Method::Query => "godot.query"@,
        Method::GetComponents => "godot.get_components"@,
        Method::MutateLeaf => "godot.mutate_leaf"@,
        Method::ResolveNode => "godot.resolve_node"@,
        Method::ListStates => "godot.list_states"@,
        Method::GetState => "godot.get_state"@,
        Method::RequestState => "godot.request_state_transition"@,
    }
}

/// Each wire name belongs to exactly one handler: the protocol's fixed names
/// are those of the discovery, subscription, query, component, mutation, node,
/// and state handlers, and no two methods share a name, so a request routes
/// to the handler its name gives.
pub proof fn law_route_names()
    ensures
        method_name(Method::Discover) == "rpc.discover"@,
        method_name(Method::Subscribe) == "godot.subscribe"@,
        method_name(Method::Unsubscribe) == "godot.unsubscribe"@,
        method_name(Method::Query) == "godot.query"@,
        method_name(Method::GetComponents) == "godot.get_components"@,
        method_name(Method::MutateLeaf) == "godot.mutate_leaf"@,
        method_name(Method::ResolveNode) == "godot.resolve_node"@,
        method_name(Method::ListStates) == "godot.list_states"@,
        method_name(Method::GetState) == "godot.get_state"@,
        method_name(Method::RequestState) == "godot.request_state_transition"@,
        forall|a: Method, b: Method| method_name(a) == method_name(b) ==> a == b,
{
    reveal_strlit("rpc.discover");
    reveal_strlit("godot.subscribe");
    reveal_strlit("godot.unsubscribe");
    reveal_strlit("godot.query");
    reveal_strlit("godot.get_components");
    reveal_strlit("godot.mutate_leaf");
    reveal_strlit("godot.resolve_node");
    reveal_strlit("godot.list_states");
    reveal_strlit("godot.get_state");
    reveal_strlit("godot.request_state_transition");
    assert forall|a: Method, b: Method| method_name(a) == method_name(b) implies a == b by {
        if a != b {
            let x = method_name(a);
            let y = method_name(b);
            assert(x.len() != y.len() || x[6] != y[6] || x[7] != y[7] || x[8] != y[8] || x[10]
                != y[10] || x[11] != y[11] || x[12] != y[12]);
        }
    }
}

/// The method named `name`, or `method not found`.
pub fn route(name: &str) -> (r: Result<Method, RpcError>)
    ensures
        r matches Ok(m) ==> method_name(m) == name@,
        forall|m: Method| method_name(m) == name@ ==> r == Ok::<Method, RpcError>(m),
        r is Err ==> (forall|m: Method| method_name(m) != name@) && is_error(
            r,
            -32601,
            "method not found"@,
        ),
{
    proof {
        law_route_names();
        reveal_strlit("rpc.discover");
        reveal_strlit("godot.subscribe");
        reveal_strlit("godot.unsubscribe");
        reveal_strlit("godot.query");
        reveal_strlit("godot.get_components");
        reveal_strlit("godot.mutate_leaf");
        reveal_strlit("godot.resolve_node");
        reveal_strlit("godot.list_states");
        reveal_strlit("godot.get_state");
        reveal_strlit("godot.request_state_transition");
    }
    if str_eq(name, "rpc.discover") {
        Ok(Method::Discover)
    } else if str_eq(name, "godot.subscribe") {
        Ok(Method::Subscribe)
    } else if str_eq(name, "godot.unsubscribe") {
        Ok(Method::Unsubscribe)
    } else if str_eq(name, "godot.query") {
        Ok(Method::Query)
    } else if str_eq(name, "godot.get_components") {
        Ok(Method::GetComponents)
    } else if str_eq(name, "godot.mutate_leaf") {
        Ok(Method::MutateLeaf)
    } else if str_eq(name, "godot.resolve_node") {
        Ok(Method::ResolveNode)
    } else if str_eq(name, "godot.list_states") {
        Ok(Method::ListStates)
    } else if str_eq(name, "godot.get_state") {
        Ok(Method::GetState)
    } else if str_eq(name, "godot.request_state_transition") {
        Ok(Method::RequestState)
    } else {
        proof {
            assert forall|m: Method| method_name(m) != name@ by {
                match m {
                    Method::Discover => {},
                    Method::Subscribe => {},
                    Method::Unsubscribe => {},
                    Method::Query => {},
                    Method::GetComponents => {},
                    Method::MutateLeaf => {},
                    Method::ResolveNode => {},
                    Method::ListStates => {},
                    Method::GetState => {},
                    Method::RequestState => {},
                }
            }
        }
        Err(RpcError::method_not_found())
    }
}

/// How a request is taken in: its envelope and method name, then its parameters,
/// then whether the debugger is enabled (only unsubscribing is answered while it
/// is not), then which method it names. The first refusal is the answer.
pub fn incoming(request: &Wire, enabled: bool) -> (r: Result<(Method, Option<&Wire>), RpcError>)
    ensures
        !is_request_envelope(*request) ==> is_error(
            r,
            -32600,
            "expected a JSON-RPC 2.0 request"@,
        ),
        is_request_envelope(*request) && string_member(*request, "method"@) is None ==> is_error(
            r,
            -32600,
            "method must be a string"@,
        ),
        is_request_envelope(*request) && string_member(*request, "method"@) is Some ==> {
            let name = string_member(*request, "method"@).unwrap();
            let params = wire_get(*request, "params"@);
            if !(params is None || params == Some(Wire::Null) || params matches Some(
                Wire::Object(_),
            )) {
                is_error(r, -32602, "params must be a Dictionary"@)
            } else if !enabled && name != "godot.unsubscribe"@ {
                is_error(r, -32000, "debugger disabled"@)
            } else if forall|m: Method| method_name(m) != name {
                is_error(r, -32601, "method not found"@)
            } else {
                r matches Ok((m, p)) && method_name(m) == name && (match params {
                    Some(Wire::Object(f)) => p matches Some(q) && *q == Wire::Object(f),
                    _ => p is None,
                })
            }
        },
{
    let name = match request_method(request) {
        Ok(n) => n,
        Err(e) => return Err(e),
    };
    let params = match request_params(request) {
        Ok(p) => p,
        Err(e) => return Err(e),
    };
    match disabled_refusal(enabled, name) {
        Some(e) => return Err(e),
        None => {},
    }
    match route(name) {
        Ok(m) => Ok((m, params)),
        Err(e) => Err(e),
    }
}

/// The answer to subscribing or unsubscribing: `{subscribed: <bool>}`.
pub fn subscribed_reply(subscribed: bool) -> (w: Wire)
    ensures
        member_names(w) == set!["subscribed"@],
        wire_get(w, "subscribed"@) == Some(Wire::Bool(subscribed)),
        w matches Wire::Object(fields) && keys_sorted(fields@),
{
    let pairs = vec![("subscribed", Wire::Bool(subscribed))];
    let ghost p = pairs@;
    let w = Wire::object(pairs);
    proof {
        reveal_strlit("subscribed");
        reveal_with_fuel(assoc_last, 2);
        assert(wire_get(w, "subscribed"@) == assoc_last(p, "subscribed"@));
        assert forall|k: Seq<char>| #[trigger] member_names(w).contains(k) <==> set![
            "subscribed"@,
        ].contains(k) by {
            assert(wire_get(w, k) == assoc_last(p, k));
        }
        assert(member_names(w) =~= set!["subscribed"@]);
    }
    w
}

/// The parameters of each method in the discovery document: name, JSON type
/// (empty for any) and whether it is required.
pub open spec fn param_table(method: Seq<char>) -> Seq<(&'static str, &'static str, bool)> {
    if method == "godot.subscribe"@ {
        seq![("interval_s", "number", true)]
    } else if method == "godot.query"@ {
        seq![
            ("name_contains", "string", false),
            ("component", "string", false),
            ("node_path", "string", false),
            ("page", "integer", true),
            ("page_size", "integer", true),
        ]
    } else if method == "godot.get_components"@ {
        seq![("entity", "object", true), ("components", "array", false)]
    } else if method == "godot.mutate_leaf"@ {
        seq![
            ("entity", "object", true),
            ("component", "string", true),
            ("path", "array", true),
            ("value", "", true),
        ]
    } else if method == "godot.resolve_node"@ {
        seq![("scene_path", "string", true), ("node_path", "string", true)]
    } else {
        seq![]
    }
}

/// Whether the check of parameter `key` of `method` refuses `params`: the
/// subscription interval, the query's page indexes and its optional filters,
/// the entity, component, path and value of an edit, the optional component
/// list, and the resolve paths, each as its reader refuses it.
pub open spec fn param_check_refuses(method: Seq<char>, key: Seq<char>, params: Wire) -> bool {
    if method == "godot.subscribe"@ && key == "interval_s"@ {
        !interval_ok(params)
    } else if method == "godot.query"@ && (key == "page"@ || key == "page_size"@) {
        index_error(params, key) is Some
    } else if method == "godot.query"@ {
        optional_error(params, key) is Some
    } else if (method == "godot.get_components"@ || method == "godot.mutate_leaf"@) && key
        == "entity"@ {
        wire_get(params, key) is None
    } else if method == "godot.get_components"@ && key == "components"@ {
        wire_get(params, key) is Some && !(wire_get(params, key) matches Some(Wire::Array(items))
            && forall|i: int| 0 <= i < items@.len() ==> #[trigger] items@[i] is String)
    } else if method == "godot.mutate_leaf"@ && key == "path"@ {
        !(wire_get(params, key) matches Some(Wire::Array(_)))
    } else if method == "godot.mutate_leaf"@ && key == "value"@ {
        !edit_value_ok(params)
    } else {
        string_member(params, key) is None
    }
}

/// A parameter is listed as required in the discovery document exactly when
/// its method refuses every request that lacks it.
pub proof fn law_discovery_marks_required_params(method: Seq<char>, i: int)
    requires
        0 <= i < param_table(method).len(),
    ensures
        param_table(method)[i].2 <==> forall|p: Wire|
            wire_get(p, param_table(method)[i].0@) is None ==> #[trigger] param_check_refuses(
                method,
                param_table(method)[i].0@,
                p,
            ),
{
    reveal_strlit("godot.subscribe");
    reveal_strlit("godot.query");
    reveal_strlit("godot.get_components");
    reveal_strlit("godot.mutate_leaf");
    reveal_strlit("godot.resolve_node");
    reveal_strlit("interval_s");
    reveal_strlit("name_contains");
    reveal_strlit("component");
    reveal_strlit("node_path");
    reveal_strlit("page");
    reveal_strlit("page_size");
    reveal_strlit("entity");
    reveal_strlit("components");
    reveal_strlit("path");
    reveal_strlit("value");
    reveal_strlit("scene_path");
    let row = param_table(method)[i];
    let key = row.0@;
    if row.2 {
        assert forall|p: Wire| wire_get(p, key) is None implies #[trigger] param_check_refuses(
            method,
            key,
            p,
        ) by {
            assert(string_member(p, key) is None);
        }
    } else {
        let witness = Wire::Bool(true);
        assert(wire_get(witness, key) is None);
        assert(optional_error(witness, key) is None);
        if method == "godot.query"@ {
            assert(method != "godot.subscribe"@);
            let t = param_table(method);
            assert(t[3].2 && t[4].2);
            assert(i < 3);
            assert(key == t[i].0@);
            assert(t[0].0@ == "name_contains"@ && t[1].0@ == "component"@ && t[2].0@
                == "node_path"@);
            assert(key.len() != "page"@.len() || key[0] != "page"@[0]);
            assert(key.len() != "page_size"@.len() || key[0] != "page_size"@[0]);
            assert(key != "page"@ && key != "page_size"@);
            assert(!param_check_refuses(method, key, witness));
        } else {
            assert(method == "godot.get_components"@);
            assert(key == "components"@);
            assert(method != "godot.subscribe"@ && method != "godot.query"@);
            assert(key != "entity"@);
            assert(!param_check_refuses(method, key, witness));
        }
    }
}

/// An object with no members.
pub open spec fn empty_object(w: Wire) -> bool {
    &&& w matches Wire::Object(f) && keys_sorted(f@)
    &&& member_names(w) == Set::<Seq<char>>::empty()
}

/// The discovery entry of one parameter: `{name, required, schema}`, the schema
/// `{type}` or empty when any type is accepted.
pub open spec fn describes_param(w: Wire, p: (&'static str, &'static str, bool)) -> bool {
    &&& w matches Wire::Object(f) && keys_sorted(f@)
    &&& member_names(w) == set!["name"@, "required"@, "schema"@]
    &&& string_member(w, "name"@) == Some(p.0@)
    &&& wire_get(w, "required"@) == Some(Wire::Bool(p.2))
    &&& wire_get(w, "schema"@) matches Some(schema) && if p.1@.len() == 0 {
        empty_object(schema)
    } else {
        &&& schema matches Wire::Object(f) && keys_sorted(f@)
        &&& member_names(schema) == set!["type"@]
        &&& string_member(schema, "type"@) == Some(p.1@)
    }
}

fn empty() -> (w: Wire)
    ensures
        empty_object(w),
{
    let pairs: Vec<(&str, Wire)> = Vec::new();
    let ghost p = pairs@;
    let w = Wire::object(pairs);
    assert(member_names(w) =~= Set::<Seq<char>>::empty()) by {
        assert forall|k: Seq<char>| !member_names(w).contains(k) by {
            assert(wire_get(w, k) == assoc_last(p, k));
        }
    }
    w
}

fn param_wire(p: (&'static str, &'static str, bool)) -> (w: Wire)
    ensures
        describes_param(w, p),
{
    let (name, kind, required) = p;
    let schema = if kind.unicode_len() == 0 {
        empty()
    } else {
        let sp = vec![("type", Wire::String(kind.to_owned()))];
        let ghost spv = sp@;
        let sw = Wire::object(sp);
        proof {
            reveal_strlit("type");
            reveal_with_fuel(assoc_last, 2);
            assert(wire_get(sw, "type"@) == assoc_last(spv, "type"@));
            assert forall|k: Seq<char>| #[trigger] member_names(sw).contains(k) <==> set![
                "type"@,
            ].contains(k) by {
                assert(wire_get(sw, k) == assoc_last(spv, k));
            }
            assert(member_names(sw) =~= set!["type"@]);
        }
        sw
    };
    let pairs = vec![
        ("name", Wire::String(name.to_owned())),
        ("required", Wire::Bool(required)),
        ("schema", schema),
    ];
    let ghost pv = pairs@;
    let w = Wire::object(pairs);
    proof {
        reveal_strlit("name");
        reveal_strlit("required");
        reveal_strlit("schema");
        reveal_with_fuel(assoc_last, 4);
        assert("required"@.len() != "schema"@.len());
        assert(wire_get(w, "name"@) == assoc_last(pv, "name"@));
        assert(wire_get(w, "required"@) == assoc_last(pv, "required"@));
        assert(wire_get(w, "schema"@) == assoc_last(pv, "schema"@));
        assert forall|k: Seq<char>| #[trigger] member_names(w).contains(k) <==> set![
            "name"@,
            "required"@,
            "schema"@,
        ].contains(k) by {
            assert(wire_get(w, k) == assoc_last(pv, k));
        }
        assert(member_names(w) =~= set!["name"@, "required"@, "schema"@]);
    }
    w
}

fn param_rows(method: &str) -> (rows: Vec<(&'static str, &'static str, bool)>)
    ensures
        rows@ == param_table(method@),
{
    if str_eq(method, "godot.subscribe") {
        vec![("interval_s", "number", true)]
    } else if str_eq(method, "godot.query") {
        vec![
            ("name_contains", "string", false),
            ("component", "string", false),
            ("node_path", "string", false),
            ("page", "integer", true),
            ("page_size", "integer", true),
        ]
    } else if str_eq(method, "godot.get_components") {
        vec![("entity", "object", true), ("components", "array", false)]
    } else if str_eq(method, "godot.mutate_leaf") {
        vec![
            ("entity", "object", true),
            ("component", "string", true),
            ("path", "array", true),
            ("value", "", true),
        ]
    } else if str_eq(method, "godot.resolve_node") {
        vec![("scene_path", "string", true), ("node_path", "string", true)]
    } else {
        vec![]
    }
}

/// The parameters of a method in the discovery document.
pub fn method_params(method: &str) -> (w: Wire)
    ensures
        w matches Wire::Array(items) && items@.len() == param_table(method@).len() && forall|
            i: int,
        | 0 <= i < items@.len() ==> describes_param(#[trigger] items@[i], param_table(method@)[i]),
{
    let rows = param_rows(method);
    let mut items: Vec<Wire> = Vec::new();
    let mut i: usize = 0;
    while i < rows.len()
        invariant
            rows@ == param_table(method@),
            i <= rows.len(),
            items@.len() == i,
            forall|j: int| 0 <= j < i ==> describes_param(#[trigger] items@[j], rows@[j]),
        decreases rows.len() - i,
    {
        items.push(param_wire(rows[i]));
        i = i + 1;
    }
    Wire::Array(items)
}

/// The methods listed by discovery, in order.
pub open spec fn discovered_methods() -> Seq<&'static str> {
    seq![
        "rpc.discover",
        "godot.subscribe",
        "godot.unsubscribe",
        "godot.query",
        "godot.get_components",
        "godot.mutate_leaf",
        "godot.resolve_node",
    ]
}

/// The discovery entry of one method: `{name, params, result: {name: "result", schema: {}}}`.
pub open spec fn describes_method(w: Wire, name: Seq<char>) -> bool {
    &&& w matches Wire::Object(f) && keys_sorted(f@)
    &&& member_names(w) == set!["name"@, "params"@, "result"@]
    &&& string_member(w, "name"@) == Some(name)
    &&& wire_get(w, "params"@) matches Some(Wire::Array(items)) && items@.len() == param_table(
        name,
    ).len() && forall|i: int|
        0 <= i < items@.len() ==> describes_param(#[trigger] items@[i], param_table(name)[i])
    &&& wire_get(w, "result"@) matches Some(result) && member_names(result) == set![
        "name"@,
        "schema"@,
    ] && string_member(result, "name"@) == Some("result"@) && (wire_get(result, "schema"@) matches Some(
        schema,
    ) && empty_object(schema))
}

fn method_wire(name: &str) -> (w: Wire)
    ensures
        describes_method(w, name@),
{
    let rp = vec![("name", Wire::String("result".to_owned())), ("schema", empty())];
    let ghost rpv = rp@;
    let result = Wire::object(rp);
    let pairs = vec![
        ("name", Wire::String(name.to_owned())),
        ("params", method_params(name)),
        ("result", result),
    ];
    let ghost pv = pairs@;
    let w = Wire::object(pairs);
    proof {
        reveal_strlit("name");
        reveal_strlit("params");
        reveal_strlit("result");
        reveal_strlit("schema");
        reveal_with_fuel(assoc_last, 4);
        assert("name"@.len() != "schema"@.len());
        assert("name"@.len() != "params"@.len());
        assert("params"@[0] != "result"@[0]);
        assert(wire_get(result, "name"@) == assoc_last(rpv, "name"@));
        assert(wire_get(result, "schema"@) == assoc_last(rpv, "schema"@));
        assert forall|k: Seq<char>| #[trigger] member_names(result).contains(k) <==> set![
            "name"@,
            "schema"@,
        ].contains(k) by {
            assert(wire_get(result, k) == assoc_last(rpv, k));
        }
        assert(member_names(result) =~= set!["name"@, "schema"@]);
        assert(wire_get(w, "name"@) == assoc_last(pv, "name"@));
        assert(wire_get(w, "params"@) == assoc_last(pv, "params"@));
        assert(wire_get(w, "result"@) == assoc_last(pv, "result"@));
        assert forall|k: Seq<char>| #[trigger] member_names(w).contains(k) <==> set![
            "name"@,
            "params"@,
            "result"@,
        ].contains(k) by {
            assert(wire_get(w, k) == assoc_last(pv, k));
        }
        assert(member_names(w) =~= set!["name"@, "params"@, "result"@]);
    }
    w
}

/// The OpenRPC discovery document of the service, naming `version` as the
/// service's version.
pub fn discover(version: &str) -> (w: Wire)
    ensures
        w matches Wire::Object(f) && keys_sorted(f@),
        member_names(w) == set!["openrpc"@, "info"@, "methods"@],
        string_member(w, "openrpc"@) == Some("1.2.6"@),
        wire_get(w, "info"@) matches Some(info) && member_names(info) == set![
            "title"@,
            "version"@,
        ] && string_member(info, "title"@) == Some("godot-bevy inspection service"@)
            && string_member(info, "version"@) == Some(version@),
        wire_get(w, "methods"@) matches Some(Wire::Array(items)) && items@.len()
            == discovered_methods().len() && forall|i: int|
            0 <= i < items@.len() ==> describes_method(
                #[trigger] items@[i],
                discovered_methods()[i]@,
            ),
{
    let names = vec![
        "rpc.discover",
        "godot.subscribe",
        "godot.unsubscribe",
        "godot.query",
        "godot.get_components",
        "godot.mutate_leaf",
        "godot.resolve_node",
    ];
    let mut methods: Vec<Wire> = Vec::new();
    let mut i: usize = 0;
    while i < names.len()
        invariant
            names@ == discovered_methods(),
            i <= names.len(),
            methods@.len() == i,
            forall|j: int| 0 <= j < i ==> describes_method(#[trigger] methods@[j], names@[j]@),
        decreases names.len() - i,
    {
        methods.push(method_wire(names[i]));
        i = i + 1;
    }
    let ip = vec![
        ("title", Wire::String("godot-bevy inspection service".to_owned())),
        ("version", Wire::String(version.to_owned())),
    ];
    let ghost ipv = ip@;
    let info = Wire::object(ip);
    let pairs = vec![
        ("openrpc", Wire::String("1.2.6".to_owned())),
        ("info", info),
        ("methods", Wire::Array(methods)),
    ];
    let ghost pv = pairs@;
    let w = Wire::object(pairs);
    proof {
        reveal_strlit("title");
        reveal_strlit("version");
        reveal_strlit("openrpc");
        reveal_strlit("info");
        reveal_strlit("methods");
        reveal_with_fuel(assoc_last, 4);
        assert("title"@.len() != "version"@.len());
        assert("openrpc"@[0] != "methods"@[0]);
        assert(wire_get(info, "title"@) == assoc_last(ipv, "title"@));
        assert(wire_get(info, "version"@) == assoc_last(ipv, "version"@));
        assert forall|k: Seq<char>| #[trigger] member_names(info).contains(k) <==> set![
            "title"@,
            "version"@,
        ].contains(k) by {
            assert(wire_get(info, k) == assoc_last(ipv, k));
        }
        assert(member_names(info) =~= set!["title"@, "version"@]);
        assert(wire_get(w, "openrpc"@) == assoc_last(pv, "openrpc"@));
        assert(wire_get(w, "info"@) == assoc_last(pv, "info"@));
        assert(wire_get(w, "methods"@) == assoc_last(pv, "methods"@));
        assert forall|k: Seq<char>| #[trigger] member_names(w).contains(k) <==> set![
            "openrpc"@,
            "info"@,
            "methods"@,
        ].contains(k) by {
            assert(wire_get(w, k) == assoc_last(pv, k));
        }
        assert(member_names(w) =~= set!["openrpc"@, "info"@, "methods"@]);
    }
    w
}

/// The components a `godot.get_components` request asks for: those named in
/// `components`, or all of the entity's when it is absent.
pub fn requested_components(params: &Wire, all: &Vec<String>) -> (r: Result<Vec<String>, RpcError>)
    ensures
        wire_get(*params, "components"@) is None ==> (r matches Ok(v) && v@.map_values(
            |s: String| s@,
        ) == all@.map_values(|s: String| s@)),
        wire_get(*params, "components"@) matches Some(Wire::Array(items)) ==> if forall|i: int|
            0 <= i < items@.len() ==> #[trigger] items@[i] is String {
            r matches Ok(v) && v@.len() == items@.len() && forall|i: int|
                0 <= i < items@.len() ==> (#[trigger] items@[i] matches Wire::String(t) && v@[i]@
                    == t@)
        } else {
            is_error(r, -32602, "components must contain type paths"@)
        },
        wire_get(*params, "components"@) is Some && !(wire_get(*params, "components"@) matches Some(
            Wire::Array(_),
        )) ==> is_error(r, -32602, "components must be an array"@),
{
    match params.get("components") {
        None => {
            let mut out: Vec<String> = Vec::new();
            let mut i: usize = 0;
            while i < all.len()
                invariant
                    i <= all@.len(),
                    out@.len() == i,
                    forall|j: int| 0 <= j < i ==> #[trigger] out@[j]@ == all@[j]@,
                decreases all.len() - i,
            {
                out.push(all[i].as_str().to_owned());
                i = i + 1;
            }
            assert(out@.map_values(|s: String| s@) =~= all@.map_values(|s: String| s@));
            Ok(out)
        },
        Some(Wire::Array(items)) => {
            let mut out: Vec<String> = Vec::new();
            let mut i: usize = 0;
            while i < items.len()
                invariant
                    wire_get(*params, "components"@) matches Some(Wire::Array(v)) && v@ == items@,
                    i <= items@.len(),
                    out@.len() == i,
                    forall|j: int| 0 <= j < i ==> (#[trigger] items@[j] matches Wire::String(t)
                        && out@[j]@ == t@),
                decreases items.len() - i,
            {
                match &items[i] {
                    Wire::String(t) => out.push(t.as_str().to_owned()),
                    _ => {
                        assert(!(items@[i as int] is String));
                        return Err(RpcError::params("components must contain type paths"));
                    },
                }
                i = i + 1;
            }
            Ok(out)
        },
        Some(_) => Err(RpcError::params("components must be an array")),
    }
}

/// The value given last for `key` among named values.
pub open spec fn last_given(pairs: Seq<(String, Wire)>, key: Seq<char>) -> Option<Wire>
    decreases pairs.len(),
{
    if pairs.len() == 0 {
        None
    } else if pairs.last().0@ == key {
        Some(pairs.last().1)
    } else {
        last_given(pairs.drop_last(), key)
    }
}

/// The answer to `godot.get_components`: each component's value under its type
/// path; a path given twice keeps its last value.
pub fn components_reply(values: Vec<(String, Wire)>) -> (w: Wire)
    ensures
        w matches Wire::Object(f) && keys_sorted(f@),
        forall|k: Seq<char>| #[trigger] wire_get(w, k) == last_given(values@, k),
{
    let ghost all = values@;
    assert(all.len() == values.len());
    let mut rest = values;
    let mut fields: Vec<(String, Wire)> = Vec::new();
    let mut done: usize = 0;
    while rest.len() > 0
        invariant
            done + rest.len() == all.len(),
            all.len() <= usize::MAX,
            rest@ == all.subrange(done as int, all.len() as int),
            keys_sorted(fields@),
            forall|k: Seq<char>| #[trigger]
                field_value(fields@, k) == last_given(all.subrange(0, done as int), k),
        decreases rest.len(),
    {
        let (name, value) = rest.remove(0);
        let ghost next = all.subrange(0, done + 1);
        assert(next.drop_last() =~= all.subrange(0, done as int));
        assert(next.last() == all[done as int]);
        insert_field(&mut fields, name, value);
        done = done + 1;
        assert(rest@ =~= all.subrange(done as int, all.len() as int));
    }
    assert(all.subrange(0, done as int) =~= all);
    let w = Wire::Object(fields);
    assert forall|k: Seq<char>| #[trigger] wire_get(w, k) == last_given(all, k) by {
        assert(wire_get(w, k) == field_value(fields@, k));
    }
    w
}

/// The component, path and new content of a `godot.mutate_leaf` request, read in
/// that order; the node handle is a reference and is never edited.
pub fn mutation_request(params: &Wire, node_handle_type: &str) -> (r: Result<
    (String, Vec<PathSegment>, Edit),
    RpcError,
>)
    ensures
        string_member(*params, "component"@) is None ==> is_error(
            r,
            -32602,
            "missing or invalid string parameter"@,
        ),
        string_member(*params, "component"@) == Some(node_handle_type@) ==> is_error(
            r,
            -32000,
            reason_text(ReadOnlyReason::Reference),
        ),
        string_member(*params, "component"@) is Some && string_member(*params, "component"@)
            != Some(node_handle_type@) ==> {
            &&& !(wire_get(*params, "path"@) matches Some(Wire::Array(_))) ==> is_error(
                r,
                -32602,
                "path must be an array of field, index or variant segments"@,
            )
            &&& wire_get(*params, "path"@) matches Some(Wire::Array(segments)) ==> if !(forall|
                i: int,
            | 0 <= i < segments@.len() ==> segment_ok(#[trigger] segments@[i])) {
                r matches Err(e) && exists|i: int|
                    0 <= i < segments@.len() && segment_outcome(
                        #[trigger] segments@[i],
                        Err::<PathSegment, RpcError>(e),
                    ) && forall|j: int| 0 <= j < i ==> segment_ok(#[trigger] segments@[j])
            } else if !edit_value_ok(*params) {
                r matches Err(e) && edit_outcome(*params, Err::<Edit, RpcError>(e))
            } else {
                r matches Ok((component, path, edit)) && Some(component@) == string_member(
                    *params,
                    "component"@,
                ) && path@.len()
                    == segments@.len() && (forall|i: int|
                    0 <= i < segments@.len() ==> segment_outcome(
                        #[trigger] segments@[i],
                        Ok::<PathSegment, RpcError>(path@[i]),
                    )) && edit_outcome(*params, Ok::<Edit, RpcError>(edit))
            }
        },
{
    let component = match string(params, "component") {
        Ok(c) => c,
        Err(e) => return Err(e),
    };
    if str_eq(component, node_handle_type) {
        return Err(
            RpcError::from_inspection(InspectionError(ReadOnlyReason::Reference.as_str())),
        );
    }
    let path = match edit_path(params) {
        Ok(p) => p,
        Err(e) => return Err(e),
    };
    let edit = match edit_value(params) {
        Ok(e) => e,
        Err(e) => return Err(e),
    };
    Ok((component.to_owned(), path, edit))
}

/// Every reference the service hands out addresses the entity it names: read
/// back as an `entity` parameter, it gives that entity's bits.
pub proof fn law_reference_round_trip(w: Wire, bits: u64, generation: u32)
    requires
        entity_ref(w, bits, generation),
        bits % 0x1_0000_0000 != 0,
        generation == bits / 0x1_0000_0000,
    ensures
        target_outcome(w, Ok::<u64, RpcError>(bits)),
{
    let fields = w->Object_0@;
    lemma_sorted_value(fields, 0);
    lemma_sorted_value(fields, 1);
    assert(string_member(w, "bits"@) == Some(decimal(bits as nat)));
    assert(wire_get(w, "generation"@) == Some(Wire::Integer(generation as i64)));
    lemma_decimal_reads_back(bits as nat);
    let d = decimal(bits as nat);
    assert(d[0] != '+') by {
        assert(crate::text::is_digit(d[0]));
    }
    assert(crate::text::unsigned_digits(d) == d);
    assert(decimal_value(d) == Some(bits as nat));
}

/// The sorted list of a set of references is unique: sorting and removing
/// duplicates gives one answer however the references came.
pub proof fn law_sorted_refs_unique(a: Seq<(u64, u32)>, b: Seq<(u64, u32)>)
    requires
        refs_sorted(a),
        refs_sorted(b),
        a.to_set() == b.to_set(),
    ensures
        a == b,
    decreases a.len(),
{
    if a.len() == 0 {
        if b.len() > 0 {
            assert(b.to_set().contains(b[0]));
        }
        assert(a =~= b);
    } else if b.len() == 0 {
        assert(a.to_set().contains(a[0]));
    } else {
        assert(a.to_set().contains(a[0]));
        assert(b.to_set().contains(b[0]));
        let j = choose|j: int| 0 <= j < b.len() && b[j] == a[0];
        let k = choose|k: int| 0 <= k < a.len() && a[k] == b[0];
        if j > 0 && k > 0 {
            assert(ref_lt(b[0], b[j]));
            assert(ref_lt(a[0], a[k]));
        } else if j > 0 {
            assert(ref_lt(b[0], b[j]));
        } else if k > 0 {
            assert(ref_lt(a[0], a[k]));
        }
        assert(a[0] == b[0]);
        let ra = a.drop_first();
        let rb = b.drop_first();
        assert forall|i: int, m: int| 0 <= i < m < ra.len() implies ref_lt(
            #[trigger] ra[i],
            #[trigger] ra[m],
        ) by {
            assert(ref_lt(a[i + 1], a[m + 1]));
        }
        assert forall|i: int, m: int| 0 <= i < m < rb.len() implies ref_lt(
            #[trigger] rb[i],
            #[trigger] rb[m],
        ) by {
            assert(ref_lt(b[i + 1], b[m + 1]));
        }
        assert forall|x: (u64, u32)| ra.to_set().contains(x) <==> rb.to_set().contains(x) by {
            if ra.contains(x) {
                let i = choose|i: int| 0 <= i < ra.len() && ra[i] == x;
                assert(a[i + 1] == x);
                assert(ref_lt(a[0], x));
                assert(a.to_set().contains(x));
                let m = choose|m: int| 0 <= m < b.len() && b[m] == x;
                if m == 0 {
                    assert(x == a[0]);
                }
                assert(rb[m - 1] == x);
            }
            if rb.contains(x) {
                let i = choose|i: int| 0 <= i < rb.len() && rb[i] == x;
                assert(b[i + 1] == x);
                assert(ref_lt(b[0], x));
                assert(b.to_set().contains(x));
                let m = choose|m: int| 0 <= m < a.len() && a[m] == x;
                if m == 0 {
                    assert(x == b[0]);
                }
                assert(ra[m - 1] == x);
            }
        }
        assert(ra.to_set() =~= rb.to_set());
        law_sorted_refs_unique(ra, rb);
        assert(a =~= seq![a[0]] + ra);
        assert(b =~= seq![b[0]] + rb);
    }
}

/// A request without an `id` that names a method is a notification: it is
/// handled but not answered.
pub fn is_notification(request: &Wire) -> (n: bool)
    ensures
        n == (wire_get(*request, "id"@) is None && is_request_envelope(*request) && string_member(
            *request,
            "method"@,
        ) is Some),
{
    request.get("id").is_none() && request_method(request).is_ok()
}

/// The answer to a request: `{jsonrpc: "2.0", id, result}` or
/// `{jsonrpc: "2.0", id, error}`.
pub fn reply(id: Wire, outcome: Result<Wire, RpcError>) -> (w: Wire)
    ensures
        w matches Wire::Object(f) && keys_sorted(f@),
        string_member(w, "jsonrpc"@) == Some("2.0"@),
        wire_get(w, "id"@) == Some(id),
        match outcome {
            Ok(result) => member_names(w) == set!["jsonrpc"@, "id"@, "result"@] && wire_get(
                w,
                "result"@,
            ) == Some(result),
            Err(e) => member_names(w) == set!["jsonrpc"@, "id"@, "error"@] && (wire_get(
                w,
                "error"@,
            ) matches Some(x) && error_wire(x, e.code, e.message@)),
        },
{
    proof {
        reveal_strlit("jsonrpc");
        reveal_strlit("id");
        reveal_strlit("result");
        reveal_strlit("error");
        reveal_strlit("2.0");
        reveal_with_fuel(assoc_last, 4);
        assert("result"@.len() != "jsonrpc"@.len());
        assert("error"@.len() != "jsonrpc"@.len());
    }
    match outcome {
        Ok(result) => {
            let pairs = vec![
                ("jsonrpc", Wire::String("2.0".to_owned())),
                ("id", id),
                ("result", result),
            ];
            let ghost p = pairs@;
            let w = Wire::object(pairs);
            proof {
                assert(wire_get(w, "jsonrpc"@) == assoc_last(p, "jsonrpc"@));
                assert(wire_get(w, "id"@) == assoc_last(p, "id"@));
                assert(wire_get(w, "result"@) == assoc_last(p, "result"@));
                assert forall|k: Seq<char>| #[trigger] member_names(w).contains(k) <==> set![
                    "jsonrpc"@,
                    "id"@,
                    "result"@,
                ].contains(k) by {
                    assert(wire_get(w, k) == assoc_last(p, k));
                }
                assert(member_names(w) =~= set!["jsonrpc"@, "id"@, "result"@]);
            }
            w
        },
        Err(e) => {
            let pairs = vec![
                ("jsonrpc", Wire::String("2.0".to_owned())),
                ("id", id),
                ("error", e.to_wire()),
            ];
            let ghost p = pairs@;
            let w = Wire::object(pairs);
            proof {
                assert(wire_get(w, "jsonrpc"@) == assoc_last(p, "jsonrpc"@));
                assert(wire_get(w, "id"@) == assoc_last(p, "id"@));
                assert(wire_get(w, "error"@) == assoc_last(p, "error"@));
                assert forall|k: Seq<char>| #[trigger] member_names(w).contains(k) <==> set![
                    "jsonrpc"@,
                    "id"@,
                    "error"@,
                ].contains(k) by {
                    assert(wire_get(w, k) == assoc_last(p, k));
                }
                assert(member_names(w) =~= set!["jsonrpc"@, "id"@, "error"@]);
            }
            w
        },
    }
}

/// How many queued requests one frame handles: the configured number, at least one.
pub fn requests_per_frame(max_requests_per_frame: usize) -> (n: usize)
    ensures
        n == if max_requests_per_frame == 0 {
            1
        } else {
            max_requests_per_frame
        },
{
    if max_requests_per_frame == 0 {
        1
    } else {
        max_requests_per_frame
    }
}

} // verus!
