//! Inspecting and requesting transitions of reflected game states: what the
//! editor is told of a state, when a request is refused, and what a request's
//! receipt reports as the state machine moves on.

use super::edit::InspectionError;
use super::service::{is_error, member_names, RpcError};
use super::summary::{lists_strings, optional_ref, string_list, views};
use super::wire::{
    assoc_last, entity, key_lt, keys_sorted, lemma_assoc_last_absent, lemma_assoc_last_distinct,
    lemma_key_lt_irreflexive, lemma_key_lt_transitive, str_lt, string_member,
    wire_eq, wire_get, wire_same, Wire,
};
use crate::text::{concat, str_eq};
use vstd::prelude::*;

verus! {

/// A resource that backs a state (`State<S>` or `NextState<S>`) as reflection
/// finds it.
#[derive(Debug, Clone, Copy, PartialEq, Eq)]
pub struct Backing {
    /// The entity that holds the resource, if it was ever inserted.
    pub entity: Option<(u64, u32)>,
    /// The resource is present on that entity now.
    pub present: bool,
    /// Its registration can reflect it as a component.
    pub reflectable: bool,
}

/// What reflection tells of one registered state type.
#[derive(Debug)]
pub struct StateFacts {
    pub type_path: String,
    /// The registration of `State<S>`, if any.
    pub state: Option<Backing>,
    /// The registration of `NextState<S>`, if any.
    pub next: Option<Backing>,
    /// The state is registered as freely mutable.
    pub mutable: bool,
    /// The names of the state's fieldless variants.
    pub unit_variants: Vec<String>,
}

/// The resource is registered and present.
pub open spec fn present_of(b: Option<Backing>) -> bool {
    b matches Some(x) && x.present
}

/// Why the queued state cannot be read, if it cannot.
pub open spec fn queued_reason_of(next: Option<Backing>) -> Option<Seq<char>> {
    match next {
        None => Some("NextState reflection not registered"@),
        Some(n) => if !n.reflectable {
            Some("NextState reflection unavailable"@)
        } else {
            None
        },
    }
}

/// Why a transition cannot be requested, if it cannot: the first of these that holds.
pub open spec fn refusal_of(f: StateFacts) -> Option<Seq<char>> {
    if !present_of(f.state) {
        Some("State resource absent"@)
    } else if !f.mutable {
        Some("state is registered read-only"@)
    } else if queued_reason_of(f.next) is Some {
        queued_reason_of(f.next)
    } else if !present_of(f.next) {
        Some("NextState resource absent"@)
    } else if f.unit_variants@.len() == 0 {
        Some("state has no fieldless enum variants"@)
    } else {
        None
    }
}

/// A text, or null for none.
pub open spec fn optional_text(w: Wire, t: Option<Seq<char>>) -> bool {
    match t {
        Some(s) => w matches Wire::String(x) && x@ == s,
        None => w == Wire::Null,
    }
}

/// The entity of a backing resource, or null.
pub open spec fn identity_of(w: Wire, b: Option<Backing>) -> bool {
    optional_ref(
        w,
        match b {
            Some(x) => x.entity,
            None => None,
        },
    )
}

/// The names of a state descriptor's members.
pub open spec fn descriptor_names() -> Set<Seq<char>> {
    set![
        "type_path"@,
        "state_entity"@,
        "next_state_entity"@,
        "present"@,
        "next_present"@,
        "queued_available"@,
        "queued_reason"@,
        "mutable"@,
        "can_request"@,
        "reason"@,
        "unit_variants"@,
    ]
}

/// The editor's description of a state type.
pub open spec fn state_descriptor(w: Wire, f: StateFacts) -> bool {
    &&& w matches Wire::Object(fields) && keys_sorted(fields@)
    &&& member_names(w) == descriptor_names()
    &&& string_member(w, "type_path"@) == Some(f.type_path@)
    &&& wire_get(w, "state_entity"@) matches Some(e) && identity_of(e, f.state)
    &&& wire_get(w, "next_state_entity"@) matches Some(e) && identity_of(e, f.next)
    &&& wire_get(w, "present"@) == Some(Wire::Bool(present_of(f.state)))
    &&& wire_get(w, "next_present"@) == Some(
        if f.next is Some {
            Wire::Bool(present_of(f.next))
        } else {
            Wire::Null
        },
    )
    &&& wire_get(w, "queued_available"@) == Some(Wire::Bool(queued_reason_of(f.next) is None))
    &&& wire_get(w, "queued_reason"@) matches Some(q) && optional_text(q, queued_reason_of(f.next))
    &&& wire_get(w, "mutable"@) == Some(Wire::Bool(f.mutable))
    &&& wire_get(w, "can_request"@) == Some(Wire::Bool(refusal_of(f) is None))
    &&& wire_get(w, "reason"@) matches Some(r) && optional_text(r, refusal_of(f))
    &&& wire_get(w, "unit_variants"@) matches Some(Wire::Array(items)) && lists_strings(
        items@,
        views(f.unit_variants@),
    )
}

fn identity(b: &Option<Backing>) -> (w: Wire)
    ensures
        identity_of(w, *b),
{
    match b {
        Some(x) => match x.entity {
            Some((bits, generation)) => entity(bits, generation),
            None => Wire::Null,
        },
        None => Wire::Null,
    }
}

fn text_or_null(t: Option<&'static str>) -> (w: Wire)
    ensures
        optional_text(
            w,
            match t {
                Some(s) => Some(s@),
                None => None,
            },
        ),
{
    match t {
        Some(s) => Wire::String(s.to_owned()),
        None => Wire::Null,
    }
}

/// Why the queued state of a type cannot be read, if it cannot.
pub fn queued_reason(next: &Option<Backing>) -> (reason: Option<&'static str>)
    ensures
        match reason {
            Some(r) => queued_reason_of(*next) == Some(r@),
            None => queued_reason_of(*next) is None,
        },
{
    match next {
        None => Some("NextState reflection not registered"),
        Some(n) => if !n.reflectable {
            Some("NextState reflection unavailable")
        } else {
            None
        },
    }
}

/// Why a transition of this state cannot be requested, if it cannot.
pub fn refusal(f: &StateFacts) -> (reason: Option<&'static str>)
    ensures
        match reason {
            Some(r) => refusal_of(*f) == Some(r@),
            None => refusal_of(*f) is None,
        },
{
    let present = match f.state {
        Some(b) => b.present,
        None => false,
    };
    let next_present = match f.next {
        Some(b) => b.present,
        None => false,
    };
    if !present {
        Some("State resource absent")
    } else if !f.mutable {
        Some("state is registered read-only")
    } else {
        match queued_reason(&f.next) {
            Some(r) => Some(r),
            None => if !next_present {
                Some("NextState resource absent")
            } else if f.unit_variants.len() == 0 {
                Some("state has no fieldless enum variants")
            } else {
                None
            },
        }
    }
}

/// The editor's description of a state type, and why a transition cannot be
/// requested, if it cannot.
pub fn describe(f: &StateFacts) -> (r: (Wire, Option<&'static str>))
    ensures
        state_descriptor(r.0, *f),
        match r.1 {
            Some(t) => refusal_of(*f) == Some(t@),
            None => refusal_of(*f) is None,
        },
{
    let present = match f.state {
        Some(b) => b.present,
        None => false,
    };
    let next_present = match f.next {
        Some(b) => Wire::Bool(b.present),
        None => Wire::Null,
    };
    let queued = queued_reason(&f.next);
    let reason = refusal(f);
    let pairs = vec![
        ("type_path", Wire::String(f.type_path.as_str().to_owned())),
        ("state_entity", identity(&f.state)),
        ("next_state_entity", identity(&f.next)),
        ("present", Wire::Bool(present)),
        ("next_present", next_present),
        ("queued_available", Wire::Bool(queued.is_none())),
        ("queued_reason", text_or_null(queued)),
        ("mutable", Wire::Bool(f.mutable)),
        ("can_request", Wire::Bool(reason.is_none())),
        ("reason", text_or_null(reason)),
        ("unit_variants", Wire::Array(string_list(&f.unit_variants))),
    ];
    let ghost p = pairs@;
    let w = Wire::object(pairs);
    proof {
        reveal_strlit("type_path");
        reveal_strlit("state_entity");
        reveal_strlit("next_state_entity");
        reveal_strlit("present");
        reveal_strlit("next_present");
        reveal_strlit("queued_available");
        reveal_strlit("queued_reason");
        reveal_strlit("mutable");
        reveal_strlit("can_request");
        reveal_strlit("reason");
        reveal_strlit("unit_variants");
        lemma_descriptor_members(w, p);
    }
    (w, reason)
}

/// The members of an object built from the descriptor's named values.
#[verifier::rlimit(40)]
proof fn lemma_descriptor_members<'a>(w: Wire, p: Seq<(&'a str, Wire)>)
    requires
        super::wire::object_of(w, p),
        p.len() == 11,
        p[0].0@ == "type_path"@,
        p[1].0@ == "state_entity"@,
        p[2].0@ == "next_state_entity"@,
        p[3].0@ == "present"@,
        p[4].0@ == "next_present"@,
        p[5].0@ == "queued_available"@,
        p[6].0@ == "queued_reason"@,
        p[7].0@ == "mutable"@,
        p[8].0@ == "can_request"@,
        p[9].0@ == "reason"@,
        p[10].0@ == "unit_variants"@,
    ensures
        wire_get(w, "type_path"@) == Some(p[0].1),
        wire_get(w, "state_entity"@) == Some(p[1].1),
        wire_get(w, "next_state_entity"@) == Some(p[2].1),
        wire_get(w, "present"@) == Some(p[3].1),
        wire_get(w, "next_present"@) == Some(p[4].1),
        wire_get(w, "queued_available"@) == Some(p[5].1),
        wire_get(w, "queued_reason"@) == Some(p[6].1),
        wire_get(w, "mutable"@) == Some(p[7].1),
        wire_get(w, "can_request"@) == Some(p[8].1),
        wire_get(w, "reason"@) == Some(p[9].1),
        wire_get(w, "unit_variants"@) == Some(p[10].1),
        member_names(w) == descriptor_names(),
{
    reveal_strlit("type_path");
    reveal_strlit("state_entity");
    reveal_strlit("next_state_entity");
    reveal_strlit("present");
    reveal_strlit("next_present");
    reveal_strlit("queued_available");
    reveal_strlit("queued_reason");
    reveal_strlit("mutable");
    reveal_strlit("can_request");
    reveal_strlit("reason");
    reveal_strlit("unit_variants");
    assert("state_entity"@[0] != "next_present"@[0]);
    assert("present"@[0] != "mutable"@[0]);
    assert("queued_reason"@[0] != "unit_variants"@[0]);
    let keys = seq![
        "type_path"@,
        "state_entity"@,
        "next_state_entity"@,
        "present"@,
        "next_present"@,
        "queued_available"@,
        "queued_reason"@,
        "mutable"@,
        "can_request"@,
        "reason"@,
        "unit_variants"@,
    ];
    assert forall|i: int| 0 <= i < 11 implies assoc_last(p, #[trigger] keys[i]) == Some(p[i].1) by {
        assert forall|j: int| 0 <= j < p.len() && j != i implies p[j].0@ != p[i].0@ by {
            lemma_key_differs(i, j);
            lemma_key_code(p, i);
            lemma_key_code(p, j);
            if p[j].0@ == p[i].0@ {
                assert(p[j].0@.len() == p[i].0@.len());
                assert(p[j].0@[0] == p[i].0@[0]);
            }
        }
        lemma_assoc_last_distinct(p, i);
    }
    assert(keys[0] == "type_path"@);
    assert(wire_get(w, keys[0]) == assoc_last(p, keys[0]));
    assert(wire_get(w, keys[1]) == assoc_last(p, keys[1]));
    assert(wire_get(w, keys[2]) == assoc_last(p, keys[2]));
    assert(wire_get(w, keys[3]) == assoc_last(p, keys[3]));
    assert(wire_get(w, keys[4]) == assoc_last(p, keys[4]));
    assert(wire_get(w, keys[5]) == assoc_last(p, keys[5]));
    assert(wire_get(w, keys[6]) == assoc_last(p, keys[6]));
    assert(wire_get(w, keys[7]) == assoc_last(p, keys[7]));
    assert(wire_get(w, keys[8]) == assoc_last(p, keys[8]));
    assert(wire_get(w, keys[9]) == assoc_last(p, keys[9]));
    assert(wire_get(w, keys[10]) == assoc_last(p, keys[10]));
    assert forall|k: Seq<char>| #[trigger] member_names(w).contains(k) <==> descriptor_names().contains(k) by {
        assert(wire_get(w, k) == assoc_last(p, k));
        if !descriptor_names().contains(k) {
            lemma_assoc_last_absent(p, k);
        }
    }
    assert(member_names(w) =~= descriptor_names());
}

/// The length and first character of each descriptor member name, which tell them apart.
spec fn key_code(i: int) -> (int, char) {
    if i == 0 {
        (9, 't')
    } else if i == 1 {
        (12, 's')
    } else if i == 2 {
        (17, 'n')
    } else if i == 3 {
        (7, 'p')
    } else if i == 4 {
        (12, 'n')
    } else if i == 5 {
        (16, 'q')
    } else if i == 6 {
        (13, 'q')
    } else if i == 7 {
        (7, 'm')
    } else if i == 8 {
        (11, 'c')
    } else if i == 9 {
        (6, 'r')
    } else {
        (13, 'u')
    }
}

proof fn lemma_key_code<'a>(p: Seq<(&'a str, Wire)>, i: int)
    requires
        0 <= i < 11,
        p.len() == 11,
        p[0].0@ == "type_path"@,
        p[1].0@ == "state_entity"@,
        p[2].0@ == "next_state_entity"@,
        p[3].0@ == "present"@,
        p[4].0@ == "next_present"@,
        p[5].0@ == "queued_available"@,
        p[6].0@ == "queued_reason"@,
        p[7].0@ == "mutable"@,
        p[8].0@ == "can_request"@,
        p[9].0@ == "reason"@,
        p[10].0@ == "unit_variants"@,
    ensures
        p[i].0@.len() == key_code(i).0,
        p[i].0@[0] == key_code(i).1,
{
    reveal_strlit("type_path");
    reveal_strlit("state_entity");
    reveal_strlit("next_state_entity");
    reveal_strlit("present");
    reveal_strlit("next_present");
    reveal_strlit("queued_available");
    reveal_strlit("queued_reason");
    reveal_strlit("mutable");
    reveal_strlit("can_request");
    reveal_strlit("reason");
    reveal_strlit("unit_variants");
    if i == 0 {
    } else if i == 1 {
    } else if i == 2 {
    } else if i == 3 {
    } else if i == 4 {
    } else if i == 5 {
    } else if i == 6 {
    } else if i == 7 {
    } else if i == 8 {
    } else if i == 9 {
    } else {
    }
}

proof fn lemma_key_differs(i: int, j: int)
    requires
        0 <= i < 11,
        0 <= j < 11,
        i != j,
    ensures
        key_code(i) != key_code(j),
{
}

/// The hint given when no state type is registered for inspection.
pub open spec fn registration_hint() -> Seq<char> {
    "Register states with App::register_type_mutable_state::<S>() or App::register_type_state::<S>()"@
}

/// `order` lists each of the first `n` positions once.
pub open spec fn is_ordering(order: Seq<usize>, n: nat) -> bool {
    &&& order.len() == n
    &&& forall|i: int| 0 <= i < order.len() ==> #[trigger] order[i] < n
    &&& forall|i: int, j: int| 0 <= i < j < order.len() ==> #[trigger] order[i] != #[trigger] order[j]
}

/// Visiting the facts in `order` meets their type paths sorted.
pub open spec fn ordered_by_type_path(order: Seq<usize>, facts: Seq<StateFacts>) -> bool {
    forall|i: int, j: int|
        0 <= i < j < order.len() ==> !key_lt(
            #[trigger] facts[order[j] as int].type_path@,
            #[trigger] facts[order[i] as int].type_path@,
        )
}

/// The positions of the facts, sorted by type path; equal paths keep their order.
fn type_path_order(facts: &Vec<StateFacts>) -> (order: Vec<usize>)
    ensures
        is_ordering(order@, facts@.len()),
        ordered_by_type_path(order@, facts@),
{
    let mut order: Vec<usize> = Vec::new();
    let mut k: usize = 0;
    while k < facts.len()
        invariant
            k <= facts.len(),
            is_ordering(order@, k as nat),
            ordered_by_type_path(order@, facts@),
        decreases facts.len() - k,
    {
        let ghost before = order@;
        let key = facts[k].type_path.as_str();
        let mut i: usize = 0;
        while i < order.len() && !str_lt(key, facts[order[i]].type_path.as_str())
            invariant
                order@ == before,
                is_ordering(before, k as nat),
                k < facts@.len(),
                key@ == facts@[k as int].type_path@,
                i <= order.len(),
                forall|j: int|
                    0 <= j < i ==> !key_lt(key@, #[trigger] facts@[before[j] as int].type_path@),
            decreases order.len() - i,
        {
            i = i + 1;
        }
        order.insert(i, k);
        proof {
            let after = order@;
            assert forall|p: int| 0 <= p < after.len() implies #[trigger] after[p] == (if p < i {
                before[p]
            } else if p == i {
                k
            } else {
                before[p - 1]
            }) by {}
            assert forall|a: int, b: int| 0 <= a < b < after.len() implies #[trigger] after[a]
                != #[trigger] after[b] by {
                if a == i {
                    assert(before[b - 1] < k);
                } else if b == i {
                    assert(before[a] < k);
                } else {
                    let x = if a < i { a } else { a - 1 };
                    let y = if b < i { b } else { b - 1 };
                    assert(before[x] != before[y]);
                }
            }
            let fk = facts@[k as int].type_path@;
            assert forall|a: int, b: int| 0 <= a < b < after.len() implies !key_lt(
                #[trigger] facts@[after[b] as int].type_path@,
                #[trigger] facts@[after[a] as int].type_path@,
            ) by {
                if b < i {
                    assert(after[a] == before[a] && after[b] == before[b]);
                } else if b == i {
                    assert(after[a] == before[a]);
                } else if a == i {
                    let fb = facts@[before[b - 1] as int].type_path@;
                    if i < before.len() {
                        let fi = facts@[before[i as int] as int].type_path@;
                        assert(key_lt(fk, fi));
                        if b - 1 > i {
                            assert(!key_lt(fb, fi));
                            if key_lt(fb, fk) {
                                lemma_key_lt_transitive(fb, fk, fi);
                            }
                        } else {
                            if key_lt(fb, fk) {
                                lemma_key_lt_transitive(fb, fk, fb);
                                lemma_key_lt_irreflexive(fb);
                            }
                        }
                    }
                } else if a < i {
                    assert(after[a] == before[a] && after[b] == before[b - 1]);
                } else {
                    assert(after[a] == before[a - 1] && after[b] == before[b - 1]);
                }
            }
        }
        k = k + 1;
    }
    order
}

/// The catalogue of inspectable states, sorted by type path, with a hint when there is none.
pub fn list(facts: &Vec<StateFacts>) -> (w: Wire)
    ensures
        w matches Wire::Object(fields) && keys_sorted(fields@),
        member_names(w) == set!["states"@, "reason"@],
        exists|order: Seq<usize>|
            is_ordering(order, facts@.len()) && ordered_by_type_path(order, facts@) && (wire_get(
                w,
                "states"@,
            ) matches Some(Wire::Array(items)) && items@.len() == facts@.len() && forall|i: int|
                0 <= i < items@.len() ==> state_descriptor(
                    #[trigger] items@[i],
                    facts@[order[i] as int],
                )),
        wire_get(w, "reason"@) matches Some(r) && optional_text(
            r,
            if facts@.len() == 0 {
                Some(registration_hint())
            } else {
                None
            },
        ),
{
    let order = type_path_order(facts);
    let mut states: Vec<Wire> = Vec::new();
    let mut i: usize = 0;
    while i < order.len()
        invariant
            is_ordering(order@, facts@.len()),
            i <= order.len(),
            states@.len() == i,
            forall|j: int|
                0 <= j < i ==> state_descriptor(#[trigger] states@[j], facts@[order@[j] as int]),
        decreases order.len() - i,
    {
        let (d, _) = describe(&facts[order[i]]);
        states.push(d);
        i = i + 1;
    }
    let reason = if facts.len() == 0 {
        Wire::String(
            "Register states with App::register_type_mutable_state::<S>() or App::register_type_state::<S>()".to_owned(),
        )
    } else {
        Wire::Null
    };
    let pairs = vec![("states", Wire::Array(states)), ("reason", reason)];
    let ghost p = pairs@;
    let w = Wire::object(pairs);
    proof {
        reveal_strlit("states");
        reveal_strlit("reason");
        reveal_with_fuel(assoc_last, 3);
        assert("states"@[0] != "reason"@[0]);
        assert(wire_get(w, "states"@) == assoc_last(p, "states"@));
        assert(wire_get(w, "reason"@) == assoc_last(p, "reason"@));
        assert forall|k: Seq<char>| #[trigger] member_names(w).contains(k) <==> set![
            "states"@,
            "reason"@,
        ].contains(k) by {
            assert(wire_get(w, k) == assoc_last(p, k));
        }
        assert(member_names(w) =~= set!["states"@, "reason"@]);
    }
    w
}

/// The `type_path` parameter of a state request.
pub fn state_type_path(params: &Wire) -> (r: Result<&str, RpcError>)
    ensures
        string_member(*params, "type_path"@) matches Some(t) ==> (r matches Ok(v) && v@ == t),
        string_member(*params, "type_path"@) is None ==> is_error(
            r,
            -32602,
            "state type_path required"@,
        ),
{
    match params.get("type_path") {
        Some(v) => match v.as_str() {
            Some(t) => Ok(t),
            None => Err(RpcError::params("state type_path required")),
        },
        None => Err(RpcError::params("state type_path required")),
    }
}

/// What checking a request's backing identities against a descriptor answers.
pub open spec fn identity_check(params: Wire, descriptor: Wire, r: Result<(), RpcError>) -> bool {
    match (wire_get(params, "state_entity"@), wire_get(params, "next_state_entity"@)) {
        (None, _) => is_error(r, -32602, "state backing identities required"@),
        (Some(a), n) => if !(wire_get(descriptor, "state_entity"@) matches Some(d) && wire_same(
            a,
            d,
        )) {
            is_error(r, -32000, "stale state backing identity"@)
        } else {
            match n {
                None => is_error(r, -32602, "state backing identities required"@),
                Some(b) => if !(wire_get(descriptor, "next_state_entity"@) matches Some(d)
                    && wire_same(b, d)) {
                    is_error(r, -32000, "stale state backing identity"@)
                } else {
                    r is Ok
                },
            }
        },
    }
}

/// The request names the same backing entities as the descriptor: for
/// `state_entity`, then `next_state_entity`, an absent one is refused as a bad
/// request and a different one as stale.
pub fn check_identities(params: &Wire, descriptor: &Wire) -> (r: Result<(), RpcError>)
    ensures
        identity_check(*params, *descriptor, r),
{
    let a = match params.get("state_entity") {
        Some(v) => v,
        None => return Err(RpcError::params("state backing identities required")),
    };
    let same_state = match descriptor.get("state_entity") {
        Some(d) => wire_eq(a, d),
        None => false,
    };
    if !same_state {
        return Err(RpcError::from_inspection(InspectionError("stale state backing identity")));
    }
    let b = match params.get("next_state_entity") {
        Some(v) => v,
        None => return Err(RpcError::params("state backing identities required")),
    };
    let same_next = match descriptor.get("next_state_entity") {
        Some(d) => wire_eq(b, d),
        None => false,
    };
    if !same_next {
        return Err(RpcError::from_inspection(InspectionError("stale state backing identity")));
    }
    Ok(())
}

/// The variant a transition request asks for, `value: {variant: <name>}`, once
/// the state is known to accept requests: a refusal reason is the answer first.
pub fn requested_variant<'a>(reason: Option<&'static str>, params: &'a Wire) -> (r: Result<
    &'a str,
    RpcError,
>)
    ensures
        reason matches Some(t) ==> is_error(r, -32000, t@),
        reason is None ==> match wire_get(*params, "value"@) {
            Some(Wire::Object(f)) if f@.len() == 1 && string_member(
                Wire::Object(f),
                "variant"@,
            ) is Some => r matches Ok(v) && string_member(Wire::Object(f), "variant"@) == Some(v@),
            _ => is_error(r, -32602, "fieldless state variant required"@),
        },
{
    match reason {
        Some(t) => return Err(RpcError::from_inspection(InspectionError(t))),
        None => {},
    }
    match params.get("value") {
        Some(value) => match value {
            Wire::Object(f) => {
                if f.len() == 1 {
                    match value.get("variant") {
                        Some(v) => match v.as_str() {
                            Some(name) => Ok(name),
                            None => Err(RpcError::params("fieldless state variant required")),
                        },
                        None => Err(RpcError::params("fieldless state variant required")),
                    }
                } else {
                    Err(RpcError::params("fieldless state variant required"))
                }
            },
            _ => Err(RpcError::params("fieldless state variant required")),
        },
        None => Err(RpcError::params("fieldless state variant required")),
    }
}

/// What reflection tells of the requested variant.
#[derive(Debug, Clone, Copy, PartialEq, Eq)]
pub enum VariantKind {
    /// The state type is not an enum.
    NotEnum,
    /// The enum has no variant of that name.
    Missing,
    /// A variant with fields.
    WithFields,
    /// A fieldless variant.
    Unit,
}

/// What a transition request does once accepted.
#[derive(Debug, Clone, Copy, PartialEq, Eq)]
pub enum Transition {
    /// The variant is queued as the next state.
    Queue,
    /// The state already has that variant; nothing is queued.
    AlreadyCurrent,
}

/// Decides a transition request for `variant`: the state must be an enum with
/// that fieldless variant and its current value readable (`current`, its
/// variant's name); a request for the current variant is already satisfied;
/// otherwise the queue (`queue`: whether a transition is queued, or why it
/// cannot be read) must be empty.
pub fn transition(kind: VariantKind, variant: &str, current: Option<&str>, queue: Result<
    bool,
    InspectionError,
>) -> (r: Result<Transition, RpcError>)
    ensures
        kind == VariantKind::NotEnum ==> is_error(
            r,
            -32000,
            "state has no fieldless enum variants"@,
        ),
        kind == VariantKind::Missing || kind == VariantKind::WithFields ==> is_error(
            r,
            -32000,
            "fieldless state variant required"@,
        ),
        kind == VariantKind::Unit ==> match current {
            None => is_error(r, -32000, "State reflection unavailable"@),
            Some(c) => if c@ == variant@ {
                r == Ok::<Transition, RpcError>(Transition::AlreadyCurrent)
            } else {
                match queue {
                    Err(e) => is_error(r, -32000, e.0@),
                    Ok(true) => is_error(r, -32000, "a state transition is already queued"@),
                    Ok(false) => r == Ok::<Transition, RpcError>(Transition::Queue),
                }
            },
        },
{
    match kind {
        VariantKind::NotEnum => {
            return Err(
                RpcError::from_inspection(InspectionError("state has no fieldless enum variants")),
            )
        },
        VariantKind::Missing | VariantKind::WithFields => {
            return Err(
                RpcError::from_inspection(InspectionError("fieldless state variant required")),
            )
        },
        VariantKind::Unit => {},
    }
    let c = match current {
        Some(c) => c,
        None => {
            return Err(RpcError::from_inspection(InspectionError("State reflection unavailable")))
        },
    };
    if str_eq(c, variant) {
        return Ok(Transition::AlreadyCurrent);
    }
    match queue {
        Err(e) => Err(RpcError::from_inspection(e)),
        Ok(true) => Err(
            RpcError::from_inspection(InspectionError("a state transition is already queued")),
        ),
        Ok(false) => Ok(Transition::Queue),
    }
}

impl Transition {
    /// The answer to the request once its receipt is recorded: a request for
    /// the current variant is refused as `Already current`.
    pub fn outcome(self) -> (r: Result<(), RpcError>)
        ensures
            self == Transition::Queue ==> r is Ok,
            self == Transition::AlreadyCurrent ==> is_error(r, -32000, "Already current"@),
    {
        match self {
            Transition::Queue => Ok(()),
            Transition::AlreadyCurrent => Err(
                RpcError::from_inspection(InspectionError("Already current")),
            ),
        }
    }
}

/// How a `NextState` value reads: `Unchanged` queues nothing, `Pending` and
/// `PendingIfNeq` queue their payload (which must be there); any other shape is
/// not understood. Answers whether a state is queued.
pub fn queued_slot(variant: &str, has_payload: bool) -> (r: Result<bool, InspectionError>)
    ensures
        variant@ == "Unchanged"@ ==> r == Ok::<bool, InspectionError>(false),
        (variant@ == "Pending"@ || variant@ == "PendingIfNeq"@) ==> if has_payload {
            r == Ok::<bool, InspectionError>(true)
        } else {
            r matches Err(e) && e.0@ == "unsupported NextState representation"@
        },
        !(variant@ == "Unchanged"@ || variant@ == "Pending"@ || variant@ == "PendingIfNeq"@) ==> (
        r matches Err(e) && e.0@ == "unsupported NextState representation"@),
{
    proof {
        reveal_strlit("Unchanged");
        reveal_strlit("Pending");
        reveal_strlit("PendingIfNeq");
        assert("Unchanged"@[0] != "Pending"@[0]);
        assert("Unchanged"@[0] != "PendingIfNeq"@[0]);
    }
    if str_eq(variant, "Unchanged") {
        Ok(false)
    } else if str_eq(variant, "Pending") || str_eq(variant, "PendingIfNeq") {
        if has_payload {
            Ok(true)
        } else {
            Err(InspectionError("unsupported NextState representation"))
        }
    } else {
        Err(InspectionError("unsupported NextState representation"))
    }
}

/// The entity of a backing resource, if it has one.
pub open spec fn entity_of(b: Option<Backing>) -> Option<(u64, u32)> {
    match b {
        Some(x) => x.entity,
        None => None,
    }
}

fn backing_entity(b: &Option<Backing>) -> (e: Option<(u64, u32)>)
    ensures
        e == entity_of(*b),
{
    match b {
        Some(x) => x.entity,
        None => None,
    }
}

/// What the editor learns of a transition it requested, as later samples of
/// the state show it.
#[derive(Debug)]
pub struct Receipt {
    /// The backing entities when the request was made.
    pub state_entity: Option<(u64, u32)>,
    pub next_state_entity: Option<(u64, u32)>,
    /// The requested variant.
    pub target: String,
    /// The final word on the request, once there is one.
    pub terminal: Option<String>,
}

/// The queue can be read and holds a `NextState`: the descriptor's
/// `queued_available` and `next_present` both hold.
pub open spec fn queue_visible(f: StateFacts) -> bool {
    queued_reason_of(f.next) is None && present_of(f.next)
}

/// The final word a sample gives a request that had none.
pub open spec fn settled(
    target: Seq<char>,
    f: StateFacts,
    current: Option<Seq<char>>,
    queued: Option<Seq<char>>,
) -> Option<Seq<char>> {
    if current == Some(target) {
        Some("Transition to "@ + target + " observed"@)
    } else if queue_visible(f) && current is Some {
        match queued {
            Some(q) => if q != target {
                Some("Request replaced by "@ + q)
            } else {
                None
            },
            None => Some("No longer pending; transition to "@ + target + " not observed"@),
        }
    } else {
        None
    }
}

/// What a sample says while the request has no final word.
pub open spec fn pending_text(target: Seq<char>, f: StateFacts, current: Option<Seq<char>>) -> Seq<
    char,
> {
    match current {
        Some(c) => if queue_visible(f) {
            "Queued: "@ + target + "; current: "@ + c
        } else {
            "State or queue unavailable; request outcome unavailable"@
        },
        None => "State or queue unavailable; request outcome unavailable"@,
    }
}

/// The view of an optional text.
pub open spec fn text_view(t: Option<&str>) -> Option<Seq<char>> {
    match t {
        Some(s) => Some(s@),
        None => None,
    }
}

impl Receipt {
    /// The receipt of a request for `target` against the backing entities of
    /// `f`; a request for the current variant is settled at once.
    pub fn new(f: &StateFacts, target: &str, already_current: bool) -> (r: Receipt)
        ensures
            r.state_entity == entity_of(f.state),
            r.next_state_entity == entity_of(f.next),
            r.target@ == target@,
            already_current ==> (r.terminal matches Some(t) && t@ == "Already current"@),
            !already_current ==> r.terminal is None,
    {
        Receipt {
            state_entity: backing_entity(&f.state),
            next_state_entity: backing_entity(&f.next),
            target: target.to_owned(),
            terminal: if already_current {
                Some("Already current".to_owned())
            } else {
                None
            },
        }
    }

    /// Samples the state for this receipt: `current` and `queued` are the
    /// variants of the current and queued states, where readable. A receipt
    /// whose backing entities changed is void (`None`: drop it). Otherwise the
    /// first sample that settles the request records its final word, and the
    /// answer is that word or, before it, how the request stands.
    pub fn sample(&mut self, f: &StateFacts, current: Option<&str>, queued: Option<&str>) -> (text:
        Option<String>)
        ensures
            final(self).state_entity == old(self).state_entity,
            final(self).next_state_entity == old(self).next_state_entity,
            final(self).target@ == old(self).target@,
            text is None <==> (old(self).state_entity != entity_of(f.state)
                || old(self).next_state_entity != entity_of(f.next)),
            text is Some ==> match old(self).terminal {
                Some(t) => final(self).terminal matches Some(u) && u@ == t@,
                None => match settled(old(self).target@, *f, text_view(current), text_view(queued)) {
                    Some(s) => final(self).terminal matches Some(u) && u@ == s,
                    None => final(self).terminal is None,
                },
            },
            text matches Some(t) ==> match final(self).terminal {
                Some(u) => t@ == u@,
                None => t@ == pending_text(old(self).target@, *f, text_view(current)),
            },
    {
        let state_entity = backing_entity(&f.state);
        let next_state_entity = backing_entity(&f.next);
        if !same_entity(self.state_entity, state_entity) || !same_entity(
            self.next_state_entity,
            next_state_entity,
        ) {
            return None;
        }
        let visible = queued_reason(&f.next).is_none() && match f.next {
            Some(b) => b.present,
            None => false,
        };
        if self.terminal.is_none() {
            let target = self.target.as_str();
            let observed = match current {
                Some(c) => str_eq(c, target),
                None => false,
            };
            if observed {
                proof {
                    reveal_strlit("Transition to ");
                    reveal_strlit(" observed");
                }
                let t = concat(&concat("Transition to ", target), " observed");
                self.terminal = Some(t);
            } else if visible && current.is_some() {
                match queued {
                    Some(q) => {
                        if !str_eq(q, target) {
                            self.terminal = Some(concat("Request replaced by ", q));
                        }
                    },
                    None => {
                        let t = concat(
                            &concat("No longer pending; transition to ", target),
                            " not observed",
                        );
                        self.terminal = Some(t);
                    },
                }
            }
        }
        match &self.terminal {
            Some(t) => Some(t.as_str().to_owned()),
            None => {
                let target = self.target.as_str();
                match current {
                    Some(c) => if visible {
                        let head = concat(&concat("Queued: ", target), "; current: ");
                        Some(concat(&head, c))
                    } else {
                        Some("State or queue unavailable; request outcome unavailable".to_owned())
                    },
                    None => Some(
                        "State or queue unavailable; request outcome unavailable".to_owned(),
                    ),
                }
            },
        }
    }
}

fn same_entity(a: Option<(u64, u32)>, b: Option<(u64, u32)>) -> (same: bool)
    ensures
        same == (a == b),
{
    match (a, b) {
        (Some(x), Some(y)) => x.0 == y.0 && x.1 == y.1,
        (None, None) => true,
        _ => false,
    }
}

proof fn lemma_identity_same(w: Wire, b: Option<Backing>)
    requires
        identity_of(w, b),
    ensures
        wire_same(w, w),
{
    if let Some(x) = b {
        if let Some(e) = x.entity {
            let f = w->Object_0;
            assert forall|i: int| 0 <= i < f@.len() implies (#[trigger] f@[i]).0@ == f@[i].0@
                && wire_same(f@[i].1, f@[i].1) by {}
        }
    }
}

/// A request that hands back the backing identities a descriptor gave passes
/// the identity check against that descriptor.
pub proof fn law_own_identities_accepted(params: Wire, f: StateFacts, d: Wire)
    requires
        state_descriptor(d, f),
        wire_get(params, "state_entity"@) == wire_get(d, "state_entity"@),
        wire_get(params, "next_state_entity"@) == wire_get(d, "next_state_entity"@),
    ensures
        identity_check(params, d, Ok(())),
{
    lemma_identity_same(wire_get(d, "state_entity"@)->0, f.state);
    lemma_identity_same(wire_get(d, "next_state_entity"@)->0, f.next);
}

} // verus!
